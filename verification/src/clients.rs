use vstd::prelude::*;

use crate::registry::Registry;

verus! {

/// The text of the error for a message to a client that is not connected.
pub open spec fn not_found_error(id: Seq<char>) -> Seq<char> {
    "Client '"@ + id + "' not found"@
}

/// The views of a sequence of strings.
pub open spec fn id_views(ids: Seq<String>) -> Seq<Seq<char>> {
    ids.map_values(|s: String| s@)
}

/// The connected clients, each with the channel `S` that reaches it.
pub struct Clients<S> {
    inner: Registry<S>,
}

impl<S> View for Clients<S> {
    type V = Map<Seq<char>, S>;

    closed spec fn view(&self) -> Map<Seq<char>, S> {
        self.inner@
    }
}

impl<S> Clients<S> {
    /// The invariant: one channel per client.
    pub closed spec fn wf(&self) -> bool {
        self.inner.wf()
    }

    /// No client connected.
    pub fn new() -> (c: Self)
        ensures
            c.wf(),
            c@ == Map::<Seq<char>, S>::empty(),
    {
        Clients { inner: Registry::new() }
    }

    /// Connects client `id` through `tx`, replacing an earlier channel of `id`.
    pub fn add(&mut self, id: String, tx: S)
        requires
            old(self).wf(),
        ensures
            final(self).wf(),
            final(self)@ == old(self)@.insert(id@, tx),
    {
        self.inner.insert(id, tx);
    }

    /// Disconnects client `id`.
    pub fn remove(&mut self, id: &str)
        requires
            old(self).wf(),
        ensures
            final(self).wf(),
            final(self)@ == old(self)@.remove(id@),
    {
        let key = String::from_str(id);
        let _ = self.inner.remove(&key);
    }

    /// The channel on which a message for client `id` goes, or the error that
    /// the message cannot be delivered because `id` is not connected.
    pub fn send_target(&self, id: &str) -> (res: Result<&S, String>)
        requires
            self.wf(),
        ensures
            match res {
                Ok(tx) => self@.contains_key(id@) && *tx == self@[id@],
                Err(e) => !self@.contains_key(id@) && e@ == not_found_error(id@),
            },
    {
        let key = String::from_str(id);
        match self.inner.get(&key) {
            Some(tx) => Ok(tx),
            None => {
                let mut e = String::from_str("Client '");
                e.append(id);
                e.append("' not found");
                Err(e)
            },
        }
    }

    /// The clients that a broadcast reaches: all connected ones, each once.
    pub fn broadcast_targets(&self) -> (ids: Vec<String>)
        requires
            self.wf(),
        ensures
            id_views(ids@).no_duplicates(),
            id_views(ids@).to_set() == self@.dom(),
    {
        self.inner.keys()
    }

    /// The clients that a broadcast from `id` reaches: all connected ones but
    /// `id`, each once.
    pub fn broadcast_targets_except(&self, id: &str) -> (ids: Vec<String>)
        requires
            self.wf(),
        ensures
            id_views(ids@).no_duplicates(),
            id_views(ids@).to_set() == self@.dom().remove(id@),
    {
        let all = self.inner.keys();
        let ghost all_ids = id_views(all@);
        let key = String::from_str(id);
        let mut ids: Vec<String> = Vec::new();
        let mut i: usize = 0;
        assert(id_views(ids@).to_set() =~= all_ids.subrange(0, 0).to_set().remove(id@));
        while i < all.len()
            invariant
                i <= all@.len(),
                all_ids == id_views(all@),
                all_ids.no_duplicates(),
                key@ == id@,
                id_views(ids@).no_duplicates(),
                id_views(ids@).to_set() == all_ids.subrange(0, i as int).to_set().remove(id@),
            decreases all@.len() - i,
        {
            let ghost prev = id_views(ids@);
            let ghost seen = all_ids.subrange(0, i as int);
            let ghost next = all_ids.subrange(0, i + 1);
            assert(next =~= seen.push(all_ids[i as int]));
            proof { seen.lemma_push_to_set_commute(all_ids[i as int]); }
            if all[i] != key {
                ids.push(all[i].clone());
                assert(id_views(ids@) =~= prev.push(all_ids[i as int]));
                assert(!seen.contains(all_ids[i as int])) by {
                    if seen.contains(all_ids[i as int]) {
                        let p = choose|p: int| 0 <= p < seen.len() && seen[p] == all_ids[i as int];
                        assert(all_ids[p] == all_ids[i as int]);
                    }
                }
                assert(!prev.contains(all_ids[i as int])) by {
                    if prev.contains(all_ids[i as int]) {
                        assert(prev.to_set().contains(all_ids[i as int]));
                    }
                }
                proof { prev.lemma_push_to_set_commute(all_ids[i as int]); }
                assert(id_views(ids@).no_duplicates()) by {
                    let v = id_views(ids@);
                    assert forall|a: int, b: int| 0 <= a < v.len() && 0 <= b < v.len() && a != b implies v[a] != v[b] by {
                        if a < prev.len() && b < prev.len() {
                            assert(v[a] == prev[a] && v[b] == prev[b]);
                        } else if a < prev.len() {
                            assert(v[a] == prev[a]);
                            assert(prev.contains(v[a]));
                        } else if b < prev.len() {
                            assert(v[b] == prev[b]);
                            assert(prev.contains(v[b]));
                        }
                    }
                }
                assert(id_views(ids@).to_set() =~= next.to_set().remove(id@));
            } else {
                assert(id_views(ids@).to_set() =~= next.to_set().remove(id@));
            }
            i = i + 1;
        }
        assert(all_ids.subrange(0, i as int) =~= all_ids);
        assert(id_views(ids@).to_set() =~= self@.dom().remove(id@));
        ids
    }
}

} // verus!
