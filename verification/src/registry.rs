use vstd::prelude::*;

verus! {

/// One named value of a registry.
pub struct Entry<V> {
    pub key: String,
    pub value: V,
}

/// The entries as a map from name to value (a later entry of the same name
/// would shadow an earlier one; a well-formed registry has none).
pub open spec fn entries_view<V>(entries: Seq<Entry<V>>) -> Map<Seq<char>, V>
    decreases entries.len(),
{
    if entries.len() == 0 {
        Map::empty()
    } else {
        entries_view(entries.drop_last()).insert(entries.last().key@, entries.last().value)
    }
}

/// No two entries carry the same name.
pub open spec fn distinct_keys<V>(entries: Seq<Entry<V>>) -> bool {
    forall|i: int, j: int|
        0 <= i < entries.len() && 0 <= j < entries.len() && i != j ==> #[trigger] entries[i].key@
            != #[trigger] entries[j].key@
}

/// With distinct names, the map holds exactly the entries.
pub proof fn lemma_entries_view<V>(entries: Seq<Entry<V>>)
    requires
        distinct_keys(entries),
    ensures
        forall|k: Seq<char>|
            #[trigger] entries_view(entries).contains_key(k) <==> exists|i: int|
                0 <= i < entries.len() && entries[i].key@ == k,
        forall|i: int|
            0 <= i < entries.len() ==> #[trigger] entries_view(entries)[entries[i].key@]
                == entries[i].value,
    decreases entries.len(),
{
    if entries.len() > 0 {
        let init = entries.drop_last();
        assert(distinct_keys(init)) by {
            assert forall|i: int, j: int|
                0 <= i < init.len() && 0 <= j < init.len() && i != j implies #[trigger] init[i].key@
                    != #[trigger] init[j].key@ by {
                assert(init[i] == entries[i]);
                assert(init[j] == entries[j]);
            }
        }
        lemma_entries_view(init);
        assert forall|k: Seq<char>|
            #[trigger] entries_view(entries).contains_key(k) implies exists|i: int|
                0 <= i < entries.len() && entries[i].key@ == k by {
            if k != entries.last().key@ {
                assert(entries_view(init).contains_key(k));
                let i = choose|i: int| 0 <= i < init.len() && init[i].key@ == k;
                assert(entries[i] == init[i]);
            }
        }
        assert forall|i: int| 0 <= i < entries.len() implies #[trigger] entries_view(
            entries,
        )[entries[i].key@] == entries[i].value by {
            if i < entries.len() - 1 {
                assert(entries[i] == init[i]);
                assert(entries[i].key@ != entries[entries.len() - 1].key@);
                assert(entries_view(init)[init[i].key@] == init[i].value);
                assert(entries_view(init).contains_key(init[i].key@));
            }
        }
        assert forall|k: Seq<char>|
            (exists|i: int| 0 <= i < entries.len() && entries[i].key@ == k) implies #[trigger] entries_view(
            entries,
        ).contains_key(k) by {
            let i = choose|i: int| 0 <= i < entries.len() && entries[i].key@ == k;
            if i < entries.len() - 1 {
                assert(entries[i] == init[i]);
                assert(init[i].key@ == k);
                assert(entries_view(init).contains_key(k));
            }
        }
    }
}

/// Values kept under distinct names, with a map from name to value as view.
/// It stands where a `HashMap<String, V>` would: vstd specifies `HashMap` only
/// for key types that obey its key model, which `String` is not granted.
pub struct Registry<V> {
    entries: Vec<Entry<V>>,
}

impl<V> View for Registry<V> {
    type V = Map<Seq<char>, V>;

    closed spec fn view(&self) -> Map<Seq<char>, V> {
        entries_view(self.entries@)
    }
}

impl<V> Registry<V> {
    /// The registry's invariant: no name occurs twice.
    pub closed spec fn wf(&self) -> bool {
        distinct_keys(self.entries@)
    }

    /// An empty registry.
    pub fn new() -> (r: Self)
        ensures
            r.wf(),
            r@ == Map::<Seq<char>, V>::empty(),
    {
        Registry { entries: Vec::new() }
    }

    fn find(&self, key: &String) -> (res: Option<usize>)
        requires
            self.wf(),
        ensures
            match res {
                Some(i) => i < self.entries@.len() && self.entries@[i as int].key@ == key@,
                None => forall|i: int|
                    0 <= i < self.entries@.len() ==> self.entries@[i].key@ != key@,
            },
    {
        let mut i: usize = 0;
        while i < self.entries.len()
            invariant
                i <= self.entries@.len(),
                forall|j: int| 0 <= j < i ==> self.entries@[j].key@ != key@,
            decreases self.entries@.len() - i,
        {
            if self.entries[i].key == *key {
                return Some(i);
            }
            i = i + 1;
        }
        None
    }

    /// The value kept under `key`, if any.
    pub fn get(&self, key: &String) -> (res: Option<&V>)
        requires
            self.wf(),
        ensures
            match res {
                Some(v) => self@.contains_key(key@) && *v == self@[key@],
                None => !self@.contains_key(key@),
            },
    {
        proof {
            lemma_entries_view(self.entries@);
        }
        match self.find(key) {
            Some(i) => Some(&self.entries[i].value),
            None => None,
        }
    }

    /// Takes the value kept under `key` out of the registry, if any.
    pub fn remove(&mut self, key: &String) -> (res: Option<V>)
        requires
            old(self).wf(),
        ensures
            final(self).wf(),
            final(self)@ == old(self)@.remove(key@),
            match res {
                Some(v) => old(self)@.contains_key(key@) && v == old(self)@[key@],
                None => !old(self)@.contains_key(key@),
            },
    {
        proof {
            lemma_entries_view(self.entries@);
        }
        match self.find(key) {
            Some(i) => {
                let ghost old_entries = self.entries@;
                let e = self.entries.swap_remove(i);
                proof {
                    let es = self.entries@;
                    let last = old_entries.len() - 1;
                    assert forall|a: int, b: int|
                        0 <= a < es.len() && 0 <= b < es.len() && a != b implies #[trigger] es[a].key@
                            != #[trigger] es[b].key@ by {
                        let oa = if a == i { last } else { a };
                        let ob = if b == i { last } else { b };
                        assert(es[a] == old_entries[oa]);
                        assert(es[b] == old_entries[ob]);
                    }
                    lemma_entries_view(es);
                    let expected = entries_view(old_entries).remove(key@);
                    assert forall|k: Seq<char>| #[trigger] entries_view(es).contains_key(k) <==> expected.contains_key(k) by {
                        if entries_view(es).contains_key(k) {
                            let j = choose|j: int| 0 <= j < es.len() && es[j].key@ == k;
                            let oj = if j == i { last } else { j };
                            assert(es[j] == old_entries[oj]);
                            assert(old_entries[oj].key@ == k);
                        }
                        if expected.contains_key(k) {
                            let j = choose|j: int| 0 <= j < old_entries.len() && old_entries[j].key@ == k;
                            if j == last {
                                assert(es[i as int] == old_entries[j]);
                            } else {
                                assert(es[j] == old_entries[j]);
                            }
                        }
                    }
                    assert forall|k: Seq<char>| #[trigger] entries_view(es).contains_key(k) implies entries_view(es)[k] == expected[k] by {
                        let j = choose|j: int| 0 <= j < es.len() && es[j].key@ == k;
                        let oj = if j == i { last } else { j };
                        assert(es[j] == old_entries[oj]);
                    }
                    assert(entries_view(es) =~= expected);
                }
                Some(e.value)
            },
            None => {
                assert(self@ =~= self@.remove(key@));
                None
            },
        }
    }

    /// Keeps `value` under `key`, replacing a value kept there.
    pub fn insert(&mut self, key: String, value: V)
        requires
            old(self).wf(),
        ensures
            final(self).wf(),
            final(self)@ == old(self)@.insert(key@, value),
    {
        let _ = self.remove(&key);
        let ghost before = self.entries@;
        let ghost k = key@;
        proof {
            lemma_entries_view(before);
        }
        self.entries.push(Entry { key, value });
        proof {
            assert(self.entries@.drop_last() =~= before);
            assert forall|a: int, b: int|
                0 <= a < self.entries@.len() && 0 <= b < self.entries@.len() && a != b implies #[trigger] self.entries@[a].key@
                    != #[trigger] self.entries@[b].key@ by {
                if a < before.len() {
                    assert(self.entries@[a] == before[a]);
                    if before[a].key@ == k {
                        assert(entries_view(before).contains_key(k));
                    }
                }
                if b < before.len() {
                    assert(self.entries@[b] == before[b]);
                    if before[b].key@ == k {
                        assert(entries_view(before).contains_key(k));
                    }
                }
            }
            assert(entries_view(self.entries@) =~= old(self)@.insert(k, value));
        }
    }

    /// The names kept in the registry, each once.
    pub fn keys(&self) -> (keys: Vec<String>)
        requires
            self.wf(),
        ensures
            keys@.map_values(|k: String| k@).no_duplicates(),
            keys@.map_values(|k: String| k@).to_set() == self@.dom(),
    {
        proof {
            lemma_entries_view(self.entries@);
        }
        let mut keys: Vec<String> = Vec::new();
        let mut i: usize = 0;
        while i < self.entries.len()
            invariant
                i <= self.entries@.len(),
                distinct_keys(self.entries@),
                keys@.len() == i,
                forall|j: int| 0 <= j < i ==> #[trigger] keys@[j]@ == self.entries@[j].key@,
            decreases self.entries@.len() - i,
        {
            keys.push(self.entries[i].key.clone());
            i = i + 1;
        }
        let ghost ks = keys@.map_values(|k: String| k@);
        assert forall|a: int, b: int| 0 <= a < ks.len() && 0 <= b < ks.len() && a != b implies ks[a] != ks[b] by {
            assert(ks[a] == self.entries@[a].key@);
            assert(ks[b] == self.entries@[b].key@);
        }
        assert forall|k: Seq<char>| ks.to_set().contains(k) <==> self@.dom().contains(k) by {
            if ks.to_set().contains(k) {
                let j = choose|j: int| 0 <= j < ks.len() && ks[j] == k;
                assert(self.entries@[j].key@ == k);
            }
            if self@.dom().contains(k) {
                let j = choose|j: int| 0 <= j < self.entries@.len() && self.entries@[j].key@ == k;
                assert(ks[j] == k);
            }
        }
        assert(ks.to_set() =~= self@.dom());
        keys
    }
}

} // verus!
