use std::collections::BTreeMap;

use vstd::prelude::*;
use vstd::std_specs::cmp::OrdSpec;
use vstd::std_specs::iter::IteratorSpec;

use crate::database::message_views;
use crate::message::Message;
use crate::server::{DbRequest, DbRequestView, Event, EventView};

verus! {

broadcast use vstd::std_specs::btree::group_btree_axioms;

/// Every message is stored under its own timestamp.
pub open spec fn keys_are_timestamps(db: Map<u64, Message>) -> bool {
    forall|k: u64| #[trigger] db.contains_key(k) ==> db[k].ts == k
}

/// Whether the message stored under `ts` is one that a session with the given
/// `last_ts` still has to deliver to `user`.
pub open spec fn pending_for(db: Map<u64, Message>, user: Seq<char>, last_ts: u64, ts: u64) -> bool {
    &&& db.contains_key(ts)
    &&& db[ts].receiver@ == user
    &&& ts > last_ts
}

/// The stored message for `user` with the smallest timestamp above `last_ts`,
/// with its timestamp; `None` when there is none.
pub fn next_for_user(db: &BTreeMap<u64, Message>, user: &String, last_ts: u64) -> (res: Option<(u64, Message)>)
    ensures
        match res {
            Some(found) => {
                &&& pending_for(db@, user@, last_ts, found.0)
                &&& found.1@ == db@[found.0]@
                &&& forall|k: u64| #[trigger] pending_for(db@, user@, last_ts, k) ==> found.0 <= k
            },
            None => forall|k: u64| !#[trigger] pending_for(db@, user@, last_ts, k),
        },
{
    broadcast use vstd::laws_cmp::group_laws_cmp;

    let entries_iter = db.iter();
    let ghost entries = entries_iter.remaining();
    proof {
        let keys = entries.map_values(|kv: (&u64, &Message)| *kv.0);
        assert(vstd::laws_cmp::obeys_cmp::<u64>());
        assert(vstd::std_specs::btree::increasing_seq(keys));
        assert forall|a: int, b: int| 0 <= a < b < entries.len() implies *entries[a].0 < *entries[b].0 by {
            assert(keys[a].cmp_spec(&keys[b]) is Less);
            assert(keys[a] == *entries[a].0);
            assert(keys[b] == *entries[b].0);
        }
    }
    for item in it: entries_iter
        invariant
            it.seq() == entries,
            entries == vstd::std_specs::btree::spec_btree_map_iter(db).remaining(),
            forall|a: int, b: int| 0 <= a < b < entries.len() ==> *entries[a].0 < *entries[b].0,
            forall|j: int| #![trigger entries[j]]
                0 <= j < it.index() ==> !pending_for(db@, user@, last_ts, *entries[j].0),
    {
        let (k, v) = item;
        assert(db@.contains_key(*entries[it.index()].0));
        if v.receiver == *user && *k > last_ts {
            let found = v.clone();
            proof {
                let i = it.index();
                assert forall|k2: u64| #[trigger] pending_for(db@, user@, last_ts, k2) implies *k <= k2 by {
                    assert(entries.contains((&k2, &db@[k2])));
                    let p = choose|p: int| 0 <= p < entries.len() && entries[p] == (&k2, &db@[k2]);
                    if p < i {
                        assert(!pending_for(db@, user@, last_ts, *entries[p].0));
                    } else if p > i {
                        assert(*entries[i].0 < *entries[p].0);
                    }
                }
            }
            return Some((*k, found));
        }
    }
    proof {
        assert forall|k2: u64| !#[trigger] pending_for(db@, user@, last_ts, k2) by {
            if pending_for(db@, user@, last_ts, k2) {
                assert(entries.contains((&k2, &db@[k2])));
                let p = choose|p: int| 0 <= p < entries.len() && entries[p] == (&k2, &db@[k2]);
                assert(!pending_for(db@, user@, last_ts, *entries[p].0));
            }
        }
    }
    None
}

/// Removing the message that was just saved gives back the stored messages
/// as they were, but for what was stored under that timestamp before.
pub proof fn lemma_store_save_then_remove(
    before: Map<u64, Message>,
    after_save: Map<u64, Message>,
    after_remove: Map<u64, Message>,
    msg: crate::message::MessageView,
)
    requires
        message_views(after_save) == message_views(before).insert(msg.ts, msg),
        after_remove == after_save.remove(msg.ts),
    ensures
        message_views(after_remove) == message_views(before).remove(msg.ts),
{
    assert(message_views(after_remove) =~= message_views(after_save).remove(msg.ts));
    assert(message_views(before).insert(msg.ts, msg).remove(msg.ts) =~= message_views(before).remove(msg.ts));
}

/// Carries out a request to the database worker and reports what was done:
/// a saved message is stored under its timestamp (replacing one stored there),
/// a removal drops whatever is stored under the timestamp.
pub fn apply_db_request(db: &mut BTreeMap<u64, Message>, req: DbRequest) -> (event: Event)
    ensures
        match req@ {
            DbRequestView::Save { msg } => {
                &&& message_views(final(db)@) == message_views(old(db)@).insert(msg.ts, msg)
                &&& event@ == EventView::OnMsgStored { msg }
            },
            DbRequestView::Remove { ts } => {
                &&& final(db)@ == old(db)@.remove(ts)
                &&& event@ == EventView::OnMsgRemoved { ts }
            },
        },
        keys_are_timestamps(old(db)@) ==> keys_are_timestamps(final(db)@),
{
    broadcast use vstd::laws_cmp::group_laws_cmp;

    match req {
        DbRequest::Save { msg } => {
            let copy = msg.clone();
            db.insert(msg.ts, copy);
            assert(message_views(db@) =~= message_views(old(db)@).insert(msg.ts, msg@));
            Event::OnMsgStored { msg }
        },
        DbRequest::Remove { ts } => {
            db.remove(&ts);
            Event::OnMsgRemoved { ts }
        },
    }
}

} // verus!
