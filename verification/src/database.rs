use std::collections::HashMap;

use vstd::prelude::*;

use crate::message::{Message, MessageView};
use crate::registry::Registry;

verus! {

broadcast use vstd::std_specs::hash::group_hash_axioms;

/// The views of a set of messages keyed by timestamp.
pub open spec fn message_views(m: Map<u64, Message>) -> Map<u64, MessageView> {
    m.map_values(|x: Message| x@)
}

/// The mailbox of `receiver` in `view`: its messages, or none at all.
pub open spec fn mailbox(view: Map<Seq<char>, Map<u64, MessageView>>, receiver: Seq<char>) -> Map<u64, MessageView> {
    if view.contains_key(receiver) {
        view[receiver]
    } else {
        Map::empty()
    }
}

/// The database `view` after `msg` is saved: in its receiver's mailbox,
/// under its timestamp.
pub open spec fn saved(view: Map<Seq<char>, Map<u64, MessageView>>, msg: MessageView) -> Map<Seq<char>, Map<u64, MessageView>> {
    view.insert(msg.receiver, mailbox(view, msg.receiver).insert(msg.ts, msg))
}

/// The database `view` after the message under `ts` is removed for `receiver`.
pub open spec fn removed(view: Map<Seq<char>, Map<u64, MessageView>>, receiver: Seq<char>, ts: u64) -> Map<Seq<char>, Map<u64, MessageView>> {
    if view.contains_key(receiver) {
        view.insert(receiver, view[receiver].remove(ts))
    } else {
        view
    }
}

/// A saved message can be read back from its receiver's mailbox, and no other
/// receiver's mailbox changes.
pub proof fn lemma_save_then_get(view: Map<Seq<char>, Map<u64, MessageView>>, msg: MessageView)
    ensures
        saved(view, msg).contains_key(msg.receiver),
        saved(view, msg)[msg.receiver].contains_key(msg.ts),
        saved(view, msg)[msg.receiver][msg.ts] == msg,
        forall|r: Seq<char>| r != msg.receiver ==> #[trigger] mailbox(saved(view, msg), r) == mailbox(view, r),
{
}

/// Removing a message just saved leaves the receiver's mailbox as it was, but
/// for what was stored under that timestamp before; other mailboxes are
/// untouched.
pub proof fn lemma_save_then_remove(view: Map<Seq<char>, Map<u64, MessageView>>, msg: MessageView)
    ensures
        removed(saved(view, msg), msg.receiver, msg.ts)[msg.receiver] == mailbox(view, msg.receiver).remove(msg.ts),
        forall|r: Seq<char>| r != msg.receiver ==> #[trigger] mailbox(removed(saved(view, msg), msg.receiver, msg.ts), r) == mailbox(view, r),
{
    assert(mailbox(view, msg.receiver).insert(msg.ts, msg).remove(msg.ts) =~= mailbox(view, msg.receiver).remove(msg.ts));
}

/// The stored messages, by receiver and then by timestamp.
pub struct Database {
    messages: Registry<HashMap<u64, Message>>,
}

impl View for Database {
    type V = Map<Seq<char>, Map<u64, MessageView>>;

    closed spec fn view(&self) -> Self::V {
        self.messages@.map_values(|m: HashMap<u64, Message>| message_views(m@))
    }
}

impl Database {
    /// The database's invariant: one mailbox per receiver.
    pub closed spec fn wf(&self) -> bool {
        self.messages.wf()
    }

    /// An empty database.
    pub fn new() -> (db: Self)
        ensures
            db.wf(),
            db@ == Map::<Seq<char>, Map<u64, MessageView>>::empty(),
    {
        let db = Database { messages: Registry::new() };
        assert(db@ =~= Map::<Seq<char>, Map<u64, MessageView>>::empty());
        db
    }

    /// Stores `message` in its receiver's mailbox under its timestamp,
    /// replacing a message stored there under the same timestamp.
    pub fn save(&mut self, message: &Message) -> (res: Result<(), String>)
        requires
            old(self).wf(),
        ensures
            final(self).wf(),
            res is Ok,
            final(self)@ == saved(old(self)@, message@),
    {
        let mut inbox = match self.messages.remove(&message.receiver) {
            Some(m) => m,
            None => HashMap::new(),
        };
        let ghost before = inbox@;
        assert(message_views(before) =~= mailbox(old(self)@, message.receiver@));
        let copy = message.clone();
        inbox.insert(message.ts, copy);
        assert(message_views(inbox@) =~= message_views(before).insert(message.ts, message@));
        self.messages.insert(message.receiver.clone(), inbox);
        assert(self@ =~= old(self)@.insert(
            message.receiver@,
            mailbox(old(self)@, message.receiver@).insert(message.ts, message@),
        ));
        Ok(())
    }

    /// The messages waiting for `receiver_id`, if it has a mailbox.
    pub fn get(&self, receiver_id: String) -> (res: Option<&HashMap<u64, Message>>)
        requires
            self.wf(),
        ensures
            match res {
                Some(m) => self@.contains_key(receiver_id@) && message_views(m@) == self@[receiver_id@],
                None => !self@.contains_key(receiver_id@),
            },
    {
        self.messages.get(&receiver_id)
    }

    /// Drops the message stored under `msg_ts` for `receiver_id`; a receiver
    /// keeps its mailbox, empty or not.
    pub fn remove(&mut self, receiver_id: String, msg_ts: u64)
        requires
            old(self).wf(),
        ensures
            final(self).wf(),
            final(self)@ == removed(old(self)@, receiver_id@, msg_ts),
    {
        if let Some(mut inbox) = self.messages.remove(&receiver_id) {
            let ghost before = inbox@;
            inbox.remove(&msg_ts);
            assert(message_views(inbox@) =~= message_views(before).remove(msg_ts));
            self.messages.insert(receiver_id, inbox);
            assert(self@ =~= old(self)@.insert(
                receiver_id@,
                old(self)@[receiver_id@].remove(msg_ts),
            ));
        } else {
            assert(self@ =~= old(self)@);
        }
    }
}

} // verus!
