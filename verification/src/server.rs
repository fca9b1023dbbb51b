use std::collections::BTreeMap;

use vstd::prelude::*;

use crate::message::{Frame, FrameView, Message, MessageView};
use crate::database::message_views;
use crate::store::{keys_are_timestamps, next_for_user, pending_for};

verus! {

// ---------------------------------------------------------------------------
// What flows between the workers of one connection
// ---------------------------------------------------------------------------

/// What happens on a connection, as its event worker learns it.
#[derive(Debug)]
pub enum Event {
    /// The client introduced itself.
    OnHello { user: String },
    /// The client received the message with this timestamp.
    OnAck { ts: u64 },
    /// The client sent a message.
    OnMsgSent { msg: Message },
    /// A message for this connection's user was stored (sent by another
    /// connection's worker).
    OnMsgRcvd { msg: Message },
    /// The database worker stored a message that this client sent.
    OnMsgStored { msg: Message },
    /// The database worker dropped the message with this timestamp.
    OnMsgRemoved { ts: u64 },
    /// The sender worker wrote a message for `user` to the client.
    OnFrameWritten { user: String },
}

pub enum EventView {
    OnHello { user: Seq<char> },
    OnAck { ts: u64 },
    OnMsgSent { msg: MessageView },
    OnMsgRcvd { msg: MessageView },
    OnMsgStored { msg: MessageView },
    OnMsgRemoved { ts: u64 },
    OnFrameWritten { user: Seq<char> },
}

impl View for Event {
    type V = EventView;

    open spec fn view(&self) -> EventView {
        match self {
            Event::OnHello { user } => EventView::OnHello { user: user@ },
            Event::OnAck { ts } => EventView::OnAck { ts: *ts },
            Event::OnMsgSent { msg } => EventView::OnMsgSent { msg: msg@ },
            Event::OnMsgRcvd { msg } => EventView::OnMsgRcvd { msg: msg@ },
            Event::OnMsgStored { msg } => EventView::OnMsgStored { msg: msg@ },
            Event::OnMsgRemoved { ts } => EventView::OnMsgRemoved { ts: *ts },
            Event::OnFrameWritten { user } => EventView::OnFrameWritten { user: user@ },
        }
    }
}

/// A request to the sender worker of a connection.
#[derive(Debug)]
pub enum SendRequest {
    /// Write this frame to the client.
    Send { msg: Frame },
}

pub enum SendRequestView {
    Send { msg: FrameView },
}

impl View for SendRequest {
    type V = SendRequestView;

    open spec fn view(&self) -> SendRequestView {
        match self {
            SendRequest::Send { msg } => SendRequestView::Send { msg: msg@ },
        }
    }
}

/// A request to the database worker of a connection.
#[derive(Debug)]
pub enum DbRequest {
    /// Store this message under its timestamp.
    Save { msg: Message },
    /// Drop the message stored under this timestamp.
    Remove { ts: u64 },
}

pub enum DbRequestView {
    Save { msg: MessageView },
    Remove { ts: u64 },
}

impl View for DbRequest {
    type V = DbRequestView;

    open spec fn view(&self) -> DbRequestView {
        match self {
            DbRequest::Save { msg } => DbRequestView::Save { msg: msg@ },
            DbRequest::Remove { ts } => DbRequestView::Remove { ts: *ts },
        }
    }
}

/// What the event worker of a connection asks to be done, in order.
#[derive(Debug)]
pub enum Action {
    /// Register this connection's event channel under `user` in the table of
    /// users that all connections share.
    Register { user: String },
    /// Hand the request to this connection's sender worker.
    Send { to_sender: SendRequest },
    /// Hand the request to this connection's database worker.
    Store { to_db: DbRequest },
    /// Hand the event to the event channel registered for `user`, if any.
    Notify { user: String, event: Event },
}

pub enum ActionView {
    Register { user: Seq<char> },
    Send { to_sender: SendRequestView },
    Store { to_db: DbRequestView },
    Notify { user: Seq<char>, event: EventView },
}

impl View for Action {
    type V = ActionView;

    open spec fn view(&self) -> ActionView {
        match self {
            Action::Register { user } => ActionView::Register { user: user@ },
            Action::Send { to_sender } => ActionView::Send { to_sender: to_sender@ },
            Action::Store { to_db } => ActionView::Store { to_db: to_db@ },
            Action::Notify { user, event } => ActionView::Notify { user: user@, event: event@ },
        }
    }
}

/// The views of a sequence of actions.
pub open spec fn action_views(actions: Seq<Action>) -> Seq<ActionView> {
    actions.map_values(|a: Action| a@)
}

/// The event that a frame read from a client raises: a client introduces
/// itself, sends a message, or acknowledges one. A server acknowledgement
/// from a client is unexpected and raises nothing.
pub fn frame_event(frame: Frame) -> (event: Option<Event>)
    ensures
        match frame@ {
            FrameView::Hello { user } => event matches Some(e) && e@ == EventView::OnHello { user },
            FrameView::Msg { data } => event matches Some(e) && e@ == EventView::OnMsgSent { msg: data },
            FrameView::ClientAck { ts } => event matches Some(e) && e@ == EventView::OnAck { ts },
            FrameView::ServerAck { .. } => event is None,
        },
{
    match frame {
        Frame::Hello { user } => Some(Event::OnHello { user }),
        Frame::Msg { data } => Some(Event::OnMsgSent { msg: data }),
        Frame::ClientAck { ts } => Some(Event::OnAck { ts }),
        Frame::ServerAck { ts: _ } => None,
    }
}

/// The event that writing `frame` to the client raises: a written message
/// lets the connection go on with the next one for its receiver.
pub fn frame_written_event(frame: &Frame) -> (event: Option<Event>)
    ensures
        match frame@ {
            FrameView::Msg { data } => event matches Some(e) && e@ == EventView::OnFrameWritten {
                user: data.receiver,
            },
            _ => event is None,
        },
{
    match frame {
        Frame::Msg { data } => Some(Event::OnFrameWritten { user: data.receiver.clone() }),
        _ => None,
    }
}

// ---------------------------------------------------------------------------
// The decisions of one connection
// ---------------------------------------------------------------------------

/// `ts` is the stored message that a session with `last_ts` delivers next to
/// `user`: the pending one with the smallest timestamp.
pub open spec fn is_first_pending(db: Map<u64, Message>, user: Seq<char>, last_ts: u64, ts: u64) -> bool {
    &&& pending_for(db, user, last_ts, ts)
    &&& forall|k: u64| #[trigger] pending_for(db, user, last_ts, k) ==> ts <= k
}

/// The timestamp of the message that a session with `last_ts` delivers next
/// to `user`, if any is pending.
pub open spec fn first_pending(db: Map<u64, Message>, user: Seq<char>, last_ts: u64) -> Option<u64> {
    if exists|ts: u64| is_first_pending(db, user, last_ts, ts) {
        Some(choose|ts: u64| is_first_pending(db, user, last_ts, ts))
    } else {
        None
    }
}

/// What delivering the next message to `user` does: the session's new
/// `last_ts` and the actions (at most one frame to send).
pub open spec fn delivery(db: Map<u64, Message>, user: Seq<char>, last_ts: u64) -> (u64, Seq<ActionView>) {
    match first_pending(db, user, last_ts) {
        Some(ts) => (
            ts,
            seq![ActionView::Send { to_sender: SendRequestView::Send { msg: FrameView::Msg { data: db[ts]@ } } }],
        ),
        None => (last_ts, seq![]),
    }
}

/// What a session with `last_ts` does on `event`, against the stored
/// messages `db`: its new `last_ts` and the actions, in order.
pub open spec fn session_step(last_ts: u64, db: Map<u64, Message>, event: EventView) -> (u64, Seq<ActionView>) {
    match event {
        EventView::OnHello { user } => {
            let d = delivery(db, user, last_ts);
            (d.0, seq![ActionView::Register { user }] + d.1)
        },
        EventView::OnAck { ts } => (last_ts, seq![ActionView::Store { to_db: DbRequestView::Remove { ts } }]),
        EventView::OnMsgSent { msg } => (last_ts, seq![ActionView::Store { to_db: DbRequestView::Save { msg } }]),
        EventView::OnMsgRcvd { msg } => delivery(db, msg.receiver, last_ts),
        EventView::OnFrameWritten { user } => delivery(db, user, last_ts),
        EventView::OnMsgStored { msg } => (
            last_ts,
            seq![
                ActionView::Send { to_sender: SendRequestView::Send { msg: FrameView::ServerAck { ts: msg.ts } } },
                ActionView::Notify { user: msg.receiver, event: EventView::OnMsgRcvd { msg } },
            ],
        ),
        EventView::OnMsgRemoved { .. } => (last_ts, seq![]),
    }
}

// ---------------------------------------------------------------------------
// Laws of a session
// ---------------------------------------------------------------------------

/// When some message is pending for `user`, the session delivers one, and
/// none newer than it: the pending message with the smallest timestamp.
pub proof fn lemma_pending_is_delivered(db: Map<u64, Message>, user: Seq<char>, last_ts: u64, ts: u64)
    requires
        pending_for(db, user, last_ts, ts),
    ensures
        first_pending(db, user, last_ts) matches Some(t) && t <= ts && is_first_pending(db, user, last_ts, t),
    decreases ts,
{
    if is_first_pending(db, user, last_ts, ts) {
        let t = choose|t: u64| is_first_pending(db, user, last_ts, t);
        assert(t <= ts);
    } else {
        let k = choose|k: u64| pending_for(db, user, last_ts, k) && !(ts <= k);
        lemma_pending_is_delivered(db, user, last_ts, k);
    }
}

/// A session's `last_ts` never goes down, whatever happens.
pub proof fn lemma_last_ts_never_decreases(last_ts: u64, db: Map<u64, Message>, event: EventView)
    ensures
        session_step(last_ts, db, event).0 >= last_ts,
{
    match event {
        EventView::OnHello { user } => lemma_delivery_is_fresh(db, user, last_ts),
        EventView::OnMsgRcvd { msg } => lemma_delivery_is_fresh(db, msg.receiver, last_ts),
        EventView::OnFrameWritten { user } => lemma_delivery_is_fresh(db, user, last_ts),
        _ => {},
    }
}

/// A delivered message was pending; afterwards the session's `last_ts` is its
/// timestamp, so neither it nor any older message is delivered again by the
/// session, whatever the stored messages become.
pub proof fn lemma_delivery_is_fresh(db: Map<u64, Message>, user: Seq<char>, last_ts: u64)
    ensures
        delivery(db, user, last_ts).0 >= last_ts,
        first_pending(db, user, last_ts) matches Some(ts) ==> {
            &&& pending_for(db, user, last_ts, ts)
            &&& delivery(db, user, last_ts).0 == ts
            &&& forall|later: Map<u64, Message>, who: Seq<char>, k: u64|
                k <= ts ==> !#[trigger] pending_for(later, who, delivery(db, user, last_ts).0, k)
        },
        first_pending(db, user, last_ts) is None ==> forall|k: u64| !#[trigger] pending_for(db, user, last_ts, k),
{
    if first_pending(db, user, last_ts) is None {
        assert forall|k: u64| !#[trigger] pending_for(db, user, last_ts, k) by {
            if pending_for(db, user, last_ts, k) {
                lemma_pending_is_delivered(db, user, last_ts, k);
            }
        }
    }
}

/// An acknowledgement makes the session ask its database worker to drop the
/// message, and once dropped the message is no longer delivered to anyone.
pub proof fn lemma_acknowledged_is_not_delivered(
    last_ts: u64,
    db: Map<u64, Message>,
    ts: u64,
    user: Seq<char>,
    any_last_ts: u64,
)
    ensures
        session_step(last_ts, db, EventView::OnAck { ts }) == (
            last_ts,
            seq![ActionView::Store { to_db: DbRequestView::Remove { ts } }],
        ),
        !pending_for(db.remove(ts), user, any_last_ts, ts),
        first_pending(db.remove(ts), user, any_last_ts) != Some(ts),
{
    if first_pending(db.remove(ts), user, any_last_ts) == Some(ts) {
        assert(exists|t: u64| is_first_pending(db.remove(ts), user, any_last_ts, t));
        let t = choose|t: u64| is_first_pending(db.remove(ts), user, any_last_ts, t);
        assert(t == ts);
    }
}

// ---------------------------------------------------------------------------
// Laws of a session over many events
// ---------------------------------------------------------------------------

/// The timestamps of the messages that `actions` send to the client, in order.
pub open spec fn sent_timestamps(actions: Seq<ActionView>) -> Seq<u64>
    decreases actions.len(),
{
    if actions.len() == 0 {
        seq![]
    } else {
        let rest = sent_timestamps(actions.drop_first());
        match actions[0] {
            ActionView::Send { to_sender: SendRequestView::Send { msg: FrameView::Msg { data } } } => seq![data.ts] + rest,
            _ => rest,
        }
    }
}

/// The receivers of the messages that `actions` send to the client, in order.
pub open spec fn sent_receivers(actions: Seq<ActionView>) -> Seq<Seq<char>>
    decreases actions.len(),
{
    if actions.len() == 0 {
        seq![]
    } else {
        let rest = sent_receivers(actions.drop_first());
        match actions[0] {
            ActionView::Send { to_sender: SendRequestView::Send { msg: FrameView::Msg { data } } } => seq![data.receiver] + rest,
            _ => rest,
        }
    }
}

/// The user for whom an event makes the session deliver: the one who said
/// hello, the receiver of a stored message, or the one a message was written to.
pub open spec fn delivery_user(event: EventView) -> Option<Seq<char>> {
    match event {
        EventView::OnHello { user } => Some(user),
        EventView::OnMsgRcvd { msg } => Some(msg.receiver),
        EventView::OnFrameWritten { user } => Some(user),
        _ => None,
    }
}

/// What a session starting with `last_ts` does over the events of `steps`,
/// each handled against the stored messages of its time: its final
/// `last_ts` and all the actions, in order.
pub open spec fn session_run(last_ts: u64, steps: Seq<(Map<u64, Message>, EventView)>) -> (u64, Seq<ActionView>)
    decreases steps.len(),
{
    if steps.len() == 0 {
        (last_ts, seq![])
    } else {
        let first = session_step(last_ts, steps[0].0, steps[0].1);
        let rest = session_run(first.0, steps.drop_first());
        (rest.0, first.1 + rest.1)
    }
}

/// The messages sent by a run of actions joined together are those of each.
pub proof fn lemma_sent_append(a: Seq<ActionView>, b: Seq<ActionView>)
    ensures
        sent_timestamps(a + b) == sent_timestamps(a) + sent_timestamps(b),
        sent_receivers(a + b) == sent_receivers(a) + sent_receivers(b),
    decreases a.len(),
{
    if a.len() == 0 {
        assert(a + b =~= b);
        assert(sent_timestamps(a) + sent_timestamps(b) =~= sent_timestamps(b));
        assert(sent_receivers(a) + sent_receivers(b) =~= sent_receivers(b));
    } else {
        assert((a + b)[0] == a[0]);
        assert((a + b).drop_first() =~= a.drop_first() + b);
        lemma_sent_append(a.drop_first(), b);
        assert(sent_timestamps(a + b) =~= sent_timestamps(a) + sent_timestamps(b));
        assert(sent_receivers(a + b) =~= sent_receivers(a) + sent_receivers(b));
    }
}

/// One event makes the session send at most one message: the one whose
/// timestamp becomes its `last_ts`, newer than every message before, and
/// addressed to the user the event names.
pub proof fn lemma_step_sends(last_ts: u64, db: Map<u64, Message>, event: EventView)
    requires
        keys_are_timestamps(db),
    ensures
        sent_timestamps(session_step(last_ts, db, event).1).len() <= 1,
        sent_timestamps(session_step(last_ts, db, event).1).len() == sent_receivers(session_step(last_ts, db, event).1).len(),
        session_step(last_ts, db, event).0 >= last_ts,
        forall|i: int|
            0 <= i < sent_timestamps(session_step(last_ts, db, event).1).len() ==> {
                &&& #[trigger] sent_timestamps(session_step(last_ts, db, event).1)[i] > last_ts
                &&& sent_timestamps(session_step(last_ts, db, event).1)[i] == session_step(last_ts, db, event).0
                &&& delivery_user(event) matches Some(u) && sent_receivers(session_step(last_ts, db, event).1)[i] == u
            },
{
    lemma_last_ts_never_decreases(last_ts, db, event);
    let empty = Seq::<ActionView>::empty();
    assert(sent_timestamps(empty) =~= Seq::<u64>::empty());
    assert(sent_receivers(empty) =~= Seq::<Seq<char>>::empty());
    match event {
        EventView::OnHello { user } => {
            lemma_delivery_sends(db, user, last_ts);
            let d = delivery(db, user, last_ts);
            let r = seq![ActionView::Register { user }];
            lemma_sent_append(r, d.1);
            assert(r.drop_first() =~= empty);
            assert(session_step(last_ts, db, event).1 == r + d.1);
            assert(sent_timestamps(r) =~= Seq::<u64>::empty());
            assert(sent_receivers(r) =~= Seq::<Seq<char>>::empty());
            assert(sent_timestamps(r + d.1) =~= sent_timestamps(d.1));
            assert(sent_receivers(r + d.1) =~= sent_receivers(d.1));
        },
        EventView::OnMsgRcvd { msg } => lemma_delivery_sends(db, msg.receiver, last_ts),
        EventView::OnFrameWritten { user } => lemma_delivery_sends(db, user, last_ts),
        EventView::OnAck { ts } => {
            let a = seq![ActionView::Store { to_db: DbRequestView::Remove { ts } }];
            assert(a.drop_first() =~= empty);
        },
        EventView::OnMsgSent { msg } => {
            let a = seq![ActionView::Store { to_db: DbRequestView::Save { msg } }];
            assert(a.drop_first() =~= empty);
        },
        EventView::OnMsgStored { msg } => {
            let a = session_step(last_ts, db, event).1;
            assert(a.drop_first().drop_first() =~= empty);
            assert(sent_timestamps(a.drop_first()) == sent_timestamps(a.drop_first().drop_first()));
            assert(sent_receivers(a.drop_first()) == sent_receivers(a.drop_first().drop_first()));
        },
        EventView::OnMsgRemoved { .. } => {},
    }
}

proof fn lemma_delivery_sends(db: Map<u64, Message>, user: Seq<char>, last_ts: u64)
    requires
        keys_are_timestamps(db),
    ensures
        sent_timestamps(delivery(db, user, last_ts).1).len() <= 1,
        sent_timestamps(delivery(db, user, last_ts).1).len() == sent_receivers(delivery(db, user, last_ts).1).len(),
        delivery(db, user, last_ts).0 >= last_ts,
        forall|i: int|
            0 <= i < sent_timestamps(delivery(db, user, last_ts).1).len() ==> {
                &&& #[trigger] sent_timestamps(delivery(db, user, last_ts).1)[i] > last_ts
                &&& sent_timestamps(delivery(db, user, last_ts).1)[i] == delivery(db, user, last_ts).0
                &&& sent_receivers(delivery(db, user, last_ts).1)[i] == user
            },
{
    lemma_delivery_is_fresh(db, user, last_ts);
    let a = delivery(db, user, last_ts).1;
    let empty = Seq::<ActionView>::empty();
    assert(sent_timestamps(empty) =~= Seq::<u64>::empty());
    assert(sent_receivers(empty) =~= Seq::<Seq<char>>::empty());
    if let Some(ts) = first_pending(db, user, last_ts) {
        assert(a.drop_first() =~= empty);
        assert(db.contains_key(ts));
        assert(sent_timestamps(a) =~= seq![ts]);
        assert(sent_receivers(a) =~= seq![user]);
    }
}

/// Over any sequence of events, each handled against the stored messages of
/// its time (every message stored under its own timestamp), the messages that
/// a session sends to its client have strictly increasing timestamps, all
/// above the `last_ts` it started with (0 for a new session) and none above
/// the one it ends with: no stored message is sent twice on one connection.
/// Each one is addressed to the user that its event named.
pub proof fn lemma_run_sends_increasing(last_ts: u64, steps: Seq<(Map<u64, Message>, EventView)>)
    requires
        forall|i: int| 0 <= i < steps.len() ==> keys_are_timestamps(#[trigger] steps[i].0),
    ensures
        session_run(last_ts, steps).0 >= last_ts,
        forall|i: int|
            0 <= i < sent_timestamps(session_run(last_ts, steps).1).len() ==> last_ts
                < #[trigger] sent_timestamps(session_run(last_ts, steps).1)[i] <= session_run(last_ts, steps).0,
        forall|i: int, j: int|
            0 <= i < j < sent_timestamps(session_run(last_ts, steps).1).len() ==> #[trigger] sent_timestamps(
                session_run(last_ts, steps).1,
            )[i] < #[trigger] sent_timestamps(session_run(last_ts, steps).1)[j],
    decreases steps.len(),
{
    if steps.len() > 0 {
        let first = session_step(last_ts, steps[0].0, steps[0].1);
        let rest_steps = steps.drop_first();
        assert forall|i: int| 0 <= i < rest_steps.len() implies keys_are_timestamps(#[trigger] rest_steps[i].0) by {
            assert(rest_steps[i] == steps[i + 1]);
        }
        assert(keys_are_timestamps(steps[0].0));
        lemma_step_sends(last_ts, steps[0].0, steps[0].1);
        lemma_run_sends_increasing(first.0, rest_steps);
        let rest = session_run(first.0, rest_steps);
        lemma_sent_append(first.1, rest.1);
        let s0 = sent_timestamps(first.1);
        let s1 = sent_timestamps(rest.1);
        let s = sent_timestamps(session_run(last_ts, steps).1);
        assert(s == s0 + s1);
        assert forall|i: int| 0 <= i < s.len() implies last_ts < #[trigger] s[i] <= session_run(last_ts, steps).0 by {
            if i < s0.len() {
                assert(s[i] == s0[i]);
            } else {
                assert(s[i] == s1[i - s0.len()]);
            }
        }
        assert forall|i: int, j: int| 0 <= i < j < s.len() implies #[trigger] s[i] < #[trigger] s[j] by {
            if j < s0.len() {
                assert(false);
            } else if i < s0.len() {
                assert(s[i] == s0[i]);
                assert(s[j] == s1[j - s0.len()]);
            } else {
                assert(s[i] == s1[i - s0.len()]);
                assert(s[j] == s1[j - s0.len()]);
            }
        }
    }
}

// ---------------------------------------------------------------------------
// Laws of what a session hands on
// ---------------------------------------------------------------------------

/// Whether `a` sends the chat message `data` to the client.
pub open spec fn sends_message(a: ActionView, data: MessageView) -> bool {
    a == ActionView::Send { to_sender: SendRequestView::Send { msg: FrameView::Msg { data } } }
}

/// Every message that a session sends to its client is a stored message,
/// whole (timestamp, sender, receiver and text): the oldest one pending for
/// the user that the event names, newer than the session's `last_ts`. When
/// every message is stored under its own timestamp, it is the one stored
/// under the message's timestamp.
pub proof fn lemma_sent_messages_are_stored(last_ts: u64, db: Map<u64, Message>, event: EventView)
    ensures
        forall|i: int, data: MessageView|
            0 <= i < session_step(last_ts, db, event).1.len() && #[trigger] sends_message(
                session_step(last_ts, db, event).1[i],
                data,
            ) ==> exists|k: u64| {
                &&& #[trigger] db.contains_key(k)
                &&& db[k]@ == data
                &&& k > last_ts
                &&& delivery_user(event) == Some(data.receiver)
                &&& forall|j: u64| #[trigger] pending_for(db, data.receiver, last_ts, j) ==> k <= j
                &&& keys_are_timestamps(db) ==> k == data.ts
            },
{
    let acts = session_step(last_ts, db, event).1;
    assert forall|i: int, data: MessageView|
        0 <= i < acts.len() && #[trigger] sends_message(acts[i], data) implies exists|k: u64| {
            &&& #[trigger] db.contains_key(k)
            &&& db[k]@ == data
            &&& k > last_ts
            &&& delivery_user(event) == Some(data.receiver)
            &&& forall|j: u64| #[trigger] pending_for(db, data.receiver, last_ts, j) ==> k <= j
            &&& keys_are_timestamps(db) ==> k == data.ts
        } by {
        let user = match event {
            EventView::OnHello { user } => user,
            EventView::OnMsgRcvd { msg } => msg.receiver,
            EventView::OnFrameWritten { user } => user,
            _ => seq![],
        };
        match event {
            EventView::OnHello { .. } | EventView::OnMsgRcvd { .. } | EventView::OnFrameWritten { .. } => {
                lemma_delivery_is_fresh(db, user, last_ts);
                let d = delivery(db, user, last_ts).1;
                let idx = match event {
                    EventView::OnHello { .. } => i - 1,
                    _ => i,
                };
                assert(acts[i] == d[idx]);
                let ts = first_pending(db, user, last_ts)->0;
                assert(first_pending(db, user, last_ts) is Some);
                assert(data == db[ts]@);
                assert(db.contains_key(ts));
            },
            _ => {},
        }
    }
}

/// A message that a client sends travels whole: the session asks its database
/// worker to save that very message; once it is stored, the session
/// acknowledges its timestamp to the sender and announces that very message
/// to the connection of its receiver; and the receiver's session, when no
/// older message is pending for it, sends that very message to its client and
/// moves its `last_ts` to the message's timestamp.
pub proof fn lemma_sent_message_reaches_receiver(
    sender_last_ts: u64,
    receiver_last_ts: u64,
    before: Map<u64, Message>,
    stored: Map<u64, Message>,
    msg: MessageView,
)
    requires
        message_views(stored) == message_views(before).insert(msg.ts, msg),
        receiver_last_ts < msg.ts,
        forall|k: u64| #[trigger] pending_for(stored, msg.receiver, receiver_last_ts, k) ==> msg.ts <= k,
    ensures
        session_step(sender_last_ts, before, EventView::OnMsgSent { msg }).0 == sender_last_ts,
        session_step(sender_last_ts, before, EventView::OnMsgSent { msg }).1.len() == 1,
        session_step(sender_last_ts, before, EventView::OnMsgSent { msg }).1[0] matches ActionView::Store {
            to_db: DbRequestView::Save { msg: saved },
        } && saved == msg,
        session_step(sender_last_ts, stored, EventView::OnMsgStored { msg }).0 == sender_last_ts,
        session_step(sender_last_ts, stored, EventView::OnMsgStored { msg }).1.len() == 2,
        session_step(sender_last_ts, stored, EventView::OnMsgStored { msg }).1[0] matches ActionView::Send {
            to_sender: SendRequestView::Send { msg: FrameView::ServerAck { ts } },
        } && ts == msg.ts,
        session_step(sender_last_ts, stored, EventView::OnMsgStored { msg }).1[1] matches ActionView::Notify {
            user,
            event: EventView::OnMsgRcvd { msg: announced },
        } && user == msg.receiver && announced == msg,
        session_step(receiver_last_ts, stored, EventView::OnMsgRcvd { msg }).0 == msg.ts,
        session_step(receiver_last_ts, stored, EventView::OnMsgRcvd { msg }).1.len() == 1,
        sends_message(session_step(receiver_last_ts, stored, EventView::OnMsgRcvd { msg }).1[0], msg),
{
    assert(message_views(stored).contains_key(msg.ts));
    assert(stored.contains_key(msg.ts));
    assert(message_views(stored)[msg.ts] == msg);
    assert(stored[msg.ts]@ == msg);
    assert(pending_for(stored, msg.receiver, receiver_last_ts, msg.ts));
    assert(is_first_pending(stored, msg.receiver, receiver_last_ts, msg.ts));
    let t = choose|t: u64| is_first_pending(stored, msg.receiver, receiver_last_ts, t);
    assert(t <= msg.ts && msg.ts <= t);
}

/// The event worker's state for one connection: the timestamp of the last
/// message it sent to the client.
pub struct Session {
    pub last_ts: u64,
}

impl Session {
    /// A session that has sent nothing yet.
    pub fn new() -> (s: Self)
        ensures
            s.last_ts == 0,
    {
        Session { last_ts: 0 }
    }

    /// Sends the next pending message for `user`, if there is one, and
    /// remembers its timestamp.
    fn deliver_next(&mut self, user: &String, db: &BTreeMap<u64, Message>, actions: &mut Vec<Action>)
        ensures
            final(self).last_ts == delivery(db@, user@, old(self).last_ts).0,
            action_views(final(actions)@) == action_views(old(actions)@) + delivery(db@, user@, old(self).last_ts).1,
    {
        let ghost before = action_views(actions@);
        match next_for_user(db, user, self.last_ts) {
            Some(found) => {
                let (ts, msg) = found;
                proof {
                    assert(is_first_pending(db@, user@, self.last_ts, ts));
                    let c = choose|t: u64| is_first_pending(db@, user@, self.last_ts, t);
                    assert(c <= ts && ts <= c);
                }
                self.last_ts = ts;
                actions.push(Action::Send { to_sender: SendRequest::Send { msg: Frame::Msg { data: msg } } });
                assert(action_views(actions@) =~= before + delivery(db@, user@, old(self).last_ts).1);
            },
            None => {
                assert(action_views(actions@) =~= before + delivery(db@, user@, old(self).last_ts).1);
            },
        }
    }

    /// What this connection does on `event`, against the stored messages `db`.
    pub fn on_event(&mut self, event: Event, db: &BTreeMap<u64, Message>) -> (actions: Vec<Action>)
        ensures
            (final(self).last_ts, action_views(actions@)) == session_step(old(self).last_ts, db@, event@),
    {
        let mut actions: Vec<Action> = Vec::new();
        let ghost start = action_views(actions@);
        assert(start =~= Seq::<ActionView>::empty());
        match event {
            Event::OnHello { user } => {
                actions.push(Action::Register { user: user.clone() });
                self.deliver_next(&user, db, &mut actions);
            },
            Event::OnAck { ts } => {
                actions.push(Action::Store { to_db: DbRequest::Remove { ts } });
            },
            Event::OnMsgSent { msg } => {
                actions.push(Action::Store { to_db: DbRequest::Save { msg } });
            },
            Event::OnMsgRcvd { msg } => {
                self.deliver_next(&msg.receiver, db, &mut actions);
            },
            Event::OnFrameWritten { user } => {
                self.deliver_next(&user, db, &mut actions);
            },
            Event::OnMsgStored { msg } => {
                actions.push(Action::Send { to_sender: SendRequest::Send { msg: Frame::ServerAck { ts: msg.ts } } });
                let receiver = msg.receiver.clone();
                actions.push(Action::Notify { user: receiver, event: Event::OnMsgRcvd { msg } });
            },
            Event::OnMsgRemoved { ts: _ } => {},
        }
        assert(action_views(actions@) =~= session_step(old(self).last_ts, db@, event@).1);
        actions
    }
}

} // verus!
