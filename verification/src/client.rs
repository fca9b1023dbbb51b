use rand::Rng;

use vstd::prelude::*;

use crate::message::{Frame, FrameView, Message, MessageView};
use crate::text::{decimal, push_decimal};

verus! {

/// The users that a client writes to, itself excepted.
pub open spec fn user_names() -> Seq<Seq<char>> {
    seq!["aa"@, "bb"@, "cc"@, "dd"@]
}

/// `users` without `me`, in order.
pub open spec fn others(users: Seq<Seq<char>>, me: Seq<char>) -> Seq<Seq<char>>
    decreases users.len(),
{
    if users.len() == 0 {
        seq![]
    } else if users.last() != me {
        others(users.drop_last(), me).push(users.last())
    } else {
        others(users.drop_last(), me)
    }
}

/// The text of the `counter`-th message from `me` to `receiver`.
pub open spec fn payload_text(me: Seq<char>, receiver: Seq<char>, counter: nat) -> Seq<char> {
    me + " -> "@ + receiver + ": "@ + decimal(counter)
}

/// The message that a client `me` writes as its `counter`-th, at `ts`, to the
/// receiver that `pick` selects among `receivers`.
pub open spec fn composed(me: Seq<char>, receivers: Seq<Seq<char>>, counter: nat, ts: u64, pick: usize) -> MessageView {
    let receiver = receivers[(pick as int) % (receivers.len() as int)];
    MessageView { ts, sender: me, receiver, payload: payload_text(me, receiver, counter) }
}

/// What a client does with a frame from the server.
#[derive(Debug)]
pub struct Reaction {
    /// The message to show the user.
    pub display: Option<Message>,
    /// The acknowledgement to send back.
    pub ack: Option<Frame>,
}

/// A random `usize` (`rand::thread_rng().gen::<usize>()`); nothing is claimed
/// of its value.
#[verifier::external_body]
fn random_usize() -> usize {
    rand::thread_rng().gen::<usize>()
}

/// The state of a chat client: who it is, whom it writes to, and how many
/// messages it has written.
pub struct ClientSession {
    client_id: String,
    users: Vec<String>,
    msg_counter: i32,
}

impl ClientSession {
    /// The session's invariant: the user list is the fixed one and the count
    /// is not negative.
    pub closed spec fn wf(&self) -> bool {
        &&& self.users@.map_values(|u: String| u@) == user_names()
        &&& self.msg_counter >= 0
    }

    /// Who this client is.
    pub closed spec fn id(&self) -> Seq<char> {
        self.client_id@
    }

    /// How many messages this client has written.
    pub closed spec fn counter(&self) -> int {
        self.msg_counter as int
    }

    /// A client named `client_id` that has written nothing yet.
    pub fn new(client_id: String) -> (s: Self)
        ensures
            s.wf(),
            s.id() == client_id@,
            s.counter() == 0,
    {
        let mut users: Vec<String> = Vec::new();
        users.push(String::from_str("aa"));
        users.push(String::from_str("bb"));
        users.push(String::from_str("cc"));
        users.push(String::from_str("dd"));
        assert(users@.map_values(|u: String| u@) =~= user_names());
        ClientSession { client_id, users, msg_counter: 0 }
    }

    /// How many messages this client has written.
    pub fn count(&self) -> (n: i32)
        ensures
            n == self.counter(),
    {
        self.msg_counter
    }

    /// The frame by which the client introduces itself.
    pub fn hello(&self) -> (frame: Frame)
        ensures
            frame@ == (FrameView::Hello { user: self.id() }),
    {
        Frame::Hello { user: self.client_id.clone() }
    }

    /// The users this client writes to: all but itself, in order.
    pub fn receivers(&self) -> (rs: Vec<String>)
        requires
            self.wf(),
        ensures
            rs@.map_values(|u: String| u@) == others(user_names(), self.id()),
            rs@.len() >= 3,
    {
        let mut rs: Vec<String> = Vec::new();
        let mut i: usize = 0;
        while i < self.users.len()
            invariant
                self.wf(),
                i <= self.users@.len(),
                rs@.map_values(|u: String| u@) == others(
                    self.users@.map_values(|u: String| u@).subrange(0, i as int),
                    self.id(),
                ),
            decreases self.users@.len() - i,
        {
            let ghost names = self.users@.map_values(|u: String| u@);
            let ghost before = rs@.map_values(|u: String| u@);
            assert(names.subrange(0, i + 1).drop_last() =~= names.subrange(0, i as int));
            if self.users[i] != self.client_id {
                rs.push(self.users[i].clone());
                assert(rs@.map_values(|u: String| u@) =~= before.push(names[i as int]));
            }
            i = i + 1;
        }
        assert(self.users@.map_values(|u: String| u@).subrange(0, i as int) =~= user_names());
        proof {
            lemma_others_of_users(self.id());
        }
        rs
    }

    /// The next message, written at `ts` to the receiver that `pick` selects;
    /// the count goes up by one.
    pub fn compose(&mut self, ts: u64, pick: usize) -> (msg: Message)
        requires
            old(self).wf(),
            old(self).counter() < i32::MAX,
        ensures
            final(self).wf(),
            final(self).id() == old(self).id(),
            final(self).counter() == old(self).counter() + 1,
            msg@ == composed(old(self).id(), others(user_names(), old(self).id()), old(self).counter() as nat, ts, pick),
    {
        let receivers = self.receivers();
        let receiver = receivers[pick % receivers.len()].clone();
        let mut payload = self.client_id.clone();
        payload.append(" -> ");
        payload.append(receiver.as_str());
        payload.append(": ");
        push_decimal(&mut payload, self.msg_counter as u64);
        let msg = Message { ts, sender: self.client_id.clone(), receiver, payload };
        self.msg_counter = self.msg_counter + 1;
        msg
    }

    /// The next message, written at `ts` to a receiver chosen at random; the
    /// count goes up by one.
    pub fn next_message(&mut self, ts: u64) -> (msg: Message)
        requires
            old(self).wf(),
            old(self).counter() < i32::MAX,
        ensures
            final(self).wf(),
            final(self).id() == old(self).id(),
            final(self).counter() == old(self).counter() + 1,
            exists|pick: usize|
                msg@ == #[trigger] composed(old(self).id(), others(user_names(), old(self).id()), old(self).counter() as nat, ts, pick),
    {
        let pick = random_usize();
        self.compose(ts, pick)
    }

    /// What the client does with a frame from the server: a message is shown
    /// when it is addressed to this client, and every message is acknowledged
    /// by its timestamp; other frames are ignored.
    pub fn on_frame(&self, frame: &Frame) -> (r: Reaction)
        ensures
            match frame@ {
                FrameView::Msg { data } => {
                    &&& (r.display matches Some(m) ==> m@ == data)
                    &&& (r.display is Some <==> data.receiver == self.id())
                    &&& r.ack matches Some(a) && a@ == (FrameView::ClientAck { ts: data.ts })
                },
                _ => r.display is None && r.ack is None,
            },
    {
        match frame {
            Frame::Msg { data } => {
                let display = if data.receiver == self.client_id {
                    Some(data.clone())
                } else {
                    None
                };
                Reaction { display, ack: Some(Frame::ClientAck { ts: data.ts }) }
            },
            _ => Reaction { display: None, ack: None },
        }
    }
}

/// `others(users, me)` holds the users other than `me`, and only those.
pub proof fn lemma_others_members(users: Seq<Seq<char>>, me: Seq<char>)
    ensures
        forall|i: int| 0 <= i < others(users, me).len() ==> #[trigger] others(users, me)[i] != me && users.contains(others(users, me)[i]),
        forall|u: Seq<char>| users.contains(u) && u != me ==> #[trigger] others(users, me).contains(u),
    decreases users.len(),
{
    if users.len() > 0 {
        let init = users.drop_last();
        lemma_others_members(init, me);
        let o = others(users, me);
        let oi = others(init, me);
        assert forall|i: int| 0 <= i < o.len() implies #[trigger] o[i] != me && users.contains(o[i]) by {
            if i < oi.len() {
                assert(o[i] == oi[i]);
                let j = choose|j: int| 0 <= j < init.len() && init[j] == oi[i];
                assert(users[j] == init[j]);
            } else {
                assert(o[i] == users.last());
            }
        }
        assert forall|u: Seq<char>| users.contains(u) && u != me implies #[trigger] o.contains(u) by {
            let j = choose|j: int| 0 <= j < users.len() && users[j] == u;
            if j < users.len() - 1 {
                assert(init[j] == u);
                assert(oi.contains(u));
                let k = choose|k: int| 0 <= k < oi.len() && oi[k] == u;
                assert(o[k] == u);
            } else {
                assert(o[o.len() - 1] == u);
            }
        }
    }
}

/// A client never writes to itself: every message it composes goes to one of
/// the other users.
pub proof fn lemma_never_to_self(me: Seq<char>, counter: nat, ts: u64, pick: usize)
    ensures
        composed(me, others(user_names(), me), counter, ts, pick).receiver != me,
        user_names().contains(composed(me, others(user_names(), me), counter, ts, pick).receiver),
        composed(me, others(user_names(), me), counter, ts, pick).sender == me,
{
    lemma_others_of_users(me);
    lemma_others_members(user_names(), me);
    let rs = others(user_names(), me);
    let i = (pick as int) % (rs.len() as int);
    assert(0 <= i < rs.len());
    assert(rs[i] != me);
}

/// The receiver of a composed message ranges over all other users: for every
/// user other than the client there is a pick that addresses the message to
/// them, and every pick addresses it to one of them. The text names the
/// client, the receiver and the count.
pub proof fn lemma_every_other_user_is_reachable(me: Seq<char>, counter: nat, ts: u64)
    ensures
        forall|u: Seq<char>|
            user_names().contains(u) && u != me ==> exists|pick: usize|
                #[trigger] composed(me, others(user_names(), me), counter, ts, pick).receiver == u,
        forall|pick: usize| {
            let m = #[trigger] composed(me, others(user_names(), me), counter, ts, pick);
            &&& user_names().contains(m.receiver)
            &&& m.receiver != me
            &&& m.sender == me
            &&& m.ts == ts
            &&& m.payload == me + " -> "@ + m.receiver + ": "@ + decimal(counter)
        },
{
    lemma_others_of_users(me);
    lemma_others_members(user_names(), me);
    let rs = others(user_names(), me);
    assert forall|u: Seq<char>| user_names().contains(u) && u != me implies exists|pick: usize|
        #[trigger] composed(me, rs, counter, ts, pick).receiver == u by {
        assert(rs.contains(u));
        let j = choose|j: int| 0 <= j < rs.len() && rs[j] == u;
        assert(rs.len() <= 4) by {
            lemma_others_len(user_names(), me);
        }
        let pick = j as usize;
        assert((pick as int) % (rs.len() as int) == j);
        assert(composed(me, rs, counter, ts, pick).receiver == u);
    }
    assert forall|pick: usize| {
        let m = #[trigger] composed(me, rs, counter, ts, pick);
        &&& user_names().contains(m.receiver)
        &&& m.receiver != me
        &&& m.sender == me
        &&& m.ts == ts
        &&& m.payload == me + " -> "@ + m.receiver + ": "@ + decimal(counter)
    } by {
        lemma_never_to_self(me, counter, ts, pick);
    }
}

/// There are never more others than users.
proof fn lemma_others_len(users: Seq<Seq<char>>, me: Seq<char>)
    ensures
        others(users, me).len() <= users.len(),
    decreases users.len(),
{
    if users.len() > 0 {
        lemma_others_len(users.drop_last(), me);
    }
}

/// Whoever the client is, at least three users remain to write to.
proof fn lemma_others_of_users(me: Seq<char>)
    ensures
        others(user_names(), me).len() >= 3,
{
    reveal_strlit("aa");
    reveal_strlit("bb");
    reveal_strlit("cc");
    reveal_strlit("dd");
    let u = user_names();
    assert(u.drop_last() =~= seq!["aa"@, "bb"@, "cc"@]);
    assert(u.drop_last().drop_last() =~= seq!["aa"@, "bb"@]);
    assert(u.drop_last().drop_last().drop_last() =~= seq!["aa"@]);
    assert(u.drop_last().drop_last().drop_last().drop_last() =~= Seq::<Seq<char>>::empty());
    assert("aa"@ != "bb"@) by {
        assert("aa"@[1] != "bb"@[1]);
    }
    assert("aa"@ != "cc"@) by {
        assert("aa"@[1] != "cc"@[1]);
    }
    assert("aa"@ != "dd"@) by {
        assert("aa"@[1] != "dd"@[1]);
    }
    assert("bb"@ != "cc"@) by {
        assert("bb"@[1] != "cc"@[1]);
    }
    assert("bb"@ != "dd"@) by {
        assert("bb"@[1] != "dd"@[1]);
    }
    assert("cc"@ != "dd"@) by {
        assert("cc"@[1] != "dd"@[1]);
    }
    reveal_with_fuel(others, 5);
    assert(u.last() == "dd"@);
    assert(u.drop_last().last() == "cc"@);
    assert(u.drop_last().drop_last().last() == "bb"@);
    assert(u.drop_last().drop_last().drop_last().last() == "aa"@);
}

} // verus!
