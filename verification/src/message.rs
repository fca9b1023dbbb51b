use vstd::prelude::*;

verus! {

/// What a chat message is, as plain values.
pub struct MessageView {
    pub ts: u64,
    pub sender: Seq<char>,
    pub receiver: Seq<char>,
    pub payload: Seq<char>,
}

/// A chat message: when it was written, by whom, for whom, and its text.
#[derive(Debug)]
pub struct Message {
    pub ts: u64,
    pub sender: String,
    pub receiver: String,
    pub payload: String,
}

impl View for Message {
    type V = MessageView;

    open spec fn view(&self) -> MessageView {
        MessageView {
            ts: self.ts,
            sender: self.sender@,
            receiver: self.receiver@,
            payload: self.payload@,
        }
    }
}

impl Clone for Message {
    fn clone(&self) -> (res: Self)
        ensures
            res@ == self@,
    {
        Message {
            ts: self.ts,
            sender: self.sender.clone(),
            receiver: self.receiver.clone(),
            payload: self.payload.clone(),
        }
    }
}

/// One unit of the wire protocol between a client and the server.
#[derive(Debug)]
pub enum Frame {
    /// A client introduces itself.
    Hello { user: String },
    /// A chat message, in either direction.
    Msg { data: Message },
    /// The server has stored the message with this timestamp.
    ServerAck { ts: u64 },
    /// The client has received the message with this timestamp.
    ClientAck { ts: u64 },
}

/// What a frame is, as plain values.
pub enum FrameView {
    Hello { user: Seq<char> },
    Msg { data: MessageView },
    ServerAck { ts: u64 },
    ClientAck { ts: u64 },
}

impl View for Frame {
    type V = FrameView;

    open spec fn view(&self) -> FrameView {
        match self {
            Frame::Hello { user } => FrameView::Hello { user: user@ },
            Frame::Msg { data } => FrameView::Msg { data: data@ },
            Frame::ServerAck { ts } => FrameView::ServerAck { ts: *ts },
            Frame::ClientAck { ts } => FrameView::ClientAck { ts: *ts },
        }
    }
}

impl Clone for Frame {
    fn clone(&self) -> (res: Self)
        ensures
            res@ == self@,
    {
        match self {
            Frame::Hello { user } => Frame::Hello { user: user.clone() },
            Frame::Msg { data } => Frame::Msg { data: data.clone() },
            Frame::ServerAck { ts } => Frame::ServerAck { ts: *ts },
            Frame::ClientAck { ts } => Frame::ClientAck { ts: *ts },
        }
    }
}

} // verus!
