//! Node identity, the outbound message-id sequencer, and the error taxonomy
//! of the dispatch loop.
use crate::message::{Body, BodyKind, Message, Payload};
use vstd::prelude::*;
use vstd::string::*;

verus! {

/// Why a node stops. Every listed condition is fatal: the loop boundary
/// terminates the process and an external supervisor may restart it.
#[derive(Debug, Clone, Copy, PartialEq, Eq, Structural)]
pub enum Fatal {
    /// A message other than the init handshake arrived while uninitialized.
    NotInitialized,
    /// A second init arrived after the handshake.
    DoubleInit,
    /// The message kind is not one this node serves.
    UnknownKind,
    /// A required payload field is missing or has the wrong shape.
    MissingField,
    /// A line of the log file is not a record.
    BadRecord,
    /// A send key holds the record separator or a line break, which the
    /// record format cannot carry.
    BadKey,
    /// The offset snapshot does not hold a key→offset object.
    BadSnapshot,
}

/// The node's assigned identifier and its outbound message-id counter,
/// established by the one-time init handshake.
#[derive(Debug, Clone)]
pub struct ServerInner {
    pub node_id: String,
    pub next_msg_id: usize,
    pub initialized: bool,
}

impl Default for ServerInner {
    fn default() -> (r: Self)
        ensures
            r.node_id@ == Seq::<char>::empty(),
            r.next_msg_id == 0,
            !r.initialized,
    {
        ServerInner { node_id: String::new(), next_msg_id: 0, initialized: false }
    }
}

impl ServerInner {
    /// Consumes one outbound message id.
    pub fn advance(&mut self)
        requires
            old(self).next_msg_id < usize::MAX,
        ensures
            *final(self) == (ServerInner {
                next_msg_id: (old(self).next_msg_id + 1) as usize,
                ..*old(self)
            }),
    {
        self.next_msg_id = self.next_msg_id + 1;
    }

    pub fn node_id(&self) -> (r: &str)
        ensures
            r@ == self.node_id@,
    {
        self.node_id.as_str()
    }

    pub fn next_msg_id(&self) -> (r: usize)
        ensures
            r == self.next_msg_id,
    {
        self.next_msg_id
    }

    /// The init handshake: adopts the assigned node id, resets the outbound
    /// counter, and acknowledges with the fixed handshake ids (the protocol
    /// defines the handshake to use message id 1 on both sides).
    pub fn init(&mut self, msg: &Message) -> (r: Option<Message>)
        requires
            msg.wf(),
            msg.body.payload@.contains_key("node_id"@),
            msg.body.payload@["node_id"@] is Str,
        ensures
            final(self).node_id@ == msg.body.payload@["node_id"@]->Str_0,
            final(self).next_msg_id == 0,
            final(self).initialized,
            r matches Some(reply) && {
                &&& reply.wf()
                &&& reply.src@ == final(self).node_id@
                &&& reply.dst@ == msg.src@
                &&& reply.body.kind == BodyKind::InitOk
                &&& reply.body.msg_id == 1
                &&& reply.body.reply_to == Some(1usize)
                &&& reply.body.payload@ == Map::<Seq<char>, crate::message::ValueView>::empty()
            },
    {
        self.node_id = msg.body.payload.get_str("node_id").to_owned();
        self.next_msg_id = 0;
        self.initialized = true;

        let body = Body {
            kind: BodyKind::InitOk,
            reply_to: Some(1),
            msg_id: 1,
            payload: Payload::default(),
        };

        Some(Message { src: self.node_id.clone(), dst: msg.src.clone(), body })
    }

    /// Builds a reply to `msg` carrying the next outbound message id, and
    /// consumes that id.
    pub fn make_reply(&mut self, msg: &Message, kind: BodyKind, payload: Payload) -> (r: Message)
        requires
            old(self).next_msg_id < usize::MAX,
            payload.wf(),
        ensures
            *final(self) == (ServerInner {
                next_msg_id: (old(self).next_msg_id + 1) as usize,
                ..*old(self)
            }),
            r == (Message {
                src: old(self).node_id,
                dst: msg.src,
                body: Body {
                    kind,
                    msg_id: old(self).next_msg_id,
                    reply_to: Some(msg.body.msg_id),
                    payload,
                },
            }),
    {
        let body = Body {
            kind,
            msg_id: self.next_msg_id(),
            reply_to: Some(msg.body.msg_id),
            payload,
        };
        self.advance();
        Message { src: self.node_id.clone(), dst: msg.src.clone(), body }
    }
}

/// Access to the shared identity and sequencer of a node behavior.
pub trait HasInner {
    fn as_inner(&self) -> &ServerInner;
}

} // verus!
