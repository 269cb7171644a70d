//! The echo behavior: replies to each echo request with the same text.
use crate::message::{has_str, BodyKind, Message, Payload, Value, ValueView};
use crate::server::{Fatal, HasInner, ServerInner};
use vstd::prelude::*;
use vstd::string::*;

verus! {

/// A node that serves only the init handshake and echo requests.
#[derive(Debug)]
pub struct EchoServer {
    pub inner: ServerInner,
}

impl Default for EchoServer {
    fn default() -> (r: Self)
        ensures
            r.inner.node_id@ == Seq::<char>::empty(),
            r.inner.next_msg_id == 0,
            !r.inner.initialized,
    {
        EchoServer { inner: ServerInner::default() }
    }
}

impl HasInner for EchoServer {
    fn as_inner(&self) -> (r: &ServerInner)
        ensures
            r == self.inner,
    {
        &self.inner
    }
}

/// Which fatal condition, if any, the echo dispatcher reports for `msg`.
pub open spec fn echo_step_fatal(s: EchoServer, msg: Message) -> Option<Fatal> {
    if !s.inner.initialized {
        if msg.body.kind != BodyKind::Init {
            Some(Fatal::NotInitialized)
        } else if !has_str(msg.body.payload@, "node_id"@) {
            Some(Fatal::MissingField)
        } else {
            None
        }
    } else {
        match msg.body.kind {
            BodyKind::Init => Some(Fatal::DoubleInit),
            BodyKind::Echo => if !has_str(msg.body.payload@, "echo"@) {
                Some(Fatal::MissingField)
            } else {
                None
            },
            _ => Some(Fatal::UnknownKind),
        }
    }
}

impl EchoServer {
    /// Replies to an echo request with the same `echo` text, copied.
    pub fn echo(&mut self, msg: &Message) -> (r: Message)
        requires
            msg.wf(),
            has_str(msg.body.payload@, "echo"@),
            old(self).inner.next_msg_id < usize::MAX,
        ensures
            *final(self) == (EchoServer {
                inner: ServerInner {
                    next_msg_id: (old(self).inner.next_msg_id + 1) as usize,
                    ..old(self).inner
                },
            }),
            r.wf(),
            r.src@ == old(self).inner.node_id@,
            r.dst@ == msg.src@,
            r.body.kind == BodyKind::EchoOk,
            r.body.msg_id == old(self).inner.next_msg_id,
            r.body.reply_to == Some(msg.body.msg_id),
            r.body.payload@ == Map::<Seq<char>, ValueView>::empty().insert(
                "echo"@,
                msg.body.payload@["echo"@],
            ),
    {
        let text = msg.body.payload.get_str("echo").to_owned();
        let payload = Payload::init("echo", Value::Str(text));
        self.inner.make_reply(msg, BodyKind::EchoOk, payload)
    }

    /// One dispatch decision: routes `msg`, returning the reply to write or
    /// the fatal condition that must end the process.
    pub fn step(&mut self, msg: &Message) -> (r: Result<Option<Message>, Fatal>)
        requires
            msg.wf(),
            old(self).inner.next_msg_id < usize::MAX,
        ensures
            match r {
                Ok(reply) => {
                    &&& echo_step_fatal(*old(self), *msg) is None
                    &&& if msg.body.kind == BodyKind::Init {
                        &&& final(self).inner.initialized
                        &&& final(self).inner.node_id@ == msg.body.payload@["node_id"@]->Str_0
                        &&& final(self).inner.next_msg_id == 0
                        &&& reply matches Some(m) && m.body.kind == BodyKind::InitOk
                            && m.src@ == final(self).inner.node_id@ && m.dst@ == msg.src@
                            && m.body.msg_id == 1 && m.body.reply_to == Some(1usize) && m.wf()
                            && m.body.payload@ == Map::<Seq<char>, ValueView>::empty()
                    } else {
                        &&& *final(self) == (EchoServer {
                            inner: ServerInner {
                                next_msg_id: (old(self).inner.next_msg_id + 1) as usize,
                                ..old(self).inner
                            },
                        })
                        &&& reply matches Some(m) && m.body.kind == BodyKind::EchoOk
                            && m.src@ == old(self).inner.node_id@ && m.dst@ == msg.src@
                            && m.body.msg_id == old(self).inner.next_msg_id
                            && m.body.reply_to == Some(msg.body.msg_id) && m.wf()
                            && m.body.payload@ == Map::<Seq<char>, ValueView>::empty().insert(
                            "echo"@,
                            msg.body.payload@["echo"@],
                        )
                    }
                },
                Err(e) => {
                    &&& echo_step_fatal(*old(self), *msg) == Some(e)
                    &&& *final(self) == *old(self)
                },
            },
    {
        if !self.inner.initialized {
            if !matches!(msg.body.kind, BodyKind::Init) {
                return Err(Fatal::NotInitialized);
            }
            if !msg.body.payload.check_str("node_id") {
                return Err(Fatal::MissingField);
            }
            Ok(self.inner.init(msg))
        } else {
            match msg.body.kind {
                BodyKind::Init => Err(Fatal::DoubleInit),
                BodyKind::Echo => {
                    if !msg.body.payload.check_str("echo") {
                        return Err(Fatal::MissingField);
                    }
                    Ok(Some(self.echo(msg)))
                },
                _ => Err(Fatal::UnknownKind),
            }
        }
    }
}

} // verus!
