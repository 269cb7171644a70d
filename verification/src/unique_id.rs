//! The unique-id behavior: composes ids from the node id, a millisecond
//! timestamp, and a per-timestamp counter.
use crate::digits::{dec_of, dec_string};
use crate::message::{has_str, BodyKind, Message, Payload, Value, ValueView};
use crate::server::{Fatal, HasInner, ServerInner};
use vstd::prelude::*;
use vstd::string::*;

verus! {

/// Milliseconds since the Unix epoch, by the system clock (0 if the clock
/// reads before the epoch).
///
/// Relies on std::time::SystemTime::now: the result depends on the wall
/// clock, so nothing is promised of it.
#[verifier::external_body]
pub fn current_time_millis() -> u64 {
    match std::time::SystemTime::now().duration_since(std::time::UNIX_EPOCH) {
        Ok(d) => d.as_millis() as u64,
        Err(_) => 0,
    }
}

/// A node that serves the init handshake and unique-id generation.
#[derive(Debug)]
pub struct UniqueIdServer {
    pub inner: ServerInner,
    /// The timestamp used by the last generated id.
    pub last_ts: u64,
    /// A counter distinguishing ids generated at the same timestamp.
    pub count: usize,
}

impl Default for UniqueIdServer {
    fn default() -> (r: Self)
        ensures
            r.inner.node_id@ == Seq::<char>::empty(),
            r.inner.next_msg_id == 0,
            !r.inner.initialized,
            r.last_ts == 0,
            r.count == 0,
    {
        UniqueIdServer { inner: ServerInner::default(), last_ts: 0, count: 0 }
    }
}

impl HasInner for UniqueIdServer {
    fn as_inner(&self) -> (r: &ServerInner)
        ensures
            r == self.inner,
    {
        &self.inner
    }
}

/// Which fatal condition, if any, the unique-id dispatcher reports for `msg`.
pub open spec fn unique_id_step_fatal(s: UniqueIdServer, msg: Message) -> Option<Fatal> {
    if !s.inner.initialized {
        if msg.body.kind != BodyKind::Init {
            Some(Fatal::NotInitialized)
        } else if !has_str(msg.body.payload@, "node_id"@) {
            Some(Fatal::MissingField)
        } else {
            None
        }
    } else {
        match msg.body.kind {
            BodyKind::Init => Some(Fatal::DoubleInit),
            BodyKind::Generate => None,
            _ => Some(Fatal::UnknownKind),
        }
    }
}

/// The text of an id: node id, then the timestamp, then the counter, each in
/// decimal, concatenated.
pub open spec fn composed_id(s: UniqueIdServer) -> Seq<char> {
    s.inner.node_id@ + dec_of(s.last_ts as nat) + dec_of(s.count as nat)
}

impl UniqueIdServer {
    /// Renders the id for the current timestamp and counter.
    pub fn compose_id(&self) -> (r: String)
        ensures
            r@ == composed_id(*self),
    {
        let mut s = self.inner.node_id().to_owned();
        s.append(dec_string(self.last_ts).as_str());
        s.append(dec_string(self.count as u64).as_str());
        proof {
            assert(self.count as u64 as nat == self.count as nat);
        }
        s
    }

    /// Advances the timestamp/counter state for one id drawn at clock reading
    /// `now` and renders the id: the timestamp never goes backwards, and the
    /// counter steps exactly when the timestamp stands still.
    pub fn generate_id(&mut self, now: u64) -> (r: String)
        requires
            old(self).count < usize::MAX,
        ensures
            final(self).last_ts == if now > old(self).last_ts {
                now
            } else {
                old(self).last_ts
            },
            final(self).count == if now <= old(self).last_ts {
                (old(self).count + 1) as usize
            } else {
                old(self).count
            },
            final(self).inner == old(self).inner,
            r@ == composed_id(*final(self)),
    {
        let ts = if now > self.last_ts {
            now
        } else {
            self.last_ts
        };
        if ts == self.last_ts {
            self.count = self.count + 1;
        }
        self.last_ts = ts;
        self.compose_id()
    }

    /// Replies to a generate request with a freshly generated id. The id is
    /// built from whatever the clock returned; the state change and the id
    /// text are pinned relative to that reading.
    pub fn generate(&mut self, msg: &Message) -> (r: Message)
        requires
            old(self).count < usize::MAX,
            old(self).inner.next_msg_id < usize::MAX,
        ensures
            final(self).last_ts >= old(self).last_ts,
            final(self).last_ts == old(self).last_ts ==> final(self).count == (old(self).count
                + 1) as usize,
            final(self).last_ts > old(self).last_ts ==> final(self).count == old(self).count,
            final(self).inner == (ServerInner {
                next_msg_id: (old(self).inner.next_msg_id + 1) as usize,
                ..old(self).inner
            }),
            r.wf(),
            r.src@ == old(self).inner.node_id@,
            r.dst@ == msg.src@,
            r.body.kind == BodyKind::GenerateOk,
            r.body.msg_id == old(self).inner.next_msg_id,
            r.body.reply_to == Some(msg.body.msg_id),
            r.body.payload@ == Map::<Seq<char>, ValueView>::empty().insert(
                "id"@,
                ValueView::Str(composed_id(*final(self))),
            ),
    {
        let now = current_time_millis();
        let id = self.generate_id(now);
        let payload = Payload::init("id", Value::Str(id));
        self.inner.make_reply(msg, BodyKind::GenerateOk, payload)
    }

    /// One dispatch decision: routes `msg`, returning the reply to write or
    /// the fatal condition that must end the process.
    pub fn step(&mut self, msg: &Message) -> (r: Result<Option<Message>, Fatal>)
        requires
            msg.wf(),
            old(self).count < usize::MAX,
            old(self).inner.next_msg_id < usize::MAX,
        ensures
            match r {
                Ok(reply) => {
                    &&& unique_id_step_fatal(*old(self), *msg) is None
                    &&& if msg.body.kind == BodyKind::Init {
                        &&& final(self).inner.initialized
                        &&& final(self).inner.node_id@ == msg.body.payload@["node_id"@]->Str_0
                        &&& final(self).inner.next_msg_id == 0
                        &&& reply matches Some(m) && m.body.kind == BodyKind::InitOk
                            && m.src@ == final(self).inner.node_id@ && m.dst@ == msg.src@
                            && m.body.msg_id == 1 && m.body.reply_to == Some(1usize) && m.wf()
                            && m.body.payload@ == Map::<Seq<char>, ValueView>::empty()
                    } else {
                        &&& final(self).inner == (ServerInner {
                            next_msg_id: (old(self).inner.next_msg_id + 1) as usize,
                            ..old(self).inner
                        })
                        &&& reply matches Some(m) && m.body.kind == BodyKind::GenerateOk
                            && m.src@ == old(self).inner.node_id@ && m.dst@ == msg.src@
                            && m.body.msg_id == old(self).inner.next_msg_id
                            && m.body.reply_to == Some(msg.body.msg_id) && m.wf()
                            && m.body.payload@ == Map::<Seq<char>, ValueView>::empty().insert(
                            "id"@,
                            ValueView::Str(composed_id(*final(self))),
                        )
                    }
                },
                Err(e) => {
                    &&& unique_id_step_fatal(*old(self), *msg) == Some(e)
                    &&& *final(self) == *old(self)
                },
            },
    {
        if !self.inner.initialized {
            if !matches!(msg.body.kind, BodyKind::Init) {
                return Err(Fatal::NotInitialized);
            }
            if !msg.body.payload.check_str("node_id") {
                return Err(Fatal::MissingField);
            }
            Ok(self.inner.init(msg))
        } else {
            match msg.body.kind {
                BodyKind::Init => Err(Fatal::DoubleInit),
                BodyKind::Generate => Ok(Some(self.generate(msg))),
                _ => Err(Fatal::UnknownKind),
            }
        }
    }
}

} // verus!
