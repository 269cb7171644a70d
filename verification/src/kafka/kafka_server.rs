//! The commit-log node behavior: append/poll/commit-offset/list-offset
//! requests served over one log store.
use super::storage::{
    all_lines_parse, entries_for, key_ok, next_offset, record_line, valid_key, Storage,
};
use crate::dict::{pairs_to_map, Dict};
use crate::message::{has_str, has_uint, BodyKind, Message, Payload, Value, ValueView};
use crate::server::{Fatal, HasInner, ServerInner};
use vstd::prelude::*;
use vstd::string::*;

verus! {

/// The payload map holds a key→offset list under `k`.
pub open spec fn has_offset_pairs(m: Map<Seq<char>, ValueView>, k: Seq<char>) -> bool {
    m.contains_key(k) && m[k] is OffsetPairs
}

/// The payload map holds a list of strings under `k`.
pub open spec fn has_str_list(m: Map<Seq<char>, ValueView>, k: Seq<char>) -> bool {
    m.contains_key(k) && m[k] is StrList
}

/// The map content of a key→offset pair list: a later pair for the same key
/// overwrites an earlier one.
pub open spec fn opairs_to_map(s: Seq<(Seq<char>, usize)>) -> Map<Seq<char>, usize>
    decreases s.len(),
{
    if s.len() == 0 {
        Map::empty()
    } else {
        opairs_to_map(s.drop_last()).insert(s.last().0, s.last().1)
    }
}

/// The map content of a key→entries pair list.
pub open spec fn epairs_to_map(s: Seq<(Seq<char>, Seq<(usize, usize)>)>) -> Map<
    Seq<char>,
    Seq<(usize, usize)>,
>
    decreases s.len(),
{
    if s.len() == 0 {
        Map::empty()
    } else {
        epairs_to_map(s.drop_last()).insert(s.last().0, s.last().1)
    }
}

/// A commit table overwritten by each pair in order: last write wins, even
/// when it moves a committed offset backwards.
pub open spec fn merge_opairs(m: Map<Seq<char>, usize>, s: Seq<(Seq<char>, usize)>) -> Map<
    Seq<char>,
    usize,
>
    decreases s.len(),
{
    if s.len() == 0 {
        m
    } else {
        merge_opairs(m, s.drop_last()).insert(s.last().0, s.last().1)
    }
}

/// The commit table restricted to the requested keys: keys never committed
/// are absent.
pub open spec fn restricted(m: Map<Seq<char>, usize>, keys: Seq<Seq<char>>) -> Map<
    Seq<char>,
    usize,
>
    decreases keys.len(),
{
    if keys.len() == 0 {
        Map::empty()
    } else {
        let rest = restricted(m, keys.drop_last());
        if m.contains_key(keys.last()) {
            rest.insert(keys.last(), m[keys.last()])
        } else {
            rest
        }
    }
}

/// The deep content of a key→offset pair vector.
pub open spec fn deep_opairs(s: Seq<(String, usize)>) -> Seq<(Seq<char>, usize)> {
    Seq::new(s.len(), |i: int| (s[i].0@, s[i].1))
}

/// The deep content of a key→entries pair vector.
pub open spec fn deep_epairs(s: Seq<(String, Vec<(usize, usize)>)>) -> Seq<
    (Seq<char>, Seq<(usize, usize)>),
> {
    Seq::new(s.len(), |i: int| (s[i].0@, s[i].1.deep_view()))
}

proof fn lemma_opairs_bridge(s: Seq<(String, usize)>)
    ensures
        opairs_to_map(deep_opairs(s)) == pairs_to_map(s),
    decreases s.len(),
{
    if s.len() > 0 {
        lemma_opairs_bridge(s.drop_last());
        assert(deep_opairs(s).drop_last() =~= deep_opairs(s.drop_last()));
        assert(deep_opairs(s).last() == (s.last().0@, s.last().1));
    } else {
        assert(deep_opairs(s) =~= Seq::<(Seq<char>, usize)>::empty());
    }
}

proof fn lemma_epairs_bridge(s: Seq<(String, Vec<(usize, usize)>)>)
    ensures
        epairs_to_map(deep_epairs(s)) == pairs_to_map(s),
    decreases s.len(),
{
    if s.len() > 0 {
        lemma_epairs_bridge(s.drop_last());
        assert(deep_epairs(s).drop_last() =~= deep_epairs(s.drop_last()));
        assert(deep_epairs(s).last() == (s.last().0@, s.last().1.deep_view()));
    } else {
        assert(deep_epairs(s) =~= Seq::<(Seq<char>, Seq<(usize, usize)>)>::empty());
    }
}

/// A node that serves append/poll/commit-offset/list-offset requests over one
/// log store.
#[derive(Debug)]
pub struct KafkaServer {
    pub inner: ServerInner,
    pub storage: Storage,
    /// Key → last committed offset, overwritten (not maximized) on commit.
    pub commit_offsets: Dict<usize>,
}

impl HasInner for KafkaServer {
    fn as_inner(&self) -> (r: &ServerInner)
        ensures
            r == self.inner,
    {
        &self.inner
    }
}

/// Which fatal condition, if any, the commit-log dispatcher reports for `msg`.
pub open spec fn kafka_step_fatal(s: KafkaServer, msg: Message) -> Option<Fatal> {
    if !s.inner.initialized {
        if msg.body.kind != BodyKind::Init {
            Some(Fatal::NotInitialized)
        } else if !has_str(msg.body.payload@, "node_id"@) {
            Some(Fatal::MissingField)
        } else {
            None
        }
    } else {
        match msg.body.kind {
            BodyKind::Init => Some(Fatal::DoubleInit),
            BodyKind::Send => if !has_str(msg.body.payload@, "key"@) || !has_uint(
                msg.body.payload@,
                "msg"@,
            ) {
                Some(Fatal::MissingField)
            } else if !valid_key(msg.body.payload@["key"@]->Str_0) {
                Some(Fatal::BadKey)
            } else {
                None
            },
            BodyKind::Poll => if !has_offset_pairs(msg.body.payload@, "offsets"@) {
                Some(Fatal::MissingField)
            } else if !all_lines_parse(s.storage.lines.deep_view()) {
                Some(Fatal::BadRecord)
            } else {
                None
            },
            BodyKind::CommitOffsets => if !has_offset_pairs(msg.body.payload@, "offsets"@) {
                Some(Fatal::MissingField)
            } else {
                None
            },
            BodyKind::ListCommittedOffsets => if !has_str_list(msg.body.payload@, "keys"@) {
                Some(Fatal::MissingField)
            } else {
                None
            },
            _ => Some(Fatal::UnknownKind),
        }
    }
}

impl KafkaServer {
    /// Both tables keep one entry per key.
    pub open spec fn wf(&self) -> bool {
        self.storage.wf() && self.commit_offsets.wf()
    }

    /// A commit-log node over an already opened log store, not yet
    /// initialized and with nothing committed.
    pub fn new(storage: Storage) -> (r: Self)
        requires
            storage.wf(),
        ensures
            r.wf(),
            r.inner.node_id@ == Seq::<char>::empty(),
            r.inner.next_msg_id == 0,
            !r.inner.initialized,
            r.storage == storage,
            r.commit_offsets@ == Map::<Seq<char>, usize>::empty(),
    {
        KafkaServer { inner: ServerInner::default(), storage, commit_offsets: Dict::new() }
    }

    pub fn storage(&self) -> (r: &Storage)
        ensures
            r == self.storage,
    {
        &self.storage
    }

    /// Appends the `msg` value under `key` and replies with the assigned
    /// offset. Also returns the serialized record line for the caller to
    /// persist.
    fn send(&mut self, msg: &Message) -> (r: (Message, String))
        requires
            msg.wf(),
            old(self).wf(),
            has_str(msg.body.payload@, "key"@),
            has_uint(msg.body.payload@, "msg"@),
            valid_key(msg.body.payload@["key"@]->Str_0),
            old(self).inner.next_msg_id < usize::MAX,
            old(self).storage.offsets@.contains_key(msg.body.payload@["key"@]->Str_0) ==> old(
                self,
            ).storage.offsets@[msg.body.payload@["key"@]->Str_0] < usize::MAX,
        ensures
            ({
                let key = msg.body.payload@["key"@]->Str_0;
                let value = msg.body.payload@["msg"@]->UInt_0;
                let offset = next_offset(old(self).storage.offsets@, key);
                &&& final(self).wf()
                &&& final(self).storage.offsets@ == old(self).storage.offsets@.insert(
                    key,
                    offset as usize,
                )
                &&& final(self).storage.lines.deep_view() == old(
                    self,
                ).storage.lines.deep_view().push(record_line(offset as usize, key, value))
                &&& final(self).storage.log_name == old(self).storage.log_name
                &&& final(self).commit_offsets == old(self).commit_offsets
                &&& final(self).inner == (ServerInner {
                    next_msg_id: (old(self).inner.next_msg_id + 1) as usize,
                    ..old(self).inner
                })
                &&& r.1@ == record_line(offset as usize, key, value)
                &&& r.0.wf()
                &&& r.0.src@ == old(self).inner.node_id@
                &&& r.0.dst@ == msg.src@
                &&& r.0.body.kind == BodyKind::SendOk
                &&& r.0.body.msg_id == old(self).inner.next_msg_id
                &&& r.0.body.reply_to == Some(msg.body.msg_id)
                &&& r.0.body.payload@ == Map::<Seq<char>, ValueView>::empty().insert(
                    "offset"@,
                    ValueView::UInt(offset as usize),
                )
            }),
    {
        let key = msg.body.payload.get_str("key").to_owned();
        let value = msg.body.payload.get_usize("msg");
        let (offset, line) = self.storage.append(key.as_str(), value);
        let payload = Payload::init("offset", Value::UInt(offset));
        let reply = self.inner.make_reply(msg, BodyKind::SendOk, payload);
        (reply, line)
    }

    /// Returns, per requested key, the log entries at or past the requested
    /// start offset. Fails exactly when a line of the log is not a record.
    pub fn poll(&mut self, msg: &Message) -> (r: Result<Message, Fatal>)
        requires
            msg.wf(),
            old(self).wf(),
            has_offset_pairs(msg.body.payload@, "offsets"@),
            old(self).inner.next_msg_id < usize::MAX,
        ensures
            match r {
                Ok(reply) => {
                    let req = opairs_to_map(msg.body.payload@["offsets"@]->OffsetPairs_0);
                    let lines = old(self).storage.lines.deep_view();
                    &&& all_lines_parse(lines)
                    &&& *final(self) == (KafkaServer {
                        inner: ServerInner {
                            next_msg_id: (old(self).inner.next_msg_id + 1) as usize,
                            ..old(self).inner
                        },
                        ..*old(self)
                    })
                    &&& reply.wf()
                    &&& reply.src@ == old(self).inner.node_id@
                    &&& reply.dst@ == msg.src@
                    &&& reply.body.kind == BodyKind::PollOk
                    &&& reply.body.msg_id == old(self).inner.next_msg_id
                    &&& reply.body.reply_to == Some(msg.body.msg_id)
                    &&& reply.body.payload@.dom() =~= set!["msgs"@]
                    &&& reply.body.payload@["msgs"@] matches ValueView::EntryLists(es) && {
                        let found = epairs_to_map(es);
                        &&& forall|k: Seq<char>|
                            req.contains_key(k) ==> {
                                let e = entries_for(lines, k, req[k]);
                                &&& (e.len() > 0 ==> found.contains_key(k) && found[k] == e)
                                &&& (e.len() == 0 ==> !found.contains_key(k))
                            }
                        &&& forall|k: Seq<char>| found.contains_key(k) ==> req.contains_key(k)
                    }
                },
                Err(e) => {
                    &&& e == Fatal::BadRecord
                    &&& !all_lines_parse(old(self).storage.lines.deep_view())
                    &&& *final(self) == *old(self)
                },
            },
    {
        let raw = msg.body.payload.get_raw("offsets");
        let mut req: Dict<usize> = Dict::new();
        match raw {
            Value::OffsetPairs(pairs) => {
                let ghost all = deep_opairs(pairs@);
                let n = pairs.len();
                let mut i: usize = 0;
                while i < n
                    invariant
                        i <= n == pairs@.len(),
                        all == deep_opairs(pairs@),
                        req.wf(),
                        req@ == opairs_to_map(all.take(i as int)),
                    decreases n - i,
                {
                    req.insert(pairs[i].0.clone(), pairs[i].1);
                    proof {
                        assert(all.take(i + 1).drop_last() =~= all.take(i as int));
                        assert(all.take(i + 1).last() == all[i as int]);
                        assert(all[i as int] == (pairs@[i as int].0@, pairs@[i as int].1));
                    }
                    i = i + 1;
                }
                proof {
                    assert(all.take(n as int) =~= all);
                    assert(pairs.deep_view() =~= all);
                }
            },
            _ => {
                proof {
                    assert(false);
                }
            },
        }
        let found = match self.storage.read_from(&req) {
            Ok(found) => found,
            Err(e) => {
                return Err(e);
            },
        };
        let es = clone_entry_pairs(found.borrow_pairs());
        proof {
            assert(es.deep_view() =~= deep_epairs(es@));
            lemma_epairs_bridge(es@);
        }
        let payload = Payload::init("msgs", Value::EntryLists(es));
        Ok(self.inner.make_reply(msg, BodyKind::PollOk, payload))
    }

    /// Overwrites the committed offset of each listed key with the given
    /// value — last write wins, even backwards.
    pub fn commit_offsets(&mut self, msg: &Message) -> (r: Message)
        requires
            msg.wf(),
            old(self).wf(),
            has_offset_pairs(msg.body.payload@, "offsets"@),
            old(self).inner.next_msg_id < usize::MAX,
        ensures
            final(self).wf(),
            final(self).commit_offsets@ == merge_opairs(
                old(self).commit_offsets@,
                msg.body.payload@["offsets"@]->OffsetPairs_0,
            ),
            final(self).storage == old(self).storage,
            final(self).inner == (ServerInner {
                next_msg_id: (old(self).inner.next_msg_id + 1) as usize,
                ..old(self).inner
            }),
            r.wf(),
            r.src@ == old(self).inner.node_id@,
            r.dst@ == msg.src@,
            r.body.kind == BodyKind::CommitOffsetsOk,
            r.body.msg_id == old(self).inner.next_msg_id,
            r.body.reply_to == Some(msg.body.msg_id),
            r.body.payload@ == Map::<Seq<char>, ValueView>::empty(),
    {
        let raw = msg.body.payload.get_raw("offsets");
        match raw {
            Value::OffsetPairs(pairs) => {
                self.merge_offsets(pairs);
                proof {
                    assert(pairs.deep_view() =~= deep_opairs(pairs@));
                }
            },
            _ => {
                proof {
                    assert(false);
                }
            },
        }
        self.inner.make_reply(msg, BodyKind::CommitOffsetsOk, Payload::default())
    }

    /// Overwrites committed offsets pair by pair, in order.
    fn merge_offsets(&mut self, pairs: &Vec<(String, usize)>)
        requires
            old(self).wf(),
        ensures
            final(self).wf(),
            final(self).commit_offsets@ == merge_opairs(
                old(self).commit_offsets@,
                deep_opairs(pairs@),
            ),
            final(self).storage == old(self).storage,
            final(self).inner == old(self).inner,
    {
        let ghost all = deep_opairs(pairs@);
        let ghost m0 = self.commit_offsets@;
        let n = pairs.len();
        let mut i: usize = 0;
        while i < n
            invariant
                i <= n == pairs@.len(),
                all == deep_opairs(pairs@),
                self.wf(),
                self.commit_offsets@ == merge_opairs(m0, all.take(i as int)),
                self.storage == old(self).storage,
                self.inner == old(self).inner,
            decreases n - i,
        {
            self.commit_offsets.insert(pairs[i].0.clone(), pairs[i].1);
            proof {
                assert(all.take(i + 1).drop_last() =~= all.take(i as int));
                assert(all.take(i + 1).last() == all[i as int]);
                assert(all[i as int] == (pairs@[i as int].0@, pairs@[i as int].1));
            }
            i = i + 1;
        }
        proof {
            assert(all.take(n as int) =~= all);
        }
    }

    /// Returns the committed offsets of the requested keys; keys with no
    /// prior commit are absent from the result.
    pub fn list_committed_offsets(&mut self, msg: &Message) -> (r: Message)
        requires
            msg.wf(),
            old(self).wf(),
            has_str_list(msg.body.payload@, "keys"@),
            old(self).inner.next_msg_id < usize::MAX,
        ensures
            ({
                let keys = msg.body.payload@["keys"@]->StrList_0;
                &&& final(self).wf()
                &&& final(self).commit_offsets == old(self).commit_offsets
                &&& final(self).storage == old(self).storage
                &&& final(self).inner == (ServerInner {
                    next_msg_id: (old(self).inner.next_msg_id + 1) as usize,
                    ..old(self).inner
                })
                &&& r.wf()
                &&& r.src@ == old(self).inner.node_id@
                &&& r.dst@ == msg.src@
                &&& r.body.kind == BodyKind::ListCommittedOffsetsOk
                &&& r.body.msg_id == old(self).inner.next_msg_id
                &&& r.body.reply_to == Some(msg.body.msg_id)
                &&& r.body.payload@.dom() =~= set!["offsets"@]
                &&& r.body.payload@["offsets"@] matches ValueView::OffsetPairs(ls)
                    && opairs_to_map(ls) == restricted(old(self).commit_offsets@, keys)
            }),
    {
        let raw = msg.body.payload.get_raw("keys");
        let mut res: Dict<usize> = Dict::new();
        match raw {
            Value::StrList(keys) => {
                let ghost all = keys.deep_view();
                let ghost m = self.commit_offsets@;
                let n = keys.len();
                let mut i: usize = 0;
                while i < n
                    invariant
                        i <= n == keys@.len(),
                        all == keys.deep_view(),
                        self.wf(),
                        res.wf(),
                        res@ == restricted(m, all.take(i as int)),
                        m == self.commit_offsets@,
                    decreases n - i,
                {
                    match self.commit_offsets.get(keys[i].as_str()) {
                        Some(v) => {
                            res.insert(keys[i].clone(), *v);
                        },
                        None => {},
                    }
                    proof {
                        assert(all.take(i + 1).drop_last() =~= all.take(i as int));
                        assert(all.take(i + 1).last() == all[i as int]);
                        assert(all[i as int] == keys@[i as int]@);
                    }
                    i = i + 1;
                }
                proof {
                    assert(all.take(n as int) =~= all);
                }
            },
            _ => {
                proof {
                    assert(false);
                }
            },
        }
        let ls = clone_offset_pairs(res.borrow_pairs());
        proof {
            assert(ls.deep_view() =~= deep_opairs(ls@));
            lemma_opairs_bridge(ls@);
        }
        let payload = Payload::init("offsets", Value::OffsetPairs(ls));
        self.inner.make_reply(msg, BodyKind::ListCommittedOffsetsOk, payload)
    }

    /// One dispatch decision: routes `msg`, returning the reply to write and,
    /// for an append, the record line the caller must persist — or the fatal
    /// condition that must end the process.
    pub fn step(&mut self, msg: &Message) -> (r: Result<
        (Option<Message>, Option<String>),
        Fatal,
    >)
        requires
            msg.wf(),
            old(self).wf(),
            old(self).inner.next_msg_id < usize::MAX,
            msg.body.kind == BodyKind::Send && has_str(msg.body.payload@, "key"@) && old(
                self,
            ).storage.offsets@.contains_key(msg.body.payload@["key"@]->Str_0) ==> old(
                self,
            ).storage.offsets@[msg.body.payload@["key"@]->Str_0] < usize::MAX,
        ensures
            match r {
                Err(e) => {
                    &&& kafka_step_fatal(*old(self), *msg) == Some(e)
                    &&& *final(self) == *old(self)
                },
                Ok(out) => {
                    let reply = out.0;
                    let persist = out.1;
                    &&& kafka_step_fatal(*old(self), *msg) is None
                    &&& final(self).wf()
                    &&& match msg.body.kind {
                        BodyKind::Init => {
                            &&& final(self).inner.initialized
                            &&& final(self).inner.node_id@ == msg.body.payload@["node_id"@]->Str_0
                            &&& final(self).inner.next_msg_id == 0
                            &&& final(self).storage == old(self).storage
                            &&& final(self).commit_offsets == old(self).commit_offsets
                            &&& persist is None
                            &&& reply matches Some(m) && m.wf() && m.body.kind == BodyKind::InitOk
                                && m.src@ == final(self).inner.node_id@ && m.dst@ == msg.src@
                                && m.body.msg_id == 1 && m.body.reply_to == Some(1usize)
                                && m.body.payload@ == Map::<Seq<char>, ValueView>::empty()
                        },
                        BodyKind::Send => {
                            let key = msg.body.payload@["key"@]->Str_0;
                            let value = msg.body.payload@["msg"@]->UInt_0;
                            let offset = next_offset(old(self).storage.offsets@, key);
                            &&& final(self).storage.offsets@ == old(
                                self,
                            ).storage.offsets@.insert(key, offset as usize)
                            &&& final(self).storage.lines.deep_view() == old(
                                self,
                            ).storage.lines.deep_view().push(
                                record_line(offset as usize, key, value),
                            )
                            &&& final(self).commit_offsets == old(self).commit_offsets
                            &&& final(self).inner == (ServerInner {
                                next_msg_id: (old(self).inner.next_msg_id + 1) as usize,
                                ..old(self).inner
                            })
                            &&& persist matches Some(line) && line@ == record_line(
                                offset as usize,
                                key,
                                value,
                            )
                            &&& reply matches Some(m) && m.wf() && m.body.kind == BodyKind::SendOk
                                && m.src@ == old(self).inner.node_id@ && m.dst@ == msg.src@
                                && m.body.msg_id == old(self).inner.next_msg_id
                                && m.body.reply_to == Some(msg.body.msg_id) && m.body.payload@
                                == Map::<Seq<char>, ValueView>::empty().insert(
                                "offset"@,
                                ValueView::UInt(offset as usize),
                            )
                        },
                        BodyKind::Poll => {
                            let req = opairs_to_map(msg.body.payload@["offsets"@]->OffsetPairs_0);
                            let lines = old(self).storage.lines.deep_view();
                            &&& *final(self) == (KafkaServer {
                                inner: ServerInner {
                                    next_msg_id: (old(self).inner.next_msg_id + 1) as usize,
                                    ..old(self).inner
                                },
                                ..*old(self)
                            })
                            &&& persist is None
                            &&& reply matches Some(m) && m.wf() && m.body.kind == BodyKind::PollOk
                                && m.src@ == old(self).inner.node_id@ && m.dst@ == msg.src@
                                && m.body.msg_id == old(self).inner.next_msg_id
                                && m.body.reply_to == Some(msg.body.msg_id)
                                && m.body.payload@.dom() =~= set!["msgs"@]
                                && (m.body.payload@["msgs"@] matches ValueView::EntryLists(es) && {
                                let found = epairs_to_map(es);
                                &&& forall|k: Seq<char>|
                                    req.contains_key(k) ==> {
                                        let e = entries_for(lines, k, req[k]);
                                        &&& (e.len() > 0 ==> found.contains_key(k) && found[k]
                                            == e)
                                        &&& (e.len() == 0 ==> !found.contains_key(k))
                                    }
                                &&& forall|k: Seq<char>|
                                    found.contains_key(k) ==> req.contains_key(k)
                            })
                        },
                        BodyKind::CommitOffsets => {
                            &&& final(self).commit_offsets@ == merge_opairs(
                                old(self).commit_offsets@,
                                msg.body.payload@["offsets"@]->OffsetPairs_0,
                            )
                            &&& final(self).storage == old(self).storage
                            &&& final(self).inner == (ServerInner {
                                next_msg_id: (old(self).inner.next_msg_id + 1) as usize,
                                ..old(self).inner
                            })
                            &&& persist is None
                            &&& reply matches Some(m) && m.wf() && m.body.kind
                                == BodyKind::CommitOffsetsOk && m.src@ == old(self).inner.node_id@
                                && m.dst@ == msg.src@ && m.body.msg_id == old(self).inner.next_msg_id
                                && m.body.reply_to == Some(msg.body.msg_id) && m.body.payload@
                                == Map::<Seq<char>, ValueView>::empty()
                        },
                        BodyKind::ListCommittedOffsets => {
                            let keys = msg.body.payload@["keys"@]->StrList_0;
                            &&& final(self).commit_offsets == old(self).commit_offsets
                            &&& final(self).storage == old(self).storage
                            &&& final(self).inner == (ServerInner {
                                next_msg_id: (old(self).inner.next_msg_id + 1) as usize,
                                ..old(self).inner
                            })
                            &&& persist is None
                            &&& reply matches Some(m) && m.wf() && m.body.kind
                                == BodyKind::ListCommittedOffsetsOk && m.src@ == old(
                                self,
                            ).inner.node_id@ && m.dst@ == msg.src@ && m.body.msg_id == old(
                                self,
                            ).inner.next_msg_id && m.body.reply_to == Some(msg.body.msg_id)
                                && m.body.payload@.dom() =~= set!["offsets"@]
                                && (m.body.payload@["offsets"@] matches ValueView::OffsetPairs(ls)
                                && opairs_to_map(ls) == restricted(
                                old(self).commit_offsets@,
                                keys,
                            ))
                        },
                        _ => false,
                    }
                },
            },
    {
        if !self.inner.initialized {
            if !matches!(msg.body.kind, BodyKind::Init) {
                return Err(Fatal::NotInitialized);
            }
            if !msg.body.payload.check_str("node_id") {
                return Err(Fatal::MissingField);
            }
            let reply = self.inner.init(msg);
            Ok((reply, None))
        } else {
            match msg.body.kind {
                BodyKind::Init => Err(Fatal::DoubleInit),
                BodyKind::Send => {
                    if !msg.body.payload.check_str("key") || !msg.body.payload.check_uint("msg") {
                        return Err(Fatal::MissingField);
                    }
                    if !key_ok(msg.body.payload.get_str("key")) {
                        return Err(Fatal::BadKey);
                    }
                    let (reply, line) = self.send(msg);
                    Ok((Some(reply), Some(line)))
                },
                BodyKind::Poll => {
                    let ok = match msg.body.payload.get("offsets") {
                        Some(Value::OffsetPairs(_)) => true,
                        _ => false,
                    };
                    if !ok {
                        return Err(Fatal::MissingField);
                    }
                    match self.poll(msg) {
                        Ok(reply) => Ok((Some(reply), None)),
                        Err(e) => Err(e),
                    }
                },
                BodyKind::CommitOffsets => {
                    let ok = match msg.body.payload.get("offsets") {
                        Some(Value::OffsetPairs(_)) => true,
                        _ => false,
                    };
                    if !ok {
                        return Err(Fatal::MissingField);
                    }
                    let reply = self.commit_offsets(msg);
                    Ok((Some(reply), None))
                },
                BodyKind::ListCommittedOffsets => {
                    let ok = match msg.body.payload.get("keys") {
                        Some(Value::StrList(_)) => true,
                        _ => false,
                    };
                    if !ok {
                        return Err(Fatal::MissingField);
                    }
                    let reply = self.list_committed_offsets(msg);
                    Ok((Some(reply), None))
                },
                _ => Err(Fatal::UnknownKind),
            }
        }
    }
}

/// Copies a vector of key→offset pairs.
fn clone_offset_pairs(v: &Vec<(String, usize)>) -> (r: Vec<(String, usize)>)
    ensures
        r@.len() == v@.len(),
        deep_opairs(r@) == deep_opairs(v@),
        pairs_to_map(r@) == pairs_to_map(v@),
{
    let mut r: Vec<(String, usize)> = Vec::new();
    let n = v.len();
    let mut i: usize = 0;
    while i < n
        invariant
            i <= n == v@.len(),
            r@.len() == i,
            forall|j: int| 0 <= j < i ==> r@[j].0@ == v@[j].0@ && r@[j].1 == v@[j].1,
        decreases n - i,
    {
        r.push((v[i].0.clone(), v[i].1));
        i = i + 1;
    }
    proof {
        assert(deep_opairs(r@) =~= deep_opairs(v@));
        lemma_pairs_to_map_by_content(r@, v@);
    }
    r
}

/// Copies a vector of key→entries pairs.
fn clone_entry_pairs(v: &Vec<(String, Vec<(usize, usize)>)>) -> (r: Vec<
    (String, Vec<(usize, usize)>),
>)
    ensures
        r@.len() == v@.len(),
        deep_epairs(r@) == deep_epairs(v@),
        pairs_to_map(r@) == pairs_to_map(v@),
{
    let mut r: Vec<(String, Vec<(usize, usize)>)> = Vec::new();
    let n = v.len();
    let mut i: usize = 0;
    while i < n
        invariant
            i <= n == v@.len(),
            r@.len() == i,
            forall|j: int|
                0 <= j < i ==> (#[trigger] r@[j]).0@ == v@[j].0@ && r@[j].1@ == v@[j].1@,
        decreases n - i,
    {
        let entries = clone_uint_pairs(&v[i].1);
        r.push((v[i].0.clone(), entries));
        proof {
            assert(r@[i as int].0@ == v@[i as int].0@);
            assert((r@[i as int].1)@ == v@[i as int].1@);
        }
        i = i + 1;
    }
    proof {
        assert forall|j: int| 0 <= j < v@.len() implies (#[trigger] deep_epairs(r@)[j])
            == deep_epairs(v@)[j] by {
            assert(r@[j].1.deep_view() =~= v@[j].1.deep_view());
        }
        assert(deep_epairs(r@) =~= deep_epairs(v@));
        lemma_epairs_to_map_by_content(r@, v@);
    }
    r
}

/// Copies a vector of offset/value pairs.
fn clone_uint_pairs(v: &Vec<(usize, usize)>) -> (r: Vec<(usize, usize)>)
    ensures
        r@ == v@,
{
    let mut r: Vec<(usize, usize)> = Vec::new();
    let n = v.len();
    let mut i: usize = 0;
    while i < n
        invariant
            i <= n == v@.len(),
            r@ == v@.take(i as int),
        decreases n - i,
    {
        r.push((v[i].0, v[i].1));
        proof {
            assert(v@[i as int] == (v@[i as int].0, v@[i as int].1));
            assert(v@.take(i + 1) =~= v@.take(i as int).push(v@[i as int]));
        }
        i = i + 1;
    }
    proof {
        assert(v@.take(n as int) =~= v@);
    }
    r
}

proof fn lemma_pairs_to_map_by_content(a: Seq<(String, usize)>, b: Seq<(String, usize)>)
    requires
        a.len() == b.len(),
        forall|j: int| 0 <= j < a.len() ==> a[j].0@ == b[j].0@ && a[j].1 == b[j].1,
    ensures
        pairs_to_map(a) == pairs_to_map(b),
    decreases a.len(),
{
    if a.len() > 0 {
        lemma_pairs_to_map_by_content(a.drop_last(), b.drop_last());
        assert(a.drop_last().len() == b.drop_last().len());
    }
}

proof fn lemma_epairs_to_map_by_content(
    a: Seq<(String, Vec<(usize, usize)>)>,
    b: Seq<(String, Vec<(usize, usize)>)>,
)
    requires
        a.len() == b.len(),
        forall|j: int| 0 <= j < a.len() ==> (#[trigger] a[j]).0@ == b[j].0@ && a[j].1@ == b[j].1@,
    ensures
        pairs_to_map(a) == pairs_to_map(b),
    decreases a.len(),
{
    if a.len() > 0 {
        assert forall|j: int|
            0 <= j < a.len() - 1 implies (#[trigger] a.drop_last()[j]).0@ == b.drop_last()[j].0@
            && a.drop_last()[j].1@ == b.drop_last()[j].1@ by {
            assert(a.drop_last()[j] == a[j]);
            assert(b.drop_last()[j] == b[j]);
            assert((a[j]).0@ == b[j].0@ && a[j].1@ == b[j].1@);
        }
        lemma_epairs_to_map_by_content(a.drop_last(), b.drop_last());
        assert(a.last().1.deep_view() =~= b.last().1.deep_view());
    }
}

} // verus!
