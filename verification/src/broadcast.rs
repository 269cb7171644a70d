//! The topology-aware gossip broadcaster: an ordered local log of received
//! values, a replaceable topology, and one forwarding cursor per neighbor.
//!
//! Forwarding is fire-and-forget: no acknowledgement tracking, no retry, and
//! no deduplication against values a neighbor may already hold from another
//! path, so delivery is best-effort.
use crate::dict::Dict;
use crate::message::{has_str, has_uint, Body, BodyKind, Message, Payload, Value, ValueView};
use crate::server::{Fatal, HasInner, ServerInner};
use vstd::prelude::*;
use vstd::string::*;

verus! {

/// A node that gossips broadcast values to its neighbors.
#[derive(Debug)]
pub struct BroadcastServer {
    pub inner: ServerInner,
    /// The local ordered log of received broadcast values.
    pub messages: Vec<usize>,
    /// Per neighbor, how many local values were already forwarded to it.
    pub sent_idx_map: Dict<usize>,
    /// Node id → its neighbors, replaced wholesale by each topology message.
    pub topology: Dict<Vec<String>>,
}

impl Default for BroadcastServer {
    fn default() -> (r: Self)
        ensures
            r.wf(),
            r.inner.node_id@ == Seq::<char>::empty(),
            r.inner.next_msg_id == 0,
            !r.inner.initialized,
            r.messages@ == Seq::<usize>::empty(),
            r.sent_idx_map@ == Map::<Seq<char>, usize>::empty(),
            r.topology@ == Map::<Seq<char>, Seq<Seq<char>>>::empty(),
    {
        BroadcastServer {
            inner: ServerInner::default(),
            messages: Vec::new(),
            sent_idx_map: Dict::new(),
            topology: Dict::new(),
        }
    }
}

impl HasInner for BroadcastServer {
    fn as_inner(&self) -> (r: &ServerInner)
        ensures
            r == self.inner,
    {
        &self.inner
    }
}

/// The map content of a topology payload: a later list for the same node
/// overwrites an earlier one.
pub open spec fn nlists_to_map(s: Seq<(Seq<char>, Seq<Seq<char>>)>) -> Map<Seq<char>, Seq<Seq<char>>>
    decreases s.len(),
{
    if s.len() == 0 {
        Map::empty()
    } else {
        nlists_to_map(s.drop_last()).insert(s.last().0, s.last().1)
    }
}

/// How many local values were already forwarded to neighbor `n`: the cursor,
/// or 0 for a neighbor never forwarded to.
pub open spec fn cursor_of(c: Map<Seq<char>, usize>, n: Seq<char>) -> usize {
    if c.contains_key(n) {
        c[n]
    } else {
        0
    }
}

/// The `(destination, value)` pairs owed to neighbor `n` whose cursor is
/// `sent`: one pair per not-yet-forwarded local value, in log order.
pub open spec fn delta_for(n: Seq<char>, sent: usize, msgs: Seq<usize>) -> Seq<(Seq<char>, usize)> {
    if sent < msgs.len() {
        Seq::new((msgs.len() - sent) as nat, |i: int| (n, msgs[sent + i]))
    } else {
        Seq::empty()
    }
}

/// The full forward batch: each neighbor's delta in neighbor-list order, each
/// neighbor's cursor moving to the log length as soon as it is served (so a
/// neighbor listed twice is served once).
pub open spec fn forward_batch(
    nbrs: Seq<Seq<char>>,
    c: Map<Seq<char>, usize>,
    msgs: Seq<usize>,
) -> Seq<(Seq<char>, usize)>
    decreases nbrs.len(),
{
    if nbrs.len() == 0 {
        Seq::empty()
    } else {
        delta_for(nbrs[0], cursor_of(c, nbrs[0]), msgs) + forward_batch(
            nbrs.drop_first(),
            c.insert(nbrs[0], msgs.len() as usize),
            msgs,
        )
    }
}

/// The cursor table after a batch: every listed neighbor's cursor is the log
/// length.
pub open spec fn cursors_after(
    nbrs: Seq<Seq<char>>,
    c: Map<Seq<char>, usize>,
    total: usize,
) -> Map<Seq<char>, usize>
    decreases nbrs.len(),
{
    if nbrs.len() == 0 {
        c
    } else {
        cursors_after(nbrs.drop_first(), c.insert(nbrs[0], total), total)
    }
}

/// A batch emits at most one message per neighbor per local value.
pub proof fn lemma_forward_batch_len(nbrs: Seq<Seq<char>>, c: Map<Seq<char>, usize>, msgs: Seq<
    usize,
>)
    ensures
        forward_batch(nbrs, c, msgs).len() <= nbrs.len() * msgs.len(),
    decreases nbrs.len(),
{
    if nbrs.len() == 0 {
    } else {
        lemma_forward_batch_len(nbrs.drop_first(), c.insert(nbrs[0], msgs.len() as usize), msgs);
        assert((nbrs.len() - 1) * msgs.len() + msgs.len() == nbrs.len() * msgs.len())
            by (nonlinear_arith);
    }
}

/// The shape of one forward envelope: a broadcast of `value` to `dst` from
/// `src`, carrying message id `id`, not correlated to any request.
pub open spec fn is_forward(m: Message, src: Seq<char>, dst: Seq<char>, value: usize, id: int) -> bool {
    &&& m.wf()
    &&& m.src@ == src
    &&& m.dst@ == dst
    &&& m.body.kind == BodyKind::Broadcast
    &&& m.body.msg_id == id
    &&& m.body.reply_to is None
    &&& m.body.payload@ == Map::<Seq<char>, ValueView>::empty().insert(
        "message"@,
        ValueView::UInt(value),
    )
}

/// The payload map holds a topology under `k`.
pub open spec fn has_topology(m: Map<Seq<char>, ValueView>, k: Seq<char>) -> bool {
    m.contains_key(k) && m[k] is NodeLists
}

/// Which fatal condition, if any, the broadcast dispatcher reports for `msg`.
pub open spec fn broadcast_step_fatal(s: BroadcastServer, msg: Message) -> Option<Fatal> {
    if !s.inner.initialized {
        if msg.body.kind != BodyKind::Init {
            Some(Fatal::NotInitialized)
        } else if !has_str(msg.body.payload@, "node_id"@) {
            Some(Fatal::MissingField)
        } else {
            None
        }
    } else {
        match msg.body.kind {
            BodyKind::Init => Some(Fatal::DoubleInit),
            BodyKind::Broadcast => if !has_uint(msg.body.payload@, "message"@) {
                Some(Fatal::MissingField)
            } else {
                None
            },
            BodyKind::Read => None,
            BodyKind::Topology => if !has_topology(msg.body.payload@, "topology"@) {
                Some(Fatal::MissingField)
            } else {
                None
            },
            BodyKind::BroadcastOk => None,
            _ => Some(Fatal::UnknownKind),
        }
    }
}

/// The node id after the reply phase of a dispatch iteration.
pub open spec fn mid_node_id(s: BroadcastServer, msg: Message) -> Seq<char> {
    if msg.body.kind == BodyKind::Init {
        msg.body.payload@["node_id"@]->Str_0
    } else {
        s.inner.node_id@
    }
}

/// The outbound counter after the reply phase.
pub open spec fn mid_next_msg_id(s: BroadcastServer, msg: Message) -> int {
    match msg.body.kind {
        BodyKind::Init => 0,
        BodyKind::BroadcastOk => s.inner.next_msg_id as int,
        _ => s.inner.next_msg_id + 1,
    }
}

/// The local log after the reply phase.
pub open spec fn mid_messages(s: BroadcastServer, msg: Message) -> Seq<usize> {
    if msg.body.kind == BodyKind::Broadcast {
        s.messages@.push(msg.body.payload@["message"@]->UInt_0)
    } else {
        s.messages@
    }
}

/// The topology after the reply phase.
pub open spec fn mid_topology(s: BroadcastServer, msg: Message) -> Map<Seq<char>, Seq<Seq<char>>> {
    if msg.body.kind == BodyKind::Topology {
        nlists_to_map(msg.body.payload@["topology"@]->NodeLists_0)
    } else {
        s.topology@
    }
}

/// This node's neighbor list after the reply phase (empty until a topology
/// entry for it exists).
pub open spec fn mid_neighbors(s: BroadcastServer, msg: Message) -> Seq<Seq<char>> {
    if mid_topology(s, msg).contains_key(mid_node_id(s, msg)) {
        mid_topology(s, msg)[mid_node_id(s, msg)]
    } else {
        Seq::empty()
    }
}

/// An upper bound on how many forwards one dispatch iteration can emit.
pub open spec fn step_forward_bound(s: BroadcastServer, msg: Message) -> nat {
    mid_neighbors(s, msg).len() * mid_messages(s, msg).len()
}

impl BroadcastServer {
    /// Both tables keep one entry per key.
    pub open spec fn wf(&self) -> bool {
        self.sent_idx_map.wf() && self.topology.wf()
    }

    /// Stores a broadcast value on the local log and acknowledges it.
    pub fn broadcast(&mut self, msg: &Message) -> (r: Message)
        requires
            msg.wf(),
            old(self).wf(),
            has_uint(msg.body.payload@, "message"@),
            old(self).inner.next_msg_id < usize::MAX,
            old(self).messages@.len() < usize::MAX,
        ensures
            final(self).wf(),
            final(self).messages@ == old(self).messages@.push(
                msg.body.payload@["message"@]->UInt_0,
            ),
            final(self).inner == (ServerInner {
                next_msg_id: (old(self).inner.next_msg_id + 1) as usize,
                ..old(self).inner
            }),
            final(self).sent_idx_map == old(self).sent_idx_map,
            final(self).topology == old(self).topology,
            r.wf(),
            r.src@ == old(self).inner.node_id@,
            r.dst@ == msg.src@,
            r.body.kind == BodyKind::BroadcastOk,
            r.body.msg_id == old(self).inner.next_msg_id,
            r.body.reply_to == Some(msg.body.msg_id),
            r.body.payload@ == Map::<Seq<char>, ValueView>::empty(),
    {
        let value = msg.body.payload.get_usize("message");
        self.messages.push(value);
        self.inner.make_reply(msg, BodyKind::BroadcastOk, Payload::default())
    }

    /// Replies with the full local log contents.
    pub fn read(&mut self, msg: &Message) -> (r: Message)
        requires
            msg.wf(),
            old(self).wf(),
            old(self).inner.next_msg_id < usize::MAX,
        ensures
            final(self).wf(),
            final(self).messages@ == old(self).messages@,
            final(self).inner == (ServerInner {
                next_msg_id: (old(self).inner.next_msg_id + 1) as usize,
                ..old(self).inner
            }),
            final(self).sent_idx_map == old(self).sent_idx_map,
            final(self).topology == old(self).topology,
            r.wf(),
            r.src@ == old(self).inner.node_id@,
            r.dst@ == msg.src@,
            r.body.kind == BodyKind::ReadOk,
            r.body.msg_id == old(self).inner.next_msg_id,
            r.body.reply_to == Some(msg.body.msg_id),
            r.body.payload@ == Map::<Seq<char>, ValueView>::empty().insert(
                "messages"@,
                ValueView::UIntList(old(self).messages@),
            ),
    {
        let copied = clone_uints(&self.messages);
        let payload = Payload::init("messages", Value::UIntList(copied));
        self.inner.make_reply(msg, BodyKind::ReadOk, payload)
    }

    /// Replaces the topology wholesale. Cursors for still-present neighbors
    /// are preserved: earlier forwards are assumed to have reached them even
    /// across topology changes.
    pub fn topology(&mut self, msg: &Message) -> (r: Message)
        requires
            msg.wf(),
            old(self).wf(),
            has_topology(msg.body.payload@, "topology"@),
            old(self).inner.next_msg_id < usize::MAX,
        ensures
            final(self).wf(),
            final(self).messages@ == old(self).messages@,
            final(self).inner == (ServerInner {
                next_msg_id: (old(self).inner.next_msg_id + 1) as usize,
                ..old(self).inner
            }),
            final(self).sent_idx_map == old(self).sent_idx_map,
            final(self).topology@ == nlists_to_map(msg.body.payload@["topology"@]->NodeLists_0),
            r.wf(),
            r.src@ == old(self).inner.node_id@,
            r.dst@ == msg.src@,
            r.body.kind == BodyKind::TopologyOk,
            r.body.msg_id == old(self).inner.next_msg_id,
            r.body.reply_to == Some(msg.body.msg_id),
            r.body.payload@ == Map::<Seq<char>, ValueView>::empty(),
    {
        let raw = msg.body.payload.get_raw("topology");
        let mut topo: Dict<Vec<String>> = Dict::new();
        match raw {
            Value::NodeLists(lists) => {
                let ghost all = lists.deep_view();
                let n = lists.len();
                let mut i: usize = 0;
                while i < n
                    invariant
                        i <= n == lists@.len(),
                        all == lists.deep_view(),
                        topo.wf(),
                        topo@ == nlists_to_map(all.take(i as int)),
                    decreases n - i,
                {
                    let key = lists[i].0.clone();
                    let nbrs = clone_strings(&lists[i].1);
                    topo.insert(key, nbrs);
                    proof {
                        assert(all.take(i + 1).drop_last() =~= all.take(i as int));
                        assert(all.take(i + 1).last() == all[i as int]);
                    }
                    i = i + 1;
                }
                proof {
                    assert(all.take(n as int) =~= all);
                }
                self.topology = topo;
            },
            _ => {
                proof {
                    assert(false);
                }
            },
        }
        self.inner.make_reply(msg, BodyKind::TopologyOk, Payload::default())
    }

    /// Computes the forward batch owed to this node's neighbors: for each
    /// neighbor in the topology entry, one broadcast envelope per local value
    /// it has not been sent yet, in log order, and moves its cursor to the
    /// log length. Returns `None` when the topology has no entry for this
    /// node.
    pub fn broadcast_back(&mut self) -> (r: Option<Vec<Message>>)
        requires
            old(self).wf(),
            old(self).topology@.contains_key(old(self).inner.node_id@) ==> old(
                self,
            ).inner.next_msg_id + forward_batch(
                old(self).topology@[old(self).inner.node_id@],
                old(self).sent_idx_map@,
                old(self).messages@,
            ).len() <= usize::MAX,
        ensures
            final(self).wf(),
            match r {
                None => !old(self).topology@.contains_key(old(self).inner.node_id@) && *final(self)
                    == *old(self),
                Some(v) => {
                    let nbrs = old(self).topology@[old(self).inner.node_id@];
                    let batch = forward_batch(nbrs, old(self).sent_idx_map@, old(self).messages@);
                    &&& old(self).topology@.contains_key(old(self).inner.node_id@)
                    &&& v@.len() == batch.len()
                    &&& forall|i: int|
                        0 <= i < batch.len() ==> is_forward(
                            #[trigger] v@[i],
                            old(self).inner.node_id@,
                            batch[i].0,
                            batch[i].1,
                            old(self).inner.next_msg_id + i,
                        )
                    &&& final(self).sent_idx_map@ == cursors_after(
                        nbrs,
                        old(self).sent_idx_map@,
                        old(self).messages.len(),
                    )
                    &&& final(self).inner == (ServerInner {
                        next_msg_id: (old(self).inner.next_msg_id + batch.len()) as usize,
                        ..old(self).inner
                    })
                    &&& final(self).messages@ == old(self).messages@
                    &&& final(self).topology == old(self).topology
                },
            },
    {
        let node = self.inner.node_id().to_owned();
        let nbrs = match self.topology.get(node.as_str()) {
            None => {
                return None;
            },
            Some(found) => clone_strings(found),
        };
        let ghost nbrs_seq = nbrs.deep_view();
        let ghost c0 = self.sent_idx_map@;
        let ghost msgs = self.messages@;
        let ghost batch = forward_batch(nbrs_seq, c0, msgs);
        let ghost n0 = self.inner.next_msg_id;
        let total = self.messages.len();

        let mut out: Vec<Message> = Vec::new();
        let count = nbrs.len();
        proof {
            assert(nbrs_seq.skip(0) =~= nbrs_seq);
            assert(batch.skip(0) =~= batch);
        }
        let mut k: usize = 0;
        while k < count
            invariant
                self.wf(),
                k <= count == nbrs_seq.len(),
                nbrs.deep_view() == nbrs_seq,
                nbrs@.len() == nbrs_seq.len(),
                batch == forward_batch(nbrs_seq, c0, msgs),
                self.messages@ == msgs,
                total == msgs.len(),
                self.topology == old(self).topology,
                self.inner.node_id@ == old(self).inner.node_id@,
                self.inner.node_id == old(self).inner.node_id,
                self.inner.initialized == old(self).inner.initialized,
                node@ == old(self).inner.node_id@,
                n0 == old(self).inner.next_msg_id,
                self.inner.next_msg_id == n0 + out@.len(),
                n0 + batch.len() <= usize::MAX,
                out@.len() <= batch.len(),
                forward_batch(nbrs_seq.skip(k as int), self.sent_idx_map@, msgs) == batch.skip(
                    out@.len() as int,
                ),
                cursors_after(nbrs_seq.skip(k as int), self.sent_idx_map@, total) == cursors_after(
                    nbrs_seq,
                    c0,
                    total,
                ),
                forall|i: int|
                    0 <= i < out@.len() ==> is_forward(
                        #[trigger] out@[i],
                        old(self).inner.node_id@,
                        batch[i].0,
                        batch[i].1,
                        n0 + i,
                    ),
            decreases count - k,
        {
            let n = nbrs[k].clone();
            proof {
                assert(n@ == nbrs_seq[k as int]);
                assert(nbrs_seq.skip(k as int)[0] == nbrs_seq[k as int]);
                assert(nbrs_seq.skip(k as int).drop_first() =~= nbrs_seq.skip(k as int + 1));
            }
            let sent = match self.sent_idx_map.get(n.as_str()) {
                Some(s) => *s,
                None => 0,
            };
            proof {
                assert(sent == cursor_of(self.sent_idx_map@, nbrs_seq[k as int]));
            }
            let ghost cur = self.sent_idx_map@;
            let ghost base = out@.len() as int;
            let ghost delta = delta_for(nbrs_seq[k as int], sent, msgs);
            let ghost rest = forward_batch(
                nbrs_seq.skip(k as int + 1),
                cur.insert(nbrs_seq[k as int], total),
                msgs,
            );
            proof {
                // unfold the remaining batch at this neighbor
                assert(forward_batch(nbrs_seq.skip(k as int), cur, msgs) == delta + rest);
                assert(batch.skip(out@.len() as int).len() == batch.len() - out@.len());
                assert forall|i: int| 0 <= i < delta.len() implies batch[out@.len() + i]
                    == delta[i] by {
                    assert(batch.skip(out@.len() as int)[i] == batch[out@.len() + i]);
                    assert((delta + rest)[i] == delta[i]);
                }
                assert(out@.len() + delta.len() <= batch.len());
                assert(cursors_after(nbrs_seq.skip(k as int), cur, total) == cursors_after(
                    nbrs_seq.skip(k as int + 1),
                    cur.insert(nbrs_seq[k as int], total),
                    total,
                ));
            }
            let mut j: usize = sent;
            if j > total {
                j = total;
            }
            proof {
                assert(delta.len() == if sent < total {
                    total - sent
                } else {
                    0
                });
            }
            let start = j;
            while j < total
                invariant
                    self.wf(),
                    k < nbrs_seq.len(),
                    start <= j <= total,
                    start == if sent < total {
                        sent as int
                    } else {
                        total as int
                    },
                    delta == delta_for(nbrs_seq[k as int], sent, msgs),
                    delta.len() == total - start,
                    self.messages@ == msgs,
                    total == msgs.len(),
                    self.sent_idx_map@ == cur,
                    self.topology == old(self).topology,
                    self.inner.node_id == old(self).inner.node_id,
                    self.inner.initialized == old(self).inner.initialized,
                    node@ == old(self).inner.node_id@,
                    n@ == nbrs_seq[k as int],
                    self.inner.next_msg_id == n0 + out@.len(),
                    n0 + batch.len() <= usize::MAX,
                    out@.len() == base + (j - start),
                    base + delta.len() <= batch.len(),
                    forall|i: int|
                        0 <= i < delta.len() ==> batch[base + i] == delta[i],
                    forward_batch(nbrs_seq.skip(k as int), cur, msgs) == batch.skip(base),
                    forall|i: int|
                        0 <= i < out@.len() ==> is_forward(
                            #[trigger] out@[i],
                            old(self).inner.node_id@,
                            batch[i].0,
                            batch[i].1,
                            n0 + i,
                        ),
                decreases total - j,
            {
                proof {
                    assert(delta[j - start] == (nbrs_seq[k as int], msgs[j as int]));
                    assert(batch[base + (j - start)] == delta[j - start]);
                    assert(out@.len() < batch.len());
                }
                let payload = Payload::init("message", Value::UInt(self.messages[j]));
                let m = Message {
                    src: node.clone(),
                    dst: n.clone(),
                    body: Body {
                        kind: BodyKind::Broadcast,
                        msg_id: self.inner.next_msg_id(),
                        reply_to: None,
                        payload,
                    },
                };
                self.inner.advance();
                out.push(m);
                j = j + 1;
            }
            self.sent_idx_map.insert(n, total);
            proof {
                assert(self.sent_idx_map@ == cur.insert(nbrs_seq[k as int], total));
                assert(batch.skip(base).skip(delta.len() as int) =~= batch.skip(
                    base + delta.len(),
                ));
                assert(forward_batch(nbrs_seq.skip(k as int + 1), self.sent_idx_map@, msgs)
                    =~= (delta + forward_batch(
                    nbrs_seq.skip(k as int),
                    cur,
                    msgs,
                ).skip(delta.len() as int)).skip(delta.len() as int));
                assert(forward_batch(nbrs_seq.skip(k as int + 1), self.sent_idx_map@, msgs)
                    == batch.skip(out@.len() as int));
            }
            k = k + 1;
        }
        proof {
            assert(nbrs_seq.skip(count as int) =~= Seq::<Seq<char>>::empty());
            assert(forward_batch(Seq::<Seq<char>>::empty(), self.sent_idx_map@, msgs)
                == Seq::<(Seq<char>, usize)>::empty());
            assert(batch.skip(out@.len() as int) =~= Seq::<(Seq<char>, usize)>::empty());
            assert(out@.len() == batch.len());
            assert(cursors_after(Seq::<Seq<char>>::empty(), self.sent_idx_map@, total)
                == self.sent_idx_map@);
        }
        Some(out)
    }

    /// The outbound hook: the forward batch, or nothing when the topology has
    /// no entry for this node.
    fn run_hook(&mut self) -> (sends: Vec<Message>)
        requires
            old(self).wf(),
            old(self).topology@.contains_key(old(self).inner.node_id@) ==> old(
                self,
            ).inner.next_msg_id + forward_batch(
                old(self).topology@[old(self).inner.node_id@],
                old(self).sent_idx_map@,
                old(self).messages@,
            ).len() <= usize::MAX,
        ensures
            final(self).wf(),
            ({
                let nbrs = if old(self).topology@.contains_key(old(self).inner.node_id@) {
                    old(self).topology@[old(self).inner.node_id@]
                } else {
                    Seq::<Seq<char>>::empty()
                };
                let batch = forward_batch(nbrs, old(self).sent_idx_map@, old(self).messages@);
                &&& sends@.len() == batch.len()
                &&& forall|i: int|
                    0 <= i < batch.len() ==> is_forward(
                        #[trigger] sends@[i],
                        old(self).inner.node_id@,
                        batch[i].0,
                        batch[i].1,
                        old(self).inner.next_msg_id + i,
                    )
                &&& final(self).sent_idx_map@ == cursors_after(
                    nbrs,
                    old(self).sent_idx_map@,
                    old(self).messages@.len() as usize,
                )
                &&& final(self).inner == (ServerInner {
                    next_msg_id: (old(self).inner.next_msg_id + batch.len()) as usize,
                    ..old(self).inner
                })
                &&& final(self).messages@ == old(self).messages@
                &&& final(self).topology == old(self).topology
            }),
    {
        match self.broadcast_back() {
            Some(v) => v,
            None => {
                proof {
                    assert(forward_batch(
                        Seq::<Seq<char>>::empty(),
                        self.sent_idx_map@,
                        self.messages@,
                    ) == Seq::<(Seq<char>, usize)>::empty());
                    assert(cursors_after(
                        Seq::<Seq<char>>::empty(),
                        self.sent_idx_map@,
                        self.messages@.len() as usize,
                    ) == self.sent_idx_map@);
                }
                Vec::new()
            },
        }
    }

    /// One dispatch iteration without the line I/O: routes `msg` to its
    /// handler, then runs the outbound hook, in that order, so the reply
    /// takes a message id before any forwards triggered by the same input.
    /// Returns the reply (if any) and the forwards to write, or the fatal
    /// condition that must end the process.
    pub fn step(&mut self, msg: &Message) -> (r: Result<(Option<Message>, Vec<Message>), Fatal>)
        requires
            msg.wf(),
            old(self).wf(),
            old(self).inner.next_msg_id < usize::MAX,
            msg.body.kind == BodyKind::Broadcast ==> old(self).messages@.len() < usize::MAX,
            mid_next_msg_id(*old(self), *msg) + step_forward_bound(*old(self), *msg)
                <= usize::MAX,
        ensures
            match r {
                Err(e) => {
                    &&& broadcast_step_fatal(*old(self), *msg) == Some(e)
                    &&& *final(self) == *old(self)
                },
                Ok((reply, sends)) => {
                    let pre = *old(self);
                    let nid = mid_node_id(pre, *msg);
                    let next0 = mid_next_msg_id(pre, *msg);
                    let nbrs = mid_neighbors(pre, *msg);
                    let batch = forward_batch(nbrs, pre.sent_idx_map@, mid_messages(pre, *msg));
                    &&& broadcast_step_fatal(pre, *msg) is None
                    &&& final(self).wf()
                    &&& final(self).inner.node_id@ == nid
                    &&& final(self).inner.initialized
                    &&& final(self).inner.next_msg_id == next0 + batch.len()
                    &&& final(self).messages@ == mid_messages(pre, *msg)
                    &&& final(self).topology@ == mid_topology(pre, *msg)
                    &&& final(self).sent_idx_map@ == cursors_after(
                        nbrs,
                        pre.sent_idx_map@,
                        mid_messages(pre, *msg).len() as usize,
                    )
                    &&& sends@.len() == batch.len()
                    &&& forall|i: int|
                        0 <= i < batch.len() ==> is_forward(
                            #[trigger] sends@[i],
                            nid,
                            batch[i].0,
                            batch[i].1,
                            next0 + i,
                        )
                    &&& match msg.body.kind {
                        BodyKind::Init => reply matches Some(x) && x.wf() && x.body.kind
                            == BodyKind::InitOk && x.src@ == nid && x.dst@ == msg.src@
                            && x.body.msg_id == 1 && x.body.reply_to == Some(1usize)
                            && x.body.payload@ == Map::<Seq<char>, ValueView>::empty(),
                        BodyKind::Broadcast => reply matches Some(x) && x.wf() && x.body.kind
                            == BodyKind::BroadcastOk && x.src@ == pre.inner.node_id@ && x.dst@
                            == msg.src@ && x.body.msg_id == pre.inner.next_msg_id
                            && x.body.reply_to == Some(msg.body.msg_id)
                            && x.body.payload@ == Map::<Seq<char>, ValueView>::empty(),
                        BodyKind::Read => reply matches Some(x) && x.wf() && x.body.kind
                            == BodyKind::ReadOk && x.src@ == pre.inner.node_id@ && x.dst@
                            == msg.src@ && x.body.msg_id == pre.inner.next_msg_id
                            && x.body.reply_to == Some(msg.body.msg_id) && x.body.payload@
                            == Map::<Seq<char>, ValueView>::empty().insert(
                            "messages"@,
                            ValueView::UIntList(pre.messages@),
                        ),
                        BodyKind::Topology => reply matches Some(x) && x.wf() && x.body.kind
                            == BodyKind::TopologyOk && x.src@ == pre.inner.node_id@ && x.dst@
                            == msg.src@ && x.body.msg_id == pre.inner.next_msg_id
                            && x.body.reply_to == Some(msg.body.msg_id)
                            && x.body.payload@ == Map::<Seq<char>, ValueView>::empty(),
                        BodyKind::BroadcastOk => reply is None,
                        _ => false,
                    }
                },
            },
    {
        let ghost pre = *self;
        let reply: Option<Message>;
        if !self.inner.initialized {
            if !matches!(msg.body.kind, BodyKind::Init) {
                return Err(Fatal::NotInitialized);
            }
            if !msg.body.payload.check_str("node_id") {
                return Err(Fatal::MissingField);
            }
            reply = self.inner.init(msg);
        } else {
            match msg.body.kind {
                BodyKind::Init => {
                    return Err(Fatal::DoubleInit);
                },
                BodyKind::Broadcast => {
                    if !msg.body.payload.check_uint("message") {
                        return Err(Fatal::MissingField);
                    }
                    reply = Some(self.broadcast(msg));
                },
                BodyKind::Read => {
                    reply = Some(self.read(msg));
                },
                BodyKind::Topology => {
                    let ok = match msg.body.payload.get("topology") {
                        Some(Value::NodeLists(_)) => true,
                        _ => false,
                    };
                    if !ok {
                        return Err(Fatal::MissingField);
                    }
                    reply = Some(self.topology(msg));
                },
                BodyKind::BroadcastOk => {
                    reply = None;
                },
                _ => {
                    return Err(Fatal::UnknownKind);
                },
            }
        }
        proof {
            assert(self.inner.node_id@ == mid_node_id(pre, *msg));
            assert(self.inner.next_msg_id == mid_next_msg_id(pre, *msg));
            assert(self.messages@ == mid_messages(pre, *msg));
            assert(self.topology@ == mid_topology(pre, *msg));
            assert(self.sent_idx_map@ == pre.sent_idx_map@);
            if self.topology@.contains_key(self.inner.node_id@) {
                lemma_forward_batch_len(
                    self.topology@[self.inner.node_id@],
                    self.sent_idx_map@,
                    self.messages@,
                );
            }
        }
        let sends = self.run_hook();
        Ok((reply, sends))
    }
}

/// Copies a vector of integers.
fn clone_uints(v: &Vec<usize>) -> (r: Vec<usize>)
    ensures
        r@ == v@,
{
    let mut r: Vec<usize> = Vec::new();
    let n = v.len();
    let mut i: usize = 0;
    while i < n
        invariant
            i <= n == v@.len(),
            r@ == v@.take(i as int),
        decreases n - i,
    {
        r.push(v[i]);
        proof {
            assert(v@.take(i + 1) =~= v@.take(i as int).push(v@[i as int]));
        }
        i = i + 1;
    }
    proof {
        assert(v@.take(n as int) =~= v@);
    }
    r
}

/// Copies a vector of strings.
fn clone_strings(v: &Vec<String>) -> (r: Vec<String>)
    ensures
        r.deep_view() == v.deep_view(),
        r@.len() == v@.len(),
{
    let mut r: Vec<String> = Vec::new();
    let n = v.len();
    let mut i: usize = 0;
    while i < n
        invariant
            i <= n == v@.len(),
            r@.len() == i,
            r.deep_view() =~= v.deep_view().take(i as int),
        decreases n - i,
    {
        r.push(v[i].clone());
        proof {
            assert(r.deep_view() =~= v.deep_view().take(i + 1));
        }
        i = i + 1;
    }
    proof {
        assert(v.deep_view().take(n as int) =~= v.deep_view());
    }
    r
}

} // verus!
