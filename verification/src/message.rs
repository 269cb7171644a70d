//! Envelopes: one routed message unit with source, destination and body.
//!
//! A body carries a tagged kind, a message id, an optional reply-correlation
//! id, and a key→value payload whose fields depend on the kind.
use crate::dict::Dict;
use vstd::prelude::*;

verus! {

/// The tag of a message body: each request kind and its reply kind.
#[derive(Debug, Clone, Copy, PartialEq, Eq, Structural)]
pub enum BodyKind {
    Init,
    InitOk,
    Echo,
    EchoOk,
    Generate,
    GenerateOk,
    Broadcast,
    BroadcastOk,
    Read,
    ReadOk,
    Topology,
    TopologyOk,
    Send,
    SendOk,
    Poll,
    PollOk,
    CommitOffsets,
    CommitOffsetsOk,
    ListCommittedOffsets,
    ListCommittedOffsetsOk,
}

impl Default for BodyKind {
    fn default() -> (r: Self)
        ensures
            r == BodyKind::Init,
    {
        BodyKind::Init
    }
}

/// A payload field value: the plain shapes the protocol carries.
#[derive(Debug, Clone, PartialEq, Eq)]
pub enum Value {
    /// A string, such as a node id or an echo text.
    Str(String),
    /// An unsigned integer, such as an offset or a broadcast value.
    UInt(usize),
    /// A list of integers, such as the local broadcast log.
    UIntList(Vec<usize>),
    /// A list of strings, such as the keys of a committed-offset query.
    StrList(Vec<String>),
    /// A map from node id to neighbor list: a topology.
    NodeLists(Vec<(String, Vec<String>)>),
    /// A map from key to offset, as in poll and commit requests.
    OffsetPairs(Vec<(String, usize)>),
    /// A map from key to a list of `(offset, value)` entries, as in poll replies.
    EntryLists(Vec<(String, Vec<(usize, usize)>)>),
}

/// The mathematical content of a `Value`.
pub ghost enum ValueView {
    Str(Seq<char>),
    UInt(usize),
    UIntList(Seq<usize>),
    StrList(Seq<Seq<char>>),
    NodeLists(Seq<(Seq<char>, Seq<Seq<char>>)>),
    OffsetPairs(Seq<(Seq<char>, usize)>),
    EntryLists(Seq<(Seq<char>, Seq<(usize, usize)>)>),
}

impl View for Value {
    type V = ValueView;

    open spec fn view(&self) -> ValueView {
        match self {
            Value::Str(s) => ValueView::Str(s@),
            Value::UInt(n) => ValueView::UInt(*n),
            Value::UIntList(v) => ValueView::UIntList(v@),
            Value::StrList(v) => ValueView::StrList(v.deep_view()),
            Value::NodeLists(v) => ValueView::NodeLists(v.deep_view()),
            Value::OffsetPairs(v) => ValueView::OffsetPairs(v.deep_view()),
            Value::EntryLists(v) => ValueView::EntryLists(v.deep_view()),
        }
    }
}

impl DeepView for Value {
    type V = ValueView;

    open spec fn deep_view(&self) -> ValueView {
        self.view()
    }
}

/// The key→value mapping of a body, keyed by field name.
#[derive(Debug, Clone)]
pub struct Payload(Dict<Value>);

impl View for Payload {
    type V = Map<Seq<char>, ValueView>;

    closed spec fn view(&self) -> Map<Seq<char>, ValueView> {
        self.0@
    }
}

impl Payload {
    /// The representation keeps one entry per field name.
    pub closed spec fn wf(&self) -> bool {
        self.0.wf()
    }

    /// A payload with the single field `key`.
    pub fn init(key: &str, value: Value) -> (p: Self)
        ensures
            p.wf(),
            p@ == Map::<Seq<char>, ValueView>::empty().insert(key@, value@),
    {
        let mut d = Dict::new();
        d.insert(key.to_owned(), value);
        Payload(d)
    }

    /// Looks a field up by name.
    pub fn get<'a>(&'a self, key: &str) -> (r: Option<&'a Value>)
        requires
            self.wf(),
        ensures
            match r {
                Some(v) => self@.contains_key(key@) && v@ == self@[key@],
                None => !self@.contains_key(key@),
            },
    {
        self.0.get(key)
    }

    /// The string field `key`, which must be present.
    pub fn get_str<'a>(&'a self, key: &str) -> (r: &'a str)
        requires
            self.wf(),
            self@.contains_key(key@),
            self@[key@] is Str,
        ensures
            r@ == self@[key@]->Str_0,
    {
        match self.0.get(key) {
            Some(Value::Str(s)) => s.as_str(),
            _ => {
                proof {
                    assert(false);
                }
                ""
            },
        }
    }

    /// The raw field `key`, which must be present.
    pub fn get_raw<'a>(&'a self, key: &str) -> (r: &'a Value)
        requires
            self.wf(),
            self@.contains_key(key@),
        ensures
            r@ == self@[key@],
    {
        match self.0.get(key) {
            Some(v) => v,
            None => {
                proof {
                    assert(false);
                }
                &Value::UInt(0)
            },
        }
    }

    /// The integer field `key`, which must be present.
    pub fn get_usize(&self, key: &str) -> (r: usize)
        requires
            self.wf(),
            self@.contains_key(key@),
            self@[key@] is UInt,
        ensures
            r == self@[key@]->UInt_0,
    {
        match self.0.get(key) {
            Some(Value::UInt(n)) => *n,
            _ => {
                proof {
                    assert(false);
                }
                0
            },
        }
    }

    /// The fields in storage order; their map content is the view.
    pub fn fields(&self) -> (r: &Vec<(String, Value)>)
        ensures
            crate::dict::pairs_to_map(r@) == self@,
    {
        self.0.borrow_pairs()
    }

    /// Sets the field `key`, replacing any earlier value.
    pub fn put(&mut self, key: &str, value: Value)
        requires
            old(self).wf(),
        ensures
            final(self).wf(),
            final(self)@ == old(self)@.insert(key@, value@),
    {
        self.0.insert(key.to_owned(), value);
    }
}

impl Default for Payload {
    /// An empty payload.
    fn default() -> (p: Self)
        ensures
            p.wf(),
            p@ == Map::<Seq<char>, ValueView>::empty(),
    {
        Payload(Dict::new())
    }
}

/// The payload map holds a string under `k`.
pub open spec fn has_str(m: Map<Seq<char>, ValueView>, k: Seq<char>) -> bool {
    m.contains_key(k) && m[k] is Str
}

/// The payload map holds an unsigned integer under `k`.
pub open spec fn has_uint(m: Map<Seq<char>, ValueView>, k: Seq<char>) -> bool {
    m.contains_key(k) && m[k] is UInt
}

impl Payload {
    /// Whether the field `key` is present and a string.
    pub fn check_str(&self, key: &str) -> (r: bool)
        requires
            self.wf(),
        ensures
            r == has_str(self@, key@),
    {
        match self.get(key) {
            Some(Value::Str(_)) => true,
            _ => false,
        }
    }

    /// Whether the field `key` is present and an unsigned integer.
    pub fn check_uint(&self, key: &str) -> (r: bool)
        requires
            self.wf(),
        ensures
            r == has_uint(self@, key@),
    {
        match self.get(key) {
            Some(Value::UInt(_)) => true,
            _ => false,
        }
    }
}

/// The body of an envelope.
#[derive(Debug, Clone)]
pub struct Body {
    pub kind: BodyKind,
    pub msg_id: usize,
    pub reply_to: Option<usize>,
    pub payload: Payload,
}

impl Body {
    pub open spec fn wf(&self) -> bool {
        self.payload.wf()
    }
}

/// One routed message unit: source node, destination node, body.
#[derive(Debug, Clone)]
pub struct Message {
    pub src: String,
    pub dst: String,
    pub body: Body,
}

impl Message {
    pub open spec fn wf(&self) -> bool {
        self.body.wf()
    }
}

/// Assembles a `Message` field by field, with placeholder routing ids.
#[derive(Debug, Clone)]
pub struct MessageBuilder {
    pub src: String,
    pub dst: String,
    pub bodykind: BodyKind,
    pub msg_id: usize,
    pub reply_to: Option<usize>,
    pub payload: Payload,
}

impl MessageBuilder {
    pub fn new() -> (r: Self)
        ensures
            r.src@ == "src"@,
            r.dst@ == "dst"@,
            r.bodykind == BodyKind::Init,
            r.msg_id == 0,
            r.reply_to is None,
            r.payload.wf(),
            r.payload@ == Map::<Seq<char>, ValueView>::empty(),
    {
        MessageBuilder {
            src: "src".to_owned(),
            dst: "dst".to_owned(),
            bodykind: BodyKind::Init,
            msg_id: 0,
            reply_to: None,
            payload: Payload::default(),
        }
    }

    pub fn bodykind(self, bodykind: BodyKind) -> (r: Self)
        ensures
            r == (MessageBuilder { bodykind, ..self }),
    {
        MessageBuilder { bodykind, ..self }
    }

    pub fn msg_id(self, msg_id: usize) -> (r: Self)
        ensures
            r == (MessageBuilder { msg_id, ..self }),
    {
        MessageBuilder { msg_id, ..self }
    }

    pub fn reply_to(self, reply_to: usize) -> (r: Self)
        ensures
            r == (MessageBuilder { reply_to: Some(reply_to), ..self }),
    {
        MessageBuilder { reply_to: Some(reply_to), ..self }
    }

    pub fn insert(self, key: &str, value: Value) -> (r: Self)
        requires
            self.payload.wf(),
        ensures
            r.payload.wf(),
            r.payload@ == self.payload@.insert(key@, value@),
            r == (MessageBuilder { payload: r.payload, ..self }),
    {
        let mut b = self;
        b.payload.put(key, value);
        b
    }

    pub fn build(self) -> (m: Message)
        ensures
            m == (Message {
                src: self.src,
                dst: self.dst,
                body: Body {
                    kind: self.bodykind,
                    msg_id: self.msg_id,
                    reply_to: self.reply_to,
                    payload: self.payload,
                },
            }),
    {
        Message {
            src: self.src,
            dst: self.dst,
            body: Body {
                kind: self.bodykind,
                msg_id: self.msg_id,
                reply_to: self.reply_to,
                payload: self.payload,
            },
        }
    }
}

} // verus!
