//! The log store: a durable, replayable append log shared by all keys of one
//! log-space, with an in-memory offset table and a durable offset snapshot.
//!
//! The store itself holds the log content as lines; reading and writing the
//! backing files is its caller's part. A record is serialized as
//! `offset:key:value`, one per line. The offset table is persisted only by an
//! orderly shutdown (`write_meta`), not after every append: a crash loses all
//! offset progress since the last clean exit, so a restart may assign
//! duplicate offsets — a known limitation of this design, kept as is.
use crate::dict::{pairs_to_map, unique_keys, Dict};
use crate::digits::{all_digits, dec_of, dec_string, digits_val, is_digit, parse_dec};
use crate::server::Fatal;
use vstd::prelude::*;
use vstd::string::*;

verus! {

/// A key that the record format can carry: no separator, no line break.
pub open spec fn valid_key(k: Seq<char>) -> bool {
    forall|i: int| 0 <= i < k.len() ==> k[i] != ':' && k[i] != '\n'
}

/// The serialized form of one record (without the line break).
pub open spec fn record_line(off: usize, key: Seq<char>, val: usize) -> Seq<char> {
    dec_of(off as nat) + seq![':'] + key + seq![':'] + dec_of(val as nat)
}

/// The position of the first `c` at or after `i`, or the length if none.
pub open spec fn find_from(s: Seq<char>, c: char, i: int) -> int
    decreases s.len() - i when i <= s.len()
{
    if i >= s.len() {
        s.len() as int
    } else if s[i] == c {
        i
    } else {
        find_from(s, c, i + 1)
    }
}

/// What a line denotes: `Some((offset, key, value))` exactly when the line is
/// two digit fields around a key, separated by single colons, both numbers
/// fitting the machine.
pub open spec fn spec_parse_record(s: Seq<char>) -> Option<(usize, Seq<char>, usize)> {
    let f1 = find_from(s, ':', 0);
    let f2 = find_from(s, ':', f1 + 1);
    let f3 = find_from(s, ':', f2 + 1);
    if f1 < s.len() && f2 < s.len() && f3 == s.len() {
        let off_s = s.subrange(0, f1);
        let val_s = s.subrange(f2 + 1, s.len() as int);
        if off_s.len() > 0 && all_digits(off_s) && digits_val(off_s) <= usize::MAX && val_s.len()
            > 0 && all_digits(val_s) && digits_val(val_s) <= usize::MAX {
            Some(
                (
                    digits_val(off_s) as usize,
                    s.subrange(f1 + 1, f2),
                    digits_val(val_s) as usize,
                ),
            )
        } else {
            None
        }
    } else {
        None
    }
}

/// The `(offset, value)` entries that a scan of `lines` yields for `k` from
/// start offset `start`, in file order.
pub open spec fn entries_for(lines: Seq<Seq<char>>, k: Seq<char>, start: usize) -> Seq<
    (usize, usize),
>
    decreases lines.len(),
{
    if lines.len() == 0 {
        Seq::empty()
    } else {
        let rest = entries_for(lines.drop_last(), k, start);
        match spec_parse_record(lines.last()) {
            Some(rec) => if rec.1 == k && rec.0 >= start {
                rest.push((rec.0, rec.2))
            } else {
                rest
            },
            None => rest,
        }
    }
}

/// Every line of the log parses as a record.
pub open spec fn all_lines_parse(lines: Seq<Seq<char>>) -> bool {
    forall|i: int| 0 <= i < lines.len() ==> spec_parse_record(#[trigger] lines[i]) is Some
}

/// The offset the next append under `k` is assigned.
pub open spec fn next_offset(m: Map<Seq<char>, usize>, k: Seq<char>) -> int {
    if m.contains_key(k) {
        m[k] + 1
    } else {
        0
    }
}

/// The offset table after `i` appends under a key `k` it did not hold.
pub open spec fn table_after_appends(m: Map<Seq<char>, usize>, k: Seq<char>, i: nat) -> Map<
    Seq<char>,
    usize,
>
    decreases i,
{
    if i == 0 {
        m
    } else {
        let t = table_after_appends(m, k, (i - 1) as nat);
        t.insert(k, next_offset(t, k) as usize)
    }
}

/// Law: starting from a table without `k`, the `i`-th append under `k` (with
/// `i` counted from zero) is assigned offset `i`: repeated appends yield
/// offsets 0, 1, 2, … in call order.
pub proof fn lemma_repeated_append(m: Map<Seq<char>, usize>, k: Seq<char>, i: nat)
    requires
        !m.contains_key(k),
        i < usize::MAX,
    ensures
        next_offset(table_after_appends(m, k, i), k) == i,
        i > 0 ==> table_after_appends(m, k, i).contains_key(k) && table_after_appends(m, k, i)[k]
            == i - 1,
    decreases i,
{
    if i > 0 {
        lemma_repeated_append(m, k, (i - 1) as nat);
    }
}

proof fn lemma_find_hit(s: Seq<char>, c: char, from: int, at: int)
    requires
        0 <= from <= at < s.len(),
        s[at] == c,
        forall|i: int| from <= i < at ==> s[i] != c,
    ensures
        find_from(s, c, from) == at,
    decreases at - from,
{
    if from < at {
        lemma_find_hit(s, c, from + 1, at);
    }
}

proof fn lemma_find_miss(s: Seq<char>, c: char, from: int)
    requires
        0 <= from <= s.len(),
        forall|i: int| from <= i < s.len() ==> s[i] != c,
    ensures
        find_from(s, c, from) == s.len(),
    decreases s.len() - from,
{
    if from < s.len() {
        lemma_find_miss(s, c, from + 1);
    }
}

/// Law: serializing a record and parsing the line back returns the record,
/// for every key the format can carry.
pub proof fn lemma_record_line_parses(off: usize, key: Seq<char>, val: usize)
    requires
        valid_key(key),
    ensures
        spec_parse_record(record_line(off, key, val)) == Some((off, key, val)),
{
    let s = record_line(off, key, val);
    let d1 = dec_of(off as nat);
    let d2 = dec_of(val as nat);
    crate::digits::lemma_dec_of_digits(off as nat);
    crate::digits::lemma_dec_of_digits(val as nat);
    crate::digits::lemma_dec_of_val(off as nat);
    crate::digits::lemma_dec_of_val(val as nat);
    let a = d1.len() as int;
    let b = a + 1 + key.len() as int;
    assert(s.len() == d1.len() + 1 + key.len() + 1 + d2.len());
    assert forall|i: int| 0 <= i < a implies s[i] != ':' by {
        assert(s[i] == d1[i]);
        assert(is_digit(d1[i]));
    }
    assert(s[a] == ':');
    lemma_find_hit(s, ':', 0, a);
    assert forall|i: int| a + 1 <= i < b implies s[i] != ':' by {
        assert(s[i] == key[i - (a + 1)]);
    }
    assert(s[b] == ':');
    lemma_find_hit(s, ':', a + 1, b);
    assert forall|i: int| b + 1 <= i < s.len() implies s[i] != ':' by {
        assert(s[i] == d2[i - (b + 1)]);
        assert(is_digit(d2[i - (b + 1)]));
    }
    lemma_find_miss(s, ':', b + 1);
    assert(s.subrange(0, a) =~= d1);
    assert(s.subrange(a + 1, b) =~= key);
    assert(s.subrange(b + 1, s.len() as int) =~= d2);
}

/// Whether the record format can carry `s` as a key.
pub fn key_ok(s: &str) -> (r: bool)
    ensures
        r == valid_key(s@),
{
    let n = s.unicode_len();
    let mut i: usize = 0;
    while i < n
        invariant
            i <= n == s@.len(),
            forall|j: int| 0 <= j < i ==> s@[j] != ':' && s@[j] != '\n',
        decreases n - i,
    {
        let c = s.get_char(i);
        if c == ':' || c == '\n' {
            return false;
        }
        i = i + 1;
    }
    true
}

/// The position of the first `':'` at or after `start`, or the length.
fn find_colon(s: &str, start: usize) -> (r: usize)
    requires
        start <= s@.len(),
    ensures
        r == find_from(s@, ':', start as int),
        start <= r <= s@.len(),
        r < s@.len() ==> s@[r as int] == ':',
    decreases s@.len() - start,
{
    let len = s.unicode_len();
    let mut i: usize = start;
    while i < len
        invariant
            start <= i <= len,
            len == s@.len(),
            find_from(s@, ':', start as int) == find_from(s@, ':', i as int),
        decreases len - i,
    {
        if s.get_char(i) == ':' {
            return i;
        }
        i = i + 1;
    }
    len
}

/// Parses one log line as a record.
pub fn parse_record(line: &str) -> (r: Option<(usize, String, usize)>)
    ensures
        match r {
            Some(rec) => spec_parse_record(line@) == Some((rec.0, rec.1@, rec.2)),
            None => spec_parse_record(line@) is None,
        },
{
    let len = line.unicode_len();
    let f1 = find_colon(line, 0);
    if f1 == len {
        return None;
    }
    let f2 = find_colon(line, f1 + 1);
    if f2 == len {
        return None;
    }
    let f3 = find_colon(line, f2 + 1);
    if f3 != len {
        return None;
    }
    let off = match parse_dec(line, 0, f1) {
        Some(n) => n,
        None => {
            return None;
        },
    };
    let val = match parse_dec(line, f2 + 1, len) {
        Some(n) => n,
        None => {
            return None;
        },
    };
    let key = line.substring_char(f1 + 1, f2).to_owned();
    Some((off, key, val))
}

/// What an outside JSON encoder renders for an offset table: a single JSON
/// object `{key: offset}`.
pub uninterp spec fn offsets_json_of(m: Map<Seq<char>, usize>) -> Seq<char>;

/// Relies on serde_json::to_string over a BTreeMap<&str, usize>: rendering
/// never fails for string-keyed maps of integers, and the text depends only
/// on the key→offset map (iteration is sorted by key, duplicates collapse).
#[verifier::external_body]
fn offsets_to_json(pairs: &Vec<(String, usize)>) -> (r: String)
    ensures
        r@ == offsets_json_of(pairs_to_map(pairs@)),
{
    let map: std::collections::BTreeMap<&str, usize> = pairs.iter().map(
        |p: &(String, usize)| (p.0.as_str(), p.1),
    ).collect();
    serde_json::to_string(&map).expect("a string-keyed map serializes")
}

/// Relies on serde_json::from_str::<BTreeMap<String, usize>>: parsing the
/// exact text that serde_json renders for a map returns that map, and any
/// parsed map has distinct keys.
#[verifier::external_body]
fn offsets_from_json(s: &str) -> (r: Option<Vec<(String, usize)>>)
    ensures
        r matches Some(v) ==> unique_keys(v@) && (forall|m: Map<Seq<char>, usize>|
            s@ == offsets_json_of(m) ==> pairs_to_map(v@) == m),
        r is None ==> forall|m: Map<Seq<char>, usize>| s@ != offsets_json_of(m),
{
    match serde_json::from_str::<std::collections::BTreeMap<String, usize>>(s) {
        Ok(m) => Some(m.into_iter().collect()),
        Err(_) => None,
    }
}

/// One log-space: the log content as lines, in file order, and the offset
/// table seeded from the snapshot.
#[derive(Debug)]
pub struct Storage {
    pub log_name: String,
    /// Key → last assigned offset.
    pub offsets: Dict<usize>,
    /// The records of the log, one per line, oldest first.
    pub lines: Vec<String>,
}

impl Storage {
    pub open spec fn wf(&self) -> bool {
        self.offsets.wf()
    }

    /// Opens a log-space: seeds the offset table from the snapshot text if
    /// one is present (reconstructing exactly the table the snapshot was
    /// written from), and adopts the given log content.
    pub fn new(snapshot: Option<&str>, log_lines: Vec<String>) -> (r: Result<Storage, Fatal>)
        ensures
            match r {
                Ok(s) => {
                    &&& s.wf()
                    &&& s.log_name@ == "kafka_log"@
                    &&& s.lines@ == log_lines@
                    &&& match snapshot {
                        None => s.offsets@ == Map::<Seq<char>, usize>::empty(),
                        Some(text) => forall|m: Map<Seq<char>, usize>|
                            text@ == offsets_json_of(m) ==> s.offsets@ == m,
                    }
                },
                Err(e) => {
                    &&& e == Fatal::BadSnapshot
                    &&& snapshot matches Some(text) && forall|m: Map<Seq<char>, usize>|
                        text@ != offsets_json_of(m)
                },
            },
    {
        let offsets = match snapshot {
            None => Dict::new(),
            Some(text) => match offsets_from_json(text) {
                Some(pairs) => Dict::from_pairs(pairs),
                None => {
                    return Err(Fatal::BadSnapshot);
                },
            },
        };
        Ok(Storage { log_name: str_to_owned("kafka_log"), offsets, lines: log_lines })
    }

    pub fn offsets(&self) -> (r: &Dict<usize>)
        ensures
            r == self.offsets,
    {
        &self.offsets
    }

    pub fn log_name(&self) -> (r: &str)
        ensures
            r@ == self.log_name@,
    {
        self.log_name.as_str()
    }

    /// Appends `msg` under `key`: a fresh key gets offset 0, a known key the
    /// next offset. Returns the assigned offset and the serialized record
    /// line, which the caller must append (with a line break) to the log
    /// file; the store keeps the same line in its log content.
    pub fn append(&mut self, key: &str, msg: usize) -> (r: (usize, String))
        requires
            old(self).wf(),
            valid_key(key@),
            old(self).offsets@.contains_key(key@) ==> old(self).offsets@[key@] < usize::MAX,
        ensures
            final(self).wf(),
            r.0 == next_offset(old(self).offsets@, key@),
            final(self).offsets@ == old(self).offsets@.insert(key@, r.0),
            r.1@ == record_line(r.0, key@, msg),
            final(self).lines.deep_view() == old(self).lines.deep_view().push(r.1@),
            final(self).log_name == old(self).log_name,
    {
        let offset = match self.offsets.get(key) {
            Some(o) => *o + 1,
            None => 0,
        };
        self.offsets.insert(key.to_owned(), offset);

        proof {
            reveal_strlit(":");
        }
        let mut line = dec_string(offset as u64);
        line.append(":");
        line.append(key);
        line.append(":");
        line.append(dec_string(msg as u64).as_str());
        proof {
            assert(":"@ =~= seq![':']);
            assert(line@ =~= record_line(offset, key@, msg));
        }
        let ghost before = self.lines.deep_view();
        self.lines.push(line.clone());
        proof {
            assert(self.lines.deep_view() =~= before.push(line@));
        }
        (offset, line)
    }

    /// Scans every record in file order and returns, for each requested key,
    /// the entries at or past its requested start offset; requested keys
    /// without matching entries are absent from the result. Fails exactly
    /// when some line of the log is not a record.
    pub fn read_from(&self, offsets: &Dict<usize>) -> (r: Result<
        Dict<Vec<(usize, usize)>>,
        Fatal,
    >)
        requires
            self.wf(),
            offsets.wf(),
        ensures
            match r {
                Ok(res) => {
                    &&& all_lines_parse(self.lines.deep_view())
                    &&& res.wf()
                    &&& forall|k: Seq<char>|
                        offsets@.contains_key(k) ==> {
                            let e = entries_for(self.lines.deep_view(), k, offsets@[k]);
                            &&& (e.len() > 0 ==> res@.contains_key(k) && res@[k] == e)
                            &&& (e.len() == 0 ==> !res@.contains_key(k))
                        }
                    &&& forall|k: Seq<char>| res@.contains_key(k) ==> offsets@.contains_key(k)
                },
                Err(e) => {
                    &&& e == Fatal::BadRecord
                    &&& !all_lines_parse(self.lines.deep_view())
                },
            },
    {
        let ghost all = self.lines.deep_view();
        let mut res: Dict<Vec<(usize, usize)>> = Dict::new();
        let n = self.lines.len();
        let mut i: usize = 0;
        while i < n
            invariant
                i <= n == self.lines@.len(),
                all == self.lines.deep_view(),
                offsets.wf(),
                res.wf(),
                forall|j: int| 0 <= j < i ==> spec_parse_record(#[trigger] all[j]) is Some,
                forall|k: Seq<char>|
                    offsets@.contains_key(k) ==> {
                        let e = entries_for(all.take(i as int), k, offsets@[k]);
                        &&& (e.len() > 0 ==> res@.contains_key(k) && res@[k] == e)
                        &&& (e.len() == 0 ==> !res@.contains_key(k))
                    },
                forall|k: Seq<char>| res@.contains_key(k) ==> offsets@.contains_key(k),
            decreases n - i,
        {
            let parsed = parse_record(&self.lines[i]);
            proof {
                assert(all[i as int] == self.lines@[i as int]@);
            }
            let (off, key, val) = match parsed {
                Some(rec) => rec,
                None => {
                    return Err(Fatal::BadRecord);
                },
            };
            let ghost prev = res@;
            match offsets.get(key.as_str()) {
                Some(start) => {
                    if *start <= off {
                        res.push_pair(key.as_str(), (off, val));
                    }
                },
                None => {},
            }
            proof {
                assert(all.take(i + 1).drop_last() =~= all.take(i as int));
                assert(all.take(i + 1).last() == all[i as int]);
                assert forall|k: Seq<char>| offsets@.contains_key(k) implies {
                    let e = entries_for(all.take(i + 1), k, offsets@[k]);
                    &&& (e.len() > 0 ==> res@.contains_key(k) && res@[k] == e)
                    &&& (e.len() == 0 ==> !res@.contains_key(k))
                } by {
                    let e0 = entries_for(all.take(i as int), k, offsets@[k]);
                    let e = entries_for(all.take(i + 1), k, offsets@[k]);
                    if k == key@ && off >= offsets@[k] {
                        assert(e == e0.push((off, val)));
                        if e0.len() == 0 {
                            assert(res@[k] =~= e);
                        }
                    } else {
                        assert(e == e0);
                    }
                }
            }
            i = i + 1;
        }
        proof {
            assert(all.take(n as int) =~= all);
        }
        Ok(res)
    }

    /// Renders the offset snapshot to persist at orderly shutdown: the single
    /// JSON object holding this store's key→offset table. This is the only
    /// persistence point for offsets; it is not written after every append.
    pub fn write_meta(&self) -> (r: String)
        requires
            self.wf(),
        ensures
            r@ == offsets_json_of(self.offsets@),
    {
        offsets_to_json(self.offsets.borrow_pairs())
    }
}

/// Copies a string slice into an owned string.
fn str_to_owned(s: &str) -> (r: String)
    ensures
        r@ == s@,
{
    s.to_owned()
}

} // verus!
