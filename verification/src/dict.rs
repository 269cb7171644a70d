//! A small string-keyed association map, viewed as a `Map<Seq<char>, _>`.
//!
//! The node state tables (offsets, committed offsets, neighbor cursors,
//! topology) and the message payloads are all keyed by strings; this type
//! gives them one verified representation.
use vstd::prelude::*;

verus! {

/// The mathematical content of an association list: a later pair for the same
/// key overwrites an earlier one.
pub open spec fn pairs_to_map<V: DeepView>(s: Seq<(String, V)>) -> Map<Seq<char>, V::V>
    decreases s.len(),
{
    if s.len() == 0 {
        Map::empty()
    } else {
        pairs_to_map(s.drop_last()).insert(s.last().0@, s.last().1.deep_view())
    }
}

/// No two pairs share a key.
pub open spec fn unique_keys<V>(s: Seq<(String, V)>) -> bool {
    forall|i: int, j: int| 0 <= i < j < s.len() ==> s[i].0@ != s[j].0@
}

/// A key present at index `i` of a unique-keyed list is what the map holds.
proof fn lemma_ptm_found<V: DeepView>(s: Seq<(String, V)>, i: int)
    requires
        unique_keys(s),
        0 <= i < s.len(),
    ensures
        pairs_to_map(s).contains_key(s[i].0@),
        pairs_to_map(s)[s[i].0@] == s[i].1.deep_view(),
    decreases s.len(),
{
    if i == s.len() - 1 {
    } else {
        lemma_ptm_found(s.drop_last(), i);
        assert(s.drop_last()[i] == s[i]);
        assert(s[i].0@ != s.last().0@);
    }
}

/// A key on no pair of the list is not in the map.
proof fn lemma_ptm_absent<V: DeepView>(s: Seq<(String, V)>, k: Seq<char>)
    requires
        forall|i: int| 0 <= i < s.len() ==> s[i].0@ != k,
    ensures
        !pairs_to_map(s).contains_key(k),
    decreases s.len(),
{
    if s.len() > 0 {
        lemma_ptm_absent(s.drop_last(), k);
    }
}

/// Replacing the pair at `i` with one of the same key updates the map at that
/// key and nothing else.
proof fn lemma_ptm_update<V: DeepView>(s: Seq<(String, V)>, i: int, p: (String, V))
    requires
        unique_keys(s),
        0 <= i < s.len(),
        p.0@ == s[i].0@,
    ensures
        pairs_to_map(s.update(i, p)) == pairs_to_map(s).insert(p.0@, p.1.deep_view()),
    decreases s.len(),
{
    let t = s.update(i, p);
    if i == s.len() - 1 {
        assert(t.drop_last() =~= s.drop_last());
        assert(t.last() == p);
        assert(pairs_to_map(s.drop_last()).insert(p.0@, p.1.deep_view()) =~= pairs_to_map(
            s,
        ).insert(p.0@, p.1.deep_view()));
    } else {
        assert(t.drop_last() =~= s.drop_last().update(i, p));
        assert(t.last() == s.last());
        lemma_ptm_update(s.drop_last(), i, p);
        assert(s.drop_last()[i] == s[i]);
        // the two inserted keys differ, so the inserts commute
        assert(s[i].0@ != s.last().0@);
        assert(pairs_to_map(s.drop_last()).insert(p.0@, p.1.deep_view()).insert(
            s.last().0@,
            s.last().1.deep_view(),
        ) =~= pairs_to_map(s.drop_last()).insert(s.last().0@, s.last().1.deep_view()).insert(
            p.0@,
            p.1.deep_view(),
        ));
    }
}

/// A string-keyed map stored as a vector of pairs with distinct keys.
#[derive(Debug, Clone)]
pub struct Dict<V> {
    pairs: Vec<(String, V)>,
}

impl<V: DeepView> View for Dict<V> {
    type V = Map<Seq<char>, V::V>;

    closed spec fn view(&self) -> Map<Seq<char>, V::V> {
        pairs_to_map(self.pairs@)
    }
}

impl<V: DeepView> Dict<V> {
    /// The representation keeps one pair per key.
    pub closed spec fn wf(&self) -> bool {
        unique_keys(self.pairs@)
    }

    pub fn new() -> (d: Self)
        ensures
            d.wf(),
            d@ == Map::<Seq<char>, V::V>::empty(),
    {
        Dict { pairs: Vec::new() }
    }

    /// Wraps a pair list whose keys are already distinct.
    pub fn from_pairs(pairs: Vec<(String, V)>) -> (d: Self)
        requires
            unique_keys(pairs@),
        ensures
            d.wf(),
            d@ == pairs_to_map(pairs@),
    {
        Dict { pairs }
    }

    /// The pairs in storage order; their map content is the view.
    pub fn borrow_pairs(&self) -> (r: &Vec<(String, V)>)
        ensures
            pairs_to_map(r@) == self@,
            self.wf() ==> unique_keys(r@),
    {
        &self.pairs
    }

    fn index_of(&self, key: &str) -> (r: Option<usize>)
        ensures
            match r {
                Some(i) => i < self.pairs@.len() && self.pairs@[i as int].0@ == key@,
                None => forall|i: int| 0 <= i < self.pairs@.len() ==> self.pairs@[i].0@ != key@,
            },
    {
        let owned = key.to_owned();
        let n = self.pairs.len();
        let mut i: usize = 0;
        while i < n
            invariant
                i <= n == self.pairs@.len(),
                owned@ == key@,
                forall|j: int| 0 <= j < i ==> self.pairs@[j].0@ != key@,
            decreases n - i,
        {
            if self.pairs[i].0 == owned {
                return Some(i);
            }
            i = i + 1;
        }
        None
    }

    pub fn contains_key(&self, key: &str) -> (r: bool)
        requires
            self.wf(),
        ensures
            r == self@.contains_key(key@),
    {
        match self.index_of(key) {
            Some(i) => {
                proof {
                    lemma_ptm_found(self.pairs@, i as int);
                }
                true
            },
            None => {
                proof {
                    lemma_ptm_absent(self.pairs@, key@);
                }
                false
            },
        }
    }

    pub fn get<'a>(&'a self, key: &str) -> (r: Option<&'a V>)
        requires
            self.wf(),
        ensures
            match r {
                Some(v) => self@.contains_key(key@) && v.deep_view() == self@[key@],
                None => !self@.contains_key(key@),
            },
    {
        match self.index_of(key) {
            Some(i) => {
                proof {
                    lemma_ptm_found(self.pairs@, i as int);
                }
                Some(&self.pairs[i].1)
            },
            None => {
                proof {
                    lemma_ptm_absent(self.pairs@, key@);
                }
                None
            },
        }
    }

    pub fn insert(&mut self, key: String, value: V)
        requires
            old(self).wf(),
        ensures
            final(self).wf(),
            final(self)@ == old(self)@.insert(key@, value.deep_view()),
    {
        match self.index_of(key.as_str()) {
            Some(i) => {
                let ghost s = self.pairs@;
                let ghost p = (key, value);
                self.pairs.remove(i);
                self.pairs.insert(i, (key, value));
                proof {
                    assert(self.pairs@ =~= s.update(i as int, p));
                    lemma_ptm_update(s, i as int, p);
                    assert forall|x: int, y: int|
                        0 <= x < y < self.pairs@.len() implies self.pairs@[x].0@
                        != self.pairs@[y].0@ by {
                        assert(s[x].0@ == self.pairs@[x].0@ || x == i);
                        assert(s[y].0@ == self.pairs@[y].0@ || y == i);
                    }
                }
            },
            None => {
                let ghost s = self.pairs@;
                let ghost p = (key, value);
                self.pairs.push((key, value));
                proof {
                    assert(self.pairs@.drop_last() =~= s);
                    lemma_ptm_absent(s, p.0@);
                    assert(self@ =~= old(self)@.insert(p.0@, p.1.deep_view()));
                }
            },
        }
    }
}

impl Dict<Vec<(usize, usize)>> {
    /// Appends one `(offset, value)` pair to the list held at `key`, starting
    /// a fresh list when the key is new.
    pub fn push_pair(&mut self, key: &str, p: (usize, usize))
        requires
            old(self).wf(),
        ensures
            final(self).wf(),
            old(self)@.contains_key(key@) ==> final(self)@ == old(self)@.insert(
                key@,
                old(self)@[key@].push(p),
            ),
            !old(self)@.contains_key(key@) ==> final(self)@ == old(self)@.insert(key@, seq![p]),
    {
        match self.index_of(key) {
            Some(i) => {
                proof {
                    lemma_ptm_found(self.pairs@, i as int);
                }
                let ghost s = self.pairs@;
                let mut pair = self.pairs.remove(i);
                pair.1.push(p);
                let ghost p2 = pair;
                self.pairs.insert(i, pair);
                proof {
                    assert(self.pairs@ =~= s.update(i as int, p2));
                    lemma_ptm_update(s, i as int, p2);
                    assert(p2.1.deep_view() =~= s[i as int].1.deep_view().push(p));
                    assert forall|x: int, y: int|
                        0 <= x < y < self.pairs@.len() implies self.pairs@[x].0@
                        != self.pairs@[y].0@ by {
                        assert(s[x].0@ == self.pairs@[x].0@ || x == i);
                        assert(s[y].0@ == self.pairs@[y].0@ || y == i);
                    }
                }
            },
            None => {
                let ghost s = self.pairs@;
                let mut list: Vec<(usize, usize)> = Vec::new();
                list.push(p);
                let pair = (key.to_owned(), list);
                let ghost p2 = pair;
                self.pairs.push(pair);
                proof {
                    assert(self.pairs@.drop_last() =~= s);
                    lemma_ptm_absent(s, key@);
                    assert(p2.1.deep_view() =~= seq![p]);
                }
            },
        }
    }
}

} // verus!
