//! Maps from text keys to values, held as entries in ascending order of
//! their keys, and the map frame built on them.

use crate::resp::{entries_view, lemma_entries_view, FrameView, RespFrame};
use crate::resp::text::{key_before, lemma_text_lt_order, text_lt};
use vstd::prelude::*;

verus! {

/// Whether the keys of `m` ascend strictly, so that no key occurs twice.
pub open spec fn sorted_keys<V>(m: Seq<(Seq<char>, V)>) -> bool {
    forall|i: int, j: int| 0 <= i < j < m.len() ==> text_lt(#[trigger] m[i].0, #[trigger] m[j].0)
}

/// How many entries `m` begins with whose keys come before `key`.
pub open spec fn rank<V>(m: Seq<(Seq<char>, V)>, key: Seq<char>) -> int
    decreases m.len(),
{
    if m.len() > 0 && text_lt(m[0].0, key) {
        1 + rank(m.skip(1), key)
    } else {
        0
    }
}

/// Whether the entry at the rank of `key` has that key.
pub open spec fn has_key<V>(m: Seq<(Seq<char>, V)>, key: Seq<char>) -> bool {
    rank(m, key) < m.len() && m[rank(m, key)].0 == key
}

/// The value that `m` holds under `key`.
pub open spec fn lookup<V>(m: Seq<(Seq<char>, V)>, key: Seq<char>) -> Option<V> {
    if has_key(m, key) {
        Some(m[rank(m, key)].1)
    } else {
        None
    }
}

/// `m` with `value` under `key`: in place of the value that was there, or
/// as a new entry at the rank of `key`.
pub open spec fn upsert<V>(m: Seq<(Seq<char>, V)>, key: Seq<char>, value: V) -> Seq<
    (Seq<char>, V),
> {
    if has_key(m, key) {
        m.update(rank(m, key), (key, value))
    } else {
        m.insert(rank(m, key), (key, value))
    }
}

/// The rank of a key lies within the map; the keys before it come before
/// the key, and the key at it does not.
pub proof fn lemma_rank<V>(m: Seq<(Seq<char>, V)>, key: Seq<char>)
    ensures
        0 <= rank(m, key) <= m.len(),
        forall|i: int| 0 <= i < rank(m, key) ==> text_lt((#[trigger] m[i]).0, key),
        rank(m, key) < m.len() ==> !text_lt(m[rank(m, key)].0, key),
    decreases m.len(),
{
    if m.len() > 0 && text_lt(m[0].0, key) {
        lemma_rank(m.skip(1), key);
        assert forall|i: int| 0 <= i < rank(m, key) implies text_lt((#[trigger] m[i]).0, key) by {
            if i > 0 {
                assert(m.skip(1)[i - 1] == m[i]);
            }
        }
    }
}

/// In a map with ascending keys the rank of a key is the one place where
/// the keys before come before it and the keys from there on do not.
pub proof fn lemma_rank_unique<V>(m: Seq<(Seq<char>, V)>, key: Seq<char>, p: int)
    requires
        0 <= p <= m.len(),
        forall|i: int| 0 <= i < p ==> text_lt((#[trigger] m[i]).0, key),
        p < m.len() ==> !text_lt(m[p].0, key),
    ensures
        rank(m, key) == p,
    decreases m.len(),
{
    if p > 0 {
        lemma_rank_unique(m.skip(1), key, p - 1);
    }
}

/// In a map with ascending keys a key is found exactly where an entry has
/// it, and with the value of that entry.
pub proof fn lemma_lookup_sorted<V>(m: Seq<(Seq<char>, V)>, key: Seq<char>, i: int)
    requires
        sorted_keys(m),
        0 <= i < m.len(),
    ensures
        m[i].0 == key ==> lookup(m, key) == Some(m[i].1),
        lookup(m, key) is None ==> m[i].0 != key,
{
    lemma_rank(m, key);
    if m[i].0 == key {
        lemma_text_lt_order(key, key, key);
    }
}

/// Putting a value under a key keeps the keys ascending.
pub proof fn lemma_upsert_sorted<V>(m: Seq<(Seq<char>, V)>, key: Seq<char>, value: V)
    requires
        sorted_keys(m),
    ensures
        sorted_keys(upsert(m, key, value)),
{
    lemma_rank(m, key);
    let p = rank(m, key);
    let r = upsert(m, key, value);
    if !has_key(m, key) {
        assert forall|i: int, j: int| 0 <= i < j < r.len() implies text_lt(
            #[trigger] r[i].0,
            #[trigger] r[j].0,
        ) by {
            if i == p {
                lemma_text_lt_order(key, m[p].0, m[j - 1].0);
            }
        }
    }
}

/// After a value was put under a key, that key gives that value.
pub proof fn lemma_lookup_after_upsert<V>(m: Seq<(Seq<char>, V)>, key: Seq<char>, value: V)
    ensures
        lookup(upsert(m, key, value), key) == Some(value),
{
    lemma_rank(m, key);
    let p = rank(m, key);
    let r = upsert(m, key, value);
    lemma_text_lt_order(key, key, key);
    lemma_rank_unique(r, key, p);
}

/// Where a new entry is put before the place of another key, that place
/// moves on by one.
proof fn lemma_rank_after_insert_before<V>(
    m: Seq<(Seq<char>, V)>,
    key: Seq<char>,
    value: V,
    other: Seq<char>,
)
    requires
        text_lt(key, other),
    ensures
        rank(m, key) <= rank(m, other),
        rank(m.insert(rank(m, key), (key, value)), other) == rank(m, other) + 1,
{
    lemma_rank(m, key);
    lemma_rank(m, other);
    let p = rank(m, key);
    let q = rank(m, other);
    let r = m.insert(p, (key, value));
    if q < p {
        lemma_text_lt_order(m[q].0, key, other);
    }
    lemma_rank_unique(r, other, q + 1);
}

/// Where a new entry is put at or behind the place of another key, that
/// place stays.
proof fn lemma_rank_after_insert_behind<V>(
    m: Seq<(Seq<char>, V)>,
    key: Seq<char>,
    value: V,
    other: Seq<char>,
)
    requires
        text_lt(other, key),
        !has_key(m, key),
    ensures
        rank(m, other) <= rank(m, key),
        rank(m.insert(rank(m, key), (key, value)), other) == rank(m, other),
{
    lemma_rank(m, key);
    lemma_rank(m, other);
    let p = rank(m, key);
    let q = rank(m, other);
    let r = m.insert(p, (key, value));
    lemma_text_lt_order(other, key, other);
    if p < q {
        lemma_text_lt_order(m[p].0, other, key);
    }
    lemma_rank_unique(r, other, q);
}

/// After a value was put under a key, every other key gives what it gave
/// before.
pub proof fn lemma_lookup_other_after_upsert<V>(
    m: Seq<(Seq<char>, V)>,
    key: Seq<char>,
    value: V,
    other: Seq<char>,
)
    requires
        other != key,
    ensures
        lookup(upsert(m, key, value), other) == lookup(m, other),
{
    lemma_rank(m, key);
    lemma_rank(m, other);
    let p = rank(m, key);
    let q = rank(m, other);
    let r = upsert(m, key, value);
    if has_key(m, key) {
        lemma_rank_by_keys(r, m, other);
    } else {
        lemma_text_lt_order(key, other, key);
        if text_lt(key, other) {
            lemma_rank_after_insert_before(m, key, value, other);
        } else {
            lemma_rank_after_insert_behind(m, key, value, other);
            if q < p {
                assert(r[q] == m[q]);
            }
        }
    }
}

/// A key behind all the keys of a map with ascending keys goes to its end.
pub proof fn lemma_upsert_last<V>(m: Seq<(Seq<char>, V)>, key: Seq<char>, value: V)
    requires
        forall|i: int| 0 <= i < m.len() ==> text_lt((#[trigger] m[i]).0, key),
    ensures
        upsert(m, key, value) == m.push((key, value)),
{
    lemma_rank_unique(m, key, m.len() as int);
}

/// The keys of the entries of a vector, for the search that goes by keys
/// alone.
pub open spec fn keyed<V>(entries: Seq<(String, V)>) -> Seq<(Seq<char>, ())> {
    Seq::new(entries.len(), |i: int| (entries[i].0@, ()))
}

/// Finds the rank of `key` among `entries`, and whether the entry there has
/// that key.
pub fn find_key<V>(entries: &Vec<(String, V)>, key: &str) -> (r: (usize, bool))
    ensures
        r.0 == rank(keyed(entries@), key@),
        r.0 <= entries.len(),
        r.1 == has_key(keyed(entries@), key@),
{
    let ghost m = keyed(entries@);
    let mut i: usize = 0;
    proof {
        assert(m.skip(0) =~= m);
    }
    while i < entries.len() && key_before(entries[i].0.as_str(), key)
        invariant
            i <= entries.len(),
            m == keyed(entries@),
            rank(m, key@) == i + rank(m.skip(i as int), key@),
        decreases entries.len() - i,
    {
        proof {
            assert(m.skip(i as int).skip(1) =~= m.skip(i + 1));
        }
        i += 1;
    }
    let found = i < entries.len() && !key_before(key, entries[i].0.as_str());
    proof {
        if i < entries.len() {
            lemma_text_lt_order(key@, m[i as int].0, key@);
        }
    }
    (i, found)
}

/// A map from text keys to frames, kept in ascending order of its keys.
#[derive(PartialEq, Debug)]
pub struct RespMap {
    pub(crate) entries: Vec<(String, RespFrame)>,
}

impl View for RespMap {
    type V = Seq<(Seq<char>, FrameView)>;

    open(crate) spec fn view(&self) -> Seq<(Seq<char>, FrameView)>
        decreases self,
    {
        entries_view(self.entries@)
    }
}

impl Clone for RespMap {
    fn clone(&self) -> (r: Self)
        ensures
            r@ == self@,
        decreases self,
    {
        let mut out: Vec<(String, RespFrame)> = Vec::new();
        let mut i: usize = 0;
        while i < self.entries.len()
            invariant
                i <= self.entries.len(),
                out@.len() == i,
                forall|j: int|
                    0 <= j < i ==> (#[trigger] out@[j]).0@ == self.entries@[j].0@ && out@[j].1@
                        == self.entries@[j].1@,
            decreases self.entries.len() - i,
        {
            let entry = &self.entries[i];
            out.push((entry.0.clone(), entry.1.clone()));
            i += 1;
        }
        proof {
            lemma_entries_view(out@);
            lemma_entries_view(self.entries@);
        }
        RespMap { entries: out }
    }
}

impl RespMap {
    /// The empty map.
    pub fn new() -> (r: RespMap)
        ensures
            r@ == Seq::<(Seq<char>, FrameView)>::empty(),
            sorted_keys(r@),
    {
        RespMap { entries: Vec::new() }
    }

    /// The number of entries.
    pub fn len(&self) -> (n: usize)
        ensures
            n == self@.len(),
    {
        proof {
            lemma_entries_view(self.entries@);
        }
        self.entries.len()
    }

    /// Whether the map has no entry.
    pub fn is_empty(&self) -> (r: bool)
        ensures
            r == (self@.len() == 0),
    {
        self.entries.len() == 0
    }

    /// The key of the entry at place `i`, in ascending order of the keys.
    pub fn key_at(&self, i: usize) -> (r: &String)
        requires
            i < self@.len(),
        ensures
            r@ == self@[i as int].0,
    {
        proof {
            lemma_entries_view(self.entries@);
        }
        &self.entries[i].0
    }

    /// The value of the entry at place `i`, in ascending order of the keys.
    pub fn value_at(&self, i: usize) -> (r: &RespFrame)
        requires
            i < self@.len(),
        ensures
            r@ == self@[i as int].1,
    {
        proof {
            lemma_entries_view(self.entries@);
        }
        &self.entries[i].1
    }

    /// The value under `key`, where the map has one.
    pub fn get(&self, key: &str) -> (r: Option<&RespFrame>)
        ensures
            match lookup(self@, key@) {
                Some(v) => r matches Some(f) && f@ == v,
                None => r is None,
            },
    {
        let (p, found) = find_key(&self.entries, key);
        proof {
            lemma_entries_view(self.entries@);
            lemma_rank_by_keys(self@, keyed(self.entries@), key@);
        }
        if found {
            Some(&self.entries[p].1)
        } else {
            None
        }
    }

    /// Puts `value` under `key`, in place of any value that was there.
    pub fn insert(&mut self, key: String, value: RespFrame)
        ensures
            final(self)@ == upsert(old(self)@, key@, value@),
            sorted_keys(old(self)@) ==> sorted_keys(final(self)@),
    {
        let (p, found) = find_key(&self.entries, key.as_str());
        proof {
            lemma_entries_view(self.entries@);
            lemma_rank_by_keys(self@, keyed(self.entries@), key@);
        }
        if found {
            self.entries.set(p, (key, value));
        } else {
            self.entries.insert(p, (key, value));
        }
        proof {
            lemma_entries_view(self.entries@);
            if sorted_keys(old(self)@) {
                lemma_upsert_sorted(old(self)@, key@, value@);
            }
        }
    }
}

/// The rank of a key depends on the keys alone.
pub proof fn lemma_rank_by_keys<V, W>(
    a: Seq<(Seq<char>, V)>,
    b: Seq<(Seq<char>, W)>,
    key: Seq<char>,
)
    requires
        a.len() == b.len(),
        forall|i: int| 0 <= i < a.len() ==> (#[trigger] a[i]).0 == b[i].0,
    ensures
        rank(a, key) == rank(b, key),
        has_key(a, key) == has_key(b, key),
    decreases a.len(),
{
    if a.len() > 0 {
        lemma_rank_by_keys(a.skip(1), b.skip(1), key);
    }
    lemma_rank(a, key);
}

} // verus!
