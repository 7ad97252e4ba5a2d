//! The store that commands work on: one map from keys to frames and one
//! from keys to hashes, each hash a map from fields to frames.

use crate::resp::{FrameView, RespFrame};
use crate::resp::map::{
    find_key, keyed, lemma_lookup_after_upsert, lemma_lookup_other_after_upsert, lemma_rank,
    lemma_rank_by_keys, lemma_upsert_sorted, lookup, sorted_keys, upsert, RespMap,
};
use vstd::prelude::*;

verus! {

/// The mathematical value of a hash: its entries in ascending order of
/// their fields.
pub type HashView = Seq<(Seq<char>, FrameView)>;

/// The mathematical value of the store: the entries of its two maps, each
/// in ascending order of its keys.
pub struct BackendView {
    pub map: Seq<(Seq<char>, FrameView)>,
    pub hmap: Seq<(Seq<char>, HashView)>,
}

/// The store of keys and hashes.
#[derive(Debug)]
pub struct Backend {
    pub(crate) map: RespMap,
    pub(crate) hmap: Vec<(String, RespMap)>,
}

/// The values of the hashes of a vector, one by one.
pub open spec fn hashes_view(v: Seq<(String, RespMap)>) -> Seq<(Seq<char>, HashView)> {
    Seq::new(v.len(), |i: int| (v[i].0@, v[i].1@))
}

/// The hash under `key`, or the empty hash where there is none.
pub open spec fn hash_of(hmap: Seq<(Seq<char>, HashView)>, key: Seq<char>) -> HashView {
    match lookup(hmap, key) {
        Some(h) => h,
        None => Seq::empty(),
    }
}

impl View for Backend {
    type V = BackendView;

    open(crate) spec fn view(&self) -> BackendView {
        BackendView { map: self.map@, hmap: hashes_view(self.hmap@) }
    }
}

impl BackendView {
    /// Whether the keys of both maps, and the fields of every hash, ascend.
    pub open spec fn wf(self) -> bool {
        &&& sorted_keys(self.map)
        &&& sorted_keys(self.hmap)
        &&& forall|i: int| 0 <= i < self.hmap.len() ==> sorted_keys((#[trigger] self.hmap[i]).1)
    }

    /// The store after `value` was put under `key`.
    pub open spec fn set(self, key: Seq<char>, value: FrameView) -> BackendView {
        BackendView { map: upsert(self.map, key, value), hmap: self.hmap }
    }

    /// The store after `value` was put under `field` in the hash of `key`,
    /// which is made where it was not there.
    pub open spec fn hset(self, key: Seq<char>, field: Seq<char>, value: FrameView) -> BackendView {
        BackendView {
            map: self.map,
            hmap: upsert(self.hmap, key, upsert(hash_of(self.hmap, key), field, value)),
        }
    }

    /// The frame under `key`.
    pub open spec fn get(self, key: Seq<char>) -> Option<FrameView> {
        lookup(self.map, key)
    }

    /// The frame under `field` in the hash of `key`.
    pub open spec fn hget(self, key: Seq<char>, field: Seq<char>) -> Option<FrameView> {
        match lookup(self.hmap, key) {
            Some(h) => lookup(h, field),
            None => None,
        }
    }

    /// The hash of `key`.
    pub open spec fn hgetall(self, key: Seq<char>) -> Option<HashView> {
        lookup(self.hmap, key)
    }
}

impl Backend {
    /// The empty store.
    pub fn new() -> (r: Backend)
        ensures
            r@.map.len() == 0,
            r@.hmap.len() == 0,
            r@.wf(),
    {
        Backend { map: RespMap::new(), hmap: Vec::new() }
    }

    /// The frame under `key`, where there is one.
    pub fn get(&self, key: &str) -> (r: Option<RespFrame>)
        ensures
            match self@.get(key@) {
                Some(v) => r matches Some(f) && f@ == v,
                None => r is None,
            },
    {
        match self.map.get(key) {
            Some(f) => Some(f.clone()),
            None => None,
        }
    }

    /// Puts `value` under `key`, in place of any frame that was there.
    pub fn set(&mut self, key: String, value: RespFrame)
        ensures
            final(self)@ == old(self)@.set(key@, value@),
            old(self)@.wf() ==> final(self)@.wf(),
    {
        self.map.insert(key, value);
    }

    /// The frame under `field` in the hash of `key`, where there is one.
    pub fn hget(&self, key: &str, field: &str) -> (r: Option<RespFrame>)
        ensures
            match self@.hget(key@, field@) {
                Some(v) => r matches Some(f) && f@ == v,
                None => r is None,
            },
    {
        let (p, found) = find_key(&self.hmap, key);
        proof {
            lemma_rank_by_keys(hashes_view(self.hmap@), keyed(self.hmap@), key@);
        }
        if found {
            match self.hmap[p].1.get(field) {
                Some(f) => Some(f.clone()),
                None => None,
            }
        } else {
            None
        }
    }

    /// Puts `value` under `field` in the hash of `key`, in place of any
    /// frame that was there; the hash is made where it was not there.
    pub fn hset(&mut self, key: String, field: String, value: RespFrame)
        ensures
            final(self)@ == old(self)@.hset(key@, field@, value@),
            old(self)@.wf() ==> final(self)@.wf(),
    {
        proof {
            if old(self)@.wf() {
                lemma_store_stays_sorted(old(self)@, key@, field@, value@);
            }
        }
        let (p, found) = find_key(&self.hmap, key.as_str());
        proof {
            lemma_rank_by_keys(hashes_view(self.hmap@), keyed(self.hmap@), key@);
        }
        if found {
            let entry = &mut self.hmap[p];
            entry.1.insert(field, value);
        } else {
            let mut hash = RespMap::new();
            hash.insert(field, value);
            self.hmap.insert(p, (key, hash));
        }
        proof {
            assert(final(self)@.hmap =~= old(self)@.hset(key@, field@, value@).hmap);
        }
    }

    /// The hash of `key`, where there is one.
    pub fn hgetall(&self, key: &str) -> (r: Option<RespMap>)
        ensures
            match self@.hgetall(key@) {
                Some(h) => r matches Some(m) && m@ == h,
                None => r is None,
            },
    {
        let (p, found) = find_key(&self.hmap, key);
        proof {
            lemma_rank_by_keys(hashes_view(self.hmap@), keyed(self.hmap@), key@);
        }
        if found {
            Some(self.hmap[p].1.clone())
        } else {
            None
        }
    }
}

/// A key that was set gives the frame it was set to.
pub proof fn lemma_get_after_set(s: BackendView, key: Seq<char>, value: FrameView)
    ensures
        s.set(key, value).get(key) == Some(value),
        s.set(key, value).hmap == s.hmap,
{
    lemma_lookup_after_upsert(s.map, key, value);
}

/// Setting a key changes what no other key gives.
pub proof fn lemma_get_other_after_set(
    s: BackendView,
    key: Seq<char>,
    value: FrameView,
    other: Seq<char>,
)
    requires
        other != key,
    ensures
        s.set(key, value).get(other) == s.get(other),
{
    lemma_lookup_other_after_upsert(s.map, key, value, other);
}

/// A field that was set gives the frame it was set to, and the hash of its
/// key is the hash that was there with that field set.
pub proof fn lemma_hget_after_hset(
    s: BackendView,
    key: Seq<char>,
    field: Seq<char>,
    value: FrameView,
)
    ensures
        s.hset(key, field, value).hget(key, field) == Some(value),
        s.hset(key, field, value).hgetall(key) == Some(upsert(hash_of(s.hmap, key), field, value)),
        s.hset(key, field, value).map == s.map,
{
    let hash = upsert(hash_of(s.hmap, key), field, value);
    lemma_lookup_after_upsert(s.hmap, key, hash);
    lemma_lookup_after_upsert(hash_of(s.hmap, key), field, value);
}

/// Setting a field changes what no other field of its hash gives, and the
/// hash of no other key.
pub proof fn lemma_hget_other_after_hset(
    s: BackendView,
    key: Seq<char>,
    field: Seq<char>,
    value: FrameView,
    other_key: Seq<char>,
    other_field: Seq<char>,
)
    requires
        other_key != key || other_field != field,
    ensures
        s.hset(key, field, value).hget(other_key, other_field) == s.hget(other_key, other_field),
        other_key != key ==> s.hset(key, field, value).hgetall(other_key) == s.hgetall(other_key),
{
    let before = hash_of(s.hmap, key);
    let hash = upsert(before, field, value);
    if other_key == key {
        lemma_lookup_after_upsert(s.hmap, key, hash);
        lemma_lookup_other_after_upsert(before, field, value, other_field);
    } else {
        lemma_lookup_other_after_upsert(s.hmap, key, hash, other_key);
    }
}

/// Setting a key or a field keeps the keys and the fields of the store in
/// ascending order.
pub proof fn lemma_store_stays_sorted(
    s: BackendView,
    key: Seq<char>,
    field: Seq<char>,
    value: FrameView,
)
    requires
        s.wf(),
    ensures
        s.set(key, value).wf(),
        s.hset(key, field, value).wf(),
{
    lemma_upsert_sorted(s.map, key, value);
    let before = hash_of(s.hmap, key);
    lemma_rank(s.hmap, key);
    lemma_upsert_sorted(before, field, value);
    let hash = upsert(before, field, value);
    lemma_upsert_sorted(s.hmap, key, hash);
}

impl Default for Backend {
    fn default() -> (r: Backend)
        ensures
            r@.map.len() == 0,
            r@.hmap.len() == 0,
            r@.wf(),
    {
        Backend::new()
    }
}

} // verus!
