//! The key-value store: an in-memory map that keeps its pairs in order.
//!
//! The pairs live in an `indexmap::IndexMap`. What the map holds is known to
//! contracts as a sequence of pairs, in the order of the map.

use crate::errors::Error;
use crate::layout::read_u64_le;
use crate::names::bytes_eq;
use crate::raftpb::Snapshot;
use indexmap::IndexMap;
use vstd::bytes::spec_u64_from_le_bytes;
use vstd::prelude::*;

verus! {

/// `indexmap::IndexMap`. Contracts know what a map holds through
/// `spec_entries` alone.
#[verifier::external_type_specification]
#[verifier::external_body]
#[verifier::reject_recursive_types(K)]
#[verifier::reject_recursive_types(V)]
#[verifier::reject_recursive_types(S)]
pub struct ExIndexMap<K, V, S>(IndexMap<K, V, S>);

/// `bincode::ErrorKind`, the error of `bincode`; nothing is known of it.
#[verifier::external_type_specification]
#[verifier::external_body]
pub struct ExBincodeErrorKind(bincode::ErrorKind);

/// A key and its value as contracts see them.
pub type Pair = (Seq<u8>, Seq<u8>);

/// The pairs that a map holds, in the order of the map.
pub uninterp spec fn spec_entries(m: IndexMap<Vec<u8>, Vec<u8>>) -> Seq<Pair>;

/// The bytes that `bincode` writes for a map with the pairs `pairs`.
pub uninterp spec fn spec_map_bytes(pairs: Seq<Pair>) -> Seq<u8>;

/// The pairs of the map that `bincode` reads from `b`, if it reads one.
pub uninterp spec fn spec_map_of_bytes(b: Seq<u8>) -> Option<Seq<Pair>>;

/// The position of the first pair with the key `k`, or -1 where there is none.
pub open spec fn spec_find(pairs: Seq<Pair>, k: Seq<u8>) -> int
    decreases pairs.len(),
{
    if pairs.len() == 0 {
        -1
    } else if pairs.last().0 == k && spec_find(pairs.drop_last(), k) < 0 {
        pairs.len() - 1
    } else {
        spec_find(pairs.drop_last(), k)
    }
}

/// The value of the key `k`, if the pairs hold the key.
pub open spec fn spec_lookup(pairs: Seq<Pair>, k: Seq<u8>) -> Option<Seq<u8>> {
    if spec_find(pairs, k) >= 0 {
        Some(pairs[spec_find(pairs, k)].1)
    } else {
        None
    }
}

/// The pairs after `k` is set to `v`: the value changes in place where the
/// key is held, else the pair comes last.
pub open spec fn spec_set(pairs: Seq<Pair>, k: Seq<u8>, v: Seq<u8>) -> Seq<Pair> {
    if spec_find(pairs, k) >= 0 {
        pairs.update(spec_find(pairs, k), (k, v))
    } else {
        pairs.push((k, v))
    }
}

/// The pairs after the key `k` is deleted: its pair leaves, and the pairs
/// behind it move up.
pub open spec fn spec_delete(pairs: Seq<Pair>, k: Seq<u8>) -> Seq<Pair> {
    let i = spec_find(pairs, k);
    if i < 0 {
        pairs
    } else {
        pairs.remove(i)
    }
}

/// What a scan from `start_key` with the limit `limit` yields: the pairs from
/// the one with that key on, at most `limit` of them, in the order of the
/// store; nothing where no pair has the key.
pub open spec fn spec_scan(pairs: Seq<Pair>, start_key: Seq<u8>, limit: u32) -> Seq<Pair> {
    let i = spec_find(pairs, start_key);
    if i < 0 {
        Seq::empty()
    } else if i + limit <= pairs.len() {
        pairs.subrange(i, i + limit)
    } else {
        pairs.subrange(i, pairs.len() as int)
    }
}

/// Whether the number of pairs that `b` announces in its first eight bytes
/// can stand in `b` at all: each pair takes sixteen bytes or more.
pub open spec fn spec_count_plausible(b: Seq<u8>) -> bool {
    b.len() >= 8 && spec_u64_from_le_bytes(b.subrange(0, 8)) * 16 <= b.len() - 8
}

/// The pairs of two-level byte vectors.
pub open spec fn spec_pair_views(v: Seq<(Vec<u8>, Vec<u8>)>) -> Seq<Pair> {
    v.map_values(|p: (Vec<u8>, Vec<u8>)| (p.0@, p.1@))
}

/// `spec_find` gives a position that holds the key, and no earlier one does.
pub proof fn lemma_find(pairs: Seq<Pair>, k: Seq<u8>)
    ensures
        -1 <= spec_find(pairs, k) < pairs.len(),
        spec_find(pairs, k) >= 0 ==> pairs[spec_find(pairs, k)].0 == k,
        forall|i: int|
            0 <= i < pairs.len() && (spec_find(pairs, k) < 0 || i < spec_find(pairs, k)) ==> (
            #[trigger] pairs[i]).0 != k,
    decreases pairs.len(),
{
    if pairs.len() > 0 {
        lemma_find(pairs.drop_last(), k);
        assert forall|i: int|
            0 <= i < pairs.len() && (spec_find(pairs, k) < 0 || i < spec_find(pairs, k)) implies (
        #[trigger] pairs[i]).0 != k by {
            if i < pairs.len() - 1 {
                assert(pairs.drop_last()[i] == pairs[i]);
            }
        }
    }
}

/// The first position that holds the key is what `spec_find` gives.
pub proof fn lemma_find_is(pairs: Seq<Pair>, k: Seq<u8>, i: int)
    requires
        0 <= i < pairs.len(),
        pairs[i].0 == k,
        forall|j: int| 0 <= j < i ==> (#[trigger] pairs[j]).0 != k,
    ensures
        spec_find(pairs, k) == i,
{
    lemma_find(pairs, k);
}

/// Where no pair holds the key, `spec_find` gives -1.
pub proof fn lemma_find_none(pairs: Seq<Pair>, k: Seq<u8>)
    requires
        forall|j: int| 0 <= j < pairs.len() ==> (#[trigger] pairs[j]).0 != k,
    ensures
        spec_find(pairs, k) == -1,
{
    lemma_find(pairs, k);
}

/// Whether no key stands in two pairs.
pub open spec fn spec_distinct(pairs: Seq<Pair>) -> bool {
    forall|i: int, j: int|
        0 <= i < j < pairs.len() ==> (#[trigger] pairs[i]).0 != (#[trigger] pairs[j]).0
}

/// Where some pair holds the key, `spec_find` gives a position.
pub proof fn lemma_find_some(pairs: Seq<Pair>, k: Seq<u8>, i: int)
    requires
        0 <= i < pairs.len(),
        pairs[i].0 == k,
    ensures
        0 <= spec_find(pairs, k) <= i,
{
    lemma_find(pairs, k);
}

/// Setting a key. The key then has the value, every other key has what it
/// had, and keys stay distinct.
pub proof fn lemma_set(pairs: Seq<Pair>, k: Seq<u8>, v: Seq<u8>, other: Seq<u8>)
    requires
        spec_distinct(pairs),
        other != k,
    ensures
        spec_lookup(spec_set(pairs, k, v), k) == Some(v),
        spec_lookup(spec_set(pairs, k, v), other) == spec_lookup(pairs, other),
        spec_distinct(spec_set(pairs, k, v)),
{
    let after = spec_set(pairs, k, v);
    let i = spec_find(pairs, k);
    lemma_find(pairs, k);
    lemma_find(pairs, other);
    lemma_find(after, k);
    lemma_find(after, other);
    if i >= 0 {
        assert(after[i].0 == k);
        lemma_find_some(after, k, i);
        assert(spec_find(after, k) == i) by {
            let f = spec_find(after, k);
            if f < i {
                assert(after[f] == pairs[f]);
            }
        }
        assert forall|a: int, b: int| 0 <= a < b < after.len() implies (#[trigger] after[a]).0 != (
        #[trigger] after[b]).0 by {
            assert(after[a].0 == pairs[a].0);
            assert(after[b].0 == pairs[b].0);
        }
    } else {
        let n = pairs.len() as int;
        assert(after[n] == (k, v));
        lemma_find_some(after, k, n);
        assert(spec_find(after, k) == n) by {
            let f = spec_find(after, k);
            if f < n {
                assert(after[f] == pairs[f]);
            }
        }
        assert forall|a: int, b: int| 0 <= a < b < after.len() implies (#[trigger] after[a]).0 != (
        #[trigger] after[b]).0 by {
            if b < n {
                assert(after[a] == pairs[a] && after[b] == pairs[b]);
            } else {
                assert(after[a] == pairs[a]);
            }
        }
    }
    // the other key
    let o = spec_find(pairs, other);
    let p = spec_find(after, other);
    if o >= 0 {
        assert(after[o].0 == other);
        assert(after[o] == pairs[o]);
        lemma_find_some(after, other, o);
        if p < o {
            assert(after[p].0 == pairs[p].0);
        }
    } else if p >= 0 {
        if p < pairs.len() {
            assert(after[p].0 == pairs[p].0);
        }
    }
}

/// Deleting a key. The key is then gone, every other key has what it had,
/// the other pairs keep their order, and keys stay distinct.
pub proof fn lemma_delete(pairs: Seq<Pair>, k: Seq<u8>, other: Seq<u8>)
    requires
        spec_distinct(pairs),
        other != k,
    ensures
        spec_lookup(spec_delete(pairs, k), k) is None,
        spec_lookup(spec_delete(pairs, k), other) == spec_lookup(pairs, other),
        spec_distinct(spec_delete(pairs, k)),
{
    let after = spec_delete(pairs, k);
    let i = spec_find(pairs, k);
    lemma_find(pairs, k);
    lemma_find(pairs, other);
    lemma_find(after, k);
    lemma_find(after, other);
    if i >= 0 {
        assert forall|a: int| 0 <= a < after.len() implies #[trigger] after[a] == pairs[if a < i {
            a
        } else {
            a + 1
        }] by {}
        assert forall|a: int, b: int| 0 <= a < b < after.len() implies (#[trigger] after[a]).0 != (
        #[trigger] after[b]).0 by {
            let a2 = if a < i {
                a
            } else {
                a + 1
            };
            let b2 = if b < i {
                b
            } else {
                b + 1
            };
            assert(after[a] == pairs[a2] && after[b] == pairs[b2]);
        }
        let f = spec_find(after, k);
        if f >= 0 {
            let f2 = if f < i {
                f
            } else {
                f + 1
            };
            assert(after[f] == pairs[f2]);
            if f2 < i {
            } else {
                assert(pairs[i].0 != pairs[f2].0);
            }
        }
        let o = spec_find(pairs, other);
        let p = spec_find(after, other);
        if o >= 0 {
            let o1 = if o < i {
                o
            } else {
                o - 1
            };
            assert(after[o1] == pairs[o]);
            lemma_find_some(after, other, o1);
            let p2 = if p < i {
                p
            } else {
                p + 1
            };
            assert(after[p] == pairs[p2]);
            if p2 != o {
                if p2 < o {
                } else {
                    assert(pairs[o].0 != pairs[p2].0);
                }
            }
        } else if p >= 0 {
            let p2 = if p < i {
                p
            } else {
                p + 1
            };
            assert(after[p] == pairs[p2]);
        }
    }
}

/// Scan determinism. A scan from the key of the first pair yields the first
/// pairs of the store in their order, `limit` of them or all where there
/// are fewer.
pub proof fn lemma_scan_from_first(pairs: Seq<Pair>, limit: u32)
    requires
        pairs.len() > 0,
    ensures
        spec_scan(pairs, pairs[0].0, limit).len() <= limit,
        spec_scan(pairs, pairs[0].0, limit) == (if limit <= pairs.len() {
            pairs.subrange(0, limit as int)
        } else {
            pairs
        }),
{
    lemma_find_is(pairs, pairs[0].0, 0);
    if limit > pairs.len() {
        assert(pairs.subrange(0, pairs.len() as int) =~= pairs);
    }
}

/// A scan never yields more pairs than its limit, and what it yields
/// stands in the store in one run, in the same order.
pub proof fn lemma_scan_is_a_run(pairs: Seq<Pair>, start_key: Seq<u8>, limit: u32)
    ensures
        spec_scan(pairs, start_key, limit).len() <= limit,
        spec_find(pairs, start_key) >= 0 ==> forall|i: int|
            0 <= i < spec_scan(pairs, start_key, limit).len() ==> #[trigger] spec_scan(
                pairs,
                start_key,
                limit,
            )[i] == pairs[spec_find(pairs, start_key) + i],
{
    lemma_find(pairs, start_key);
}

/// Calls `IndexMap::new`: the new map holds nothing.
#[verifier::external_body]
fn map_new() -> (m: IndexMap<Vec<u8>, Vec<u8>>)
    ensures
        spec_entries(m) == Seq::<Pair>::empty(),
{
    IndexMap::new()
}

/// Calls `IndexMap::insert`. A key that the map holds keeps its place and
/// gets the new value, and the old value is returned; a new key comes last.
#[verifier::external_body]
fn map_insert(m: &mut IndexMap<Vec<u8>, Vec<u8>>, k: Vec<u8>, v: Vec<u8>) -> (old_value: Option<
    Vec<u8>,
>)
    ensures
        spec_entries(*final(m)) == spec_set(spec_entries(*old(m)), k@, v@),
        match old_value {
            Some(x) => spec_lookup(spec_entries(*old(m)), k@) == Some(x@),
            None => spec_lookup(spec_entries(*old(m)), k@) is None,
        },
{
    m.insert(k, v)
}

/// Calls `IndexMap::get` and copies the value found.
#[verifier::external_body]
fn map_get(m: &IndexMap<Vec<u8>, Vec<u8>>, k: &[u8]) -> (value: Option<Vec<u8>>)
    ensures
        match value {
            Some(x) => spec_lookup(spec_entries(*m), k@) == Some(x@),
            None => spec_lookup(spec_entries(*m), k@) is None,
        },
{
    m.get(k).cloned()
}

/// Calls `IndexMap::shift_remove`: the pair with the key leaves, the pairs
/// behind it move up by one place, and the value is returned.
#[verifier::external_body]
fn map_remove(m: &mut IndexMap<Vec<u8>, Vec<u8>>, k: &[u8]) -> (old_value: Option<Vec<u8>>)
    ensures
        spec_entries(*final(m)) == spec_delete(spec_entries(*old(m)), k@),
        match old_value {
            Some(x) => spec_lookup(spec_entries(*old(m)), k@) == Some(x@),
            None => spec_lookup(spec_entries(*old(m)), k@) is None,
        },
{
    m.shift_remove(k)
}

/// Walks `IndexMap::iter` and copies each pair: the pairs of the map in
/// the order of the map.
#[verifier::external_body]
fn map_pairs(m: &IndexMap<Vec<u8>, Vec<u8>>) -> (pairs: Vec<(Vec<u8>, Vec<u8>)>)
    ensures
        spec_pair_views(pairs@) == spec_entries(*m),
{
    m.iter().map(|(k, v)| (k.clone(), v.clone())).collect()
}

/// Calls `bincode::serialize` on the map: the number of pairs as eight
/// little-endian bytes, then each key and value behind its length. The bytes
/// are a function of the pairs; the call succeeds, and reading the bytes
/// gives a map with the same pairs.
#[verifier::external_body]
fn map_to_bytes(m: &IndexMap<Vec<u8>, Vec<u8>>) -> (out: Result<Vec<u8>, Box<bincode::ErrorKind>>)
    ensures
        match out {
            Ok(b) => {
                &&& b@ == spec_map_bytes(spec_entries(*m))
                &&& spec_map_of_bytes(b@) == Some(spec_entries(*m))
                &&& spec_count_plausible(b@)
            },
            Err(_) => false,
        },
{
    bincode::serialize(m)
}

/// Calls `bincode::deserialize` for a map. The map is built with room for
/// the number of pairs that the bytes announce, so that number has to be
/// plausible. Bytes behind the map are ignored.
#[verifier::external_body]
fn map_from_bytes(b: &[u8]) -> (out: Result<IndexMap<Vec<u8>, Vec<u8>>, Box<bincode::ErrorKind>>)
    requires
        spec_count_plausible(b@),
    ensures
        match out {
            Ok(m) => spec_map_of_bytes(b@) == Some(spec_entries(m)),
            Err(_) => spec_map_of_bytes(b@) is None,
        },
{
    bincode::deserialize(b)
}

/// What importing the bytes `b` gives: the pairs that they encode, or
/// nothing where they announce more pairs than they can hold or encode no map.
pub open spec fn spec_import(b: Seq<u8>) -> Option<Seq<Pair>> {
    if spec_count_plausible(b) {
        spec_map_of_bytes(b)
    } else {
        None
    }
}

/// The key-value store.
pub struct Store {
    inner: IndexMap<Vec<u8>, Vec<u8>>,
}

impl Store {
    /// The pairs of the store, in the order in which their keys were first
    /// set.
    pub closed spec fn spec_pairs(&self) -> Seq<Pair> {
        spec_entries(self.inner)
    }

    /// An empty store.
    pub fn new() -> (s: Store)
        ensures
            s.spec_pairs() == Seq::<Pair>::empty(),
    {
        Store { inner: map_new() }
    }

    /// Replaces the whole store by the pairs that the data of `snap`
    /// encodes. Fails with `Error::Bincode`, and changes nothing, exactly
    /// where the data encodes no map.
    pub fn from_snapshot(&mut self, snap: &Snapshot) -> (out: Result<(), Error>)
        ensures
            match spec_import(snap.data@) {
                Some(pairs) => out is Ok && final(self).spec_pairs() == pairs,
                None => out matches Err(Error::Bincode) && final(self).spec_pairs() == old(
                    self,
                ).spec_pairs(),
            },
    {
        let b = snap.data.as_slice();
        if b.len() < 8 {
            return Err(Error::Bincode);
        }
        let count = read_u64_le(b);
        if count > ((b.len() - 8) / 16) as u64 {
            return Err(Error::Bincode);
        }
        match map_from_bytes(b) {
            Ok(m) => {
                self.inner = m;
                Ok(())
            },
            Err(_) => Err(Error::Bincode),
        }
    }

    /// The whole store as bytes. Importing them restores the pairs in their
    /// order.
    pub fn get_snapshot(&self) -> (out: Result<Vec<u8>, Error>)
        ensures
            out matches Ok(b) && b@ == spec_map_bytes(self.spec_pairs()) && spec_import(b@)
                == Some(self.spec_pairs()),
    {
        match map_to_bytes(&self.inner) {
            Ok(b) => Ok(b),
            Err(_) => Err(Error::Bincode),
        }
    }

    /// Sets `k` to `v` and returns the value that `k` had.
    pub fn set(&mut self, k: Vec<u8>, v: Vec<u8>) -> (old_value: Option<Vec<u8>>)
        ensures
            final(self).spec_pairs() == spec_set(old(self).spec_pairs(), k@, v@),
            match old_value {
                Some(x) => spec_lookup(old(self).spec_pairs(), k@) == Some(x@),
                None => spec_lookup(old(self).spec_pairs(), k@) is None,
            },
    {
        map_insert(&mut self.inner, k, v)
    }

    /// The value of `k`.
    pub fn get(&self, k: &[u8]) -> (value: Option<Vec<u8>>)
        ensures
            match value {
                Some(x) => spec_lookup(self.spec_pairs(), k@) == Some(x@),
                None => spec_lookup(self.spec_pairs(), k@) is None,
            },
    {
        map_get(&self.inner, k)
    }

    /// Deletes `k` and returns the value that it had.
    pub fn delete(&mut self, k: &[u8]) -> (old_value: Option<Vec<u8>>)
        ensures
            final(self).spec_pairs() == spec_delete(old(self).spec_pairs(), k@),
            match old_value {
                Some(x) => spec_lookup(old(self).spec_pairs(), k@) == Some(x@),
                None => spec_lookup(old(self).spec_pairs(), k@) is None,
            },
    {
        map_remove(&mut self.inner, k)
    }

    /// The pairs from the one with the key `start_key` on, at most `limit`
    /// of them, in the order of the store; nothing where no pair has the key.
    pub fn scan(&self, start_key: &[u8], limit: u32) -> (out: Vec<(Vec<u8>, Vec<u8>)>)
        ensures
            spec_pair_views(out@) == spec_scan(self.spec_pairs(), start_key@, limit),
            out@.len() <= limit,
    {
        let all = map_pairs(&self.inner);
        let ghost pairs = self.spec_pairs();
        let mut out: Vec<(Vec<u8>, Vec<u8>)> = Vec::new();
        let mut i: usize = 0;
        while i < all.len() && !bytes_eq(all[i].0.as_slice(), start_key)
            invariant
                i <= all@.len(),
                spec_pair_views(all@) == pairs,
                forall|j: int| 0 <= j < i ==> (#[trigger] pairs[j]).0 != start_key@,
            decreases all@.len() - i,
        {
            assert(pairs[i as int].0 == all@[i as int].0@);
            i = i + 1;
        }
        if i == all.len() {
            proof {
                lemma_find_none(pairs, start_key@);
            }
            assert(spec_pair_views(out@) =~= Seq::<Pair>::empty());
            return out;
        }
        proof {
            assert(pairs[i as int].0 == all@[i as int].0@);
            lemma_find_is(pairs, start_key@, i as int);
        }
        let first = i;
        while i < all.len() && i - first < limit as usize
            invariant
                first <= i <= all@.len(),
                i - first <= limit,
                spec_pair_views(all@) == pairs,
                spec_pair_views(out@) == pairs.subrange(first as int, i as int),
            decreases all@.len() - i,
        {
            let k = crate::layout::copy_of(all[i].0.as_slice());
            let v = crate::layout::copy_of(all[i].1.as_slice());
            let ghost before = spec_pair_views(out@);
            out.push((k, v));
            assert(spec_pair_views(all@)[i as int] == (all@[i as int].0@, all@[i as int].1@));
            assert(spec_pair_views(out@) =~= before.push((k@, v@)));
            i = i + 1;
            assert(pairs.subrange(first as int, i as int) =~= pairs.subrange(
                first as int,
                i - 1,
            ).push(pairs[i - 1]));
        }
        out
    }
}

} // verus!
