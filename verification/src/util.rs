//! Directory listings: choosing the files with one extension and sorting them.

use crate::names::{base_name, has_extension, spec_base_name, spec_extension};
use crate::order::{listing_order, spec_sorted, spec_views};
use vstd::slice::slice_to_vec;
use vstd::prelude::*;

verus! {

/// What a directory holds under one path: the path, and whether it is a
/// regular file.
#[derive(Clone, Debug)]
pub struct DirEntry {
    pub path: Vec<u8>,
    pub is_file: bool,
}

/// Whether a listing for the extension `ext` takes the entry.
pub open spec fn spec_selected(e: DirEntry, ext: Seq<u8>) -> bool {
    e.is_file && spec_extension(spec_base_name(e.path@)) == Some(ext)
}

/// The paths of the entries that a listing for `ext` takes, in the order of
/// the entries.
pub open spec fn spec_select(entries: Seq<DirEntry>, ext: Seq<u8>) -> Seq<Seq<u8>>
    decreases entries.len(),
{
    if entries.len() == 0 {
        Seq::empty()
    } else {
        let rest = spec_select(entries.drop_last(), ext);
        if spec_selected(entries.last(), ext) {
            rest.push(entries.last().path@)
        } else {
            rest
        }
    }
}

/// Calls `itertools::Itertools::sorted_by`, which collects the items and
/// sorts them with the stable `slice::sort_by`, comparing by `listing_order`:
/// the result holds the same paths, each as often as before, in that order.
#[verifier::external_body]
fn sorted_paths(paths: Vec<Vec<u8>>, desc: bool) -> (out: Vec<Vec<u8>>)
    ensures
        spec_views(out@).to_multiset() == spec_views(paths@).to_multiset(),
        spec_sorted(spec_views(out@), desc),
{
    itertools::Itertools::sorted_by(paths.into_iter(), |a, b| listing_order(a, b, desc))
}

/// The paths of the regular files among `entries` whose extension is `ext`,
/// sorted as byte strings: ascending, or descending where `desc` is set.
pub fn read_with_ext_and_sort(entries: &Vec<DirEntry>, ext: &[u8], desc: bool) -> (out: Vec<
    Vec<u8>,
>)
    ensures
        spec_views(out@).to_multiset() == spec_select(entries@, ext@).to_multiset(),
        spec_sorted(spec_views(out@), desc),
{
    let mut chosen: Vec<Vec<u8>> = Vec::new();
    let mut i: usize = 0;
    while i < entries.len()
        invariant
            i <= entries@.len(),
            spec_views(chosen@) == spec_select(entries@.subrange(0, i as int), ext@),
        decreases entries@.len() - i,
    {
        let ghost before = spec_views(chosen@);
        let e = &entries[i];
        proof {
            let next = entries@.subrange(0, i + 1);
            assert(next.drop_last() =~= entries@.subrange(0, i as int));
            assert(next.last() == entries@[i as int]);
        }
        if e.is_file && has_extension(base_name(e.path.as_slice()), ext) {
            chosen.push(slice_to_vec(e.path.as_slice()));
            assert(spec_views(chosen@) =~= before.push(e.path@));
        }
        i = i + 1;
    }
    assert(entries@.subrange(0, i as int) =~= entries@);
    sorted_paths(chosen, desc)
}

/// The extension of log segments: `wal`.
pub open spec fn spec_wal_ext() -> Seq<u8> {
    seq![119u8, 97u8, 108u8]
}

/// The extension of log segments.
pub fn wal_ext() -> (ext: Vec<u8>)
    ensures
        ext@ == spec_wal_ext(),
{
    let ext = vec![119u8, 97u8, 108u8];
    assert(ext@ =~= spec_wal_ext());
    ext
}

/// Whether a directory with these entries holds a log segment.
pub fn wal_exists(entries: &Vec<DirEntry>) -> (found: bool)
    ensures
        found == (spec_select(entries@, spec_wal_ext()).len() > 0),
{
    let ext = wal_ext();
    let mut i: usize = 0;
    while i < entries.len()
        invariant
            i <= entries@.len(),
            ext@ == spec_wal_ext(),
            spec_select(entries@.subrange(0, i as int), spec_wal_ext()).len() == 0,
        decreases entries@.len() - i,
    {
        let e = &entries[i];
        proof {
            let next = entries@.subrange(0, i + 1);
            assert(next.drop_last() =~= entries@.subrange(0, i as int));
            assert(next.last() == entries@[i as int]);
        }
        if e.is_file && has_extension(base_name(e.path.as_slice()), ext.as_slice()) {
            proof {
                lemma_select_grows(entries@, spec_wal_ext(), i + 1);
            }
            return true;
        }
        i = i + 1;
    }
    assert(entries@.subrange(0, i as int) =~= entries@);
    false
}

/// A listing of more entries holds at least as many paths.
pub proof fn lemma_select_grows(entries: Seq<DirEntry>, ext: Seq<u8>, k: int)
    requires
        0 <= k <= entries.len(),
    ensures
        spec_select(entries.subrange(0, k), ext).len() <= spec_select(entries, ext).len(),
    decreases entries.len() - k,
{
    if k < entries.len() {
        lemma_select_grows(entries, ext, k + 1);
        let next = entries.subrange(0, k + 1);
        assert(next.drop_last() =~= entries.subrange(0, k));
    } else {
        assert(entries.subrange(0, k) =~= entries);
    }
}

} // verus!
