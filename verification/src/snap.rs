//! Snapshots on disk: a checksum in front of the encoded snapshot.
//!
//! The snapshotter computes what a snapshot file holds and where it goes,
//! and judges the bytes of the files that a directory listing has found.

use crate::checksum::{crc32c, spec_crc32c};
use crate::errors::Error;
use crate::layout::{
    append_bytes, lemma_blob_round_trip, put_blob, put_u32, spec_blob, spec_first_blob,
    spec_starts_with_blob, take_blob,
};
use crate::names::{
    file_name, join, lemma_file_name_order, lemma_join_order, spec_file_name, spec_join,
    spec_pair_le,
};
use crate::order::spec_sorted;
use crate::raftpb::{Snapshot, SnapshotModel};
use crate::wire::{
    decode_snapshot, encode_snapshot, spec_snapshot_bytes, spec_snapshot_fits,
    spec_snapshot_of_bytes,
};
use vstd::bytes::{
    lemma_auto_spec_u32_to_from_le_bytes, spec_u32_from_le_bytes, spec_u32_to_le_bytes,
    u32_from_le_bytes,
};
use vstd::prelude::*;
use vstd::slice::{slice_subrange, slice_to_vec};

verus! {

/// The extension of snapshot files: `snap`.
pub open spec fn spec_snap_ext() -> Seq<u8> {
    seq![115u8, 110u8, 97u8, 112u8]
}

/// What is added to the name of a corrupt snapshot file: `.broken`.
pub open spec fn spec_broken_suffix() -> Seq<u8> {
    seq![46u8, 98u8, 114u8, 111u8, 107u8, 101u8, 110u8]
}

/// The extension of snapshot files.
pub fn snap_ext() -> (ext: Vec<u8>)
    ensures
        ext@ == spec_snap_ext(),
{
    let ext = vec![115u8, 110u8, 97u8, 112u8];
    assert(ext@ =~= spec_snap_ext());
    ext
}

/// The path of the snapshot with `term` and `index` in the directory `dir`.
pub open spec fn spec_snap_path(dir: Seq<u8>, index: u64, term: u64) -> Seq<u8> {
    spec_join(dir, spec_file_name(term, index, spec_snap_ext()))
}

/// The bytes of a snapshot file whose payload is `payload`: the CRC-32C of
/// the payload as four little-endian bytes, then the payload behind its
/// eight-byte little-endian length.
pub open spec fn spec_snap_file(payload: Seq<u8>) -> Seq<u8> {
    spec_u32_to_le_bytes(spec_crc32c(payload)) + spec_blob(payload)
}

/// What loading a snapshot file with the bytes `b` gives: the snapshot, or
/// `Bincode` where the bytes are no checksum and payload, `CrcMissMatch`
/// where the checksum is not that of the payload, `Protbuf` where the payload
/// decodes to no snapshot.
pub open spec fn spec_load_snap(b: Seq<u8>) -> Result<SnapshotModel, Error> {
    if !(b.len() >= 4 && spec_starts_with_blob(b.skip(4))) {
        Err(Error::Bincode)
    } else if spec_u32_from_le_bytes(b.subrange(0, 4)) != spec_crc32c(spec_first_blob(b.skip(4))) {
        Err(Error::CrcMissMatch)
    } else {
        match spec_snapshot_of_bytes(spec_first_blob(b.skip(4))) {
            Some(s) => Ok(s),
            None => Err(Error::Protbuf),
        }
    }
}

/// Whether the encoding of `s` decodes to `s` again and has a length that
/// eight bytes hold: a successful `Snapshotter::save` ensures this of what
/// it has encoded.
pub open spec fn spec_snapshot_reads_back(s: SnapshotModel) -> bool {
    &&& spec_snapshot_of_bytes(spec_snapshot_bytes(s)) == Some(s)
    &&& spec_snapshot_bytes(s).len() <= u64::MAX
}

/// Snapshot round trip. Loading the file that was saved for a snapshot gives
/// the snapshot back.
pub proof fn lemma_snapshot_round_trip(s: SnapshotModel)
    requires
        spec_snapshot_reads_back(s),
    ensures
        spec_load_snap(spec_snap_file(spec_snapshot_bytes(s))) == Ok::<SnapshotModel, Error>(s),
{
    let payload = spec_snapshot_bytes(s);
    let b = spec_snap_file(payload);
    lemma_auto_spec_u32_to_from_le_bytes();
    assert(spec_u32_to_le_bytes(spec_crc32c(payload)).len() == 4);
    assert(b.subrange(0, 4) =~= spec_u32_to_le_bytes(spec_crc32c(payload)));
    assert(b.skip(4) =~= spec_blob(payload) + Seq::<u8>::empty());
    lemma_blob_round_trip(payload, Seq::empty());
}

/// A file loads only if the checksum it stores is the checksum of the
/// payload it stores: any other file is refused.
pub proof fn lemma_load_checks_crc(b: Seq<u8>)
    requires
        spec_load_snap(b) is Ok,
    ensures
        b.len() >= 4,
        spec_starts_with_blob(b.skip(4)),
        spec_u32_from_le_bytes(b.subrange(0, 4)) == spec_crc32c(spec_first_blob(b.skip(4))),
{
}

/// A saved file whose checksum bytes have been changed is refused: the
/// checksum it stores is no longer that of its payload.
pub proof fn lemma_changed_checksum_is_refused(payload: Seq<u8>, changed: Seq<u8>)
    requires
        payload.len() <= u64::MAX,
        changed.len() == spec_snap_file(payload).len(),
        changed.skip(4) == spec_snap_file(payload).skip(4),
        changed.subrange(0, 4) != spec_snap_file(payload).subrange(0, 4),
    ensures
        spec_load_snap(changed) == Err::<SnapshotModel, Error>(Error::CrcMissMatch),
{
    let file = spec_snap_file(payload);
    lemma_auto_spec_u32_to_from_le_bytes();
    assert(spec_u32_to_le_bytes(spec_crc32c(payload)).len() == 4);
    assert(file.subrange(0, 4) =~= spec_u32_to_le_bytes(spec_crc32c(payload)));
    assert(file.skip(4) =~= spec_blob(payload) + Seq::<u8>::empty());
    lemma_blob_round_trip(payload, Seq::empty());
    assert(changed.subrange(0, 4).len() == 4);
    if spec_u32_from_le_bytes(changed.subrange(0, 4)) == spec_crc32c(payload) {
        assert(spec_u32_to_le_bytes(spec_u32_from_le_bytes(changed.subrange(0, 4)))
            == changed.subrange(0, 4));
        assert(false);
    }
}

/// The paths of the snapshots with the terms and indexes `ids` in `dir`.
pub open spec fn spec_snap_paths(dir: Seq<u8>, ids: Seq<(u64, u64)>) -> Seq<Seq<u8>> {
    Seq::new(ids.len(), |i: int| spec_snap_path(dir, ids[i].1, ids[i].0))
}

/// Snapshot ordering. In a listing of snapshot files in descending order of
/// their paths, every file holds a term and index at or below those of the
/// files before it: the first file is the newest snapshot.
pub proof fn lemma_newest_first(dir: Seq<u8>, ids: Seq<(u64, u64)>)
    requires
        spec_sorted(spec_snap_paths(dir, ids), true),
    ensures
        forall|i: int, j: int|
            0 <= i < j < ids.len() ==> spec_pair_le(#[trigger] ids[j], #[trigger] ids[i]),
{
    let paths = spec_snap_paths(dir, ids);
    assert forall|i: int, j: int| 0 <= i < j < ids.len() implies spec_pair_le(
        #[trigger] ids[j],
        #[trigger] ids[i],
    ) by {
        assert(crate::order::spec_in_order(paths[i], paths[j], true));
        lemma_join_order(
            dir,
            spec_file_name(ids[j].0, ids[j].1, spec_snap_ext()),
            spec_file_name(ids[i].0, ids[i].1, spec_snap_ext()),
        );
        lemma_file_name_order(ids[j].0, ids[j].1, ids[i].0, ids[i].1, spec_snap_ext());
    }
}

/// Loading from intact files only. Where every file of a listing in
/// descending order loads, loading takes the first one, and that is the
/// snapshot with the greatest term and index.
pub proof fn lemma_load_takes_newest(dir: Seq<u8>, ids: Seq<(u64, u64)>, files: Seq<SnapFile>)
    requires
        files.len() == ids.len(),
        files.len() > 0,
        forall|i: int| 0 <= i < files.len() ==> (#[trigger] files[i]).path@ == spec_snap_path(
            dir,
            ids[i].1,
            ids[i].0,
        ),
        spec_sorted(spec_snap_paths(dir, ids), true),
        forall|i: int| 0 <= i < files.len() ==> spec_load_snap((#[trigger] files[i]).bytes@) is Ok,
    ensures
        spec_first_intact(files) == 0,
        forall|j: int| 0 <= j < ids.len() ==> spec_pair_le(#[trigger] ids[j], ids[0]),
{
    lemma_newest_first(dir, ids);
    assert forall|j: int| 0 <= j < ids.len() implies spec_pair_le(#[trigger] ids[j], ids[0]) by {
        if j > 0 {
            assert(spec_pair_le(ids[j], ids[0]));
        }
    }
    assert(spec_load_snap(files[0].bytes@) is Ok);
}

/// A snapshot file to be written: its path and its bytes.
#[derive(Debug)]
pub struct SnapWrite {
    pub path: Vec<u8>,
    pub bytes: Vec<u8>,
}

/// A snapshot file that a directory listing has found: its path and bytes.
#[derive(Debug)]
pub struct SnapFile {
    pub path: Vec<u8>,
    pub bytes: Vec<u8>,
}

/// A corrupt snapshot file to be set aside: its path and its new path.
#[derive(Debug)]
pub struct Rename {
    pub from: Vec<u8>,
    pub to: Vec<u8>,
}

/// What loading has found: the newest snapshot that is intact, and the
/// corrupt files in front of it.
#[derive(Debug)]
pub struct Loaded {
    pub snapshot: Option<Snapshot>,
    pub broken: Vec<Rename>,
}

/// The position of the first file of `files` that loads, or their number
/// where none does.
pub open spec fn spec_first_intact(files: Seq<SnapFile>) -> int
    decreases files.len(),
{
    if files.len() == 0 {
        0
    } else if spec_load_snap(files[0].bytes@) is Ok {
        0
    } else {
        1 + spec_first_intact(files.skip(1))
    }
}

/// The first intact file lies in the list or right behind it; it loads, and
/// no file before it does.
pub proof fn lemma_first_intact(files: Seq<SnapFile>)
    ensures
        0 <= spec_first_intact(files) <= files.len(),
        spec_first_intact(files) < files.len() ==> spec_load_snap(
            files[spec_first_intact(files)].bytes@,
        ) is Ok,
        forall|i: int|
            0 <= i < spec_first_intact(files) ==> spec_load_snap((#[trigger] files[i]).bytes@) is Err,
    decreases files.len(),
{
    if files.len() > 0 && spec_load_snap(files[0].bytes@) is Err {
        lemma_first_intact(files.skip(1));
        assert forall|i: int| 0 <= i < spec_first_intact(files) implies spec_load_snap(
            (#[trigger] files[i]).bytes@,
        ) is Err by {
            if i > 0 {
                assert(files.skip(1)[i - 1] == files[i]);
            }
        }
    }
}

/// Where the file at `k` loads and none before it does, it is the first
/// intact file; where none loads at all, the position is the number of files.
pub proof fn lemma_first_intact_is(files: Seq<SnapFile>, k: int)
    requires
        0 <= k <= files.len(),
        forall|i: int| 0 <= i < k ==> spec_load_snap((#[trigger] files[i]).bytes@) is Err,
        k < files.len() ==> spec_load_snap(files[k].bytes@) is Ok,
    ensures
        spec_first_intact(files) == k,
{
    lemma_first_intact(files);
}

/// Saves and loads snapshots in one directory.
#[derive(Debug)]
pub struct Snapshotter {
    dir: Vec<u8>,
}

impl Snapshotter {
    /// The directory of the snapshot files.
    pub closed spec fn spec_dir(&self) -> Seq<u8> {
        self.dir@
    }

    /// A snapshotter for the directory `p`.
    pub fn new(p: Vec<u8>) -> (s: Snapshotter)
        ensures
            s.spec_dir() == p@,
    {
        Snapshotter { dir: p }
    }

    /// The path of the snapshot with `index` and `term`.
    pub fn new_snap_path(&self, index: u64, term: u64) -> (path: Vec<u8>)
        ensures
            path@ == spec_snap_path(self.spec_dir(), index, term),
    {
        let ext = snap_ext();
        let name = file_name(term, index, ext.as_slice());
        join(self.dir.as_slice(), name.as_slice())
    }

    /// The path under which a corrupt snapshot file is set aside: its own
    /// path with `.broken` added.
    pub fn snap_broken_path(snap_path: &[u8]) -> (path: Vec<u8>)
        ensures
            path@ == snap_path@ + spec_broken_suffix(),
    {
        let mut path = slice_to_vec(snap_path);
        let suffix = vec![46u8, 98u8, 114u8, 111u8, 107u8, 101u8, 110u8];
        assert(suffix@ =~= spec_broken_suffix());
        append_bytes(&mut path, suffix.as_slice());
        path
    }

    /// The file that holds `snapshot`, for the caller to write: at the path
    /// of its term and index, the checksum of the encoded snapshot and the
    /// encoded snapshot. Fails with `Error::MissMetadata` exactly where the
    /// snapshot has no metadata, and with `Error::Protbuf` exactly where it
    /// has and is too large to be encoded.
    pub fn save(&self, snapshot: &Snapshot) -> (out: Result<SnapWrite, Error>)
        ensures
            match snapshot.metadata {
                None => out matches Err(Error::MissMetadata),
                Some(md) => if spec_snapshot_fits(snapshot@) {
                    &&& out matches Ok(w)
                    &&& w.path@ == spec_snap_path(self.spec_dir(), md.index, md.term)
                    &&& w.bytes@ == spec_snap_file(spec_snapshot_bytes(snapshot@))
                    &&& spec_snapshot_reads_back(snapshot@)
                    &&& spec_load_snap(w.bytes@) == Ok::<SnapshotModel, Error>(snapshot@)
                } else {
                    out matches Err(Error::Protbuf)
                },
            },
    {
        let md = match &snapshot.metadata {
            Some(md) => md,
            None => {
                return Err(Error::MissMetadata);
            },
        };
        let path = self.new_snap_path(md.index, md.term);
        let payload = encode_snapshot(snapshot)?;
        let crc = crc32c(payload.as_slice());
        let mut bytes: Vec<u8> = Vec::new();
        put_u32(&mut bytes, crc);
        put_blob(&mut bytes, payload.as_slice());
        proof {
            assert(bytes@ =~= spec_snap_file(payload@));
            assert(payload@.len() == payload.len());
            lemma_snapshot_round_trip(snapshot@);
        }
        Ok(SnapWrite { path, bytes })
    }

    /// The snapshot in a file with the bytes `b`.
    pub fn load_snap(b: &[u8]) -> (out: Result<Snapshot, Error>)
        ensures
            match spec_load_snap(b@) {
                Ok(s) => out matches Ok(got) && got@ == s,
                Err(e) => out matches Err(err) && err == e,
            },
    {
        if b.len() < 4 {
            return Err(Error::Bincode);
        }
        let rest = slice_subrange(b, 4, b.len());
        assert(rest@ =~= b@.skip(4));
        let payload = match take_blob(rest) {
            Some(p) => p,
            None => {
                return Err(Error::Bincode);
            },
        };
        let stored = u32_from_le_bytes(slice_subrange(b, 0, 4));
        if stored != crc32c(payload.as_slice()) {
            return Err(Error::CrcMissMatch);
        }
        decode_snapshot(payload.as_slice())
    }

    /// Picks the snapshot to start from. `files` holds the snapshot files of
    /// the directory, newest first. The result is the snapshot of the first
    /// file that loads, or `None` where none does; every file in front of it
    /// is corrupt and is to be renamed with `.broken` added.
    pub fn load(&self, files: &Vec<SnapFile>) -> (out: Loaded)
        ensures
            ({
                let k = spec_first_intact(files@);
                &&& 0 <= k <= files@.len()
                &&& (k == files@.len() ==> out.snapshot is None)
                &&& (k < files@.len() ==> (out.snapshot matches Some(s) && spec_load_snap(
                    files@[k].bytes@,
                ) == Ok::<SnapshotModel, Error>(s@)))
                &&& out.broken@.len() == k
                &&& forall|i: int|
                    0 <= i < k ==> {
                        &&& (#[trigger] out.broken@[i]).from@ == files@[i].path@
                        &&& out.broken@[i].to@ == files@[i].path@ + spec_broken_suffix()
                    }
            }),
    {
        let mut broken: Vec<Rename> = Vec::new();
        let mut i: usize = 0;
        while i < files.len()
            invariant
                i <= files@.len(),
                broken@.len() == i,
                forall|j: int| 0 <= j < i ==> spec_load_snap((#[trigger] files@[j]).bytes@) is Err,
                forall|j: int|
                    0 <= j < i ==> {
                        &&& (#[trigger] broken@[j]).from@ == files@[j].path@
                        &&& broken@[j].to@ == files@[j].path@ + spec_broken_suffix()
                    },
            decreases files@.len() - i,
        {
            match Snapshotter::load_snap(files[i].bytes.as_slice()) {
                Ok(s) => {
                    proof {
                        lemma_first_intact_is(files@, i as int);
                    }
                    return Loaded { snapshot: Some(s), broken };
                },
                Err(_) => {
                    let from = slice_to_vec(files[i].path.as_slice());
                    let to = Snapshotter::snap_broken_path(files[i].path.as_slice());
                    broken.push(Rename { from, to });
                },
            }
            i = i + 1;
        }
        proof {
            lemma_first_intact_is(files@, i as int);
        }
        Loaded { snapshot: None, broken }
    }
}

} // verus!
