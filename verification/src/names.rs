//! File names of log segments and snapshots, and the paths that hold them.
//!
//! A name is two sixteen-digit hexadecimal numbers joined by `-`, then `.` and
//! an extension. Paths are byte strings with `/` between their components.

use crate::hex::{
    lemma_hex16_order, lemma_hex16_round_trip, lemma_hex_value, parse_hex16, put_hex16,
    spec_hex16, spec_parse_hex16,
};
use crate::layout::append_bytes;
use crate::order::{lemma_lex_le_refl, spec_lex_le};
use vstd::prelude::*;
use vstd::slice::slice_subrange;

verus! {

/// The byte `-`.
pub const DASH: u8 = 45;

/// The byte `.`.
pub const DOT: u8 = 46;

/// The byte `/`.
pub const SLASH: u8 = 47;

/// The name that holds `a` and `b` under the extension `ext`.
pub open spec fn spec_file_name(a: u64, b: u64, ext: Seq<u8>) -> Seq<u8> {
    spec_hex16(a) + seq![DASH] + spec_hex16(b) + seq![DOT] + ext
}

/// `name` inside the directory `dir`.
pub open spec fn spec_join(dir: Seq<u8>, name: Seq<u8>) -> Seq<u8> {
    if dir.len() == 0 || dir.last() == SLASH {
        dir + name
    } else {
        dir + seq![SLASH] + name
    }
}

/// The position of the last `c` in `s`, or -1 where `s` holds none.
pub open spec fn spec_rfind(s: Seq<u8>, c: u8) -> int
    decreases s.len(),
{
    if s.len() == 0 {
        -1
    } else if s.last() == c {
        s.len() - 1
    } else {
        spec_rfind(s.drop_last(), c)
    }
}

/// The last component of a path.
pub open spec fn spec_base_name(path: Seq<u8>) -> Seq<u8> {
    path.skip(spec_rfind(path, SLASH) + 1)
}

/// The extension of a file name: what follows its last `.`, unless the name
/// holds none or only starts with one.
pub open spec fn spec_extension(name: Seq<u8>) -> Option<Seq<u8>> {
    let d = spec_rfind(name, DOT);
    if d <= 0 {
        None
    } else {
        Some(name.skip(d + 1))
    }
}

/// A file name without its extension.
pub open spec fn spec_stem(name: Seq<u8>) -> Seq<u8> {
    let d = spec_rfind(name, DOT);
    if d <= 0 {
        name
    } else {
        name.subrange(0, d)
    }
}

/// The two numbers that a stem spells, if it is two sixteen-digit numbers
/// joined by `-`.
pub open spec fn spec_index_of_stem(stem: Seq<u8>) -> Option<(u64, u64)> {
    if stem.len() == 33 && stem[16] == DASH && spec_parse_hex16(stem.subrange(0, 16)) is Some
        && spec_parse_hex16(stem.subrange(17, 33)) is Some {
        Some(
            (
                spec_parse_hex16(stem.subrange(0, 16))->0,
                spec_parse_hex16(stem.subrange(17, 33))->0,
            ),
        )
    } else {
        None
    }
}

/// The two numbers in the name of the file at `path`.
pub open spec fn spec_index_from_path(path: Seq<u8>) -> Option<(u64, u64)> {
    spec_index_of_stem(spec_stem(spec_base_name(path)))
}

/// Whether the pair `x` comes before the pair `y` or equals it, the first
/// number deciding before the second.
pub open spec fn spec_pair_le(x: (u64, u64), y: (u64, u64)) -> bool {
    x.0 < y.0 || (x.0 == y.0 && x.1 <= y.1)
}

/// `spec_rfind` gives a position that holds `c`, with no `c` behind it.
pub proof fn lemma_rfind(s: Seq<u8>, c: u8)
    ensures
        -1 <= spec_rfind(s, c) < s.len(),
        spec_rfind(s, c) >= 0 ==> s[spec_rfind(s, c)] == c,
        forall|i: int| spec_rfind(s, c) < i < s.len() ==> s[i] != c,
    decreases s.len(),
{
    if s.len() > 0 && s.last() != c {
        lemma_rfind(s.drop_last(), c);
        assert forall|i: int| spec_rfind(s, c) < i < s.len() implies s[i] != c by {
            if i < s.len() - 1 {
                assert(s.drop_last()[i] == s[i]);
            }
        }
    }
}

/// The position that ends the search: it holds `c` and nothing behind it does.
pub proof fn lemma_rfind_is(s: Seq<u8>, c: u8, k: int)
    requires
        -1 <= k < s.len(),
        k >= 0 ==> s[k] == c,
        forall|i: int| k < i < s.len() ==> s[i] != c,
    ensures
        spec_rfind(s, c) == k,
{
    lemma_rfind(s, c);
}

/// Comparing two byte strings that start with parts of one length: the parts
/// decide where they differ, what follows decides where they are equal.
pub proof fn lemma_lex_le_concat(x: Seq<u8>, r1: Seq<u8>, y: Seq<u8>, r2: Seq<u8>)
    requires
        x.len() == y.len(),
    ensures
        spec_lex_le(x + r1, y + r2) == (if x == y {
            spec_lex_le(r1, r2)
        } else {
            spec_lex_le(x, y)
        }),
    decreases x.len(),
{
    if x.len() == 0 {
        assert(x =~= y);
        assert(x + r1 =~= r1);
        assert(y + r2 =~= r2);
    } else {
        let a = x + r1;
        let b = y + r2;
        assert(a[0] == x[0]);
        assert(b[0] == y[0]);
        assert(a.skip(1) =~= x.skip(1) + r1);
        assert(b.skip(1) =~= y.skip(1) + r2);
        lemma_lex_le_concat(x.skip(1), r1, y.skip(1), r2);
        if x[0] == y[0] {
            if x.skip(1) == y.skip(1) {
                assert(x =~= seq![x[0]] + x.skip(1));
                assert(y =~= seq![y[0]] + y.skip(1));
            }
        }
    }
}

/// Names under one extension sort as the pairs of numbers they hold.
pub proof fn lemma_file_name_order(a: u64, b: u64, c: u64, d: u64, ext: Seq<u8>)
    ensures
        spec_lex_le(spec_file_name(a, b, ext), spec_file_name(c, d, ext)) <==> spec_pair_le(
            (a, b),
            (c, d),
        ),
{
    lemma_hex16_order(a, c);
    lemma_hex16_order(b, d);
    lemma_hex_value(a as nat, 16);
    lemma_hex_value(b as nat, 16);
    lemma_hex_value(c as nat, 16);
    lemma_hex_value(d as nat, 16);
    let t1 = seq![DASH] + spec_hex16(b) + seq![DOT] + ext;
    let t2 = seq![DASH] + spec_hex16(d) + seq![DOT] + ext;
    assert(spec_file_name(a, b, ext) =~= spec_hex16(a) + t1);
    assert(spec_file_name(c, d, ext) =~= spec_hex16(c) + t2);
    lemma_lex_le_concat(spec_hex16(a), t1, spec_hex16(c), t2);
    let u1 = spec_hex16(b) + (seq![DOT] + ext);
    let u2 = spec_hex16(d) + (seq![DOT] + ext);
    assert(t1 =~= seq![DASH] + u1);
    assert(t2 =~= seq![DASH] + u2);
    lemma_lex_le_concat(seq![DASH], u1, seq![DASH], u2);
    lemma_lex_le_concat(spec_hex16(b), seq![DOT] + ext, spec_hex16(d), seq![DOT] + ext);
    lemma_lex_le_refl(seq![DOT] + ext);
}

/// Two paths in one directory sort as their names do.
pub proof fn lemma_join_order(dir: Seq<u8>, n1: Seq<u8>, n2: Seq<u8>)
    ensures
        spec_lex_le(spec_join(dir, n1), spec_join(dir, n2)) == spec_lex_le(n1, n2),
{
    let p = if dir.len() == 0 || dir.last() == SLASH {
        dir
    } else {
        dir + seq![SLASH]
    };
    assert(spec_join(dir, n1) =~= p + n1);
    assert(spec_join(dir, n2) =~= p + n2);
    lemma_lex_le_concat(p, n1, p, n2);
    lemma_lex_le_refl(p);
}

/// The numbers in a name are read back from the path that holds the name,
/// as long as the extension holds neither `.` nor `/`.
pub proof fn lemma_index_round_trip(dir: Seq<u8>, a: u64, b: u64, ext: Seq<u8>)
    requires
        forall|i: int| 0 <= i < ext.len() ==> ext[i] != DOT && ext[i] != SLASH,
    ensures
        spec_base_name(spec_join(dir, spec_file_name(a, b, ext))) == spec_file_name(a, b, ext),
        spec_extension(spec_file_name(a, b, ext)) == Some(ext),
        spec_index_from_path(spec_join(dir, spec_file_name(a, b, ext))) == Some((a, b)),
{
    let name = spec_file_name(a, b, ext);
    let path = spec_join(dir, name);
    lemma_hex16_round_trip(a);
    lemma_hex16_round_trip(b);
    lemma_hex_value(a as nat, 16);
    lemma_hex_value(b as nat, 16);
    let ha = spec_hex16(a);
    let hb = spec_hex16(b);
    assert(name.len() == 34 + ext.len());
    assert forall|i: int| 0 <= i < name.len() implies name[i] != SLASH by {
        if i < 16 {
            assert(name[i] == ha[i]);
        } else if 17 <= i < 33 {
            assert(name[i] == hb[i - 17]);
        } else if i >= 34 {
            assert(name[i] == ext[i - 34]);
        }
    }
    assert forall|i: int| 33 < i < name.len() implies name[i] != DOT by {
        assert(name[i] == ext[i - 34]);
    }
    assert(name[33] == DOT);
    lemma_rfind_is(name, DOT, 33);
    let start = path.len() - name.len();
    assert forall|i: int| start <= i < path.len() implies path[i] != SLASH by {
        assert(path[i] == name[i - start]);
    }
    if start > 0 {
        assert(path[start - 1] == SLASH);
    }
    lemma_rfind_is(path, SLASH, start - 1);
    assert(path.skip(start) =~= name);
    assert(name.skip(34) =~= ext);
    let stem = name.subrange(0, 33);
    assert(stem.subrange(0, 16) =~= ha);
    assert(stem.subrange(17, 33) =~= hb);
    assert(stem[16] == DASH);
}

/// The position of the last `c` in `s`.
pub fn rfind(s: &[u8], c: u8) -> (k: Option<usize>)
    ensures
        match k {
            Some(i) => spec_rfind(s@, c) == i && i < s@.len(),
            None => spec_rfind(s@, c) == -1,
        },
{
    let mut i: usize = s.len();
    while i > 0
        invariant
            i <= s@.len(),
            forall|j: int| i <= j < s@.len() ==> s@[j] != c,
        decreases i,
    {
        i = i - 1;
        if s[i] == c {
            proof {
                lemma_rfind_is(s@, c, i as int);
            }
            return Some(i);
        }
    }
    proof {
        lemma_rfind_is(s@, c, -1);
    }
    None
}

/// The last component of `path`.
pub fn base_name(path: &[u8]) -> (name: &[u8])
    ensures
        name@ == spec_base_name(path@),
{
    proof {
        lemma_rfind(path@, SLASH);
    }
    let n = path.len();
    let start = match rfind(path, SLASH) {
        Some(i) => i + 1,
        None => 0,
    };
    let name = slice_subrange(path, start, n);
    assert(name@ =~= path@.skip(start as int));
    name
}

/// Whether the extension of the file name `name` is `ext`.
pub fn has_extension(name: &[u8], ext: &[u8]) -> (yes: bool)
    ensures
        yes == (spec_extension(name@) == Some(ext@)),
{
    proof {
        lemma_rfind(name@, DOT);
    }
    let n = name.len();
    match rfind(name, DOT) {
        Some(d) => {
            if d == 0 {
                return false;
            }
            let found = slice_subrange(name, d + 1, n);
            assert(found@ =~= name@.skip(d + 1));
            bytes_eq(found, ext)
        },
        None => false,
    }
}

/// Whether two byte strings are the same.
pub fn bytes_eq(a: &[u8], b: &[u8]) -> (same: bool)
    ensures
        same == (a@ == b@),
{
    if a.len() != b.len() {
        return false;
    }
    let mut i: usize = 0;
    while i < a.len()
        invariant
            i <= a@.len(),
            a@.len() == b@.len(),
            forall|j: int| 0 <= j < i ==> a@[j] == b@[j],
        decreases a@.len() - i,
    {
        if a[i] != b[i] {
            return false;
        }
        i = i + 1;
    }
    assert(a@ =~= b@);
    true
}

/// A file name without its extension.
pub fn stem(name: &[u8]) -> (out: &[u8])
    ensures
        out@ == spec_stem(name@),
{
    proof {
        lemma_rfind(name@, DOT);
    }
    match rfind(name, DOT) {
        Some(d) => {
            if d == 0 {
                name
            } else {
                slice_subrange(name, 0, d)
            }
        },
        None => name,
    }
}

/// The name that holds `a` and `b` under the extension `ext`.
pub fn file_name(a: u64, b: u64, ext: &[u8]) -> (name: Vec<u8>)
    ensures
        name@ == spec_file_name(a, b, ext@),
{
    let mut name: Vec<u8> = Vec::new();
    put_hex16(&mut name, a);
    name.push(DASH);
    put_hex16(&mut name, b);
    name.push(DOT);
    append_bytes(&mut name, ext);
    assert(name@ =~= spec_file_name(a, b, ext@));
    name
}

/// `name` inside the directory `dir`.
pub fn join(dir: &[u8], name: &[u8]) -> (path: Vec<u8>)
    ensures
        path@ == spec_join(dir@, name@),
{
    let mut path: Vec<u8> = Vec::new();
    append_bytes(&mut path, dir);
    if dir.len() > 0 && dir[dir.len() - 1] != SLASH {
        path.push(SLASH);
    }
    append_bytes(&mut path, name);
    assert(path@ =~= spec_join(dir@, name@));
    path
}

/// The two numbers in the name of the file at `path`, or `None` where the
/// name is not two sixteen-digit hexadecimal numbers joined by `-`.
pub fn index_from_path(path: &[u8]) -> (idx: Option<(u64, u64)>)
    ensures
        idx == spec_index_from_path(path@),
{
    let st = stem(base_name(path));
    if st.len() != 33 || st[16] != DASH {
        return None;
    }
    let a = parse_hex16(slice_subrange(st, 0, 16));
    let b = parse_hex16(slice_subrange(st, 17, 33));
    match (a, b) {
        (Some(a), Some(b)) => Some((a, b)),
        _ => None,
    }
}

} // verus!
