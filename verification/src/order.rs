//! The order of byte strings by which file names are sorted.

use core::cmp::Ordering;
use vstd::prelude::*;

verus! {

/// Whether `a` comes before `b`, or equals it, when byte strings are compared
/// byte by byte from the front and a proper prefix comes first.
pub open spec fn spec_lex_le(a: Seq<u8>, b: Seq<u8>) -> bool
    decreases a.len(),
{
    if a.len() == 0 {
        true
    } else if b.len() == 0 {
        false
    } else if a[0] != b[0] {
        a[0] < b[0]
    } else {
        spec_lex_le(a.skip(1), b.skip(1))
    }
}

/// Whether `a` comes strictly before `b`.
pub open spec fn spec_lex_lt(a: Seq<u8>, b: Seq<u8>) -> bool {
    spec_lex_le(a, b) && a != b
}

/// Whether `a` may stand before `b` in a listing: in ascending order, or in
/// descending order where `desc` is set.
pub open spec fn spec_in_order(a: Seq<u8>, b: Seq<u8>, desc: bool) -> bool {
    if desc {
        spec_lex_le(b, a)
    } else {
        spec_lex_le(a, b)
    }
}

/// Whether every name of `names` may stand before every later one.
pub open spec fn spec_sorted(names: Seq<Seq<u8>>, desc: bool) -> bool {
    forall|i: int, j: int|
        0 <= i < j < names.len() ==> spec_in_order(#[trigger] names[i], #[trigger] names[j], desc)
}

/// The byte strings that a vector of paths holds.
pub open spec fn spec_views(paths: Seq<Vec<u8>>) -> Seq<Seq<u8>> {
    paths.map_values(|p: Vec<u8>| p@)
}

/// Every byte string is in order with itself.
pub proof fn lemma_lex_le_refl(a: Seq<u8>)
    ensures
        spec_lex_le(a, a),
    decreases a.len(),
{
    if a.len() > 0 {
        lemma_lex_le_refl(a.skip(1));
    }
}

/// Of two byte strings one comes first.
pub proof fn lemma_lex_le_total(a: Seq<u8>, b: Seq<u8>)
    ensures
        spec_lex_le(a, b) || spec_lex_le(b, a),
    decreases a.len(),
{
    if a.len() > 0 && b.len() > 0 && a[0] == b[0] {
        lemma_lex_le_total(a.skip(1), b.skip(1));
    }
}

/// Two byte strings that come before each other are equal.
pub proof fn lemma_lex_le_antisym(a: Seq<u8>, b: Seq<u8>)
    requires
        spec_lex_le(a, b),
        spec_lex_le(b, a),
    ensures
        a == b,
    decreases a.len(),
{
    if a.len() == 0 || b.len() == 0 {
        assert(a =~= b);
    } else {
        lemma_lex_le_antisym(a.skip(1), b.skip(1));
        assert(a =~= seq![a[0]] + a.skip(1));
        assert(b =~= seq![b[0]] + b.skip(1));
    }
}

/// The order is transitive.
pub proof fn lemma_lex_le_trans(a: Seq<u8>, b: Seq<u8>, c: Seq<u8>)
    requires
        spec_lex_le(a, b),
        spec_lex_le(b, c),
    ensures
        spec_lex_le(a, c),
    decreases a.len(),
{
    if a.len() > 0 && b.len() > 0 && c.len() > 0 && a[0] == b[0] && b[0] == c[0] {
        lemma_lex_le_trans(a.skip(1), b.skip(1), c.skip(1));
    }
}

/// A common prefix does not change the order of two byte strings.
pub proof fn lemma_lex_le_skip(a: Seq<u8>, b: Seq<u8>, k: int)
    requires
        0 <= k <= a.len(),
        k <= b.len(),
        a.subrange(0, k) == b.subrange(0, k),
    ensures
        spec_lex_le(a, b) == spec_lex_le(a.skip(k), b.skip(k)),
    decreases k,
{
    if k > 0 {
        assert(a[0] == a.subrange(0, k)[0]);
        assert(b[0] == b.subrange(0, k)[0]);
        assert(a.skip(1).subrange(0, k - 1) =~= a.subrange(0, k).skip(1));
        assert(b.skip(1).subrange(0, k - 1) =~= b.subrange(0, k).skip(1));
        lemma_lex_le_skip(a.skip(1), b.skip(1), k - 1);
        assert(a.skip(1).skip(k - 1) =~= a.skip(k));
        assert(b.skip(1).skip(k - 1) =~= b.skip(k));
    } else {
        assert(a.skip(0) =~= a);
        assert(b.skip(0) =~= b);
    }
}

/// The length of the longest common prefix of `a` and `b`.
pub fn common_prefix(a: &[u8], b: &[u8]) -> (k: usize)
    ensures
        k <= a@.len(),
        k <= b@.len(),
        a@.subrange(0, k as int) == b@.subrange(0, k as int),
        k < a@.len() && k < b@.len() ==> a@[k as int] != b@[k as int],
{
    let mut i: usize = 0;
    while i < a.len() && i < b.len() && a[i] == b[i]
        invariant
            i <= a@.len(),
            i <= b@.len(),
            a@.subrange(0, i as int) == b@.subrange(0, i as int),
        decreases a@.len() - i,
    {
        i = i + 1;
        assert(a@.subrange(0, i as int) =~= a@.subrange(0, i - 1).push(a@[i - 1]));
        assert(b@.subrange(0, i as int) =~= b@.subrange(0, i - 1).push(b@[i - 1]));
    }
    i
}

/// Whether `a` comes before `b` or equals it.
pub fn lex_le(a: &[u8], b: &[u8]) -> (le: bool)
    ensures
        le == spec_lex_le(a@, b@),
{
    let k = common_prefix(a, b);
    proof {
        lemma_lex_le_skip(a@, b@, k as int);
        if k < a@.len() && k < b@.len() {
            assert(a@.skip(k as int)[0] == a@[k as int]);
            assert(b@.skip(k as int)[0] == b@[k as int]);
        }
    }
    if k == a.len() {
        true
    } else if k == b.len() {
        false
    } else {
        a[k] < b[k]
    }
}

/// Compares two byte strings: `Less` where `a` comes strictly first, `Equal`
/// where they are the same, `Greater` otherwise.
pub fn lex_order(a: &[u8], b: &[u8]) -> (o: Ordering)
    ensures
        o is Less <==> spec_lex_lt(a@, b@),
        o is Equal <==> a@ == b@,
        o is Greater <==> spec_lex_lt(b@, a@),
{
    let ab = lex_le(a, b);
    let ba = lex_le(b, a);
    proof {
        lemma_lex_le_total(a@, b@);
        lemma_lex_le_refl(a@);
        if ab && ba {
            lemma_lex_le_antisym(a@, b@);
        }
    }
    if ab && ba {
        Ordering::Equal
    } else if ab {
        Ordering::Less
    } else {
        Ordering::Greater
    }
}

/// The order in which a listing holds `a` and `b`: that of `lex_order`, turned
/// round where `desc` is set.
pub fn listing_order(a: &Vec<u8>, b: &Vec<u8>, desc: bool) -> (o: Ordering)
    ensures
        o is Less <==> spec_in_order(a@, b@, desc) && a@ != b@,
        o is Equal <==> a@ == b@,
        o is Greater <==> spec_in_order(b@, a@, desc) && a@ != b@,
{
    if desc {
        lex_order(b.as_slice(), a.as_slice())
    } else {
        lex_order(a.as_slice(), b.as_slice())
    }
}

} // verus!
