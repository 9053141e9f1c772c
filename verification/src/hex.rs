//! Sixteen-digit lowercase hexadecimal numbers, as file names hold them.

use crate::order::{spec_lex_le, spec_lex_lt};
use vstd::prelude::*;

verus! {

/// The character of a hexadecimal digit.
pub open spec fn spec_hex_digit(d: int) -> u8 {
    if d < 10 {
        (48 + d) as u8
    } else {
        (87 + d) as u8
    }
}

/// The digit that a character stands for, if it is `0`-`9` or `a`-`f`.
pub open spec fn spec_digit_value(c: u8) -> Option<int> {
    if 48 <= c <= 57 {
        Some(c - 48)
    } else if 97 <= c <= 102 {
        Some(c - 87)
    } else {
        None
    }
}

/// The last `width` hexadecimal digits of `n`, most significant first.
pub open spec fn spec_hex(n: nat, width: nat) -> Seq<u8>
    decreases width,
{
    if width == 0 {
        Seq::empty()
    } else {
        spec_hex(n / 16, (width - 1) as nat).push(spec_hex_digit((n % 16) as int))
    }
}

/// `n` as sixteen hexadecimal digits.
pub open spec fn spec_hex16(n: u64) -> Seq<u8> {
    spec_hex(n as nat, 16)
}

/// Whether every byte of `s` is a hexadecimal digit.
pub open spec fn spec_is_hex(s: Seq<u8>) -> bool {
    forall|i: int| 0 <= i < s.len() ==> spec_digit_value(#[trigger] s[i]) is Some
}

/// The number that the digits of `s` spell, most significant first.
pub open spec fn spec_hex_value(s: Seq<u8>) -> nat
    decreases s.len(),
{
    if s.len() == 0 {
        0
    } else {
        (spec_hex_value(s.drop_last()) * 16 + spec_digit_value(s.last()).unwrap_or(0)) as nat
    }
}

/// Sixteen to the power `w`.
pub open spec fn spec_pow16(w: nat) -> nat
    decreases w,
{
    if w == 0 {
        1
    } else {
        16 * spec_pow16((w - 1) as nat)
    }
}

/// The number that `s` spells, where `s` is exactly sixteen hexadecimal digits.
pub open spec fn spec_parse_hex16(s: Seq<u8>) -> Option<u64> {
    if s.len() == 16 && spec_is_hex(s) {
        Some(spec_hex_value(s) as u64)
    } else {
        None
    }
}

/// Sixteen to the power sixteen is two to the power sixty-four.
pub proof fn lemma_pow16_16()
    ensures
        spec_pow16(16) == 0x1_0000_0000_0000_0000,
{
    reveal_with_fuel(spec_pow16, 17);
}

/// Powers of sixteen grow with the exponent.
pub proof fn lemma_pow16_mono(a: nat, b: nat)
    requires
        a <= b,
    ensures
        0 < spec_pow16(a) <= spec_pow16(b),
    decreases b,
{
    if b == 0 {
    } else if a == b {
        lemma_pow16_mono((a - 1) as nat, (b - 1) as nat);
    } else {
        lemma_pow16_mono(a, (b - 1) as nat);
    }
}

/// `spec_hex` writes `width` digits, and they spell `n` where `n` fits.
pub proof fn lemma_hex_value(n: nat, width: nat)
    ensures
        spec_hex(n, width).len() == width,
        spec_is_hex(spec_hex(n, width)),
        n < spec_pow16(width) ==> spec_hex_value(spec_hex(n, width)) == n,
    decreases width,
{
    if width > 0 {
        let head = spec_hex(n / 16, (width - 1) as nat);
        let d = (n % 16) as int;
        lemma_hex_value(n / 16, (width - 1) as nat);
        let s = spec_hex(n, width);
        assert(s == head.push(spec_hex_digit(d)));
        assert(s.drop_last() =~= head);
        assert(spec_digit_value(spec_hex_digit(d)) == Some(d));
        assert forall|i: int| 0 <= i < s.len() implies spec_digit_value(#[trigger] s[i]) is Some by {
            if i < head.len() {
                assert(s[i] == head[i]);
            }
        }
        if n < spec_pow16(width) {
            assert(n / 16 < spec_pow16((width - 1) as nat));
        }
    }
}

/// Digits spell a number below sixteen to the power of their count, and
/// writing that number gives the digits back.
pub proof fn lemma_value_hex(s: Seq<u8>)
    requires
        spec_is_hex(s),
    ensures
        spec_hex_value(s) < spec_pow16(s.len()),
        spec_hex(spec_hex_value(s), s.len()) == s,
    decreases s.len(),
{
    if s.len() > 0 {
        let head = s.drop_last();
        assert forall|i: int| 0 <= i < head.len() implies spec_digit_value(#[trigger] head[i]) is Some by {
            assert(head[i] == s[i]);
        }
        lemma_value_hex(head);
        let d = spec_digit_value(s.last())->0;
        assert(spec_digit_value(s[s.len() - 1]) is Some);
        assert(0 <= d < 16);
        let v = spec_hex_value(s);
        assert(v == spec_hex_value(head) * 16 + d);
        assert(v / 16 == spec_hex_value(head));
        assert(v % 16 == d);
        assert(spec_hex_digit(d) == s.last());
        assert(spec_hex(v, s.len()) =~= s);
    } else {
        assert(spec_hex(0, 0) =~= s);
    }
}

/// Of two digit strings of one length, the one that spells the smaller number
/// comes first.
pub proof fn lemma_hex_value_order(a: Seq<u8>, b: Seq<u8>)
    requires
        a.len() == b.len(),
        spec_is_hex(a),
        spec_is_hex(b),
    ensures
        spec_hex_value(a) <= spec_hex_value(b) <==> spec_lex_le(a, b),
        spec_hex_value(a) == spec_hex_value(b) <==> a == b,
    decreases a.len(),
{
    if a.len() == 0 {
        assert(a =~= b);
    } else {
        let a1 = a.skip(1);
        let b1 = b.skip(1);
        assert forall|i: int| 0 <= i < a1.len() implies spec_digit_value(#[trigger] a1[i]) is Some by {
            assert(a1[i] == a[i + 1]);
        }
        assert forall|i: int| 0 <= i < b1.len() implies spec_digit_value(#[trigger] b1[i]) is Some by {
            assert(b1[i] == b[i + 1]);
        }
        lemma_hex_value_order(a1, b1);
        lemma_value_front(a);
        lemma_value_front(b);
        lemma_value_hex(a1);
        lemma_value_hex(b1);
        let p = spec_pow16(a1.len());
        let da = spec_digit_value(a[0])->0;
        let db = spec_digit_value(b[0])->0;
        assert(spec_digit_value(a[0]) is Some);
        assert(spec_digit_value(b[0]) is Some);
        assert(da == db <==> a[0] == b[0]);
        assert(da < db <==> a[0] < b[0]);
        assert(spec_hex_value(a) == da * p + spec_hex_value(a1));
        assert(spec_hex_value(b) == db * p + spec_hex_value(b1));
        if da < db {
            assert(da * p + p <= db * p) by (nonlinear_arith)
                requires
                    da < db,
                    p > 0,
            ;
        } else if db < da {
            assert(db * p + p <= da * p) by (nonlinear_arith)
                requires
                    db < da,
                    p > 0,
            ;
        }
        if a == b {
        } else if a[0] == b[0] {
            if a1 == b1 {
                assert(a =~= seq![a[0]] + a1);
                assert(b =~= seq![b[0]] + b1);
            }
        }
    }
}

/// The number that digits spell, read from the front: the first digit counts
/// sixteen to the power of the number of digits behind it.
pub proof fn lemma_value_front(s: Seq<u8>)
    requires
        s.len() > 0,
    ensures
        spec_hex_value(s) == spec_digit_value(s[0]).unwrap_or(0) * spec_pow16((s.len() - 1) as nat)
            + spec_hex_value(s.skip(1)),
    decreases s.len(),
{
    let d0 = spec_digit_value(s[0]).unwrap_or(0);
    let dl = spec_digit_value(s.last()).unwrap_or(0);
    assert(spec_hex_value(s) == spec_hex_value(s.drop_last()) * 16 + dl);
    if s.len() == 1 {
        assert(s.drop_last().len() == 0);
        assert(s.skip(1).len() == 0);
        assert(spec_hex_value(s.drop_last()) == 0);
        assert(spec_hex_value(s.skip(1)) == 0);
        assert(s.last() == s[0]);
        assert(spec_pow16(0) == 1);
    } else {
        let head = s.drop_last();
        let tail = s.skip(1);
        lemma_value_front(head);
        assert(head[0] == s[0]);
        assert(head.skip(1) =~= tail.drop_last());
        assert(tail.last() == s.last());
        assert(spec_hex_value(tail) == spec_hex_value(tail.drop_last()) * 16 + dl);
        let p = spec_pow16((head.len() - 1) as nat);
        let r = spec_hex_value(head.skip(1));
        assert(spec_hex_value(head) == d0 * p + r);
        assert(spec_pow16((s.len() - 1) as nat) == 16 * p);
        assert((d0 * p + r) * 16 == d0 * (16 * p) + r * 16) by (nonlinear_arith);
    }
}

/// Parsing the sixteen digits of a number gives the number back.
pub proof fn lemma_hex16_round_trip(n: u64)
    ensures
        spec_hex16(n).len() == 16,
        spec_parse_hex16(spec_hex16(n)) == Some(n),
{
    lemma_pow16_16();
    lemma_hex_value(n as nat, 16);
}

/// Sixteen-digit numbers sort as byte strings exactly as they sort as numbers.
pub proof fn lemma_hex16_order(x: u64, y: u64)
    ensures
        x <= y <==> spec_lex_le(spec_hex16(x), spec_hex16(y)),
        x < y <==> spec_lex_lt(spec_hex16(x), spec_hex16(y)),
        x == y <==> spec_hex16(x) == spec_hex16(y),
{
    lemma_pow16_16();
    lemma_hex_value(x as nat, 16);
    lemma_hex_value(y as nat, 16);
    lemma_hex_value_order(spec_hex16(x), spec_hex16(y));
}

/// The character of the digit `d`.
pub fn hex_digit(d: u8) -> (c: u8)
    requires
        d < 16,
    ensures
        c == spec_hex_digit(d as int),
{
    if d < 10 {
        48 + d
    } else {
        87 + d
    }
}

/// The digit that `c` stands for.
pub fn digit_value(c: u8) -> (d: Option<u8>)
    ensures
        d is Some <==> spec_digit_value(c) is Some,
        d matches Some(v) ==> spec_digit_value(c) == Some(v as int),
{
    if 48 <= c && c <= 57 {
        Some(c - 48)
    } else if 97 <= c && c <= 102 {
        Some(c - 87)
    } else {
        None
    }
}

/// Appends `n` as sixteen hexadecimal digits.
pub fn put_hex16(out: &mut Vec<u8>, n: u64)
    ensures
        final(out)@ == old(out)@ + spec_hex16(n),
{
    let mut digits: Vec<u8> = Vec::new();
    let mut m: u64 = n;
    let mut i: usize = 0;
    // digits holds the low digits in reverse order
    while i < 16
        invariant
            i <= 16,
            digits@.len() == i,
            spec_hex(n as nat, 16) == spec_hex(m as nat, (16 - i) as nat) + digits@.reverse(),
        decreases 16 - i,
    {
        let ghost before = digits@;
        digits.push(hex_digit((m % 16) as u8));
        proof {
            let w = (16 - i) as nat;
            assert(spec_hex(m as nat, w) == spec_hex((m / 16) as nat, (w - 1) as nat).push(
                spec_hex_digit((m % 16) as int),
            ));
            assert(digits@.reverse() =~= seq![spec_hex_digit((m % 16) as int)] + before.reverse());
            assert(spec_hex(m as nat, w) + before.reverse() =~= spec_hex(
                (m / 16) as nat,
                (w - 1) as nat,
            ) + digits@.reverse());
        }
        m = m / 16;
        i = i + 1;
    }
    assert(spec_hex(m as nat, 0) =~= Seq::<u8>::empty());
    assert(spec_hex16(n) =~= digits@.reverse());
    let mut j: usize = 16;
    while j > 0
        invariant
            j <= 16,
            digits@.len() == 16,
            out@ == old(out)@ + digits@.reverse().subrange(0, 16 - j),
        decreases j,
    {
        j = j - 1;
        out.push(digits[j]);
        assert(out@ =~= old(out)@ + digits@.reverse().subrange(0, 16 - j));
    }
    assert(digits@.reverse().subrange(0, 16) =~= digits@.reverse());
}

/// The number that `s` spells, where `s` is exactly sixteen hexadecimal digits.
pub fn parse_hex16(s: &[u8]) -> (n: Option<u64>)
    ensures
        n == spec_parse_hex16(s@),
{
    if s.len() != 16 {
        return None;
    }
    let mut acc: u64 = 0;
    let mut i: usize = 0;
    while i < 16
        invariant
            i <= 16,
            s@.len() == 16,
            spec_is_hex(s@.subrange(0, i as int)),
            acc == spec_hex_value(s@.subrange(0, i as int)),
        decreases 16 - i,
    {
        let ghost prefix = s@.subrange(0, i as int);
        let ghost next = s@.subrange(0, i + 1);
        match digit_value(s[i]) {
            Some(d) => {
                proof {
                    assert(next.drop_last() =~= prefix);
                    assert(next.last() == s@[i as int]);
                    assert forall|k: int| 0 <= k < next.len() implies spec_digit_value(
                        #[trigger] next[k],
                    ) is Some by {
                        if k < i {
                            assert(next[k] == prefix[k]);
                        }
                    }
                    lemma_value_hex(next);
                    lemma_pow16_mono((i + 1) as nat, 16);
                    lemma_pow16_16();
                }
                acc = acc * 16 + d as u64;
            },
            None => {
                proof {
                    assert(spec_digit_value(s@[i as int]) is None);
                }
                return None;
            },
        }
        i = i + 1;
    }
    assert(s@.subrange(0, 16) =~= s@);
    Some(acc)
}

} // verus!
