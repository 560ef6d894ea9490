//! Decimal rendering and scanning of unsigned integers, with a proof that
//! scanning inverts rendering.

use vstd::prelude::*;
use vstd::arithmetic::div_mod::{lemma_div_pos_is_pos, lemma_fundamental_div_mod, lemma_mod_bound};

verus! {

/// One ASCII decimal digit.
pub open spec fn is_digit(b: u8) -> bool {
    0x30 <= b <= 0x39
}

/// The decimal digits of `n`, most significant first.
pub open spec fn dec_digits(n: nat) -> Seq<u8>
    decreases n,
{
    if n < 10 {
        seq![(n + 0x30) as u8]
    } else {
        dec_digits(n / 10).push(((n % 10) + 0x30) as u8)
    }
}

/// The value of a sequence of decimal digits (empty sequence has value 0).
pub open spec fn dec_val(s: Seq<u8>) -> nat
    decreases s.len(),
{
    if s.len() == 0 {
        0
    } else {
        dec_val(s.drop_last()) * 10 + (if is_digit(s.last()) {
            (s.last() - 0x30) as nat
        } else {
            0
        })
    }
}

pub proof fn lemma_dec_digits_are_digits(n: nat)
    ensures
        dec_digits(n).len() >= 1,
        forall|k: int| 0 <= k < dec_digits(n).len() ==> is_digit(#[trigger] dec_digits(n)[k]),
    decreases n,
{
    if n >= 10 {
        lemma_dec_digits_are_digits(n / 10);
        assert(n % 10 < 10) by {
            lemma_mod_bound(n as int, 10);
        }
    }
}

/// Scanning the digits of `n` yields `n` back.
pub proof fn lemma_dec_roundtrip(n: nat)
    ensures
        dec_val(dec_digits(n)) == n,
    decreases n,
{
    if n < 10 {
        let s = dec_digits(n);
        assert(s =~= seq![(n + 0x30) as u8]);
        assert(s.drop_last() =~= Seq::<u8>::empty());
        assert(dec_val(s.drop_last()) == 0);
        assert(is_digit(s.last()));
        assert(dec_val(s) == 0 * 10 + (s.last() - 0x30) as nat);
    } else {
        lemma_dec_roundtrip(n / 10);
        let s = dec_digits(n);
        assert(s.drop_last() =~= dec_digits(n / 10));
        assert(n % 10 < 10 && n / 10 >= 1) by {
            lemma_mod_bound(n as int, 10);
            lemma_div_pos_is_pos(n as int, 10);
        }
        assert(is_digit(s.last()));
        assert(dec_val(s) == (n / 10) * 10 + n % 10);
        assert((n / 10) * 10 + n % 10 == n) by {
            lemma_fundamental_div_mod(n as int, 10);
        }
    }
}

/// Appends the decimal digits of `n` to `out`.
pub fn push_dec_u64(n: u64, out: &mut Vec<u8>)
    ensures
        final(out)@ == old(out)@ + dec_digits(n as nat),
    decreases n,
{
    if n < 10 {
        out.push((n as u8) + 0x30);
        assert(out@ =~= old(out)@ + dec_digits(n as nat));
    } else {
        push_dec_u64(n / 10, out);
        out.push(((n % 10) as u8) + 0x30);
        assert(out@ =~= old(out)@ + dec_digits(n as nat));
    }
}

/// First index at or after `i` whose byte is not a decimal digit.
pub open spec fn digits_end(s: Seq<u8>, i: int) -> int
    decreases s.len() - i,
{
    if 0 <= i < s.len() && is_digit(s[i]) {
        digits_end(s, i + 1)
    } else {
        i
    }
}

pub proof fn lemma_digits_end_bounds(s: Seq<u8>, i: int)
    requires
        0 <= i <= s.len(),
    ensures
        i <= digits_end(s, i) <= s.len(),
        forall|k: int| i <= k < digits_end(s, i) ==> is_digit(#[trigger] s[k]),
        digits_end(s, i) < s.len() ==> !is_digit(s[digits_end(s, i)]),
    decreases s.len() - i,
{
    if 0 <= i < s.len() && is_digit(s[i]) {
        lemma_digits_end_bounds(s, i + 1);
    }
}

/// A run of digits evaluates one more digit at a time, from the front.
proof fn lemma_dec_val_extend(s: Seq<u8>, i: int, j: int)
    requires
        0 <= i <= j < s.len(),
    ensures
        dec_val(s.subrange(i, j + 1)) == dec_val(s.subrange(i, j)) * 10 + (if is_digit(s[j]) {
            (s[j] - 0x30) as nat
        } else {
            0
        }),
{
    let t = s.subrange(i, j + 1);
    assert(t.drop_last() =~= s.subrange(i, j));
    assert(t.last() == s[j]);
}

/// Scans the run of decimal digits starting at `i`; returns the end of the
/// run and, when the run is non-empty and its value fits in a `u64`, that
/// value.
pub fn scan_dec_u64(s: &Vec<u8>, i: usize) -> (r: (usize, Option<u64>))
    requires
        i <= s@.len(),
    ensures
        r.0 == digits_end(s@, i as int),
        i <= r.0 <= s@.len(),
        r.1 is Some <==> (r.0 > i && dec_val(s@.subrange(i as int, r.0 as int))
            <= u64::MAX),
        r.1 is Some ==> r.1->0 == dec_val(s@.subrange(i as int, r.0 as int)),
{
    proof {
        lemma_digits_end_bounds(s@, i as int);
    }
    let ghost e = digits_end(s@, i as int);
    let mut j: usize = i;
    let mut acc: u64 = 0;
    let mut fits: bool = true;
    while j < s.len() && s[j] >= 0x30 && s[j] <= 0x39
        invariant
            i <= j <= s@.len(),
            e == digits_end(s@, i as int),
            i <= e <= s@.len(),
            digits_end(s@, j as int) == e,
            j <= e,
            fits ==> acc == dec_val(s@.subrange(i as int, j as int)),
            fits <==> dec_val(s@.subrange(i as int, j as int)) <= u64::MAX,
        decreases s@.len() - j,
    {
        let d: u8 = s[j] - 0x30;
        proof {
            lemma_dec_val_extend(s@, i as int, j as int);
            lemma_digits_end_bounds(s@, (j + 1) as int);
            assert(digits_end(s@, (j + 1) as int) == e);
        }
        if fits {
            let wide: u128 = (acc as u128) * 10 + (d as u128);
            if wide > u64::MAX as u128 {
                fits = false;
            } else {
                acc = wide as u64;
            }
        } else {
            proof {
                let prev = dec_val(s@.subrange(i as int, j as int));
                assert(dec_val(s@.subrange(i as int, j + 1)) >= prev * 10);
                assert(prev * 10 >= prev) by (nonlinear_arith)
                    requires
                        prev >= 0,
                ;
            }
        }
        j = j + 1;
    }
    proof {
        lemma_digits_end_bounds(s@, j as int);
        assert(j == e);
    }
    if j > i && fits {
        (j, Some(acc))
    } else {
        (j, None)
    }
}

} // verus!
