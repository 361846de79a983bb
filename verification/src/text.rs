//! Decimal text of guest integers.
//!
//! The model runtime's built-in coercions between strings and numbers go
//! through these verified routines: a guest integer is rendered as its
//! decimal digits with an optional leading minus sign, and a guest string
//! is read back as an integer when it consists of an optional sign
//! followed by decimal digits. The accepted textual grammar is exactly the
//! one specified by [`text_int`].
use vstd::prelude::*;

verus! {

/// Decimal digits (most significant first) of a natural number.
pub open spec fn dec_digits(n: nat) -> Seq<u8>
    decreases n,
{
    if n < 10 {
        seq![(0x30 + n) as u8]
    } else {
        dec_digits(n / 10).push((0x30 + n % 10) as u8)
    }
}

/// Decimal text of an integer: digits, with a leading `-` when negative.
pub open spec fn int_text(i: int) -> Seq<u8> {
    if i < 0 {
        seq![0x2du8] + dec_digits((-i) as nat)
    } else {
        dec_digits(i as nat)
    }
}

/// Every byte of the sequence is a decimal digit.
pub open spec fn all_digits(s: Seq<u8>) -> bool {
    forall|k: int| 0 <= k < s.len() ==> 0x30 <= #[trigger] s[k] <= 0x39
}

/// Value of a sequence of decimal digits.
pub open spec fn digits_value(s: Seq<u8>) -> int
    decreases s.len(),
{
    if s.len() == 0 {
        0
    } else {
        digits_value(s.drop_last()) * 10 + (s.last() - 0x30)
    }
}

/// The integer denoted by a byte text: an optional `-` or `+` sign
/// followed by at least one decimal digit, with a value that fits a guest
/// integer; anything else denotes nothing.
pub open spec fn text_int(s: Seq<u8>) -> Option<i64> {
    if s.len() > 0 && (s[0] == 0x2d || s[0] == 0x2b) {
        text_int_signless(s.drop_first(), s[0] == 0x2d)
    } else {
        text_int_signless(s, false)
    }
}

/// The integer denoted by a sign-stripped byte text.
pub open spec fn text_int_signless(d: Seq<u8>, neg: bool) -> Option<i64> {
    if d.len() > 0 && all_digits(d) {
        if neg {
            if digits_value(d) <= 0x8000_0000_0000_0000 {
                Some((-digits_value(d)) as i64)
            } else {
                None
            }
        } else {
            if digits_value(d) <= 0x7fff_ffff_ffff_ffff {
                Some(digits_value(d) as i64)
            } else {
                None
            }
        }
    } else {
        None
    }
}

/// The value of a digit sequence is never negative.
proof fn lemma_digits_value_nonneg(s: Seq<u8>)
    requires
        all_digits(s),
    ensures
        digits_value(s) >= 0,
    decreases s.len(),
{
    if s.len() > 0 {
        assert(all_digits(s.drop_last())) by {
            assert(forall|k: int|
                0 <= k < s.len() - 1 ==> s.drop_last()[k] == #[trigger] s[k]);
        }
        lemma_digits_value_nonneg(s.drop_last());
    }
}

/// Reading more digits never decreases the value.
proof fn lemma_digits_value_prefix(s: Seq<u8>, k: int)
    requires
        all_digits(s),
        0 <= k <= s.len(),
    ensures
        digits_value(s.subrange(0, k)) <= digits_value(s),
    decreases s.len() - k,
{
    if k == s.len() {
        assert(s.subrange(0, k) =~= s);
    } else {
        let t = s.subrange(0, k + 1);
        assert(t.drop_last() =~= s.subrange(0, k));
        assert(all_digits(t)) by {
            assert(forall|j: int| 0 <= j < t.len() ==> t[j] == #[trigger] s[j]);
        }
        assert(all_digits(t.drop_last())) by {
            assert(forall|j: int|
                0 <= j < t.len() - 1 ==> t.drop_last()[j] == #[trigger] t[j]);
        }
        lemma_digits_value_nonneg(t.drop_last());
        assert(digits_value(t) >= digits_value(t.drop_last())) by {
            assert(digits_value(t) == digits_value(t.drop_last()) * 10 + (t.last() - 0x30));
            assert(t.last() >= 0x30);
            assert(digits_value(t.drop_last()) * 10 >= digits_value(t.drop_last()))
                by (nonlinear_arith)
                requires
                    digits_value(t.drop_last()) >= 0,
            ;
        }
        lemma_digits_value_prefix(s, k + 1);
    }
}

/// Appends the decimal digits of `n` to `out`.
fn push_digits(n: u64, out: &mut Vec<u8>)
    ensures
        final(out)@ == old(out)@ + dec_digits(n as nat),
    decreases n,
{
    if n < 10 {
        out.push((0x30 + n) as u8);
        proof {
            assert(out@ =~= old(out)@ + dec_digits(n as nat));
        }
    } else {
        push_digits(n / 10, out);
        out.push((0x30 + n % 10) as u8);
        proof {
            assert(out@ =~= old(out)@ + dec_digits(n as nat));
        }
    }
}

/// Renders a guest integer as its decimal text.
pub fn format_i64(i: i64) -> (r: Vec<u8>)
    ensures
        r@ == int_text(i as int),
{
    let mut out: Vec<u8> = Vec::new();
    if i < 0 {
        out.push(0x2d);
        let mag: u64 = (-(i as i128)) as u64;
        push_digits(mag, &mut out);
        proof {
            assert(out@ =~= int_text(i as int));
        }
    } else {
        push_digits(i as u64, &mut out);
        proof {
            assert(out@ =~= int_text(i as int));
        }
    }
    out
}

/// Reads a guest integer from a byte text; returns exactly what the text
/// denotes under [`text_int`].
pub fn parse_i64(s: &Vec<u8>) -> (r: Option<i64>)
    ensures
        r == text_int(s@),
{
    let n = s.len();
    let mut start: usize = 0;
    let mut neg: bool = false;
    if n > 0 && s[0] == 0x2d {
        neg = true;
        start = 1;
    } else if n > 0 && s[0] == 0x2b {
        start = 1;
    }
    let ghost d: Seq<u8> = s@.subrange(start as int, n as int);
    proof {
        if n > 0 && (s@[0] == 0x2d || s@[0] == 0x2b) {
            assert(d =~= s@.drop_first());
        } else {
            assert(d =~= s@);
        }
    }
    if start == n {
        return None;
    }
    let mut acc: u64 = 0;
    let mut j: usize = start;
    while j < n
        invariant
            start <= j <= n,
            n == s@.len(),
            start < n,
            d == s@.subrange(start as int, n as int),
            if s@.len() > 0 && (s@[0] == 0x2d || s@[0] == 0x2b) {
                start == 1
            } else {
                start == 0
            },
            neg == (s@.len() > 0 && s@[0] == 0x2d),
            all_digits(s@.subrange(start as int, j as int)),
            acc == digits_value(s@.subrange(start as int, j as int)),
            acc <= 0x8000_0000_0000_0000,
        decreases n - j,
    {
        let c = s[j];
        let ghost pref = s@.subrange(start as int, j as int);
        let ghost pref1 = s@.subrange(start as int, j as int + 1);
        proof {
            assert(pref1.drop_last() =~= pref);
            assert(pref1.last() == s@[j as int]);
        }
        if c < 0x30 || c > 0x39 {
            proof {
                assert(d[j as int - start] == s@[j as int]);
                assert(!all_digits(d));
                assert(text_int_signless(d, true) is None);
                assert(text_int_signless(d, false) is None);
                if s@.len() > 0 && (s@[0] == 0x2d || s@[0] == 0x2b) {
                    assert(d =~= s@.drop_first());
                } else {
                    assert(d =~= s@);
                }
                assert(text_int(s@) is None);
            }
            return None;
        }
        proof {
            assert(all_digits(pref1)) by {
                assert(forall|k: int|
                    0 <= k < pref1.len() - 1 ==> pref1[k] == #[trigger] pref[k]);
            }
        }
        let digit: u64 = (c - 0x30) as u64;
        let wide: u128 = (acc as u128) * 10 + (digit as u128);
        proof {
            assert(wide == digits_value(pref1));
        }
        if wide > 0x8000_0000_0000_0000 {
            proof {
                if all_digits(d) {
                    assert(pref1 =~= d.subrange(0, j as int + 1 - start));
                    lemma_digits_value_prefix(d, j as int + 1 - start);
                    assert(digits_value(d) >= wide);
                }
                assert(text_int_signless(d, true) is None);
                assert(text_int_signless(d, false) is None);
                if s@.len() > 0 && (s@[0] == 0x2d || s@[0] == 0x2b) {
                    assert(d =~= s@.drop_first());
                } else {
                    assert(d =~= s@);
                }
                assert(text_int(s@) is None);
            }
            return None;
        }
        acc = (wide) as u64;
        j = j + 1;
    }
    proof {
        assert(s@.subrange(start as int, j as int) =~= d);
    }
    if neg {
        if acc == 0x8000_0000_0000_0000 {
            Some(i64::MIN)
        } else {
            Some(-(acc as i64))
        }
    } else {
        if acc == 0x8000_0000_0000_0000 {
            None
        } else {
            Some(acc as i64)
        }
    }
}

} // verus!
