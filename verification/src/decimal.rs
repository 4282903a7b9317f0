//! Decimal text of integers, as the device protocol writes and reads it.

use vstd::prelude::*;

verus! {

/// The ASCII digit for a value below ten.
pub open spec fn digit_byte(d: int) -> u8 {
    (48 + d) as u8
}

/// The decimal digits of a natural number, most significant first, without
/// leading zeros (zero itself is the single digit `0`).
pub open spec fn decimal_nat(n: nat) -> Seq<u8>
    decreases n,
{
    if n < 10 {
        seq![digit_byte(n as int)]
    } else {
        decimal_nat(n / 10).push(digit_byte((n % 10) as int))
    }
}

/// The decimal text of an integer: a minus sign before the digits of a negative one.
pub open spec fn decimal_int(i: int) -> Seq<u8> {
    if i < 0 {
        seq!['-' as u8] + decimal_nat((-i) as nat)
    } else {
        decimal_nat(i as nat)
    }
}

/// Whether a byte is an ASCII digit.
pub open spec fn is_digit(b: u8) -> bool {
    '0' as u8 <= b <= '9' as u8
}

/// Whether every byte is an ASCII digit.
pub open spec fn all_digits(s: Seq<u8>) -> bool {
    forall|i: int| 0 <= i < s.len() ==> is_digit(#[trigger] s[i])
}

/// The number that a run of ASCII digits spells.
pub open spec fn digits_value(s: Seq<u8>) -> nat
    decreases s.len(),
{
    if s.len() == 0 {
        0
    } else {
        digits_value(s.drop_last()) * 10 + (s.last() - 48) as nat
    }
}

/// How the text of an unsigned 32-bit number is read: an optional `+`, then at
/// least one ASCII digit and nothing else, spelling a value that fits in 32 bits.
pub open spec fn spec_parse_u32(s: Seq<u8>) -> Option<u32> {
    let d = if s.len() > 0 && s[0] == '+' as u8 { s.drop_first() } else { s };
    if d.len() > 0 && all_digits(d) && digits_value(d) <= u32::MAX {
        Some(digits_value(d) as u32)
    } else {
        None
    }
}

/// Appends the decimal digits of `n`.
pub fn push_decimal_u32(out: &mut Vec<u8>, n: u32)
    ensures
        final(out)@ == old(out)@ + decimal_nat(n as nat),
    decreases n,
{
    if n >= 10 {
        push_decimal_u32(out, n / 10);
    }
    let d: u8 = (n % 10) as u8;
    out.push(48u8 + d);
    proof {
        if n >= 10 {
            assert(decimal_nat(n as nat) == decimal_nat((n / 10) as nat).push(digit_byte((n % 10) as int)));
        }
        assert(final(out)@ =~= old(out)@ + decimal_nat(n as nat));
    }
}

/// Appends the decimal text of `x`, with a leading `-` when it is negative.
pub fn push_decimal_i32(out: &mut Vec<u8>, x: i32)
    ensures
        final(out)@ == old(out)@ + decimal_int(x as int),
{
    if x < 0 {
        out.push('-' as u8);
        let wide: i64 = x as i64;
        let magnitude: u32 = (0i64 - wide) as u32;
        push_decimal_u32(out, magnitude);
        proof {
            assert(final(out)@ =~= old(out)@ + decimal_int(x as int));
        }
    } else {
        push_decimal_u32(out, x as u32);
    }
}

/// Reads the text of an unsigned 32-bit number; `None` where it is not one.
pub fn parse_u32(s: &[u8]) -> (r: Option<u32>)
    ensures
        r == spec_parse_u32(s@),
{
    let len = s.len();
    let start: usize = if len > 0 && s[0] == '+' as u8 { 1 } else { 0 };
    let ghost d = if s@.len() > 0 && s@[0] == '+' as u8 { s@.drop_first() } else { s@ };
    assert(d =~= s@.subrange(start as int, len as int));
    if start == len {
        return None;
    }
    let cap: u64 = 0x1_0000_0000;
    let mut acc: u64 = 0;
    let mut i: usize = start;
    while i < len
        invariant
            start <= i <= len,
            len == s@.len(),
            d =~= s@.subrange(start as int, len as int),
            d == (if s@.len() > 0 && s@[0] == '+' as u8 { s@.drop_first() } else { s@ }),
            cap == 0x1_0000_0000,
            all_digits(s@.subrange(start as int, i as int)),
            acc == if digits_value(s@.subrange(start as int, i as int)) < cap {
                digits_value(s@.subrange(start as int, i as int)) as int
            } else {
                cap as int
            },
        decreases len - i,
    {
        let b = s[i];
        if b < '0' as u8 || b > '9' as u8 {
            assert(!all_digits(d)) by {
                assert(d[i - start] == b);
            }
            return None;
        }
        let ghost prev = s@.subrange(start as int, i as int);
        let ghost next = s@.subrange(start as int, i + 1);
        assert(next.drop_last() =~= prev);
        assert(next.last() == b);
        let dv: u64 = (b - 48u8) as u64;
        let ghost pv = digits_value(prev);
        assert(digits_value(next) == pv * 10 + dv);
        if acc >= cap {
            assert(pv >= cap);
            assert(pv * 10 + dv >= cap) by (nonlinear_arith)
                requires pv >= cap, dv >= 0;
            acc = cap;
        } else {
            let t: u64 = acc * 10 + dv;
            acc = if t >= cap { cap } else { t };
        }
        assert(all_digits(next)) by {
            assert forall|k: int| 0 <= k < next.len() implies is_digit(#[trigger] next[k]) by {
                if k < prev.len() {
                    assert(next[k] == prev[k]);
                }
            }
        }
        i = i + 1;
    }
    if acc >= cap {
        None
    } else {
        Some(acc as u32)
    }
}

/// The decimal text of a number is all digits, does not start with `+`, and
/// spells the number.
pub proof fn lemma_decimal_nat_digits(n: nat)
    ensures
        decimal_nat(n).len() > 0,
        all_digits(decimal_nat(n)),
        decimal_nat(n)[0] != '+' as u8,
        digits_value(decimal_nat(n)) == n,
    decreases n,
{
    if n >= 10 {
        lemma_decimal_nat_digits(n / 10);
        let p = decimal_nat(n / 10);
        let s = decimal_nat(n);
        assert(s == p.push(digit_byte((n % 10) as int)));
        assert(s.drop_last() =~= p);
        assert(s.last() == digit_byte((n % 10) as int));
        assert((digit_byte((n % 10) as int) - 48) as nat == n % 10);
        assert forall|k: int| 0 <= k < s.len() implies is_digit(#[trigger] s[k]) by {
            if k < p.len() {
                assert(s[k] == p[k]);
            }
        }
        assert(s[0] == p[0]);
        assert(digits_value(s) == digits_value(p) * 10 + (n % 10));
    } else {
        let s = decimal_nat(n);
        assert(s.drop_last() =~= Seq::<u8>::empty());
        assert(digits_value(s) == digits_value(s.drop_last()) * 10 + (s.last() - 48) as nat);
    }
}

/// Reading back the decimal text that the protocol writes for an id gives the id.
pub proof fn lemma_parse_decimal_roundtrip(n: u32)
    ensures
        spec_parse_u32(decimal_nat(n as nat)) == Some(n),
{
    lemma_decimal_nat_digits(n as nat);
}


/// How a signed decimal number is read: an optional `-`, then at least one
/// ASCII digit and nothing else.
pub open spec fn spec_parse_int(s: Seq<u8>) -> Option<int> {
    if s.len() > 0 && s[0] == '-' as u8 {
        let d = s.drop_first();
        if d.len() > 0 && all_digits(d) {
            Some(-(digits_value(d) as int))
        } else {
            None
        }
    } else if s.len() > 0 && all_digits(s) {
        Some(digits_value(s) as int)
    } else {
        None
    }
}

/// Reading back the decimal text of any integer gives the integer: its sign
/// and every digit are kept.
pub proof fn lemma_parse_decimal_int(i: int)
    ensures
        spec_parse_int(decimal_int(i)) == Some(i),
        decimal_int(i).len() > 0,
        (decimal_int(i)[0] == '-' as u8) == (i < 0),
        forall|k: int| 0 <= k < decimal_int(i).len() ==> #[trigger] decimal_int(i)[k] != ',' as u8
            && decimal_int(i)[k] != ')' as u8,
{
    if i < 0 {
        lemma_decimal_nat_digits((-i) as nat);
        let d = decimal_nat((-i) as nat);
        assert(decimal_int(i).drop_first() =~= d);
        assert forall|k: int| 0 <= k < decimal_int(i).len() implies #[trigger] decimal_int(i)[k] != ',' as u8
            && decimal_int(i)[k] != ')' as u8 by {
            if k > 0 {
                assert(decimal_int(i)[k] == d[k - 1]);
                assert(is_digit(d[k - 1]));
            }
        }
    } else {
        lemma_decimal_nat_digits(i as nat);
        let d = decimal_nat(i as nat);
        assert(is_digit(d[0]));
        assert forall|k: int| 0 <= k < d.len() implies #[trigger] d[k] != ',' as u8 && d[k] != ')' as u8 by {
            assert(is_digit(d[k]));
        }
    }
}

} // verus!
