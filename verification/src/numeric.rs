//! A verified parser for signed decimal integer literals: an optional sign,
//! then one or more ASCII digits, rejected exactly when the shape is wrong
//! or the value does not fit a 64-bit signed integer — the same inputs std's
//! integer parsing accepts.

use vstd::prelude::*;
use crate::buffer::Buffer;

verus! {

/// `c` is an ASCII decimal digit.
pub open spec fn is_digit(c: char) -> bool {
    0x30 <= (c as u32) <= 0x39
}

/// Numeric value of an ASCII decimal digit.
pub open spec fn digit_val(c: char) -> int {
    (c as u32) - 0x30
}

/// Every scalar value of `s` is an ASCII decimal digit.
pub open spec fn all_digits(s: Seq<char>) -> bool {
    forall|i: int| 0 <= i < s.len() ==> is_digit(#[trigger] s[i])
}

/// The value of a digit string read in base ten.
pub open spec fn digits_value(s: Seq<char>) -> int
    decreases s.len(),
{
    if s.len() == 0 {
        0
    } else {
        digits_value(s.drop_last()) * 10 + digit_val(s.last())
    }
}

/// `s` is an integer literal: an optional leading `'+'` or `'-'`, then one
/// or more ASCII decimal digits, and nothing else.
pub open spec fn int_literal_shape(s: Seq<char>) -> bool {
    if s.len() == 0 {
        false
    } else if s[0] == '+' || s[0] == '-' {
        s.len() > 1 && all_digits(s.skip(1))
    } else {
        all_digits(s)
    }
}

/// The magnitude of an integer literal: the value of its digits.
pub open spec fn int_literal_magnitude(s: Seq<char>) -> int {
    if s.len() > 0 && (s[0] == '+' || s[0] == '-') {
        digits_value(s.skip(1))
    } else {
        digits_value(s)
    }
}

/// The value of an integer literal, sign applied.
pub open spec fn int_literal_value(s: Seq<char>) -> int {
    if s.len() > 0 && s[0] == '-' {
        -int_literal_magnitude(s)
    } else {
        int_literal_magnitude(s)
    }
}

/// `s` is an integer literal whose value fits a 64-bit signed integer.
pub open spec fn parses_as_i64(s: Seq<char>) -> bool {
    int_literal_shape(s) && i64::MIN <= int_literal_value(s) <= i64::MAX
}

/// The value of a digit string is nonnegative and no smaller than the value
/// of any of its prefixes.
proof fn lemma_digits_value_mono(s: Seq<char>, j: int)
    requires
        all_digits(s),
        0 <= j <= s.len(),
    ensures
        0 <= digits_value(s.take(j)) <= digits_value(s),
    decreases s.len(),
{
    if s.len() == 0 {
        assert(s.take(j) =~= s);
    } else if j == s.len() {
        assert(s.take(j) =~= s);
        lemma_digits_value_mono(s.drop_last(), s.len() - 1);
        assert(s.drop_last().take(s.len() - 1) =~= s.drop_last());
    } else {
        assert(s.drop_last().take(j) =~= s.take(j));
        lemma_digits_value_mono(s.drop_last(), j);
    }
}

/// Parses the content as a signed 64-bit decimal integer: succeeds if and
/// only if the content is an integer literal whose value fits, and then
/// returns exactly that value.
pub fn parse_i64(text: &Buffer) -> (r: Option<i64>)
    ensures
        (match r {
            Some(v) => parses_as_i64(text@) && v == int_literal_value(text@),
            None => !parses_as_i64(text@),
        }),
{
    let ghost s = text@;
    let n: usize = text.scalar_count();
    if n == 0 {
        return None;
    }
    let first: char = text.char_at(0);
    let neg: bool = first == '-';
    let has_sign: bool = neg || first == '+';
    let start: usize = if has_sign {
        1
    } else {
        0
    };
    let ghost digits = s.skip(start as int);
    proof {
        if !has_sign {
            assert(digits =~= s);
        }
    }
    if has_sign && n == 1 {
        return None;
    }
    let mut k: usize = start;
    let mut acc: i64 = 0;
    while k < n
        invariant
            start <= k <= n == s.len(),
            s == text@,
            digits == s.skip(start as int),
            !has_sign ==> digits == s,
            start == if has_sign { 1int } else { 0int },
            first == s[0],
            neg == (first == '-'),
            has_sign == (first == '-' || first == '+'),
            n > start,
            all_digits(digits.take(k - start as int)),
            acc == -digits_value(digits.take(k - start as int)),
            acc <= 0,
        decreases n - k,
    {
        let c: char = text.char_at(k);
        let u: u32 = c as u32;
        proof {
            assert(digits[k - start as int] == s[k as int]);
        }
        if u < 0x30 || u > 0x39 {
            proof {
                assert(!all_digits(digits));
                assert(!int_literal_shape(s));
            }
            return None;
        }
        let ghost dtk = digits.take(k + 1 - start as int);
        proof {
            assert(dtk.drop_last() =~= digits.take(k - start as int));
            assert(dtk.last() == s[k as int]);
            assert(all_digits(dtk)) by {
                assert(forall|i: int|
                    0 <= i < dtk.len() - 1 ==> #[trigger] dtk[i] == digits.take(k - start as int)[i]);
            }
        }
        let d: i64 = (u - 0x30) as i64;
        let step: Option<i64> = match acc.checked_mul(10) {
            Some(m) => m.checked_sub(d),
            None => None,
        };
        match step {
            Some(v) => {
                acc = v;
            },
            None => {
                proof {
                    // The magnitude already exceeds what a 64-bit signed
                    // integer can hold, and more digits only increase it.
                    assert(digits_value(dtk) == -(acc as int) * 10 + digit_val(s[k as int]));
                    assert(digits_value(dtk) > i64::MAX);
                    if int_literal_shape(s) {
                        assert(all_digits(digits));
                        lemma_digits_value_mono(digits, k + 1 - start as int);
                        assert(int_literal_magnitude(s) == digits_value(digits));
                        assert(int_literal_value(s) > i64::MAX || int_literal_value(s) < i64::MIN);
                    }
                }
                return None;
            },
        }
        k = k + 1;
    }
    proof {
        assert(digits.take(n - start as int) =~= digits);
        assert(int_literal_shape(s));
        assert(int_literal_magnitude(s) == digits_value(digits));
    }
    if neg {
        Some(acc)
    } else {
        if acc == i64::MIN {
            proof {
                assert(int_literal_value(s) == -(i64::MIN as int));
            }
            return None;
        }
        Some(-acc)
    }
}

} // verus!
