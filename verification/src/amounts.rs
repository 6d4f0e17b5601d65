//! Fixed-point amounts.
//!
//! Balances and order quantities are carried as integer micro-units
//! (one token = `MICRO` units), so that all arithmetic on them is exact.
//! Decimal strings arriving at the boundary are parsed into micro-units here.

use vstd::prelude::*;
use vstd::string::StrSliceExecFns;

verus! {

/// Number of micro-units in one whole token.
pub const MICRO: u64 = 1_000_000;

/// Greatest number of fractional digits a decimal amount string may carry.
pub const FRAC_DIGITS: u64 = 6;

pub open spec fn is_dec_digit(c: char) -> bool {
    ('0' as u32) <= (c as u32) && (c as u32) <= ('9' as u32)
}

pub open spec fn digit_val(c: char) -> int {
    (c as u32) - ('0' as u32)
}

pub open spec fn all_dec_digits(s: Seq<char>) -> bool {
    forall|i: int| 0 <= i < s.len() ==> is_dec_digit(#[trigger] s[i])
}

/// Value of a string of decimal digits, most significant first.
pub open spec fn digits_value(s: Seq<char>) -> int
    decreases s.len(),
{
    if s.len() == 0 {
        0
    } else {
        digits_value(s.drop_last()) * 10 + digit_val(s.last())
    }
}

pub open spec fn pow10(n: nat) -> int
    decreases n,
{
    if n == 0 {
        1
    } else {
        10 * pow10((n - 1) as nat)
    }
}

/// Index of the first `'.'` in `s`, or `-1` if there is none.
pub open spec fn first_dot(s: Seq<char>) -> int
    decreases s.len(),
{
    if s.len() == 0 {
        -1
    } else if s[0] == '.' {
        0
    } else {
        let r = first_dot(s.drop_first());
        if r < 0 {
            -1
        } else {
            r + 1
        }
    }
}

/// A well-formed decimal amount: digits, optionally followed by a dot and
/// at most `FRAC_DIGITS` further digits. The integer part must be non-empty.
pub open spec fn valid_dec_string(s: Seq<char>) -> bool {
    let d = first_dot(s);
    if d < 0 {
        s.len() > 0 && all_dec_digits(s)
    } else {
        let int_part = s.subrange(0, d);
        let frac_part = s.subrange(d + 1, s.len() as int);
        d > 0 && all_dec_digits(int_part) && all_dec_digits(frac_part) && frac_part.len()
            <= FRAC_DIGITS
    }
}

/// Mathematical value of a well-formed decimal amount string, in micro-units.
pub open spec fn dec_string_units(s: Seq<char>) -> int {
    let d = first_dot(s);
    if d < 0 {
        digits_value(s) * (MICRO as int)
    } else {
        let int_part = s.subrange(0, d);
        let frac_part = s.subrange(d + 1, s.len() as int);
        digits_value(int_part) * (MICRO as int) + digits_value(frac_part) * pow10(
            (FRAC_DIGITS - frac_part.len()) as nat,
        )
    }
}

/// What `parse_units` returns: the amount in micro-units when the string is a
/// well-formed decimal and its value fits in a `u64`, and nothing otherwise.
pub open spec fn spec_parse_units(s: Seq<char>) -> Option<u64> {
    if valid_dec_string(s) && dec_string_units(s) <= u64::MAX as int {
        Some(dec_string_units(s) as u64)
    } else {
        None
    }
}

proof fn lemma_digits_value_nonneg(s: Seq<char>)
    requires
        all_dec_digits(s),
    ensures
        0 <= digits_value(s),
    decreases s.len(),
{
    if s.len() > 0 {
        assert(all_dec_digits(s.drop_last()));
        lemma_digits_value_nonneg(s.drop_last());
    }
}

proof fn lemma_digits_value_bound(s: Seq<char>)
    requires
        all_dec_digits(s),
    ensures
        0 <= digits_value(s) < pow10(s.len() as nat),
    decreases s.len(),
{
    if s.len() > 0 {
        assert(all_dec_digits(s.drop_last()));
        lemma_digits_value_bound(s.drop_last());
    }
}

/// Extending a digit string on the right multiplies its value by ten and adds
/// the new digit; the value of a prefix therefore never exceeds the whole.
proof fn lemma_digits_prefix_le(s: Seq<char>, i: int)
    requires
        all_dec_digits(s),
        0 <= i <= s.len(),
    ensures
        digits_value(s.subrange(0, i)) <= digits_value(s),
    decreases s.len() - i,
{
    if i < s.len() {
        let t = s.subrange(0, i + 1);
        assert(t.drop_last() =~= s.subrange(0, i));
        assert(all_dec_digits(t));
        lemma_digits_value_nonneg(t.drop_last());
        assert(digits_value(t) == digits_value(s.subrange(0, i)) * 10 + digit_val(s[i]));
        assert(digits_value(s.subrange(0, i)) <= digits_value(t)) by {
            lemma_digits_value_nonneg(s.subrange(0, i));
        }
        lemma_digits_prefix_le(s, i + 1);
    } else {
        assert(s.subrange(0, i) =~= s);
    }
}

/// Parse a plain digit string into a `u64`, the way the boundary parses
/// whole-unit amounts. Yields the value exactly when the string is non-empty,
/// all digits, and fits.
pub fn parse_u64(s: &str) -> (r: Option<u64>)
    ensures
        r == (if s@.len() > 0 && all_dec_digits(s@) && digits_value(s@) <= u64::MAX as int {
            Some(digits_value(s@) as u64)
        } else {
            Option::<u64>::None
        }),
{
    let n = s.unicode_len();
    if n == 0 {
        return None;
    }
    let mut acc: u64 = 0;
    let mut i: usize = 0;
    while i < n
        invariant
            0 <= i <= n,
            n == s@.len(),
            all_dec_digits(s@.subrange(0, i as int)),
            acc == digits_value(s@.subrange(0, i as int)),
        decreases n - i,
    {
        let c = s.get_char(i);
        if c < '0' || c > '9' {
            assert(!is_dec_digit(s@[i as int]));
            return None;
        }
        let d: u64 = (c as u32 - '0' as u32) as u64;
        proof {
            let t = s@.subrange(0, i + 1);
            assert(t.drop_last() =~= s@.subrange(0, i as int));
            assert(digits_value(t) == acc * 10 + d);
        }
        let acc10 = match acc.checked_mul(10) {
            Some(v) => v,
            None => {
                proof {
                    overflow_means_too_big(s@, i as int, acc as int * 10 + d);
                }
                return None;
            },
        };
        acc = match acc10.checked_add(d) {
            Some(v) => v,
            None => {
                proof {
                    overflow_means_too_big(s@, i as int, acc as int * 10 + d);
                }
                return None;
            },
        };
        i = i + 1;
    }
    assert(s@.subrange(0, n as int) =~= s@);
    Some(acc)
}

proof fn lemma_pow10_pos(n: nat)
    ensures
        pow10(n) >= 1,
    decreases n,
{
    if n > 0 {
        lemma_pow10_pos((n - 1) as nat);
    }
}

proof fn lemma_pow10_add(a: nat, b: nat)
    ensures
        pow10(a) * pow10(b) == pow10(a + b),
    decreases a,
{
    if a > 0 {
        lemma_pow10_add((a - 1) as nat, b);
        assert(pow10(a) * pow10(b) == 10 * pow10((a - 1) as nat) * pow10(b));
        assert(10 * pow10((a - 1) as nat) * pow10(b) == 10 * (pow10((a - 1) as nat) * pow10(b)))
            by (nonlinear_arith);
    }
}

proof fn lemma_first_dot_at(s: Seq<char>, i: int)
    requires
        0 <= i < s.len(),
        forall|a: int| 0 <= a < i ==> s[a] != '.',
        s[i] == '.',
    ensures
        first_dot(s) == i,
    decreases i,
{
    if i > 0 {
        let t = s.drop_first();
        assert(forall|a: int| 0 <= a < i - 1 ==> t[a] == s[a + 1]);
        assert(t[i - 1] == s[i]);
        lemma_first_dot_at(t, i - 1);
    }
}

proof fn lemma_first_dot_none(s: Seq<char>)
    requires
        forall|a: int| 0 <= a < s.len() ==> s[a] != '.',
    ensures
        first_dot(s) < 0,
    decreases s.len(),
{
    if s.len() > 0 {
        let t = s.drop_first();
        assert(forall|a: int| 0 <= a < t.len() ==> t[a] == s[a + 1]);
        lemma_first_dot_none(t);
    }
}

/// Index of the first `'.'`, or the length if there is none.
fn find_dot_idx(s: &str) -> (r: usize)
    ensures
        r <= s@.len(),
        r == s@.len() ==> first_dot(s@) < 0,
        r < s@.len() ==> first_dot(s@) == r && s@[r as int] == '.',
{
    let n = s.unicode_len();
    let mut j: usize = 0;
    while j < n
        invariant
            0 <= j <= n,
            n == s@.len(),
            forall|a: int| 0 <= a < j ==> s@[a] != '.',
        decreases n - j,
    {
        if s.get_char(j) == '.' {
            proof {
                lemma_first_dot_at(s@, j as int);
            }
            return j;
        }
        j = j + 1;
    }
    proof {
        lemma_first_dot_none(s@);
    }
    n
}

fn pow10_small(e: usize) -> (r: u64)
    requires
        e <= 6,
    ensures
        r as int == pow10(e as nat),
{
    proof {
        reveal_with_fuel(pow10, 8);
    }
    if e == 0 {
        1
    } else if e == 1 {
        10
    } else if e == 2 {
        100
    } else if e == 3 {
        1_000
    } else if e == 4 {
        10_000
    } else if e == 5 {
        100_000
    } else {
        1_000_000
    }
}

/// Parse a decimal amount string into micro-units: digits with an optional
/// dot and at most six fraction digits. Yields the exact value when the
/// string is well formed and fits, and nothing otherwise.
pub fn parse_units(s: &str) -> (r: Option<u64>)
    ensures
        r == spec_parse_units(s@),
{
    let n = s.unicode_len();
    if n == 0 {
        return None;
    }
    let d = find_dot_idx(s);
    if d == n {
        // no fractional part
        match parse_u64(s) {
            Some(iv) => {
                proof {
                    lemma_digits_value_nonneg(s@);
                }
                match iv.checked_mul(MICRO) {
                    Some(v) => Some(v),
                    None => {
                        proof {
                            assert(digits_value(s@) * (MICRO as int) > u64::MAX as int);
                        }
                        None
                    },
                }
            },
            None => {
                proof {
                    if valid_dec_string(s@) {
                        assert(digits_value(s@) > u64::MAX as int);
                        assert(digits_value(s@) * (MICRO as int) >= digits_value(s@) * 1)
                            by (nonlinear_arith)
                            requires digits_value(s@) >= 0;
                    }
                }
                None
            },
        }
    } else {
        if d == 0 {
            return None;
        }
        let fl = n - d - 1;
        if fl > 6 {
            return None;
        }
        let int_str = s.substring_char(0, d);
        let frac_str = s.substring_char(d + 1, n);
        proof {
            assert(int_str@ == s@.subrange(0, d as int));
            assert(frac_str@ == s@.subrange(d + 1, n as int));
        }
        let iv = match parse_u64(int_str) {
            Some(v) => {
                proof {
                    lemma_digits_value_nonneg(s@.subrange(0, d as int));
                }
                v
            },
            None => {
                proof {
                    if valid_dec_string(s@) {
                        let ip = s@.subrange(0, d as int);
                        let fp = s@.subrange(d + 1, n as int);
                        assert(digits_value(ip) > u64::MAX as int);
                        lemma_digits_value_nonneg(fp);
                        lemma_pow10_pos((FRAC_DIGITS - fp.len()) as nat);
                        assert(digits_value(ip) * (MICRO as int) >= digits_value(ip) * 1)
                            by (nonlinear_arith)
                            requires digits_value(ip) >= 0;
                        assert(digits_value(fp) * pow10((FRAC_DIGITS - fp.len()) as nat) >= 0)
                            by (nonlinear_arith)
                            requires
                                digits_value(fp) >= 0,
                                pow10((FRAC_DIGITS - fp.len()) as nat) >= 1,
                        ;
                    }
                }
                return None;
            },
        };
        let fv: u64 = if fl == 0 {
            0
        } else {
            match parse_u64(frac_str) {
                Some(v) => v,
                None => {
                    proof {
                        let fp = s@.subrange(d + 1, n as int);
                        if all_dec_digits(fp) {
                            lemma_digits_value_bound(fp);
                            lemma_pow10_mono(fp.len() as nat, 6);
                            reveal_with_fuel(pow10, 8);
                        }
                    }
                    return None;
                },
            }
        };
        let p10 = pow10_small(6 - fl);
        proof {
            let fp = s@.subrange(d + 1, n as int);
            lemma_digits_value_bound(fp);
            lemma_pow10_add(fp.len() as nat, (FRAC_DIGITS - fp.len()) as nat);
            lemma_pow10_pos((FRAC_DIGITS - fp.len()) as nat);
            assert(digits_value(fp) * pow10((FRAC_DIGITS - fp.len()) as nat) < pow10(
                fp.len() as nat,
            ) * pow10((FRAC_DIGITS - fp.len()) as nat)) by (nonlinear_arith)
                requires
                    digits_value(fp) < pow10(fp.len() as nat),
                    digits_value(fp) >= 0,
                    pow10((FRAC_DIGITS - fp.len()) as nat) >= 1,
            ;
            reveal_with_fuel(pow10, 8);
            assert(pow10(6) == 1_000_000);
        }
        let fp_units: u64 = fv * p10;
        match iv.checked_mul(MICRO) {
            Some(base) => {
                match base.checked_add(fp_units) {
                    Some(v) => Some(v),
                    None => None,
                }
            },
            None => {
                proof {
                    let fp = s@.subrange(d + 1, n as int);
                    assert(digits_value(s@.subrange(0, d as int)) * (MICRO as int)
                        > u64::MAX as int);
                    assert(digits_value(fp) * pow10((FRAC_DIGITS - fp.len()) as nat) >= 0);
                }
                None
            },
        }
    }
}

proof fn lemma_pow10_mono(a: nat, b: nat)
    requires
        a <= b,
    ensures
        pow10(a) <= pow10(b),
    decreases b,
{
    if a < b {
        lemma_pow10_mono(a, (b - 1) as nat);
        lemma_pow10_pos((b - 1) as nat);
    }
}

/// If the value of `s[..i+1]` already exceeds `u64::MAX`, so does the whole
/// string's value, provided the rest is digits; otherwise the string is not
/// all digits. Either way the parse must refuse.
proof fn overflow_means_too_big(s: Seq<char>, i: int, v: int)
    requires
        0 <= i < s.len(),
        all_dec_digits(s.subrange(0, i)),
        is_dec_digit(s[i]),
        v == digits_value(s.subrange(0, i + 1)),
        v > u64::MAX as int,
    ensures
        !(all_dec_digits(s) && digits_value(s) <= u64::MAX as int),
{
    if all_dec_digits(s) {
        assert(s.subrange(0, i + 1).drop_last() =~= s.subrange(0, i));
        lemma_digits_prefix_le(s, i + 1);
    }
}

} // verus!
