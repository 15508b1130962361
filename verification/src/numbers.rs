//! Reconstruction of unsigned decimal fields: turning the text a capture
//! slot matched into a number, and rendering a number back into the text
//! that would match it.  Rendering and parsing are exact inverses, which
//! is what lets a formatted record round-trip through its own template.

use vstd::prelude::*;
use crate::schema::chars_to_string;

verus! {

/// A decimal digit.
pub open spec fn is_digit(c: char) -> bool {
    48 <= c as int <= 57
}

/// The value of a decimal digit.
pub open spec fn digit_val(c: char) -> int {
    c as int - 48
}

/// Every character is a decimal digit.
pub open spec fn all_digits(s: Seq<char>) -> bool {
    forall|i: int| 0 <= i < s.len() ==> is_digit(#[trigger] s[i])
}

/// The number a digit string denotes, most significant digit first.
pub open spec fn digits_value(s: Seq<char>) -> int
    decreases s.len(),
{
    if s.len() == 0 {
        0
    } else {
        digits_value(s.drop_last()) * 10 + digit_val(s.last())
    }
}

/// The digit character for a value below ten.
pub open spec fn digit_char_of(d: int) -> char {
    if d == 0 {
        '0'
    } else if d == 1 {
        '1'
    } else if d == 2 {
        '2'
    } else if d == 3 {
        '3'
    } else if d == 4 {
        '4'
    } else if d == 5 {
        '5'
    } else if d == 6 {
        '6'
    } else if d == 7 {
        '7'
    } else if d == 8 {
        '8'
    } else {
        '9'
    }
}

/// The canonical decimal rendering of a number: no sign, no leading
/// zeros, at least one digit.
pub open spec fn u64_digits(v: u64) -> Seq<char>
    decreases v,
{
    if v < 10 {
        seq![digit_char_of(v as int)]
    } else {
        u64_digits((v / 10) as u64).push(digit_char_of(v as int % 10))
    }
}

proof fn lemma_digit_char_of(d: int)
    requires
        0 <= d < 10,
    ensures
        is_digit(digit_char_of(d)),
        digit_val(digit_char_of(d)) == d,
{
}

proof fn lemma_digits_value_nonneg(s: Seq<char>)
    requires
        all_digits(s),
    ensures
        digits_value(s) >= 0,
    decreases s.len(),
{
    if s.len() > 0 {
        assert(all_digits(s.drop_last())) by {
            assert(forall|i: int| 0 <= i < s.drop_last().len() ==> is_digit(
                #[trigger] s.drop_last()[i],
            ));
        }
        lemma_digits_value_nonneg(s.drop_last());
    }
}

/// A longer digit prefix denotes at least as large a number.
proof fn lemma_digits_prefix_monotone(s: Seq<char>, k: int, j: int)
    requires
        all_digits(s),
        0 <= k <= j <= s.len(),
    ensures
        digits_value(s.subrange(0, k)) <= digits_value(s.subrange(0, j)),
    decreases j - k,
{
    if k < j {
        lemma_digits_prefix_monotone(s, k, j - 1);
        let p = s.subrange(0, j);
        assert(p.drop_last() =~= s.subrange(0, j - 1));
        assert(all_digits(s.subrange(0, j - 1))) by {
            assert(forall|i: int| 0 <= i < j - 1 ==> is_digit(
                #[trigger] s.subrange(0, j - 1)[i],
            ));
        }
        lemma_digits_value_nonneg(s.subrange(0, j - 1));
        assert(is_digit(s[j - 1]));
        assert(digits_value(p) == digits_value(s.subrange(0, j - 1)) * 10 + digit_val(s[j - 1]));
    }
}

/// Round trip at the leaf: the canonical decimal rendering of any number
/// is a non-empty digit string that denotes that same number, so parsing
/// what was rendered gives the number back.
pub proof fn lemma_decimal_round_trip(v: u64)
    ensures
        u64_digits(v).len() > 0,
        all_digits(u64_digits(v)),
        digits_value(u64_digits(v)) == v,
    decreases v,
{
    if v < 10 {
        lemma_digit_char_of(v as int);
        let s = u64_digits(v);
        assert(s == seq![digit_char_of(v as int)]);
        assert(s.len() == 1);
        assert(s.drop_last() =~= Seq::<char>::empty());
        assert(s.last() == digit_char_of(v as int));
        assert(digits_value(s) == digits_value(s.drop_last()) * 10 + digit_val(s.last()));
        assert(digits_value(s.drop_last()) == 0);
        assert(digits_value(s) == v);
    } else {
        lemma_decimal_round_trip((v / 10) as u64);
        lemma_digit_char_of(v as int % 10);
        let s = u64_digits(v);
        assert(s.drop_last() =~= u64_digits((v / 10) as u64));
        assert(s.last() == digit_char_of(v as int % 10));
        assert(digits_value(s) == digits_value(s.drop_last()) * 10 + digit_val(s.last()));
        vstd::arithmetic::div_mod::lemma_fundamental_div_mod(v as int, 10);
        assert((v / 10) as int == v as int / 10);
        assert(digit_val(s.last()) == v as int % 10);
        assert(digits_value(s.drop_last()) == v as int / 10);
        assert(v as int == 10 * (v as int / 10) + v as int % 10);
        assert(digits_value(s) == v);
        assert(all_digits(s)) by {
            assert(forall|i: int| 0 <= i < s.len() - 1 ==> s[i] == s.drop_last()[i]);
            assert(forall|i: int| 0 <= i < s.len() ==> is_digit(#[trigger] s[i]));
        }
        assert(s.len() > 0);
    }
}

/// Parse a decimal digit string: `Some` exactly when the string is
/// non-empty, all digits, and its value fits.
pub fn parse_u64(s: &str) -> (r: Option<u64>)
    ensures
        match r {
            Option::Some(v) => s@.len() > 0 && all_digits(s@) && v == digits_value(s@),
            Option::None => !(s@.len() > 0 && all_digits(s@) && digits_value(s@) <= u64::MAX),
        },
{
    let n: usize = s.unicode_len();
    if n == 0 {
        return Option::None;
    }
    let mut acc: u64 = 0;
    let mut i: usize = 0;
    proof {
        assert(s@.subrange(0, 0) =~= Seq::<char>::empty());
    }
    while i < n
        invariant
            n == s@.len(),
            0 <= i <= n,
            all_digits(s@.subrange(0, i as int)),
            acc == digits_value(s@.subrange(0, i as int)),
        decreases n - i,
    {
        let c = s.get_char(i);
        let u: u32 = c as u32;
        if u < 48 || u > 57 {
            return Option::None;
        }
        let d: u64 = (u - 48) as u64;
        let ghost pre = s@.subrange(0, i as int);
        let ghost cur = s@.subrange(0, i as int + 1);
        proof {
            assert(cur.drop_last() =~= pre);
            assert(cur.last() == s@[i as int]);
            assert(all_digits(cur)) by {
                assert(forall|k: int| 0 <= k < cur.len() ==> is_digit(#[trigger] cur[k]));
            }
        }
        let step = match acc.checked_mul(10) {
            Option::Some(m) => m.checked_add(d),
            Option::None => Option::None,
        };
        match step {
            Option::Some(x) => {
                acc = x;
            },
            Option::None => {
                proof {
                    assert(digits_value(cur) > u64::MAX);
                    if all_digits(s@) {
                        lemma_digits_prefix_monotone(s@, i as int + 1, n as int);
                        assert(s@.subrange(0, n as int) =~= s@);
                    }
                }
                return Option::None;
            },
        }
        i += 1;
    }
    proof {
        assert(s@.subrange(0, n as int) =~= s@);
    }
    Option::Some(acc)
}

/// Parse a decimal digit string whose value must not exceed `max`: the
/// reconstruction rule of a bounded unsigned field, which rejects
/// out-of-range text even though the pattern matched it.
pub fn parse_bounded(s: &str, max: u64) -> (r: Option<u64>)
    ensures
        match r {
            Option::Some(v) => s@.len() > 0 && all_digits(s@) && v == digits_value(s@) && v
                <= max,
            Option::None => !(s@.len() > 0 && all_digits(s@) && digits_value(s@) <= max),
        },
{
    match parse_u64(s) {
        Option::Some(v) => {
            if v <= max {
                Option::Some(v)
            } else {
                Option::None
            }
        },
        Option::None => Option::None,
    }
}

/// A well-formed signed decimal string: an optional single sign, then at
/// least one digit.
pub open spec fn signed_well_formed(s: Seq<char>) -> bool {
    if s.len() == 0 {
        false
    } else if s[0] == '+' || s[0] == '-' {
        s.len() > 1 && all_digits(s.subrange(1, s.len() as int))
    } else {
        all_digits(s)
    }
}

/// The number a signed decimal string denotes.
pub open spec fn signed_value(s: Seq<char>) -> int {
    if s.len() > 0 && s[0] == '-' {
        -digits_value(s.subrange(1, s.len() as int))
    } else if s.len() > 0 && s[0] == '+' {
        digits_value(s.subrange(1, s.len() as int))
    } else {
        digits_value(s)
    }
}

/// Parse a signed decimal string: `Some` exactly when the string is an
/// optional sign followed by digits and its value fits.
pub fn parse_i64(s: &str) -> (r: Option<i64>)
    ensures
        match r {
            Option::Some(v) => signed_well_formed(s@) && v == signed_value(s@),
            Option::None => !(signed_well_formed(s@) && i64::MIN <= signed_value(s@)
                <= i64::MAX),
        },
{
    let n: usize = s.unicode_len();
    if n == 0 {
        return Option::None;
    }
    let c0 = s.get_char(0);
    let has_sign: bool = c0 == '+' || c0 == '-';
    let neg: bool = c0 == '-';
    if has_sign && n == 1 {
        return Option::None;
    }
    let start: usize = if has_sign {
        1
    } else {
        0
    };
    let digits = s.substring_char(start, n);
    proof {
        if !has_sign {
            assert(digits@ =~= s@);
        }
    }
    let u = match parse_u64(digits) {
        Option::Some(u) => u,
        Option::None => {
            proof {
                if signed_well_formed(s@) {
                    assert(digits@.len() > 0 && all_digits(digits@));
                    assert(digits_value(digits@) > u64::MAX);
                }
            }
            return Option::None;
        },
    };
    if !neg {
        if u <= i64::MAX as u64 {
            Option::Some(u as i64)
        } else {
            Option::None
        }
    } else {
        if u <= i64::MAX as u64 {
            Option::Some(-(u as i64))
        } else if u == i64::MAX as u64 + 1 {
            Option::Some(i64::MIN)
        } else {
            Option::None
        }
    }
}

/// The digit character for a value below ten.
fn digit_char(d: u64) -> (c: char)
    requires
        d < 10,
    ensures
        c == digit_char_of(d as int),
{
    if d == 0 {
        '0'
    } else if d == 1 {
        '1'
    } else if d == 2 {
        '2'
    } else if d == 3 {
        '3'
    } else if d == 4 {
        '4'
    } else if d == 5 {
        '5'
    } else if d == 6 {
        '6'
    } else if d == 7 {
        '7'
    } else if d == 8 {
        '8'
    } else {
        '9'
    }
}

fn u64_digits_vec(v: u64) -> (r: Vec<char>)
    ensures
        r@ == u64_digits(v),
    decreases v,
{
    if v < 10 {
        let mut r: Vec<char> = Vec::new();
        r.push(digit_char(v));
        proof {
            assert(r@ =~= seq![digit_char_of(v as int)]);
        }
        r
    } else {
        let mut r = u64_digits_vec(v / 10);
        r.push(digit_char(v % 10));
        r
    }
}

/// Render a number as its canonical decimal digit string.
pub fn u64_to_string(v: u64) -> (r: String)
    ensures
        r@ == u64_digits(v),
{
    let digits = u64_digits_vec(v);
    chars_to_string(&digits)
}

} // verus!
