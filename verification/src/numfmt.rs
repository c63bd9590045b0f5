//! Verified decimal rendering and parsing of integers, specified over
//! `Seq<char>`: plain decimal digits, zero-padded fields and signed values.

use vstd::prelude::*;
use crate::strutil::push_char;
use vstd::string::StrSliceExecFns;

verus! {

/// The decimal digit character for a value below ten.
pub open spec fn digit_char(d: int) -> char {
    if d == 0 {
        '0'
    } else if d == 1 {
        '1'
    } else if d == 2 {
        '2'
    } else if d == 3 {
        '3'
    } else if d == 4 {
        '4'
    } else if d == 5 {
        '5'
    } else if d == 6 {
        '6'
    } else if d == 7 {
        '7'
    } else if d == 8 {
        '8'
    } else {
        '9'
    }
}

/// The decimal rendering of a non-negative integer, without leading zeros
/// (a single `'0'` for zero).
pub open spec fn dec_chars(n: int) -> Seq<char>
    decreases n,
{
    if n < 10 {
        seq![digit_char(n)]
    } else {
        dec_chars(n / 10).push(digit_char(n % 10))
    }
}

/// The decimal rendering of `n`, left-padded with `'0'` to at least `width`
/// characters.
pub open spec fn dec_chars_pad(n: int, width: int) -> Seq<char>
    decreases width,
{
    if dec_chars(n).len() >= width {
        dec_chars(n)
    } else {
        seq!['0'] + dec_chars_pad(n, width - 1)
    }
}

/// Appends the digit character of `d` to `s`.
fn push_digit(s: &mut String, d: u128)
    requires
        d < 10,
    ensures
        final(s)@ == old(s)@.push(digit_char(d as int)),
{
    if d == 0 {
        push_char(s, '0');
    } else if d == 1 {
        push_char(s, '1');
    } else if d == 2 {
        push_char(s, '2');
    } else if d == 3 {
        push_char(s, '3');
    } else if d == 4 {
        push_char(s, '4');
    } else if d == 5 {
        push_char(s, '5');
    } else if d == 6 {
        push_char(s, '6');
    } else if d == 7 {
        push_char(s, '7');
    } else if d == 8 {
        push_char(s, '8');
    } else {
        push_char(s, '9');
    }
}

/// Appends the digit character of a value below ten to `s`.
pub fn push_digit_char(s: &mut String, d: u64)
    requires
        d < 10,
    ensures
        final(s)@ == old(s)@.push(digit_char(d as int)),
{
    push_digit(s, d as u128);
}

/// Appends the decimal rendering of `n` to `s`.
pub fn push_dec_u128(s: &mut String, n: u128)
    ensures
        final(s)@ == old(s)@ + dec_chars(n as int),
    decreases n,
{
    if n < 10 {
        push_digit(s, n);
        proof {
            assert(final(s)@ =~= old(s)@ + dec_chars(n as int));
        }
    } else {
        push_dec_u128(s, n / 10);
        push_digit(s, n % 10);
        proof {
            assert(final(s)@ =~= old(s)@ + dec_chars(n as int));
        }
    }
}



/// The decimal rendering of `n` as an owned string.
pub fn dec_string_u128(n: u128) -> (r: String)
    ensures
        r@ == dec_chars(n as int),
{
    let mut r = crate::strutil::new_string();
    push_dec_u128(&mut r, n);
    proof {
        assert(r@ =~= dec_chars(n as int));
    }
    r
}

/// Appends the decimal rendering of `n`, zero-padded to at least `width`
/// characters, to `s`.
pub fn push_dec_pad(s: &mut String, n: u128, width: usize)
    ensures
        final(s)@ == old(s)@ + dec_chars_pad(n as int, width as int),
    decreases width,
{
    let rendered = dec_string_u128(n);
    let digits = rendered.as_str().unicode_len();
    if digits >= width {
        crate::strutil::append_string(s, &rendered);
    } else {
        push_char(s, '0');
        push_dec_pad(s, n, width - 1);
        proof {
            assert(final(s)@ =~= old(s)@ + dec_chars_pad(n as int, width as int));
        }
    }
}

/// The numeric value of a decimal digit character, `-1` for any other
/// character.
pub open spec fn digit_val(c: char) -> int {
    let u = c as u32;
    if 0x30 <= u && u <= 0x39 {
        u - 0x30
    } else {
        -1
    }
}

/// Whether `s` is one or more decimal digits.
pub open spec fn all_digits(s: Seq<char>) -> bool {
    s.len() > 0 && forall|i: int| 0 <= i < s.len() ==> digit_val(s[i]) >= 0
}

/// The value of a digit string read in base ten.
pub open spec fn dec_value(s: Seq<char>) -> int
    decreases s.len(),
{
    if s.len() == 0 {
        0
    } else {
        dec_value(s.drop_last()) * 10 + digit_val(s.last())
    }
}

/// Every character of a decimal rendering is a digit.
pub proof fn lemma_dec_chars_digits(n: int)
    requires
        0 <= n,
    ensures
        forall|i: int| 0 <= i < dec_chars(n).len() ==> digit_val(#[trigger] dec_chars(n)[i]) >= 0,
    decreases n,
{
    if n < 10 {
        assert(digit_val(digit_char(n)) >= 0);
    } else {
        lemma_dec_chars_digits(n / 10);
        assert(digit_val(digit_char(n % 10)) >= 0);
        assert(forall|i: int|
            0 <= i < dec_chars(n / 10).len() ==> #[trigger] dec_chars(n)[i] == dec_chars(
                n / 10,
            )[i]);
    }
}

/// The value named by `s` under `str::parse::<u64>`: an optional leading
/// `'+'`, then decimal digits, rejecting anything else and values over
/// `u64::MAX`.
pub open spec fn parse_u64_spec(s: Seq<char>) -> Option<u64> {
    let body = if s.len() > 0 && s[0] == '+' {
        s.drop_first()
    } else {
        s
    };
    if all_digits(body) && dec_value(body) <= u64::MAX {
        Some(dec_value(body) as u64)
    } else {
        None
    }
}

/// Reading a decimal rendering back yields the value it renders.
pub proof fn lemma_dec_value_of_dec_chars(n: int)
    requires
        0 <= n,
    ensures
        dec_value(dec_chars(n)) == n,
    decreases n,
{
    if n < 10 {
        let s = dec_chars(n);
        assert(s.drop_last() =~= Seq::<char>::empty());
        assert(dec_value(Seq::<char>::empty()) == 0);
        assert(s.last() == digit_char(n));
        assert(dec_value(s) == dec_value(s.drop_last()) * 10 + digit_val(s.last()));
        assert(dec_value(s) == digit_val(digit_char(n)));
    } else {
        lemma_dec_value_of_dec_chars(n / 10);
        let s = dec_chars(n);
        assert(s.drop_last() =~= dec_chars(n / 10));
        assert(s.last() == digit_char(n % 10));
        assert(digit_val(digit_char(n % 10)) == n % 10);
    }
}

/// Parsing a decimal rendering of a value in range yields that value.
pub proof fn lemma_parse_dec_chars(n: u64)
    ensures
        parse_u64_spec(dec_chars(n as int)) == Some(n),
{
    lemma_dec_chars_digits(n as int);
    lemma_dec_value_of_dec_chars(n as int);
    let s = dec_chars(n as int);
    assert(s.len() > 0);
    assert(digit_val(s[0]) >= 0);
    assert(digit_val('+') == -1);
    assert(s[0] != '+');
    assert(all_digits(s));
}

/// A digit string's value only grows as digits are appended.
proof fn lemma_dec_value_extend(s: Seq<char>, i: int)
    requires
        0 <= i <= s.len(),
        forall|j: int| 0 <= j < s.len() ==> digit_val(s[j]) >= 0,
    ensures
        dec_value(s) >= dec_value(s.take(i)),
    decreases s.len() - i,
{
    if i < s.len() {
        lemma_dec_value_extend(s, i + 1);
        assert(s.take(i + 1).drop_last() =~= s.take(i));
        assert(s.take(i + 1).last() == s[i]);
        assert(dec_value(s.take(i + 1)) == dec_value(s.take(i)) * 10 + digit_val(s[i]));
        assert(dec_value(s.take(i)) >= 0) by {
            lemma_dec_value_nonneg(s.take(i));
        }
    } else {
        assert(s.take(i) =~= s);
    }
}

/// A digit string's value is never negative.
proof fn lemma_dec_value_nonneg(s: Seq<char>)
    requires
        forall|j: int| 0 <= j < s.len() ==> digit_val(s[j]) >= 0,
    ensures
        dec_value(s) >= 0,
    decreases s.len(),
{
    if s.len() > 0 {
        assert(forall|j: int|
            0 <= j < s.drop_last().len() ==> digit_val(#[trigger] s.drop_last()[j]) >= 0);
        lemma_dec_value_nonneg(s.drop_last());
    }
}

/// The digit characters of `s` read in base ten, `None` on any other
/// character, an empty string, or a value over `u64::MAX`.
fn parse_digits_u64(s: &str, from: usize) -> (r: Option<u64>)
    requires
        from <= s@.len(),
    ensures
        ({
            let body = s@.skip(from as int);
            match r {
                Some(v) => all_digits(body) && dec_value(body) == v,
                None => !(all_digits(body) && dec_value(body) <= u64::MAX),
            }
        }),
{
    let len = s.unicode_len();
    if from == len {
        proof {
            assert(s@.skip(from as int).len() == 0);
        }
        return None;
    }
    let ghost body = s@.skip(from as int);
    let mut acc: u64 = 0;
    let mut i: usize = from;
    proof {
        assert(body.take(0) =~= Seq::<char>::empty());
    }
    while i < len
        invariant
            from <= i <= len,
            len == s@.len(),
            from < len,
            body == s@.skip(from as int),
            forall|j: int| 0 <= j < i - from ==> digit_val(body[j]) >= 0,
            acc == dec_value(body.take(i - from)),
        decreases len - i,
    {
        let c = s.get_char(i);
        let u = c as u32;
        if !(0x30 <= u && u <= 0x39) {
            proof {
                assert(digit_val(body[i - from]) < 0);
            }
            return None;
        }
        let d = (u - 0x30) as u64;
        proof {
            assert(body.take(i - from + 1).drop_last() =~= body.take(i - from));
            assert(body.take(i - from + 1).last() == body[i - from]);
            assert(digit_val(body[i - from]) == d);
        }
        if acc > (u64::MAX - d) / 10 {
            proof {
                assert(dec_value(body.take(i - from + 1)) == acc * 10 + d);
                assert(acc * 10 + d > u64::MAX) by (nonlinear_arith)
                    requires
                        acc > (u64::MAX - d) / 10,
                        0 <= d <= 9,
                        acc >= 0,
                {
                }
                if all_digits(body) {
                    lemma_dec_value_extend(body, i - from + 1);
                }
            }
            return None;
        }
        proof {
            assert(acc * 10 + d <= u64::MAX) by (nonlinear_arith)
                requires
                    acc <= (u64::MAX - d) / 10,
                    0 <= d <= 9,
                    acc >= 0,
            {
            }
        }
        acc = acc * 10 + d;
        i += 1;
    }
    proof {
        assert(body.take(len - from) =~= body);
        assert(all_digits(body));
    }
    Some(acc)
}

/// Parses `s` as `str::parse::<u64>` does.
pub fn parse_u64(s: &str) -> (r: Option<u64>)
    ensures
        r == parse_u64_spec(s@),
{
    let len = s.unicode_len();
    if len > 0 && s.get_char(0) == '+' {
        let r = parse_digits_u64(s, 1);
        proof {
            assert(s@.skip(1) =~= s@.drop_first());
        }
        r
    } else {
        let r = parse_digits_u64(s, 0);
        proof {
            assert(s@.skip(0) =~= s@);
        }
        r
    }
}

/// The value named by `s` under `str::parse::<i32>`: an optional `'+'` or
/// `'-'` sign, then decimal digits, rejecting anything else and values
/// outside the `i32` range.
pub open spec fn parse_i32_spec(s: Seq<char>) -> Option<int> {
    let negative = s.len() > 0 && s[0] == '-';
    let body = if s.len() > 0 && (s[0] == '+' || s[0] == '-') {
        s.drop_first()
    } else {
        s
    };
    if all_digits(body) {
        let v = if negative {
            -dec_value(body)
        } else {
            dec_value(body)
        };
        if i32::MIN <= v <= i32::MAX {
            Some(v)
        } else {
            None
        }
    } else {
        None
    }
}

/// Parses `s` as `str::parse::<i32>` does, returning the value as `i64`.
pub fn parse_i32_like(s: &str) -> (r: Option<i64>)
    ensures
        r == match parse_i32_spec(s@) {
            Some(v) => Some(v as i64),
            None => None::<i64>,
        },
{
    let len = s.unicode_len();
    let mut negative = false;
    let mut from: usize = 0;
    if len > 0 {
        let c0 = s.get_char(0);
        if c0 == '-' {
            negative = true;
            from = 1;
        } else if c0 == '+' {
            from = 1;
        }
    }
    let digits = parse_digits_u64(s, from);
    proof {
        if from == 1 {
            assert(s@.skip(1) =~= s@.drop_first());
        } else {
            assert(s@.skip(0) =~= s@);
        }
    }
    match digits {
        None => {
            proof {
                let body = s@.skip(from as int);
                if all_digits(body) && !(dec_value(body) <= u64::MAX) {
                    assert(dec_value(body) > i32::MAX);
                    assert(-dec_value(body) < i32::MIN);
                }
            }
            None
        },
        Some(v) => {
            if negative {
                if v > 0x8000_0000u64 {
                    None
                } else {
                    Some(-(v as i64))
                }
            } else {
                if v > 0x7fff_ffffu64 {
                    None
                } else {
                    Some(v as i64)
                }
            }
        },
    }
}

} // verus!
