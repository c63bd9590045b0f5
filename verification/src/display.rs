//! Human-readable renderings of session figures: dollar amounts from exact
//! nanodollar counts, token counts in thousands, and fish-style shortened
//! working-directory paths.

use vstd::prelude::*;
use vstd::string::StrSliceExecFns;
use crate::strutil::{
    push_char, append_string, new_string, replace_all_spec, replace_all, split_char_spec,
    split_char, join_char_spec, join_char, views_of,
};
use crate::numfmt::{dec_chars, dec_chars_pad, digit_char};

verus! {

/// `a / unit` rounded half up, for a positive `unit`.
pub open spec fn round_half_up(a: int, unit: int) -> int {
    a / unit + if a % unit * 2 >= unit {
        1int
    } else {
        0int
    }
}

/// `a / unit` rounded half to even, for a positive `unit`.
pub open spec fn round_half_even(a: int, unit: int) -> int {
    a / unit + if a % unit * 2 > unit || (a % unit * 2 == unit && a / unit % 2 == 1) {
        1int
    } else {
        0int
    }
}

/// A dollar amount rendered from nanodollars: three decimal places below one
/// cent (where the finer digit matters), two from one cent up, no currency
/// sign.
pub open spec fn format_cost_chars(nanos: int) -> Seq<char> {
    if nanos < 10_000_000 {
        seq!['0', '.'] + dec_chars_pad(round_half_up(nanos, 1_000_000), 3)
    } else {
        let cents = round_half_up(nanos, 10_000_000);
        dec_chars(cents / 100) + seq!['.'] + dec_chars_pad(cents % 100, 2)
    }
}

/// Renders a nanodollar amount as dollars.
pub fn format_cost(nanos: u128) -> (r: String)
    ensures
        r@ == format_cost_chars(nanos as int),
{
    let mut out = new_string();
    if nanos < 10_000_000 {
        let millis = nanos / 1_000_000 + if nanos % 1_000_000 * 2 >= 1_000_000 {
            1
        } else {
            0
        };
        push_char(&mut out, '0');
        push_char(&mut out, '.');
        crate::numfmt::push_dec_pad(&mut out, millis, 3);
        proof {
            assert(out@ =~= format_cost_chars(nanos as int));
        }
    } else {
        let cents = nanos / 10_000_000 + if nanos % 10_000_000 * 2 >= 10_000_000 {
            1
        } else {
            0
        };
        crate::numfmt::push_dec_u128(&mut out, cents / 100);
        push_char(&mut out, '.');
        crate::numfmt::push_dec_pad(&mut out, cents % 100, 2);
        proof {
            assert(out@ =~= format_cost_chars(nanos as int));
        }
    }
    out
}

/// Renders a nanodollar amount as dollars with the currency sign.
pub fn format_cost_dollars(nanos: u128) -> (r: String)
    ensures
        r@ == seq!['$'] + format_cost_chars(nanos as int),
{
    let mut out = new_string();
    push_char(&mut out, '$');
    let body = format_cost(nanos);
    append_string(&mut out, &body);
    out
}

/// A token count rendered in thousands: whole thousands from one hundred
/// thousand up (rounded half up) and from ten thousand up (rounded half to
/// even), one decimal place below that.
pub open spec fn format_tokens_chars(tokens: int) -> Seq<char> {
    if tokens >= 100_000 {
        dec_chars(round_half_up(tokens, 1000)) + seq!['k']
    } else if tokens >= 10_000 {
        dec_chars(round_half_even(tokens, 1000)) + seq!['k']
    } else {
        let tenths = round_half_up(tokens, 100);
        dec_chars(tenths / 10) + seq!['.', digit_char(tenths % 10), 'k']
    }
}

/// Renders a token count in thousands.
pub fn format_tokens(tokens: u64) -> (r: String)
    ensures
        r@ == format_tokens_chars(tokens as int),
{
    let t = tokens as u128;
    let mut out = new_string();
    if tokens >= 100_000 {
        let k = t / 1000 + if t % 1000 * 2 >= 1000 {
            1
        } else {
            0
        };
        crate::numfmt::push_dec_u128(&mut out, k);
        push_char(&mut out, 'k');
    } else if tokens >= 10_000 {
        let k = t / 1000 + if t % 1000 * 2 > 1000 || (t % 1000 * 2 == 1000 && t / 1000 % 2 == 1) {
            1
        } else {
            0
        };
        crate::numfmt::push_dec_u128(&mut out, k);
        push_char(&mut out, 'k');
    } else {
        let tenths = t / 100 + if t % 100 * 2 >= 100 {
            1
        } else {
            0
        };
        crate::numfmt::push_dec_u128(&mut out, tenths / 10);
        push_char(&mut out, '.');
        crate::numfmt::push_digit_char(&mut out, (tenths % 10) as u64);
        push_char(&mut out, 'k');
    }
    proof {
        assert(out@ =~= format_tokens_chars(tokens as int));
    }
    out
}

/// One path component shortened fish-style: the last component, empty
/// components and the home marker stand as they are; a dot-file keeps its
/// dot and next character; anything else keeps its first character.
pub open spec fn shorten_component(part: Seq<char>, is_last: bool) -> Seq<char> {
    if is_last || part.len() == 0 || part == seq!['~'] {
        part
    } else if part[0] == '.' && part.len() > 1 {
        seq!['.', part[1]]
    } else {
        seq![part[0]]
    }
}

/// A path shortened fish-style: the home prefix collapsed to `~`, every
/// component but the last cut to its first character (dot-files keep one
/// more), joined back with slashes. A path without any slash stands as it
/// is.
pub open spec fn fish_path_chars(path: Seq<char>, home: Seq<char>) -> Seq<char> {
    let p = replace_all_spec(path, home, seq!['~']);
    let parts = split_char_spec(p, '/');
    if parts.len() <= 1 {
        p
    } else {
        join_char_spec(
            parts.map(|i: int, part: Seq<char>| shorten_component(part, i == parts.len() - 1)),
            '/',
        )
    }
}

/// Shortens one component, executably.
fn shorten_part(part: &String, is_last: bool) -> (r: String)
    ensures
        r@ == shorten_component(part@, is_last),
{
    let len = part.as_str().unicode_len();
    if is_last || len == 0 {
        return crate::strutil::to_owned_string(part.as_str());
    }
    let c0 = part.as_str().get_char(0);
    if len == 1 && c0 == '~' {
        proof {
            assert(part@ =~= seq!['~']);
        }
        return crate::strutil::to_owned_string(part.as_str());
    }
    proof {
        assert(part@ != seq!['~']);
    }
    let mut out = new_string();
    if c0 == '.' && len > 1 {
        push_char(&mut out, '.');
        push_char(&mut out, part.as_str().get_char(1));
        proof {
            assert(out@ =~= shorten_component(part@, is_last));
        }
    } else {
        push_char(&mut out, c0);
        proof {
            assert(out@ =~= shorten_component(part@, is_last));
        }
    }
    out
}

/// Shortens a working-directory path fish-style against the given home
/// directory (an empty home leaves the path unreplaced).
pub fn fish_shorten_path(path: &str, home: &str) -> (r: String)
    ensures
        r@ == fish_path_chars(path@, home@),
{
    let replaced = replace_all(path, home, "~");
    proof {
        reveal_strlit("~");
        assert("~"@ =~= seq!['~']);
    }
    let parts = split_char(replaced.as_str(), '/');
    proof {
        assert(parts@.len() == views_of(parts@).len());
    }
    if parts.len() <= 1 {
        return replaced;
    }
    let ghost mapped = split_char_spec(replaced@, '/').map(
        |i: int, part: Seq<char>| shorten_component(part, i == split_char_spec(replaced@, '/').len() - 1),
    );
    let mut shortened: Vec<String> = Vec::new();
    let mut i: usize = 0;
    proof {
        assert(views_of(shortened@) =~= mapped.take(0));
    }
    while i < parts.len()
        invariant
            i <= parts@.len(),
            parts@.len() >= 2,
            views_of(parts@) == split_char_spec(replaced@, '/'),
            mapped == split_char_spec(replaced@, '/').map(
                |i: int, part: Seq<char>|
                    shorten_component(part, i == split_char_spec(replaced@, '/').len() - 1),
            ),
            views_of(shortened@) =~= mapped.take(i as int),
        decreases parts@.len() - i,
    {
        proof {
            assert(parts@[i as int]@ == views_of(parts@)[i as int]);
            assert(mapped[i as int] == shorten_component(
                views_of(parts@)[i as int],
                i as int == views_of(parts@).len() - 1,
            ));
        }
        let ghost before = shortened@;
        let piece = shorten_part(&parts[i], i == parts.len() - 1);
        shortened.push(piece);
        proof {
            assert(views_of(shortened@) =~= views_of(before).push(mapped[i as int]));
            assert(views_of(shortened@) =~= mapped.take(i + 1));
        }
        i += 1;
    }
    proof {
        assert(mapped.take(parts@.len() as int) =~= mapped);
    }
    join_char(&shortened, '/')
}

} // verus!
