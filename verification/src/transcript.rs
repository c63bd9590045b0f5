//! The transcript scanner: derives context-usage percentage, session
//! duration and cumulative cost from the lines of an append-only,
//! line-delimited event log. Each line is a structured record; the trusted
//! wrappers below extract its fields as plain values and all aggregation is
//! verified over those values.

use vstd::prelude::*;
use vstd::arithmetic::div_mod::lemma_fundamental_div_mod_converse_div;
use vstd::math::min;
use crate::strutil::{is_blank, blank, string_eq_str};
use crate::numfmt::{dec_chars, digit_char, digit_val};
use crate::pricing::{ModelPricing, PricingTable};

verus! {

/// The raw `timestamp` field of a transcript record: an integer epoch value,
/// a textual calendar timestamp, or a field of any other shape.
pub enum TsField {
    Num(i64),
    Text(String),
    Other,
}

/// The token counts of one usage block; a field is absent when the record
/// does not carry it as an unsigned integer.
#[derive(Clone, Copy)]
pub struct UsageData {
    pub input_tokens: Option<u64>,
    pub output_tokens: Option<u64>,
    pub cache_read_input_tokens: Option<u64>,
    pub cache_creation_input_tokens: Option<u64>,
}

/// The identifying fields of one transcript record: its timestamp field, the
/// nested role when it is textual, and the top-level type when it is
/// textual.
pub struct RecordHead {
    pub ts: Option<TsField>,
    pub role: Option<String>,
    pub ty: Option<String>,
}

/// The head fields a structured-record parse extracts from one transcript
/// line, or nothing when the line is not a well-formed record.
pub uninterp spec fn line_head(s: Seq<char>) -> Option<RecordHead>;

/// The usage block a structured-record parse extracts from one transcript
/// line, or nothing when the line has none.
pub uninterp spec fn line_usage(s: Seq<char>) -> Option<UsageData>;

/// The milliseconds since the epoch named by a textual calendar timestamp,
/// or nothing when the text is not a valid timestamp.
pub uninterp spec fn rfc3339_millis(s: Seq<char>) -> Option<i64>;

/// The message content a structured-record parse extracts from one
/// transcript line: the nested content when it is text, the text of the
/// first element when it is a non-empty list, and nothing otherwise.
pub uninterp spec fn line_content(s: Seq<char>) -> Option<String>;

/// Relies on `serde_json::from_str` and `serde_json::Value::{get, as_str,
/// as_i64}`: reads the `timestamp`, nested `message.role` and top-level
/// `type` fields of one transcript line. The result depends on the line's
/// characters alone.
#[verifier::external_body]
pub(crate) fn parse_line_head(line: &str) -> (r: Option<RecordHead>)
    ensures
        r == line_head(line@),
{
    let v: serde_json::Value = match serde_json::from_str(line) {
        Ok(v) => v,
        Err(_) => return None,
    };
    let ts = v.get("timestamp").map(|t| match (t.as_str(), t.as_i64()) {
        (Some(s), _) => TsField::Text(s.to_string()),
        (None, Some(n)) => TsField::Num(n),
        _ => TsField::Other,
    });
    let role = v.get("message").and_then(|m| m.get("role")).and_then(|r| r.as_str()).map(|s| s.to_string());
    let ty = v.get("type").and_then(|t| t.as_str()).map(|s| s.to_string());
    Some(RecordHead { ts, role, ty })
}

/// Relies on `serde_json::from_str` and `serde_json::Value::{get, as_u64}`:
/// reads the token counts of the `message.usage` block of one transcript
/// line. The result depends on the line's characters alone.
#[verifier::external_body]
pub(crate) fn parse_line_usage(line: &str) -> (r: Option<UsageData>)
    ensures
        r == line_usage(line@),
{
    let v: serde_json::Value = match serde_json::from_str(line) {
        Ok(v) => v,
        Err(_) => return None,
    };
    let u = v.get("message").and_then(|m| m.get("usage"))?;
    Some(UsageData {
        input_tokens: u.get("input_tokens").and_then(|x| x.as_u64()),
        output_tokens: u.get("output_tokens").and_then(|x| x.as_u64()),
        cache_read_input_tokens: u.get("cache_read_input_tokens").and_then(|x| x.as_u64()),
        cache_creation_input_tokens: u.get("cache_creation_input_tokens").and_then(|x| x.as_u64()),
    })
}

/// Relies on `serde_json::from_str` and `serde_json::Value::{get, as_str,
/// as_array}`: reads the `message.content` field of one transcript line,
/// taking the text itself or the `text` of the first element of a non-empty
/// list (an empty string when that element has no text). The result depends
/// on the line's characters alone.
#[verifier::external_body]
pub(crate) fn parse_line_content(line: &str) -> (r: Option<String>)
    ensures
        r == line_content(line@),
{
    let v: serde_json::Value = match serde_json::from_str(line) {
        Ok(v) => v,
        Err(_) => return None,
    };
    let c = v.get("message").and_then(|m| m.get("content"))?;
    if let Some(s) = c.as_str() {
        return Some(s.to_string());
    }
    let first = c.as_array()?.first()?;
    Some(first.get("text").and_then(|t| t.as_str()).unwrap_or("").to_string())
}

/// Relies on `chrono::DateTime::parse_from_rfc3339` and
/// `chrono::DateTime::timestamp_millis`: parses a calendar timestamp into
/// milliseconds since the epoch. The result depends on the characters alone.
#[verifier::external_body]
pub(crate) fn parse_rfc3339_millis(s: &str) -> (r: Option<i64>)
    ensures
        r == rfc3339_millis(s@),
{
    chrono::DateTime::parse_from_rfc3339(s).map(|dt| dt.timestamp_millis()).ok()
}

/// The milliseconds a raw timestamp field names: textual timestamps are
/// calendar-parsed, integer fields pass through unchanged, any other shape
/// names none.
pub open spec fn ts_millis_spec(t: TsField) -> Option<i64> {
    match t {
        TsField::Num(n) => Some(n),
        TsField::Text(s) => rfc3339_millis(s@),
        TsField::Other => None,
    }
}

/// Reads the milliseconds named by a raw timestamp field.
pub fn parse_timestamp(t: &TsField) -> (r: Option<i64>)
    ensures
        r == ts_millis_spec(*t),
{
    match t {
        TsField::Num(n) => Some(*n),
        TsField::Text(s) => parse_rfc3339_millis(s.as_str()),
        TsField::Other => None,
    }
}

/// Floor division by one thousand (whole seconds of a millisecond count).
fn floor_div_1000(m: i64) -> (r: i64)
    ensures
        r as int == (m as int) / 1000,
{
    if m >= 0 {
        let q = (m as u64) / 1000;
        proof {
            lemma_fundamental_div_mod_converse_div(
                m as int,
                1000,
                (m as u64 / 1000) as int,
                (m as u64 % 1000) as int,
            );
        }
        q as i64
    } else {
        let n: u64 = if m == -0x8000_0000_0000_0000i64 {
            0x8000_0000_0000_0000u64
        } else {
            (-m) as u64
        };
        let q = (n - 1) / 1000 + 1;
        proof {
            let nn = n as int;
            let a = (n - 1) as int / 1000;
            let b = (n - 1) as int % 1000;
            assert(nn - 1 == a * 1000 + b);
            assert(-nn == (-(a + 1)) * 1000 + (999 - b)) by (nonlinear_arith)
                requires
                    nn - 1 == a * 1000 + b,
            {
            }
            lemma_fundamental_div_mod_converse_div(-nn, 1000, -(a + 1), 999 - b);
        }
        -(q as i64)
    }
}

/// The ordering value used to pick the newest assistant record: textual
/// timestamps count in whole seconds, integer fields as given, and anything
/// unparseable as zero.
pub open spec fn ts_order_spec(t: TsField) -> int {
    match t {
        TsField::Num(n) => n as int,
        TsField::Text(s) => match rfc3339_millis(s@) {
            Some(m) => (m as int) / 1000,
            None => 0,
        },
        TsField::Other => 0,
    }
}

/// Reads the ordering value of a raw timestamp field.
fn ts_order(t: &TsField) -> (r: i64)
    ensures
        r as int == ts_order_spec(*t),
{
    match t {
        TsField::Num(n) => *n,
        TsField::Text(s) => match parse_rfc3339_millis(s.as_str()) {
            Some(m) => floor_div_1000(m),
            None => 0,
        },
        TsField::Other => 0,
    }
}

/// Whether a line is a candidate for the context-usage selection: non-blank,
/// a well-formed record bearing a timestamp field, an assistant role, and a
/// usage block.
pub open spec fn pct_candidate(l: Seq<char>) -> bool {
    &&& !is_blank(l)
    &&& match line_head(l) {
        Some(h) => {
            &&& h.ts is Some
            &&& match h.role {
                Some(r) => r@ == "assistant"@,
                None => false,
            }
            &&& line_usage(l) is Some
        },
        None => false,
    }
}

/// The ordering value of a candidate line's timestamp field.
pub open spec fn cand_order(l: Seq<char>) -> int {
    match line_head(l) {
        Some(h) => match h.ts {
            Some(t) => ts_order_spec(t),
            None => 0,
        },
        None => 0,
    }
}

/// The usage block of the candidate with the numerically latest timestamp,
/// scanning in order and keeping the first-seen on ties; candidates whose
/// ordering value is not positive are never selected.
pub open spec fn scan_latest(lines: Seq<Seq<char>>) -> (int, Option<UsageData>)
    decreases lines.len(),
{
    if lines.len() == 0 {
        (0, None::<UsageData>)
    } else {
        let prev = scan_latest(lines.drop_last());
        let l = lines.last();
        if pct_candidate(l) && cand_order(l) > prev.0 {
            (cand_order(l), line_usage(l))
        } else {
            prev
        }
    }
}

/// The trailing window of at most `n` lines.
pub open spec fn tail_window(lines: Seq<Seq<char>>, n: int) -> Seq<Seq<char>> {
    if lines.len() > n {
        lines.skip(lines.len() - n)
    } else {
        lines
    }
}

/// The value of an optional token count, zero when absent.
pub open spec fn ot(o: Option<u64>) -> int {
    match o {
        Some(v) => v as int,
        None => 0,
    }
}

/// The total tokens of a usage block: input, output, cache-read and
/// cache-creation together.
pub open spec fn used_tokens(u: UsageData) -> int {
    ot(u.input_tokens) + ot(u.output_tokens) + ot(u.cache_read_input_tokens) + ot(
        u.cache_creation_input_tokens,
    )
}

/// `a / b` rounded half up, for positive `b`.
pub open spec fn round_div(a: int, b: int) -> int {
    (2 * a + b) / (2 * b)
}

/// The usage percentage in tenths of a percent, rounded half up and clamped
/// at one hundred percent.
pub open spec fn pct_tenths(used: int, cap: int) -> int {
    min(1000, round_div(used * 1000, cap))
}

/// The usage percentage rounded half up to a whole percent and clamped at
/// one hundred.
pub open spec fn pct_whole(used: int, cap: int) -> int {
    min(100, round_div(used * 100, cap))
}

/// Whether usage has reached the ninety percent boundary (inclusive).
pub open spec fn pct_high(used: int, cap: int) -> bool {
    used * 10 >= 9 * cap
}

/// The percentage is monotonically non-decreasing in the total token count
/// and clamped at one hundred percent, in tenths as in whole percents.
pub proof fn lemma_pct_monotone(used1: int, used2: int, cap: int)
    requires
        0 <= used1 <= used2,
        cap >= 1,
    ensures
        pct_tenths(used1, cap) <= pct_tenths(used2, cap),
        pct_whole(used1, cap) <= pct_whole(used2, cap),
        0 <= pct_tenths(used1, cap) <= 1000,
        0 <= pct_whole(used1, cap) <= 100,
        0 <= pct_tenths(used2, cap) <= 1000,
        0 <= pct_whole(used2, cap) <= 100,
{
    vstd::arithmetic::mul::lemma_mul_inequality(used1, used2, 1000);
    vstd::arithmetic::mul::lemma_mul_inequality(used1, used2, 100);
    vstd::arithmetic::mul::lemma_mul_nonnegative(used1, 1000);
    vstd::arithmetic::mul::lemma_mul_nonnegative(used1, 100);
    vstd::arithmetic::mul::lemma_mul_nonnegative(used2, 1000);
    vstd::arithmetic::mul::lemma_mul_nonnegative(used2, 100);
    vstd::arithmetic::div_mod::lemma_div_is_ordered(
        2 * (used1 * 1000) + cap,
        2 * (used2 * 1000) + cap,
        2 * cap,
    );
    vstd::arithmetic::div_mod::lemma_div_is_ordered(
        2 * (used1 * 100) + cap,
        2 * (used2 * 100) + cap,
        2 * cap,
    );
    vstd::arithmetic::div_mod::lemma_div_pos_is_pos(2 * (used1 * 1000) + cap, 2 * cap);
    vstd::arithmetic::div_mod::lemma_div_pos_is_pos(2 * (used1 * 100) + cap, 2 * cap);
    vstd::arithmetic::div_mod::lemma_div_pos_is_pos(2 * (used2 * 1000) + cap, 2 * cap);
    vstd::arithmetic::div_mod::lemma_div_pos_is_pos(2 * (used2 * 100) + cap, 2 * cap);
}

/// The rendered percentage carries a decimal place exactly when usage has
/// reached the ninety percent boundary; the boundary is inclusive.
pub proof fn lemma_pct_decimal_boundary(used: int, cap: int)
    requires
        0 <= used,
        cap >= 1,
    ensures
        pct_chars(used, cap).contains('.') <==> pct_high(used, cap),
{
    if pct_high(used, cap) {
        let t = pct_tenths(used, cap);
        let chars = pct_chars(used, cap);
        assert(chars[dec_chars(t / 10).len() as int] == '.');
        assert(chars.contains('.'));
    } else {
        let w = pct_whole(used, cap);
        assert(w >= 0) by {
            lemma_pct_monotone(used, used, cap);
        }
        crate::numfmt::lemma_dec_chars_digits(w);
        assert(digit_val('.') == -1);
        assert(forall|i: int|
            0 <= i < pct_chars(used, cap).len() ==> #[trigger] pct_chars(used, cap)[i] != '.');
    }
}

/// The rendered percentage: one decimal place at or above ninety percent, a
/// whole number below it, and `0` for a capacity of zero.
pub open spec fn pct_chars(used: int, cap: int) -> Seq<char> {
    if cap <= 0 {
        seq!['0']
    } else if pct_high(used, cap) {
        let t = pct_tenths(used, cap);
        dec_chars(t / 10) + seq!['.', digit_char(t % 10)]
    } else {
        dec_chars(pct_whole(used, cap))
    }
}

/// The context-usage percentage derived from a transcript: the usage block
/// of the newest assistant record in the trailing window of `window` lines,
/// rendered against the context capacity; `0` when no candidate exists.
pub open spec fn context_pct_spec(lines: Seq<Seq<char>>, window: int, cap: int) -> Seq<char> {
    match scan_latest(tail_window(lines, window)).1 {
        Some(u) => pct_chars(used_tokens(u), cap),
        None => seq!['0'],
    }
}

/// The value of an optional token count, executably.
fn opt_or0(o: Option<u64>) -> (r: u64)
    ensures
        r as int == ot(o),
{
    match o {
        Some(v) => v,
        None => 0,
    }
}

/// Whether this line is a context-usage candidate, and its usage block and
/// ordering value when it is.
fn read_candidate(line: &String) -> (r: Option<(i64, UsageData)>)
    ensures
        match r {
            Some((o, u)) => pct_candidate(line@) && o as int == cand_order(line@) && Some(u)
                == line_usage(line@),
            None => !pct_candidate(line@),
        },
{
    if blank(line.as_str()) {
        return None;
    }
    let head = match parse_line_head(line.as_str()) {
        Some(h) => h,
        None => {
            return None;
        },
    };
    let ts = match head.ts {
        Some(t) => t,
        None => {
            return None;
        },
    };
    let role_ok = match &head.role {
        Some(r) => string_eq_str(r, "assistant"),
        None => false,
    };
    if !role_ok {
        return None;
    }
    let usage = match parse_line_usage(line.as_str()) {
        Some(u) => u,
        None => {
            return None;
        },
    };
    let o = ts_order(&ts);
    Some((o, usage))
}

/// Renders the percentage of `used` tokens against a capacity of `cap`.
pub fn render_pct(used: u128, cap: u64) -> (r: String)
    requires
        used < 0x40000000000000000,
    ensures
        r@ == pct_chars(used as int, cap as int),
{
    if cap == 0 {
        proof {
            reveal_strlit("0");
            assert("0"@ =~= seq!['0']);
        }
        return crate::strutil::to_owned_string("0");
    }
    let capw = cap as u128;
    if used * 10 >= 9 * capw {
        let t128 = (2 * (used * 1000) + capw) / (2 * capw);
        let t: u128 = if t128 > 1000 {
            1000
        } else {
            t128
        };
        let mut out = crate::strutil::new_string();
        crate::numfmt::push_dec_u128(&mut out, t / 10);
        crate::strutil::push_char(&mut out, '.');
        crate::numfmt::push_digit_char(&mut out, (t % 10) as u64);
        proof {
            assert(out@ =~= pct_chars(used as int, cap as int));
        }
        out
    } else {
        let w128 = (2 * (used * 100) + capw) / (2 * capw);
        let w: u128 = if w128 > 100 {
            100
        } else {
            w128
        };
        let mut out = crate::strutil::new_string();
        crate::numfmt::push_dec_u128(&mut out, w);
        proof {
            assert(out@ =~= pct_chars(used as int, cap as int));
        }
        out
    }
}

/// The total tokens of the newest assistant usage block in the trailing
/// window of `window` lines, absent when no candidate record exists. A sum
/// of four token counts always stays below `2^66`.
pub fn get_context_usage(lines: &Vec<String>, window: usize) -> (r: Option<u128>)
    ensures
        match (r, scan_latest(tail_window(lines.deep_view(), window as int)).1) {
            (Some(v), Some(u)) => v as int == used_tokens(u) && v < 0x40000000000000000,
            (None, None) => true,
            _ => false,
        },
{
    let ghost deep = lines.deep_view();
    let ghost win = tail_window(deep, window as int);
    let len = lines.len();
    let start: usize = if len > window {
        len - window
    } else {
        0
    };
    proof {
        assert(deep.len() == lines@.len());
        if len > window {
            assert(win =~= deep.skip(len - window));
        } else {
            assert(win =~= deep);
            assert(win =~= deep.skip(0));
        }
    }
    let mut latest: i64 = 0;
    let mut usage: Option<UsageData> = None;
    let mut i: usize = start;
    proof {
        assert(win.take(0) =~= Seq::<Seq<char>>::empty());
    }
    while i < len
        invariant
            start <= i <= len,
            len == lines@.len(),
            deep == lines.deep_view(),
            win == tail_window(deep, window as int),
            win =~= deep.skip(start as int),
            latest as int == scan_latest(win.take(i - start)).0,
            usage == scan_latest(win.take(i - start)).1,
        decreases len - i,
    {
        proof {
            assert(win.take(i - start + 1).drop_last() =~= win.take(i - start));
            assert(win.take(i - start + 1).last() == deep[i as int]);
            assert(deep[i as int] == lines@[i as int]@);
        }
        match read_candidate(&lines[i]) {
            Some((o, u)) => {
                if o > latest {
                    latest = o;
                    usage = Some(u);
                }
            },
            None => {},
        }
        i += 1;
    }
    proof {
        assert(win.take(len - start) =~= win);
    }
    match usage {
        Some(u) => {
            let a = opt_or0(u.input_tokens) as u128;
            let b = opt_or0(u.output_tokens) as u128;
            let c = opt_or0(u.cache_read_input_tokens) as u128;
            let d = opt_or0(u.cache_creation_input_tokens) as u128;
            Some(a + b + c + d)
        },
        None => None,
    }
}

/// Derives the context-usage percentage from the transcript's lines: only
/// the trailing `window` lines are scanned, against the given context
/// capacity in tokens.
pub fn get_context_pct(lines: &Vec<String>, window: usize, capacity: u64) -> (r: String)
    ensures
        r@ == context_pct_spec(lines.deep_view(), window as int, capacity as int),
{
    match get_context_usage(lines, window) {
        Some(used) => render_pct(used, capacity),
        None => {
            proof {
                reveal_strlit("0");
                assert("0"@ =~= seq!['0']);
            }
            crate::strutil::to_owned_string("0")
        },
    }
}

/// The non-blank lines of a transcript.
pub open spec fn nonblank(lines: Seq<Seq<char>>) -> Seq<Seq<char>> {
    lines.filter(|l: Seq<char>| !is_blank(l))
}

/// Keeps the non-blank lines, in order.
fn filter_nonblank(lines: &Vec<String>) -> (r: Vec<String>)
    ensures
        r.deep_view() == nonblank(lines.deep_view()),
{
    let ghost deep = lines.deep_view();
    let mut out: Vec<String> = Vec::new();
    let mut i: usize = 0;
    proof {
        reveal(Seq::filter);
        assert(out.deep_view() =~= nonblank(deep.take(0)));
    }
    while i < lines.len()
        invariant
            i <= lines@.len(),
            deep == lines.deep_view(),
            out.deep_view() =~= nonblank(deep.take(i as int)),
        decreases lines@.len() - i,
    {
        proof {
            reveal(Seq::filter);
            assert(deep.take(i + 1).drop_last() =~= deep.take(i as int));
            assert(deep.take(i + 1).last() == deep[i as int]);
            assert(deep[i as int] == lines@[i as int]@);
        }
        if !blank(lines[i].as_str()) {
            let ghost before = out.deep_view();
            out.push(lines[i].clone());
            proof {
                assert(out.deep_view() =~= before.push(lines@[i as int]@));
            }
        }
        i += 1;
    }
    proof {
        assert(deep.take(lines@.len() as int) =~= deep);
    }
    out
}

/// Whether a line is a well-formed record bearing a timestamp field.
pub open spec fn line_has_ts(l: Seq<char>) -> bool {
    match line_head(l) {
        Some(h) => h.ts is Some,
        None => false,
    }
}

/// The milliseconds named by a line's timestamp field.
pub open spec fn line_ts_millis(l: Seq<char>) -> Option<i64> {
    match line_head(l) {
        Some(h) => match h.ts {
            Some(t) => ts_millis_spec(t),
            None => None,
        },
        None => None,
    }
}

/// The index of the first line bearing a timestamp field, `-1` when none
/// does.
pub open spec fn first_ts_index(lines: Seq<Seq<char>>) -> int
    decreases lines.len(),
{
    if lines.len() == 0 {
        -1
    } else if line_has_ts(lines[0]) {
        0
    } else {
        let r = first_ts_index(lines.drop_first());
        if r == -1 {
            -1
        } else {
            r + 1
        }
    }
}

/// The index of the last line bearing a timestamp field, `-1` when none
/// does.
pub open spec fn last_ts_index(lines: Seq<Seq<char>>) -> int
    decreases lines.len(),
{
    if lines.len() == 0 {
        -1
    } else if line_has_ts(lines.last()) {
        lines.len() - 1
    } else {
        last_ts_index(lines.drop_last())
    }
}

/// What the first-index scan means, position by position.
proof fn lemma_first_ts_index(lines: Seq<Seq<char>>)
    ensures
        first_ts_index(lines) == -1 ==> forall|k: int|
            0 <= k < lines.len() ==> !line_has_ts(#[trigger] lines[k]),
        first_ts_index(lines) != -1 ==> {
            &&& 0 <= first_ts_index(lines) < lines.len()
            &&& line_has_ts(lines[first_ts_index(lines)])
            &&& forall|k: int| 0 <= k < first_ts_index(lines) ==> !line_has_ts(#[trigger] lines[k])
        },
    decreases lines.len(),
{
    if lines.len() > 0 && !line_has_ts(lines[0]) {
        lemma_first_ts_index(lines.drop_first());
        if first_ts_index(lines) == -1 {
            assert forall|k: int| 0 <= k < lines.len() implies !line_has_ts(
                #[trigger] lines[k],
            ) by {
                if k > 0 {
                    assert(lines.drop_first()[k - 1] == lines[k]);
                }
            }
        } else {
            let fi = first_ts_index(lines);
            assert(lines.drop_first()[fi - 1] == lines[fi]);
            assert forall|k: int| 0 <= k < fi implies !line_has_ts(#[trigger] lines[k]) by {
                if k > 0 {
                    assert(lines.drop_first()[k - 1] == lines[k]);
                }
            }
        }
    }
}

/// What the last-index scan means, position by position.
proof fn lemma_last_ts_index(lines: Seq<Seq<char>>)
    ensures
        last_ts_index(lines) == -1 ==> forall|k: int|
            0 <= k < lines.len() ==> !line_has_ts(#[trigger] lines[k]),
        last_ts_index(lines) != -1 ==> {
            &&& 0 <= last_ts_index(lines) < lines.len()
            &&& line_has_ts(lines[last_ts_index(lines)])
            &&& forall|k: int|
                last_ts_index(lines) < k < lines.len() ==> !line_has_ts(#[trigger] lines[k])
        },
    decreases lines.len(),
{
    if lines.len() > 0 && !line_has_ts(lines.last()) {
        lemma_last_ts_index(lines.drop_last());
        if last_ts_index(lines) == -1 {
            assert forall|k: int| 0 <= k < lines.len() implies !line_has_ts(
                #[trigger] lines[k],
            ) by {
                if k < lines.len() - 1 {
                    assert(lines.drop_last()[k] == lines[k]);
                } else {
                    assert(lines[k] == lines.last());
                }
            }
        } else {
            let li = last_ts_index(lines);
            assert(lines.drop_last()[li] == lines[li]);
            assert forall|k: int| li < k < lines.len() implies !line_has_ts(
                #[trigger] lines[k],
            ) by {
                if k < lines.len() - 1 {
                    assert(lines.drop_last()[k] == lines[k]);
                } else {
                    assert(lines[k] == lines.last());
                }
            }
        }
    }
}

/// How many of the lines parse as records at all.
pub open spec fn parseable_count(lines: Seq<Seq<char>>) -> int
    decreases lines.len(),
{
    if lines.len() == 0 {
        0
    } else {
        parseable_count(lines.drop_last()) + if line_head(lines.last()) is Some {
            1int
        } else {
            0int
        }
    }
}

/// The session length in milliseconds: the last timestamp minus the first,
/// over the non-blank lines; absent when fewer than two non-blank lines
/// exist, when fewer than two of them parse as records, when no line bears
/// a timestamp field, or when a selected timestamp does not parse.
pub open spec fn duration_ms_spec(lines: Seq<Seq<char>>) -> Option<int> {
    let nb = nonblank(lines);
    if nb.len() < 2 {
        None
    } else if parseable_count(nb) < 2 {
        None
    } else {
        let fi = first_ts_index(nb);
        if fi == -1 {
            None
        } else {
            match line_ts_millis(nb[fi]) {
                None => None,
                Some(f) => match line_ts_millis(nb[last_ts_index(nb)]) {
                    None => None,
                    Some(l) => Some(l - f),
                },
            }
        }
    }
}

/// A millisecond count rendered as hours and minutes: `<H>h<M>m` from one
/// hour up, `<M>m` from one minute up, and `<1m` below that (negative counts
/// included).
pub open spec fn duration_chars(d: int) -> Seq<char> {
    if d >= 3600000 {
        dec_chars(d / 3600000) + seq!['h'] + dec_chars((d % 3600000) / 60000) + seq!['m']
    } else if d >= 60000 {
        dec_chars(d / 60000) + seq!['m']
    } else {
        seq!['<', '1', 'm']
    }
}

/// The rendered session duration, absent exactly when no length can be
/// derived.
pub open spec fn session_duration_spec(lines: Seq<Seq<char>>) -> Option<Seq<char>> {
    match duration_ms_spec(lines) {
        Some(d) => Some(duration_chars(d)),
        None => None,
    }
}

/// A transcript with fewer than two non-blank lines, or fewer than two
/// non-blank parseable records, never yields a duration.
pub proof fn lemma_duration_needs_two(lines: Seq<Seq<char>>)
    requires
        nonblank(lines).len() < 2 || parseable_count(nonblank(lines)) < 2,
    ensures
        session_duration_spec(lines) is None,
{
}

/// Renders a millisecond count as hours and minutes.
fn render_duration(d: i128) -> (r: String)
    ensures
        r@ == duration_chars(d as int),
{
    if d >= 3600000 {
        let du = d as u128;
        let h = du / 3600000;
        let m = (du % 3600000) / 60000;
        let mut out = crate::strutil::new_string();
        crate::numfmt::push_dec_u128(&mut out, h);
        crate::strutil::push_char(&mut out, 'h');
        crate::numfmt::push_dec_u128(&mut out, m);
        crate::strutil::push_char(&mut out, 'm');
        proof {
            assert(out@ =~= duration_chars(d as int));
        }
        out
    } else if d >= 60000 {
        let du = d as u128;
        let m = du / 60000;
        let mut out = crate::strutil::new_string();
        crate::numfmt::push_dec_u128(&mut out, m);
        crate::strutil::push_char(&mut out, 'm');
        proof {
            assert(out@ =~= duration_chars(d as int));
        }
        out
    } else {
        proof {
            reveal_strlit("<1m");
            assert("<1m"@ =~= seq!['<', '1', 'm']);
        }
        crate::strutil::to_owned_string("<1m")
    }
}

/// Whether this line is a record bearing a timestamp field, executably.
fn line_has_ts_exec(l: &String) -> (r: bool)
    ensures
        r == line_has_ts(l@),
{
    match parse_line_head(l.as_str()) {
        Some(h) => h.ts.is_some(),
        None => false,
    }
}

/// The milliseconds named by this line's timestamp field, executably.
fn line_ts_millis_exec(l: &String) -> (r: Option<i64>)
    ensures
        r == line_ts_millis(l@),
{
    match parse_line_head(l.as_str()) {
        Some(h) => match h.ts {
            Some(t) => parse_timestamp(&t),
            None => None,
        },
        None => None,
    }
}

/// The index of the first line bearing a timestamp field, executably.
fn find_first_ts(nb: &Vec<String>) -> (r: Option<usize>)
    ensures
        match r {
            Some(j) => j as int == first_ts_index(nb.deep_view()),
            None => first_ts_index(nb.deep_view()) == -1,
        },
{
    let ghost nbd = nb.deep_view();
    let mut j: usize = 0;
    while j < nb.len()
        invariant
            j <= nb@.len(),
            nbd == nb.deep_view(),
            forall|k: int| 0 <= k < j ==> !line_has_ts(#[trigger] nbd[k]),
        decreases nb@.len() - j,
    {
        proof {
            assert(nbd[j as int] == nb@[j as int]@);
        }
        if line_has_ts_exec(&nb[j]) {
            proof {
                lemma_first_ts_index(nbd);
                assert(first_ts_index(nbd) == j as int) by {
                    if first_ts_index(nbd) == -1 {
                        assert(!line_has_ts(nbd[j as int]));
                    }
                }
            }
            return Some(j);
        }
        j += 1;
    }
    proof {
        lemma_first_ts_index(nbd);
        assert(first_ts_index(nbd) == -1) by {
            if first_ts_index(nbd) != -1 {
                assert(!line_has_ts(nbd[first_ts_index(nbd)]));
            }
        }
    }
    None
}

/// The index of the last line bearing a timestamp field, executably.
fn find_last_ts(nb: &Vec<String>) -> (r: Option<usize>)
    ensures
        match r {
            Some(j) => j as int == last_ts_index(nb.deep_view()),
            None => last_ts_index(nb.deep_view()) == -1,
        },
{
    let ghost nbd = nb.deep_view();
    let n = nb.len();
    let mut k = n;
    while k > 0
        invariant
            k <= n,
            n == nb@.len(),
            nbd == nb.deep_view(),
            forall|q: int| k <= q < n ==> !line_has_ts(#[trigger] nbd[q]),
        decreases k,
    {
        proof {
            assert(nbd[k - 1] == nb@[k - 1]@);
        }
        if line_has_ts_exec(&nb[k - 1]) {
            proof {
                lemma_last_ts_index(nbd);
                assert(last_ts_index(nbd) == k - 1) by {
                    if last_ts_index(nbd) == -1 {
                        assert(!line_has_ts(nbd[k - 1]));
                    }
                }
            }
            return Some(k - 1);
        }
        k -= 1;
    }
    proof {
        lemma_last_ts_index(nbd);
        assert(last_ts_index(nbd) == -1) by {
            if last_ts_index(nbd) != -1 {
                assert(!line_has_ts(nbd[last_ts_index(nbd)]));
            }
        }
    }
    None
}

/// Derives the rendered session duration from the transcript's lines: the
/// span between the first and last parseable timestamps, absent when the
/// transcript has fewer than two non-blank lines or no usable timestamps.
pub fn get_session_duration(lines: &Vec<String>) -> (r: Option<String>)
    ensures
        match (r, session_duration_spec(lines.deep_view())) {
            (Some(s), Some(t)) => s@ == t,
            (None, None) => true,
            _ => false,
        },
{
    let nb = filter_nonblank(lines);
    let ghost nbd = nb.deep_view();
    let n = nb.len();
    if n < 2 {
        return None;
    }
    let mut records: usize = 0;
    let mut i: usize = 0;
    proof {
        assert(nbd.take(0) =~= Seq::<Seq<char>>::empty());
    }
    while i < n
        invariant
            i <= n,
            n == nb@.len(),
            nbd == nb.deep_view(),
            records <= i,
            records as int == parseable_count(nbd.take(i as int)),
        decreases n - i,
    {
        proof {
            assert(nbd.take(i + 1).drop_last() =~= nbd.take(i as int));
            assert(nbd.take(i + 1).last() == nbd[i as int]);
            assert(nbd[i as int] == nb@[i as int]@);
        }
        if parse_line_head(nb[i].as_str()).is_some() {
            records += 1;
        }
        i += 1;
    }
    proof {
        assert(nbd.take(n as int) =~= nbd);
    }
    if records < 2 {
        return None;
    }
    let fi = match find_first_ts(&nb) {
        Some(j) => j,
        None => {
            return None;
        },
    };
    proof {
        lemma_first_ts_index(nbd);
    }
    let first_ms = match line_ts_millis_exec(&nb[fi]) {
        Some(m) => m,
        None => {
            return None;
        },
    };
    let li = match find_last_ts(&nb) {
        Some(j) => j,
        None => {
            proof {
                lemma_last_ts_index(nbd);
                assert(!line_has_ts(nbd[fi as int]));
            }
            return None;
        },
    };
    proof {
        lemma_last_ts_index(nbd);
        assert(nbd[li as int] == nb@[li as int]@);
        assert(nbd[fi as int] == nb@[fi as int]@);
    }
    let last_ms = match line_ts_millis_exec(&nb[li]) {
        Some(m) => m,
        None => {
            return None;
        },
    };
    let d: i128 = last_ms as i128 - first_ms as i128;
    Some(render_duration(d))
}

/// Whether a trimmed message text is substantial enough to summarize: not
/// empty, not a command or caveat marker, no placeholder content, and more
/// than twenty bytes long.
pub open spec fn acceptable_message(t: Seq<char>) -> bool {
    &&& t.len() > 0
    &&& t[0] != '/'
    &&& !crate::strutil::starts_with_seq(t, "Caveat:"@)
    &&& !crate::strutil::starts_with_seq(t, "<command-"@)
    &&& !crate::strutil::starts_with_seq(t, "<local-command-"@)
    &&& !crate::strutil::contains_seq(t, "(no content)"@)
    &&& !crate::strutil::contains_seq(t, "DO NOT respond to these messages"@)
    &&& vstd::utf8::encode_utf8(t).len() > 20
}

/// The trimmed message text this line offers as a session summary source:
/// present only for a non-blank user record whose content passes the
/// acceptability filter.
pub open spec fn candidate_message(l: Seq<char>) -> Option<Seq<char>> {
    if is_blank(l) {
        None
    } else {
        match line_head(l) {
            None => None,
            Some(h) => match h.role {
                Some(r) => if r@ == "user"@ {
                    match line_content(l) {
                        Some(c) => {
                            let t = crate::strutil::trim_spec(c@);
                            if acceptable_message(t) {
                                Some(t)
                            } else {
                                None
                            }
                        },
                        None => None,
                    }
                } else {
                    None
                },
                None => None,
            },
        }
    }
}

/// The first candidate message of the transcript, scanning from the start.
pub open spec fn first_user_message_spec(lines: Seq<Seq<char>>) -> Option<Seq<char>>
    decreases lines.len(),
{
    if lines.len() == 0 {
        None
    } else {
        match candidate_message(lines[0]) {
            Some(t) => Some(t),
            None => first_user_message_spec(lines.drop_first()),
        }
    }
}

/// The candidate message of one line, executably.
fn read_candidate_message(line: &String) -> (r: Option<String>)
    ensures
        match (r, candidate_message(line@)) {
            (Some(s), Some(t)) => s@ == t,
            (None, None) => true,
            _ => false,
        },
{
    if blank(line.as_str()) {
        return None;
    }
    let head = match parse_line_head(line.as_str()) {
        Some(h) => h,
        None => {
            return None;
        },
    };
    let role_ok = match &head.role {
        Some(r) => string_eq_str(r, "user"),
        None => false,
    };
    if !role_ok {
        return None;
    }
    let content = match parse_line_content(line.as_str()) {
        Some(c) => c,
        None => {
            return None;
        },
    };
    let t = crate::strutil::trim(content.as_str());
    let ok = t.as_str().unicode_len() > 0 && t.as_str().get_char(0) != '/' && !crate::strutil::starts_with(
        t.as_str(),
        "Caveat:",
    ) && !crate::strutil::starts_with(t.as_str(), "<command-") && !crate::strutil::starts_with(
        t.as_str(),
        "<local-command-",
    ) && !crate::strutil::contains(t.as_str(), "(no content)") && !crate::strutil::contains(
        t.as_str(),
        "DO NOT respond to these messages",
    ) && t.as_str().as_bytes().len() > 20;
    if ok {
        Some(t)
    } else {
        None
    }
}

/// The first substantial user message of the transcript, trimmed: the text
/// a session summary would be generated from.
pub fn get_first_user_message(lines: &Vec<String>) -> (r: Option<String>)
    ensures
        match (r, first_user_message_spec(lines.deep_view())) {
            (Some(s), Some(t)) => s@ == t,
            (None, None) => true,
            _ => false,
        },
{
    let ghost deep = lines.deep_view();
    let mut i: usize = 0;
    proof {
        assert(deep.skip(0) =~= deep);
    }
    while i < lines.len()
        invariant
            i <= lines@.len(),
            deep == lines.deep_view(),
            first_user_message_spec(deep) == first_user_message_spec(deep.skip(i as int)),
        decreases lines@.len() - i,
    {
        proof {
            assert(deep.skip(i as int)[0] == deep[i as int]);
            assert(deep.skip(i as int).drop_first() =~= deep.skip(i + 1));
            assert(deep[i as int] == lines@[i as int]@);
        }
        match read_candidate_message(&lines[i]) {
            Some(t) => {
                return Some(t);
            },
            None => {},
        }
        i += 1;
    }
    proof {
        assert(deep.skip(lines@.len() as int) =~= Seq::<Seq<char>>::empty());
    }
    None
}

/// A cached summary read back from its slot: absent when the stored text is
/// blank, the trimmed text otherwise.
pub fn summary_from_cache(content: &str) -> (r: Option<String>)
    ensures
        match (r, crate::strutil::trim_spec(content@).len() == 0) {
            (None, true) => true,
            (Some(s), false) => s@ == crate::strutil::trim_spec(content@),
            _ => false,
        },
{
    let t = crate::strutil::trim(content);
    if t.as_str().unicode_len() == 0 {
        None
    } else {
        Some(t)
    }
}

/// A message escaped for interpolation into a quoted shell word: backslash,
/// double quote, dollar and backtick are backslash-escaped, the text is cut
/// to five hundred characters, and single quotes are closed off.
pub open spec fn shell_escaped_spec(m: Seq<char>) -> Seq<char> {
    let a = crate::strutil::replace_all_spec(m, "\\"@, "\\\\"@);
    let b = crate::strutil::replace_all_spec(a, "\""@, "\\\""@);
    let c = crate::strutil::replace_all_spec(b, "$"@, "\\$"@);
    let d = crate::strutil::replace_all_spec(c, "`"@, "\\`"@);
    let cut = if d.len() > 500 {
        d.take(500)
    } else {
        d
    };
    crate::strutil::replace_all_spec(cut, "'"@, "'\\''"@)
}

/// Escapes a message for interpolation into a quoted shell word.
pub fn shell_escape_message(m: &str) -> (r: String)
    ensures
        r@ == shell_escaped_spec(m@),
{
    let a = crate::strutil::replace_all(m, "\\", "\\\\");
    let b = crate::strutil::replace_all(a.as_str(), "\"", "\\\"");
    let c = crate::strutil::replace_all(b.as_str(), "$", "\\$");
    let d = crate::strutil::replace_all(c.as_str(), "`", "\\`");
    let dlen = d.as_str().unicode_len();
    let cut = if dlen > 500 {
        let piece = d.as_str().substring_char(0, 500);
        proof {
            assert(piece@ =~= d@.take(500));
        }
        crate::strutil::to_owned_string(piece)
    } else {
        d
    };
    crate::strutil::replace_all(cut.as_str(), "'", "'\\''")
}

/// Whether a record head names an assistant record: by its nested role when
/// one exists, else by its top-level type.
pub open spec fn is_assistant_head(h: RecordHead) -> bool {
    match h.role {
        Some(r) => r@ == "assistant"@,
        None => match h.ty {
            Some(t) => t@ == "assistant"@,
            None => false,
        },
    }
}

/// The cost of one usage block in nanodollars: tokens times the per-token
/// rates, charging cache traffic only when the model defines cache rates.
pub open spec fn usage_cost(u: UsageData, p: ModelPricing) -> int {
    ot(u.input_tokens) * p.input_nanos + ot(u.output_tokens) * p.output_nanos + (
    match p.cache_creation_nanos {
        Some(rate) => ot(u.cache_creation_input_tokens) * rate,
        None => 0,
    }) + (match p.cache_read_nanos {
        Some(rate) => ot(u.cache_read_input_tokens) * rate,
        None => 0,
    })
}

/// The cost one transcript line contributes: the cost of its usage block
/// when it is a non-blank assistant record with one, zero otherwise.
pub open spec fn line_cost(l: Seq<char>, p: ModelPricing) -> int {
    if is_blank(l) {
        0
    } else {
        match line_head(l) {
            None => 0,
            Some(h) => if is_assistant_head(h) {
                match line_usage(l) {
                    Some(u) => usage_cost(u, p),
                    None => 0,
                }
            } else {
                0
            },
        }
    }
}

/// The total cost of a transcript in nanodollars, summed over every line.
pub open spec fn total_cost(lines: Seq<Seq<char>>, p: ModelPricing) -> int
    decreases lines.len(),
{
    if lines.len() == 0 {
        0
    } else {
        total_cost(lines.drop_last(), p) + line_cost(lines.last(), p)
    }
}

/// A usage block never costs a negative amount.
pub proof fn lemma_usage_cost_nonneg(u: UsageData, p: ModelPricing)
    ensures
        usage_cost(u, p) >= 0,
{
    assert(ot(u.input_tokens) * p.input_nanos >= 0) by (nonlinear_arith)
        requires
            ot(u.input_tokens) >= 0,
            p.input_nanos >= 0,
    {
    }
    assert(ot(u.output_tokens) * p.output_nanos >= 0) by (nonlinear_arith)
        requires
            ot(u.output_tokens) >= 0,
            p.output_nanos >= 0,
    {
    }
    match p.cache_creation_nanos {
        Some(rate) => {
            assert(ot(u.cache_creation_input_tokens) * rate >= 0) by (nonlinear_arith)
                requires
                    ot(u.cache_creation_input_tokens) >= 0,
                    rate >= 0,
            {
            }
        },
        None => {},
    }
    match p.cache_read_nanos {
        Some(rate) => {
            assert(ot(u.cache_read_input_tokens) * rate >= 0) by (nonlinear_arith)
                requires
                    ot(u.cache_read_input_tokens) >= 0,
                    rate >= 0,
            {
            }
        },
        None => {},
    }
}

/// No line contributes a negative cost.
pub proof fn lemma_line_cost_nonneg(l: Seq<char>, p: ModelPricing)
    ensures
        line_cost(l, p) >= 0,
{
    if !is_blank(l) {
        match line_head(l) {
            Some(h) => {
                match line_usage(l) {
                    Some(u) => {
                        lemma_usage_cost_nonneg(u, p);
                    },
                    None => {},
                }
            },
            None => {},
        }
    }
}

/// A transcript never costs a negative amount.
pub proof fn lemma_total_cost_nonneg(lines: Seq<Seq<char>>, p: ModelPricing)
    ensures
        total_cost(lines, p) >= 0,
    decreases lines.len(),
{
    if lines.len() > 0 {
        lemma_total_cost_nonneg(lines.drop_last(), p);
        lemma_line_cost_nonneg(lines.last(), p);
    }
}

/// Cost aggregation is additive: the cost of two line sequences back to back
/// is the sum of their costs.
pub proof fn lemma_cost_concat(a: Seq<Seq<char>>, b: Seq<Seq<char>>, p: ModelPricing)
    ensures
        total_cost(a + b, p) == total_cost(a, p) + total_cost(b, p),
    decreases b.len(),
{
    if b.len() == 0 {
        assert(a + b =~= a);
    } else {
        lemma_cost_concat(a, b.drop_last(), p);
        assert((a + b).drop_last() =~= a + b.drop_last());
        assert((a + b).last() == b.last());
    }
}

/// Cost aggregation is order-independent: two disjoint line sequences cost
/// the same in either order.
pub proof fn lemma_cost_order_independent(a: Seq<Seq<char>>, b: Seq<Seq<char>>, p: ModelPricing)
    ensures
        total_cost(a + b, p) == total_cost(b + a, p),
{
    lemma_cost_concat(a, b, p);
    lemma_cost_concat(b, a, p);
}

/// One positively-charged line makes the whole transcript cost positive.
pub proof fn lemma_cost_positive(lines: Seq<Seq<char>>, p: ModelPricing, i: int)
    requires
        0 <= i < lines.len(),
        line_cost(lines[i], p) > 0,
    ensures
        total_cost(lines, p) > 0,
    decreases lines.len(),
{
    lemma_line_cost_nonneg(lines.last(), p);
    lemma_total_cost_nonneg(lines.drop_last(), p);
    if i < lines.len() - 1 {
        lemma_cost_positive(lines.drop_last(), p, i);
    }
}

/// Any positive token count on a field whose rate is positive makes the
/// usage block cost positive.
pub proof fn lemma_usage_cost_positive(u: UsageData, p: ModelPricing)
    requires
        ({
            ||| ot(u.input_tokens) > 0 && p.input_nanos > 0
            ||| ot(u.output_tokens) > 0 && p.output_nanos > 0
            ||| (p.cache_creation_nanos matches Some(rate) && rate > 0 && ot(
                u.cache_creation_input_tokens,
            ) > 0)
            ||| (p.cache_read_nanos matches Some(rate) && rate > 0 && ot(
                u.cache_read_input_tokens,
            ) > 0)
        }),
    ensures
        usage_cost(u, p) > 0,
{
    let t1 = ot(u.input_tokens) * p.input_nanos;
    let t2 = ot(u.output_tokens) * p.output_nanos;
    let t3 = match p.cache_creation_nanos {
        Some(rate) => ot(u.cache_creation_input_tokens) * rate,
        None => 0,
    };
    let t4 = match p.cache_read_nanos {
        Some(rate) => ot(u.cache_read_input_tokens) * rate,
        None => 0,
    };
    assert(t1 >= 0 && t2 >= 0 && t3 >= 0 && t4 >= 0) by {
        lemma_usage_cost_term_nonneg(u, p);
    }
    if ot(u.input_tokens) > 0 && p.input_nanos > 0 {
        assert(t1 > 0) by (nonlinear_arith)
            requires
                ot(u.input_tokens) > 0,
                p.input_nanos > 0,
                t1 == ot(u.input_tokens) * p.input_nanos,
        {
        }
    } else if ot(u.output_tokens) > 0 && p.output_nanos > 0 {
        assert(t2 > 0) by (nonlinear_arith)
            requires
                ot(u.output_tokens) > 0,
                p.output_nanos > 0,
                t2 == ot(u.output_tokens) * p.output_nanos,
        {
        }
    } else if p.cache_creation_nanos matches Some(rate) && rate > 0 && ot(
        u.cache_creation_input_tokens,
    ) > 0 {
        assert(t3 > 0) by (nonlinear_arith)
            requires
                p.cache_creation_nanos matches Some(rate) && rate > 0 && ot(
                    u.cache_creation_input_tokens,
                ) > 0,
                t3 == (match p.cache_creation_nanos {
                    Some(rate) => ot(u.cache_creation_input_tokens) * rate,
                    None => 0,
                }),
        {
        }
    } else {
        assert(t4 > 0) by (nonlinear_arith)
            requires
                p.cache_read_nanos matches Some(rate) && rate > 0 && ot(u.cache_read_input_tokens)
                    > 0,
                t4 == (match p.cache_read_nanos {
                    Some(rate) => ot(u.cache_read_input_tokens) * rate,
                    None => 0,
                }),
        {
        }
    }
}

/// Each term of a usage block's cost is non-negative.
proof fn lemma_usage_cost_term_nonneg(u: UsageData, p: ModelPricing)
    ensures
        ot(u.input_tokens) * p.input_nanos >= 0,
        ot(u.output_tokens) * p.output_nanos >= 0,
        (match p.cache_creation_nanos {
            Some(rate) => ot(u.cache_creation_input_tokens) * rate,
            None => 0,
        }) >= 0,
        (match p.cache_read_nanos {
            Some(rate) => ot(u.cache_read_input_tokens) * rate,
            None => 0,
        }) >= 0,
{
    vstd::arithmetic::mul::lemma_mul_nonnegative(ot(u.input_tokens), p.input_nanos as int);
    vstd::arithmetic::mul::lemma_mul_nonnegative(ot(u.output_tokens), p.output_nanos as int);
    match p.cache_creation_nanos {
        Some(rate) => {
            vstd::arithmetic::mul::lemma_mul_nonnegative(
                ot(u.cache_creation_input_tokens),
                rate as int,
            );
        },
        None => {},
    }
    match p.cache_read_nanos {
        Some(rate) => {
            vstd::arithmetic::mul::lemma_mul_nonnegative(
                ot(u.cache_read_input_tokens),
                rate as int,
            );
        },
        None => {},
    }
}

/// `x` clamped to the largest value a `u128` can hold.
pub open spec fn clamp_u128(x: int) -> int {
    if x > u128::MAX {
        u128::MAX as int
    } else {
        x
    }
}

/// The cost this line contributes, clamped to the `u128` range.
fn record_cost(line: &String, p: &ModelPricing) -> (c: u128)
    ensures
        c as int == clamp_u128(line_cost(line@, *p)),
{
    proof {
        lemma_line_cost_nonneg(line@, *p);
    }
    if blank(line.as_str()) {
        return 0;
    }
    let head = match parse_line_head(line.as_str()) {
        Some(h) => h,
        None => {
            return 0;
        },
    };
    let assist = match &head.role {
        Some(r) => string_eq_str(r, "assistant"),
        None => match &head.ty {
            Some(t) => string_eq_str(t, "assistant"),
            None => false,
        },
    };
    if !assist {
        return 0;
    }
    let u = match parse_line_usage(line.as_str()) {
        Some(u) => u,
        None => {
            return 0;
        },
    };
    let t_in = opt_or0(u.input_tokens);
    let t_out = opt_or0(u.output_tokens);
    let t_cc = opt_or0(u.cache_creation_input_tokens);
    let t_cr = opt_or0(u.cache_read_input_tokens);
    let r_cc = match p.cache_creation_nanos {
        Some(rate) => rate,
        None => 0,
    };
    let r_cr = match p.cache_read_nanos {
        Some(rate) => rate,
        None => 0,
    };
    proof {
        lemma_u64_product_fits(t_in as int, p.input_nanos as int);
        lemma_u64_product_fits(t_out as int, p.output_nanos as int);
        lemma_u64_product_fits(t_cc as int, r_cc as int);
        lemma_u64_product_fits(t_cr as int, r_cr as int);
    }
    let mut c: u128 = (t_in as u128) * (p.input_nanos as u128);
    c = c.saturating_add((t_out as u128) * (p.output_nanos as u128));
    match p.cache_creation_nanos {
        Some(_) => {
            c = c.saturating_add((t_cc as u128) * (r_cc as u128));
        },
        None => {},
    }
    match p.cache_read_nanos {
        Some(_) => {
            c = c.saturating_add((t_cr as u128) * (r_cr as u128));
        },
        None => {},
    }
    c
}

/// The product of two values in the `u64` range fits in a `u128`, and is
/// non-negative.
proof fn lemma_u64_product_fits(a: int, b: int)
    requires
        0 <= a <= u64::MAX,
        0 <= b <= u64::MAX,
    ensures
        0 <= a * b <= u128::MAX,
{
    assert(0 <= a * b <= u128::MAX) by (nonlinear_arith)
        requires
            0 <= a <= u64::MAX,
            0 <= b <= u64::MAX,
    {
    }
}

/// The cumulative cost of the transcript in nanodollars under the pricing of
/// `model_id`: absent when the model is unknown or when the (clamped) total
/// is zero, the positive total otherwise.
pub fn calculate_session_cost(lines: &Vec<String>, model_id: &str, table: &PricingTable) -> (r:
    Option<u128>)
    ensures
        match table.spec_lookup(model_id@) {
            None => r is None,
            Some(p) => {
                let t = clamp_u128(total_cost(lines.deep_view(), p));
                if t > 0 {
                    r == Some(t as u128)
                } else {
                    r is None
                }
            },
        },
{
    let p = match table.lookup(model_id) {
        Some(p) => p,
        None => {
            return None;
        },
    };
    let ghost deep = lines.deep_view();
    let mut acc: u128 = 0;
    let mut i: usize = 0;
    proof {
        assert(deep.take(0) =~= Seq::<Seq<char>>::empty());
    }
    while i < lines.len()
        invariant
            i <= lines@.len(),
            deep == lines.deep_view(),
            acc as int == clamp_u128(total_cost(deep.take(i as int), p)),
        decreases lines@.len() - i,
    {
        proof {
            assert(deep.take(i + 1).drop_last() =~= deep.take(i as int));
            assert(deep.take(i + 1).last() == deep[i as int]);
            assert(deep[i as int] == lines@[i as int]@);
            lemma_total_cost_nonneg(deep.take(i as int), p);
            lemma_line_cost_nonneg(deep[i as int], p);
        }
        let c = record_cost(&lines[i], &p);
        acc = acc.saturating_add(c);
        i += 1;
    }
    proof {
        assert(deep.take(lines@.len() as int) =~= deep);
    }
    if acc > 0 {
        Some(acc)
    } else {
        None
    }
}

} // verus!
