//! The review-status aggregator: groups code-review check results by
//! outcome bucket and renders a compact multi-bucket summary. The check list
//! itself comes from an external query; a trusted wrapper extracts each
//! result's bucket and name as plain values and the grouping and rendering
//! are verified.

use vstd::prelude::*;
use crate::strutil::{
    push_char, append_str, append_string, new_string, string_eq_str, join_char_spec, join_char,
    views_of, trim_spec, trim,
};
use crate::numfmt::dec_chars;
use vstd::string::StrSliceExecFns;

verus! {

/// One check result: its outcome bucket and its name, each absent when the
/// query did not carry it as text.
pub struct CheckItem {
    pub bucket: Option<String>,
    pub name: Option<String>,
}

/// The check results a structured parse extracts from the query's output:
/// one item per element of the top-level list, or nothing when the output is
/// not such a list.
pub uninterp spec fn checks_of(s: Seq<char>) -> Option<Seq<CheckItem>>;

/// Relies on `serde_json::from_str` and `serde_json::Value::{as_array, get,
/// as_str}`: reads the `bucket` and `name` of each element of a JSON list of
/// check results. The result depends on the text alone.
#[verifier::external_body]
pub(crate) fn parse_checks_json(s: &str) -> (r: Option<Vec<CheckItem>>)
    ensures
        match (r, checks_of(s@)) {
            (Some(v), Some(t)) => v@ == t,
            (None, None) => true,
            _ => false,
        },
{
    let v: serde_json::Value = match serde_json::from_str(s) {
        Ok(v) => v,
        Err(_) => return None,
    };
    let arr = v.as_array()?;
    Some(arr.iter().map(|c| CheckItem {
        bucket: c.get("bucket").and_then(|b| b.as_str()).map(|s| s.to_string()),
        name: c.get("name").and_then(|n| n.as_str()).map(|s| s.to_string()),
    }).collect())
}

/// The bucket a check falls in: as given, `pending` when absent.
pub open spec fn item_bucket(it: CheckItem) -> Seq<char> {
    match it.bucket {
        Some(b) => b@,
        None => "pending"@,
    }
}

/// The name a check shows: as given, empty when absent.
pub open spec fn item_name(it: CheckItem) -> Seq<char> {
    match it.name {
        Some(n) => n@,
        None => Seq::<char>::empty(),
    }
}

/// The names of the checks falling in `bucket`, in order of appearance.
pub open spec fn bucket_names(items: Seq<CheckItem>, bucket: Seq<char>) -> Seq<Seq<char>>
    decreases items.len(),
{
    if items.len() == 0 {
        Seq::<Seq<char>>::empty()
    } else {
        let rest = bucket_names(items.drop_last(), bucket);
        if item_bucket(items.last()) == bucket {
            rest.push(item_name(items.last()))
        } else {
            rest
        }
    }
}

/// A named bucket's fragment: the symbol, a count only when more than one
/// check is in the bucket, up to the first three names comma-joined, an
/// ellipsis when more exist, and a trailing space; empty for an empty
/// bucket.
pub open spec fn named_bucket_chars(sym: char, names: Seq<Seq<char>>) -> Seq<char> {
    if names.len() == 0 {
        Seq::<char>::empty()
    } else {
        let count = if names.len() > 1 {
            dec_chars(names.len() as int)
        } else {
            Seq::<char>::empty()
        };
        let shown = if names.len() > 3 {
            names.take(3)
        } else {
            names
        };
        let more = if names.len() > 3 {
            "..."@
        } else {
            Seq::<char>::empty()
        };
        seq![sym] + count + seq![':'] + join_char_spec(shown, ',') + more + seq![' ']
    }
}

/// The pass bucket's fragment: only a count, never names.
pub open spec fn pass_bucket_chars(names: Seq<Seq<char>>) -> Seq<char> {
    if names.len() == 0 {
        Seq::<char>::empty()
    } else {
        seq!['✓'] + dec_chars(names.len() as int)
    }
}

/// The whole check summary: failures first, then pending, then the pass
/// count, trimmed of the trailing separator space.
pub open spec fn pr_checks_chars(items: Seq<CheckItem>) -> Seq<char> {
    trim_spec(
        named_bucket_chars('✗', bucket_names(items, "fail"@)) + named_bucket_chars(
            '○',
            bucket_names(items, "pending"@),
        ) + pass_bucket_chars(bucket_names(items, "pass"@)),
    )
}

/// Collects the names of the checks falling in `bucket`.
fn collect_bucket(items: &Vec<CheckItem>, bucket: &str) -> (r: Vec<String>)
    ensures
        views_of(r@) == bucket_names(items@, bucket@),
{
    let mut out: Vec<String> = Vec::new();
    let mut i: usize = 0;
    proof {
        assert(views_of(out@) =~= bucket_names(items@.take(0), bucket@));
    }
    while i < items.len()
        invariant
            i <= items@.len(),
            views_of(out@) =~= bucket_names(items@.take(i as int), bucket@),
        decreases items@.len() - i,
    {
        proof {
            assert(items@.take(i + 1).drop_last() =~= items@.take(i as int));
            assert(items@.take(i + 1).last() == items@[i as int]);
        }
        let hit = match &items[i].bucket {
            Some(b) => string_eq_str(b, bucket),
            None => crate::strutil::str_eq("pending", bucket),
        };
        if hit {
            let ghost before = out@;
            let name = match &items[i].name {
                Some(n) => crate::strutil::to_owned_string(n.as_str()),
                None => new_string(),
            };
            out.push(name);
            proof {
                assert(views_of(out@) =~= views_of(before).push(item_name(items@[i as int])));
            }
        }
        i += 1;
    }
    proof {
        assert(items@.take(items@.len() as int) =~= items@);
    }
    out
}

/// Renders one named bucket.
fn render_named_bucket(sym: char, names: &Vec<String>) -> (r: String)
    ensures
        r@ == named_bucket_chars(sym, views_of(names@)),
{
    let mut out = new_string();
    if names.len() == 0 {
        proof {
            assert(out@ =~= named_bucket_chars(sym, views_of(names@)));
        }
        return out;
    }
    push_char(&mut out, sym);
    if names.len() > 1 {
        crate::numfmt::push_dec_u128(&mut out, names.len() as u128);
    }
    push_char(&mut out, ':');
    let mut shown: Vec<String> = Vec::new();
    let limit: usize = if names.len() > 3 {
        3
    } else {
        names.len()
    };
    let mut i: usize = 0;
    while i < limit
        invariant
            i <= limit,
            limit <= names@.len(),
            views_of(shown@) =~= views_of(names@).take(limit as int).take(i as int),
        decreases limit - i,
    {
        let ghost before = shown@;
        shown.push(crate::strutil::to_owned_string(names[i].as_str()));
        proof {
            assert(views_of(shown@) =~= views_of(before).push(names@[i as int]@));
            assert(views_of(names@).take(limit as int).take(i + 1) =~= views_of(names@).take(
                limit as int,
            ).take(i as int).push(views_of(names@)[i as int]));
        }
        i += 1;
    }
    proof {
        assert(views_of(shown@) =~= views_of(names@).take(limit as int));
        if names@.len() <= 3 {
            assert(views_of(names@).take(limit as int) =~= views_of(names@));
        }
    }
    let joined = join_char(&shown, ',');
    append_string(&mut out, &joined);
    if names.len() > 3 {
        append_str(&mut out, "...");
    }
    push_char(&mut out, ' ');
    proof {
        assert(out@ =~= named_bucket_chars(sym, views_of(names@)));
    }
    out
}

/// Renders the whole check summary from the parsed check list.
pub fn render_pr_checks(items: &Vec<CheckItem>) -> (r: String)
    ensures
        r@ == pr_checks_chars(items@),
{
    let fails = collect_bucket(items, "fail");
    let pendings = collect_bucket(items, "pending");
    let passes = collect_bucket(items, "pass");
    let mut out = render_named_bucket('✗', &fails);
    let pend = render_named_bucket('○', &pendings);
    append_string(&mut out, &pend);
    if passes.len() > 0 {
        push_char(&mut out, '✓');
        crate::numfmt::push_dec_u128(&mut out, passes.len() as u128);
    }
    proof {
        assert(out@ =~= named_bucket_chars('✗', bucket_names(items@, "fail"@))
            + named_bucket_chars('○', bucket_names(items@, "pending"@)) + pass_bucket_chars(
            bucket_names(items@, "pass"@),
        ));
    }
    trim(out.as_str())
}

/// The check summary an external query's output denotes: the rendered
/// buckets when the output parses as a check list, empty otherwise.
pub open spec fn pr_status_of_output(s: Seq<char>) -> Seq<char> {
    match checks_of(s) {
        Some(items) => pr_checks_chars(items),
        None => Seq::<char>::empty(),
    }
}

/// Derives the check summary from an external query's raw output; output
/// that does not parse yields an empty fragment, never an error.
pub fn pr_status_from_output(s: &str) -> (r: String)
    ensures
        r@ == pr_status_of_output(s@),
{
    match parse_checks_json(s) {
        Some(items) => render_pr_checks(&items),
        None => new_string(),
    }
}

/// Whether the composer should fetch the check status at all: only when the
/// caller asked for it and an open pull request was resolved.
pub fn should_fetch_pr_status(show_pr_status: bool, pr_url: &str) -> (r: bool)
    ensures
        r == (show_pr_status && pr_url@.len() > 0),
{
    show_pr_status && pr_url.unicode_len() > 0
}

} // verus!
