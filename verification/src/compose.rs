//! The composers: assemble the final status line from the snapshot fields
//! and the fragments the other components derive. One variant renders from
//! the input snapshot alone; the full variant folds in transcript metrics,
//! repository state and review status.

use vstd::prelude::*;
use vstd::math::min;
use vstd::string::StrSliceExecFns;
use crate::strutil::{
    push_char, append_str, append_string, new_string, str_eq, repeat_char_spec, push_repeat,
    replace_all_spec, replace_all, trim_end_spec, trim_end, contains_seq,
};
use crate::numfmt::dec_chars;
use crate::display::{round_half_up, format_cost_chars, fish_path_chars, fish_shorten_path};
use crate::transcript::{context_pct_spec, session_duration_spec, total_cost, clamp_u128,
    scan_latest, tail_window, used_tokens, pct_high, pct_whole, get_context_usage, render_pct,
    get_session_duration, calculate_session_cost};
use crate::pricing::PricingTable;
use crate::gitstatus::{git_status_spec, ahead_behind_chars, stash_chars, render_repo_status,
    last_segment_spec, last_segment, repo_name_spec, repo_name_of, branch_display_spec,
    branch_display};

verus! {

/// The usage block of the input snapshot's context window.
pub struct SnapshotUsage {
    pub input_tokens: Option<u64>,
    pub cache_creation_input_tokens: Option<u64>,
    pub cache_read_input_tokens: Option<u64>,
}

/// The context-window description of the input snapshot.
pub struct ContextInfo {
    pub context_window_size: Option<u64>,
    pub current_usage: Option<SnapshotUsage>,
}

/// The cost figures of the input snapshot: accrued cost in nanodollars and
/// the session's net added and removed lines.
pub struct CostInfo {
    pub total_cost_nanos: Option<u128>,
    pub total_lines_added: Option<u64>,
    pub total_lines_removed: Option<u64>,
}

/// The plain values the snapshot-only status line is composed from: snapshot
/// fields plus the branch the repository inspection produced (empty outside
/// a repository).
pub struct Snapshot {
    pub current_dir: Option<String>,
    pub model_display_name: Option<String>,
    pub output_style: Option<String>,
    pub context: Option<ContextInfo>,
    pub cost: Option<CostInfo>,
    pub branch: String,
    pub home: String,
}

/// The value of an optional count, zero when absent.
pub open spec fn ov(o: Option<u64>) -> int {
    match o {
        Some(v) => v as int,
        None => 0,
    }
}

/// The tokens used according to the snapshot's context window: input plus
/// both cache figures.
pub open spec fn snapshot_used(c: ContextInfo) -> int {
    match c.current_usage {
        Some(u) => ov(u.input_tokens) + ov(u.cache_creation_input_tokens) + ov(
            u.cache_read_input_tokens,
        ),
        None => 0,
    }
}

/// The snapshot's context-window size, with its default.
pub open spec fn snapshot_window(c: ContextInfo) -> int {
    match c.context_window_size {
        Some(w) => w as int,
        None => 200000,
    }
}

/// The whole rounded percentage the snapshot display shows, clamped at one
/// hundred; zero for a window of zero.
pub open spec fn snap_pct_display(used: int, ws: int) -> int {
    if ws <= 0 {
        0
    } else if used * 100 >= 100 * ws {
        100
    } else {
        round_half_up(used * 100, ws)
    }
}

/// How many of the fifteen bar cells are filled.
pub open spec fn bar_filled(used: int, ws: int) -> int {
    if ws <= 0 {
        0
    } else if used * 100 >= 100 * ws {
        15
    } else {
        min(15, round_half_up(used * 15, ws))
    }
}

/// The percentage color: red from ninety percent, orange from seventy,
/// yellow from fifty, gray below.
pub open spec fn snap_pct_color(used: int, ws: int) -> Seq<char> {
    if ws > 0 && used * 100 >= 90 * ws {
        "\x1b[31m"@
    } else if ws > 0 && used * 100 >= 70 * ws {
        "\x1b[38;5;208m"@
    } else if ws > 0 && used * 100 >= 50 * ws {
        "\x1b[33m"@
    } else {
        "\x1b[90m"@
    }
}

/// The model fragment: icon, model name, and the output style in
/// parentheses when one is set.
pub open spec fn model_display_chars(s: Snapshot) -> Seq<char> {
    match s.model_display_name {
        Some(m) => "\x1b[38;5;14m\u{e26d} \x1b[38;5;208m"@ + m@ + (match s.output_style {
            Some(st) => " \x1b[90m("@ + st@ + ")\x1b[0m"@,
            None => Seq::<char>::empty(),
        }),
        None => Seq::<char>::empty(),
    }
}

/// The context fragment: icon, the fifteen-cell usage bar, and the colored
/// rounded percentage.
pub open spec fn context_display_chars(c: ContextInfo) -> Seq<char> {
    let used = snapshot_used(c);
    let ws = snapshot_window(c);
    "\x1b[38;5;13m\u{f49b} \x1b[90m"@ + repeat_char_spec('█', bar_filled(used, ws))
        + repeat_char_spec('░', 15 - bar_filled(used, ws)) + "\x1b[0m "@ + snap_pct_color(used, ws)
        + dec_chars(snap_pct_display(used, ws)) + "%\x1b[0m"@
}

/// The added/removed lines fragment, present when either count is non-zero.
pub open spec fn lines_changed_chars(s: Snapshot) -> Seq<char> {
    match s.cost {
        Some(ci) => {
            let a = ov(ci.total_lines_added);
            let r = ov(ci.total_lines_removed);
            if a > 0 || r > 0 {
                "(\x1b[32m+"@ + dec_chars(a) + "\x1b[0m \x1b[31m-"@ + dec_chars(r) + "\x1b[0m)"@
            } else {
                Seq::<char>::empty()
            }
        },
        None => Seq::<char>::empty(),
    }
}

/// The snapshot cost color: green below five dollars, yellow below twenty,
/// red from there.
pub open spec fn snap_cost_color(n: int) -> Seq<char> {
    if n < 5_000_000_000 {
        "\x1b[32m"@
    } else if n < 20_000_000_000 {
        "\x1b[33m"@
    } else {
        "\x1b[31m"@
    }
}

/// The snapshot cost fragment, present when the snapshot carries a cost.
pub open spec fn cost_display_chars(s: Snapshot) -> Seq<char> {
    match s.cost {
        Some(ci) => match ci.total_cost_nanos {
            Some(n) => "\x1b[38;5;3m\u{f155} "@ + snap_cost_color(n as int) + format_cost_chars(
                n as int,
            ) + "\x1b[0m"@,
            None => Seq::<char>::empty(),
        },
        None => Seq::<char>::empty(),
    }
}

/// The separator that precedes each non-empty component.
pub open spec fn bullet() -> Seq<char> {
    " \x1b[90m\u{2022} \x1b[0m"@
}

/// One component's contribution: the separator and the component when it is
/// non-empty, nothing otherwise.
pub open spec fn component_piece(p: Seq<char>) -> Seq<char> {
    if p.len() > 0 {
        bullet() + p
    } else {
        Seq::<char>::empty()
    }
}

/// The joined component list: each non-empty component preceded by the
/// bullet separator.
pub open spec fn components_chars(parts: Seq<Seq<char>>) -> Seq<char>
    decreases parts.len(),
{
    if parts.len() == 0 {
        Seq::<char>::empty()
    } else {
        components_chars(parts.drop_last()) + component_piece(parts.last())
    }
}

/// The component list of three parts, written out.
proof fn lemma_components3(p0: Seq<char>, p1: Seq<char>, p2: Seq<char>)
    ensures
        components_chars(seq![p0, p1, p2]) == component_piece(p0) + component_piece(p1)
            + component_piece(p2),
{
    let e = Seq::<Seq<char>>::empty();
    let s1 = seq![p0];
    let s2 = seq![p0, p1];
    let s3 = seq![p0, p1, p2];
    assert(s1.drop_last() =~= e);
    assert(s2.drop_last() =~= s1);
    assert(s3.drop_last() =~= s2);
    assert(components_chars(e) == Seq::<char>::empty());
    assert(components_chars(s1) == components_chars(e) + component_piece(p0));
    assert(components_chars(s2) == components_chars(s1) + component_piece(p1));
    assert(components_chars(s3) == components_chars(s2) + component_piece(p2));
    assert(components_chars(s3) =~= component_piece(p0) + component_piece(p1) + component_piece(
        p2,
    ));
}

/// The component list of seven parts, written out.
proof fn lemma_components7(
    p0: Seq<char>,
    p1: Seq<char>,
    p2: Seq<char>,
    p3: Seq<char>,
    p4: Seq<char>,
    p5: Seq<char>,
    p6: Seq<char>,
)
    ensures
        components_chars(seq![p0, p1, p2, p3, p4, p5, p6]) == component_piece(p0)
            + component_piece(p1) + component_piece(p2) + component_piece(p3) + component_piece(p4)
            + component_piece(p5) + component_piece(p6),
{
    let e = Seq::<Seq<char>>::empty();
    let s1 = seq![p0];
    let s2 = seq![p0, p1];
    let s3 = seq![p0, p1, p2];
    let s4 = seq![p0, p1, p2, p3];
    let s5 = seq![p0, p1, p2, p3, p4];
    let s6 = seq![p0, p1, p2, p3, p4, p5];
    let s7 = seq![p0, p1, p2, p3, p4, p5, p6];
    assert(s1.drop_last() =~= e);
    assert(s2.drop_last() =~= s1);
    assert(s3.drop_last() =~= s2);
    assert(s4.drop_last() =~= s3);
    assert(s5.drop_last() =~= s4);
    assert(s6.drop_last() =~= s5);
    assert(s7.drop_last() =~= s6);
    assert(components_chars(e) == Seq::<char>::empty());
    assert(components_chars(s1) == components_chars(e) + component_piece(p0));
    assert(components_chars(s2) == components_chars(s1) + component_piece(p1));
    assert(components_chars(s3) == components_chars(s2) + component_piece(p2));
    assert(components_chars(s4) == components_chars(s3) + component_piece(p3));
    assert(components_chars(s5) == components_chars(s4) + component_piece(p4));
    assert(components_chars(s6) == components_chars(s5) + component_piece(p5));
    assert(components_chars(s7) == components_chars(s6) + component_piece(p6));
    assert(components_chars(s7) =~= component_piece(p0) + component_piece(p1) + component_piece(
        p2,
    ) + component_piece(p3) + component_piece(p4) + component_piece(p5) + component_piece(p6));
}

/// Appends a component behind its separator when it is non-empty.
fn push_component(out: &mut String, piece: &String)
    ensures
        final(out)@ == old(out)@ + component_piece(piece@),
{
    if piece.as_str().unicode_len() > 0 {
        append_str(out, " \x1b[90m\u{2022} \x1b[0m");
        append_string(out, piece);
    }
    proof {
        assert(final(out)@ =~= old(out)@ + component_piece(piece@));
    }
}

/// The snapshot's context component: its fragment when a context window is
/// given, empty otherwise.
pub open spec fn context_component_chars(s: Snapshot) -> Seq<char> {
    match s.context {
        Some(c) => context_display_chars(c),
        None => Seq::<char>::empty(),
    }
}

/// The whole snapshot-only status line: directory and branch, then the
/// model, context and cost components; a warning line when the snapshot
/// names no working directory.
pub open spec fn statusline_chars(s: Snapshot) -> Seq<char> {
    let model_d = model_display_chars(s);
    let context_d = context_component_chars(s);
    let cost_d = cost_display_chars(s);
    let comps = components_chars(seq![model_d, context_d, cost_d]);
    match s.current_dir {
        None => "\x1b[31m\u{f071} missing workspace.current_dir\x1b[0m"@,
        Some(dir) => {
            let displayed = trim_end_spec(fish_path_chars(dir@, s.home@) + seq![' ']);
            if s.branch@.len() > 0 {
                "\x1b[36m"@ + displayed + "\x1b[0m \x1b[38;5;12m\u{f02a2} \x1b[32m"@ + s.branch@
                    + lines_changed_chars(s) + "\x1b[0m"@ + comps
            } else {
                "\x1b[36m"@ + displayed + "\x1b[0m"@ + comps
            }
        },
    }
}

/// Renders the model fragment.
fn render_model_display(s: &Snapshot) -> (r: String)
    ensures
        r@ == model_display_chars(*s),
{
    let mut out = new_string();
    match &s.model_display_name {
        Some(m) => {
            append_str(&mut out, "\x1b[38;5;14m\u{e26d} \x1b[38;5;208m");
            append_string(&mut out, m);
            match &s.output_style {
                Some(st) => {
                    append_str(&mut out, " \x1b[90m(");
                    append_string(&mut out, st);
                    append_str(&mut out, ")\x1b[0m");
                },
                None => {},
            }
        },
        None => {},
    }
    proof {
        assert(out@ =~= model_display_chars(*s));
    }
    out
}

/// Renders the context fragment.
#[verifier::rlimit(50)]
fn render_context_display(c: &ContextInfo) -> (r: String)
    ensures
        r@ == context_display_chars(*c),
{
    let used: u128 = match &c.current_usage {
        Some(u) => {
            let a = match u.input_tokens {
                Some(v) => v,
                None => 0,
            };
            let b = match u.cache_creation_input_tokens {
                Some(v) => v,
                None => 0,
            };
            let d = match u.cache_read_input_tokens {
                Some(v) => v,
                None => 0,
            };
            (a as u128) + (b as u128) + (d as u128)
        },
        None => 0,
    };
    let ws: u128 = match c.context_window_size {
        Some(w) => w as u128,
        None => 200000,
    };
    let filled: usize = if ws == 0 {
        0
    } else if used * 100 >= 100 * ws {
        15
    } else {
        let a = used * 15;
        let f = a / ws + if a % ws * 2 >= ws {
            1
        } else {
            0
        };
        if f > 15 {
            15
        } else {
            f as usize
        }
    };
    let pct: u128 = if ws == 0 {
        0
    } else if used * 100 >= 100 * ws {
        100
    } else {
        let a = used * 100;
        a / ws + if a % ws * 2 >= ws {
            1
        } else {
            0
        }
    };
    let mut out = new_string();
    append_str(&mut out, "\x1b[38;5;13m\u{f49b} \x1b[90m");
    push_repeat(&mut out, '█', filled);
    push_repeat(&mut out, '░', 15 - filled);
    append_str(&mut out, "\x1b[0m ");
    if ws > 0 && used * 100 >= 90 * ws {
        append_str(&mut out, "\x1b[31m");
    } else if ws > 0 && used * 100 >= 70 * ws {
        append_str(&mut out, "\x1b[38;5;208m");
    } else if ws > 0 && used * 100 >= 50 * ws {
        append_str(&mut out, "\x1b[33m");
    } else {
        append_str(&mut out, "\x1b[90m");
    }
    crate::numfmt::push_dec_u128(&mut out, pct);
    append_str(&mut out, "%\x1b[0m");
    proof {
        assert(out@ =~= context_display_chars(*c));
    }
    out
}

/// Renders the added/removed lines fragment.
fn render_lines_changed(s: &Snapshot) -> (r: String)
    ensures
        r@ == lines_changed_chars(*s),
{
    let mut out = new_string();
    match &s.cost {
        Some(ci) => {
            let a = match ci.total_lines_added {
                Some(v) => v,
                None => 0,
            };
            let r = match ci.total_lines_removed {
                Some(v) => v,
                None => 0,
            };
            if a > 0 || r > 0 {
                append_str(&mut out, "(\x1b[32m+");
                crate::numfmt::push_dec_u128(&mut out, a as u128);
                append_str(&mut out, "\x1b[0m \x1b[31m-");
                crate::numfmt::push_dec_u128(&mut out, r as u128);
                append_str(&mut out, "\x1b[0m)");
            }
        },
        None => {},
    }
    proof {
        assert(out@ =~= lines_changed_chars(*s));
    }
    out
}

/// Renders the snapshot cost fragment.
fn render_cost_display(s: &Snapshot) -> (r: String)
    ensures
        r@ == cost_display_chars(*s),
{
    let mut out = new_string();
    match &s.cost {
        Some(ci) => {
            match ci.total_cost_nanos {
                Some(n) => {
                    append_str(&mut out, "\x1b[38;5;3m\u{f155} ");
                    if n < 5_000_000_000 {
                        append_str(&mut out, "\x1b[32m");
                    } else if n < 20_000_000_000 {
                        append_str(&mut out, "\x1b[33m");
                    } else {
                        append_str(&mut out, "\x1b[31m");
                    }
                    let cost = crate::display::format_cost(n);
                    append_string(&mut out, &cost);
                    append_str(&mut out, "\x1b[0m");
                },
                None => {},
            }
        },
        None => {},
    }
    proof {
        assert(out@ =~= cost_display_chars(*s));
    }
    out
}

/// Composes the snapshot-only status line.
pub fn statusline(s: &Snapshot) -> (r: String)
    ensures
        r@ == statusline_chars(*s),
{
    let model_d = render_model_display(s);
    let context_d = match &s.context {
        Some(c) => render_context_display(c),
        None => new_string(),
    };
    let cost_d = render_cost_display(s);
    let mut comps = new_string();
    push_component(&mut comps, &model_d);
    push_component(&mut comps, &context_d);
    push_component(&mut comps, &cost_d);
    proof {
        lemma_components3(
            model_display_chars(*s),
            context_component_chars(*s),
            cost_display_chars(*s),
        );
        assert(comps@ =~= components_chars(
            seq![model_display_chars(*s), context_component_chars(*s), cost_display_chars(*s)],
        ));
    }
    let dir = match &s.current_dir {
        Some(d) => d,
        None => {
            return crate::strutil::to_owned_string(
                "\x1b[31m\u{f071} missing workspace.current_dir\x1b[0m",
            );
        },
    };
    let mut fish = fish_shorten_path(dir.as_str(), s.home.as_str());
    push_char(&mut fish, ' ');
    proof {
        assert(fish@ =~= fish_path_chars(dir@, s.home@) + seq![' ']);
    }
    let displayed = trim_end(fish.as_str());
    let mut out = new_string();
    append_str(&mut out, "\x1b[36m");
    append_string(&mut out, &displayed);
    if s.branch.as_str().unicode_len() > 0 {
        append_str(&mut out, "\x1b[0m \x1b[38;5;12m\u{f02a2} \x1b[32m");
        append_string(&mut out, &s.branch);
        let lines_d = render_lines_changed(s);
        append_string(&mut out, &lines_d);
        append_str(&mut out, "\x1b[0m");
        append_string(&mut out, &comps);
    } else {
        append_str(&mut out, "\x1b[0m");
        append_string(&mut out, &comps);
    }
    proof {
        assert(out@ =~= statusline_chars(*s));
    }
    out
}

/// The plain values the full status line is composed from: snapshot fields,
/// the transcript's lines, and the outputs of the repository and review
/// queries, all fetched outside the library.
pub struct FullInput {
    pub current_dir: Option<String>,
    pub model_display_name: Option<String>,
    pub model_id: Option<String>,
    pub transcript_lines: Option<Vec<String>>,
    pub session_id: Option<String>,
    pub context_capacity: u64,
    pub is_repo: bool,
    pub branch: String,
    pub git_dir: String,
    pub repo_url: String,
    pub status_lines: Vec<String>,
    pub diff_lines: Vec<String>,
    pub ahead: u64,
    pub behind: u64,
    pub stash_entries: u64,
    pub pr_url: String,
    pub pr_status: String,
    pub session_summary: Option<String>,
    pub home: String,
    pub short_mode: bool,
}

/// The full variant's percentage color, decided on the displayed value: red
/// from ninety (the fine-grained display), orange from seventy, yellow from
/// fifty, gray below and when no usage is known.
pub open spec fn full_pct_color(lines: Seq<Seq<char>>, cap: int) -> Seq<char> {
    match scan_latest(tail_window(lines, PCT_WINDOW as int)).1 {
        None => "\x1b[90m"@,
        Some(u) => {
            let used = used_tokens(u);
            if cap <= 0 {
                "\x1b[90m"@
            } else if pct_high(used, cap) {
                "\x1b[31m"@
            } else {
                let w = pct_whole(used, cap);
                if w >= 90 {
                    "\x1b[31m"@
                } else if w >= 70 {
                    "\x1b[38;5;208m"@
                } else if w >= 50 {
                    "\x1b[33m"@
                } else {
                    "\x1b[90m"@
                }
            }
        },
    }
}

/// The full variant's cost color: green below a dime, yellow below a dollar,
/// red from there.
pub open spec fn full_cost_color(n: int) -> Seq<char> {
    if n < 100_000_000 {
        "\x1b[32m"@
    } else if n < 1_000_000_000 {
        "\x1b[33m"@
    } else {
        "\x1b[31m"@
    }
}

/// The transcript lines the full variant scans: the given ones, or none.
pub open spec fn full_lines(inp: FullInput) -> Seq<Seq<char>> {
    match inp.transcript_lines {
        Some(ls) => ls.deep_view(),
        None => Seq::<Seq<char>>::empty(),
    }
}

/// How many trailing transcript lines the composer scans for usage.
pub const PCT_WINDOW: usize = 50;

/// The full variant's context component: the colored percentage.
pub open spec fn full_context_chars(inp: FullInput) -> Seq<char> {
    let pct = match inp.transcript_lines {
        Some(ls) => context_pct_spec(ls.deep_view(), PCT_WINDOW as int, inp.context_capacity as int),
        None => seq!['0'],
    };
    let color = match inp.transcript_lines {
        Some(ls) => full_pct_color(ls.deep_view(), inp.context_capacity as int),
        None => "\x1b[90m"@,
    };
    color + pct + "%\x1b[0m"@
}

/// The full variant's duration component.
pub open spec fn full_duration_chars(inp: FullInput) -> Seq<char> {
    match inp.transcript_lines {
        Some(ls) => match session_duration_spec(ls.deep_view()) {
            Some(d) => "\x1b[38;5;245m"@ + d + "\x1b[0m"@,
            None => Seq::<char>::empty(),
        },
        None => Seq::<char>::empty(),
    }
}

/// The full variant's cost component, derived from the transcript under the
/// model's pricing.
pub open spec fn full_cost_chars(inp: FullInput, table: PricingTable) -> Seq<char> {
    match (inp.transcript_lines, inp.model_id) {
        (Some(ls), Some(mid)) => match table.spec_lookup(mid@) {
            Some(p) => {
                let t = clamp_u128(total_cost(ls.deep_view(), p));
                if t > 0 {
                    full_cost_color(t) + seq!['$'] + format_cost_chars(t) + "\x1b[0m"@
                } else {
                    Seq::<char>::empty()
                }
            },
            None => Seq::<char>::empty(),
        },
        _ => Seq::<char>::empty(),
    }
}

/// The pull-request component: URL and rendered status, space-separated when
/// both exist.
pub open spec fn full_pr_chars(inp: FullInput) -> Seq<char> {
    if inp.pr_url@.len() > 0 || inp.pr_status@.len() > 0 {
        inp.pr_url@ + (if inp.pr_url@.len() > 0 && inp.pr_status@.len() > 0 {
            seq![' ']
        } else {
            Seq::<char>::empty()
        }) + inp.pr_status@ + "\x1b[0m"@
    } else {
        Seq::<char>::empty()
    }
}

/// The session-summary component, shown only when a session, a transcript
/// and a repository metadata directory all exist.
pub open spec fn full_summary_chars(inp: FullInput) -> Seq<char> {
    if inp.session_id is Some && inp.transcript_lines is Some && inp.git_dir@.len() > 0 {
        match inp.session_summary {
            Some(s) => "\x1b[38;5;75m"@ + s@ + "\x1b[0m"@,
            None => Seq::<char>::empty(),
        }
    } else {
        Seq::<char>::empty()
    }
}

/// The model component of the full variant.
pub open spec fn full_model_chars(inp: FullInput) -> Seq<char> {
    match inp.model_display_name {
        Some(m) => "\x1b[90m"@ + m@,
        None => Seq::<char>::empty(),
    }
}

/// The session-identifier component.
pub open spec fn full_session_id_chars(inp: FullInput) -> Seq<char> {
    match inp.session_id {
        Some(id) => id@ + "\x1b[0m"@,
        None => Seq::<char>::empty(),
    }
}

/// The directory the full variant shows: hidden in condensed mode when it is
/// the standard project location, the home-collapsed path with a trailing
/// space otherwise.
pub open spec fn full_display_dir(inp: FullInput) -> Seq<char>
    recommends
        inp.current_dir is Some,
{
    let dir = inp.current_dir->Some_0@;
    let home_projects = inp.home@ + "/Projects/"@ + repo_name_spec(inp.repo_url@);
    if inp.short_mode && dir == home_projects {
        Seq::<char>::empty()
    } else {
        replace_all_spec(dir, inp.home@, seq!['~']) + seq![' ']
    }
}

/// The whole full status line: path, branch and working-tree status, then
/// the pull-request, model, context, summary, session, duration and cost
/// components; a lone home marker without a directory; the bare path outside
/// a repository.
pub open spec fn statusline_full_chars(inp: FullInput, table: PricingTable) -> Seq<char> {
    match inp.current_dir {
        None => "\x1b[36m~\x1b[0m"@,
        Some(dir) => {
            if !inp.is_repo {
                "\x1b[36m"@ + replace_all_spec(dir@, inp.home@, seq!['~']) + "\x1b[0m"@
            } else {
                let comps = components_chars(
                    seq![
                        full_pr_chars(inp),
                        full_model_chars(inp),
                        full_context_chars(inp),
                        full_summary_chars(inp),
                        full_session_id_chars(inp),
                        full_duration_chars(inp),
                        full_cost_chars(inp, table),
                    ],
                );
                let display_dir = full_display_dir(inp);
                let git_status = git_status_spec(
                    inp.status_lines.deep_view(),
                    inp.diff_lines.deep_view(),
                ) + ahead_behind_chars(inp.ahead as int, inp.behind as int) + stash_chars(
                    inp.stash_entries as int,
                );
                if contains_seq(inp.git_dir@, "/.git/worktrees/"@) {
                    let wt_name = last_segment_spec(trim_end_spec(display_dir));
                    "\x1b[36m"@ + display_dir + "\x1b[0m\x1b[35m["@ + branch_display_spec(
                        inp.branch@,
                        wt_name,
                    ) + git_status + "]\x1b[0m"@ + comps
                } else if display_dir.len() == 0 {
                    "\x1b[32m["@ + inp.branch@ + git_status + "]\x1b[0m"@ + comps
                } else {
                    "\x1b[36m"@ + display_dir + "\x1b[0m\x1b[32m["@ + inp.branch@ + git_status
                        + "]\x1b[0m"@ + comps
                }
            }
        },
    }
}

/// Renders the full variant's context component.
fn render_full_context(inp: &FullInput) -> (r: String)
    ensures
        r@ == full_context_chars(*inp),
{
    let mut out = new_string();
    match &inp.transcript_lines {
        Some(ls) => {
            let cap = inp.context_capacity;
            match get_context_usage(ls, PCT_WINDOW) {
                Some(used) => {
                    let capw = cap as u128;
                    if capw == 0 {
                        append_str(&mut out, "\x1b[90m");
                    } else if used * 10 >= 9 * capw {
                        append_str(&mut out, "\x1b[31m");
                    } else {
                        let w = (2 * (used * 100) + capw) / (2 * capw);
                        let w = if w > 100 {
                            100
                        } else {
                            w
                        };
                        if w >= 90 {
                            append_str(&mut out, "\x1b[31m");
                        } else if w >= 70 {
                            append_str(&mut out, "\x1b[38;5;208m");
                        } else if w >= 50 {
                            append_str(&mut out, "\x1b[33m");
                        } else {
                            append_str(&mut out, "\x1b[90m");
                        }
                    }
                    let pct = render_pct(used, cap);
                    append_string(&mut out, &pct);
                },
                None => {
                    append_str(&mut out, "\x1b[90m");
                    append_str(&mut out, "0");
                    proof {
                        reveal_strlit("0");
                        assert("0"@ =~= seq!['0']);
                    }
                },
            }
        },
        None => {
            append_str(&mut out, "\x1b[90m");
            append_str(&mut out, "0");
            proof {
                reveal_strlit("0");
                assert("0"@ =~= seq!['0']);
            }
        },
    }
    append_str(&mut out, "%\x1b[0m");
    proof {
        assert(out@ =~= full_context_chars(*inp));
    }
    out
}

/// Composes the full status line against the given price table.
pub fn statusline_full(inp: &FullInput, table: &PricingTable) -> (r: String)
    ensures
        r@ == statusline_full_chars(*inp, *table),
{
    let dir = match &inp.current_dir {
        Some(d) => d,
        None => {
            return crate::strutil::to_owned_string("\x1b[36m~\x1b[0m");
        },
    };
    if !inp.is_repo {
        let mut out = new_string();
        append_str(&mut out, "\x1b[36m");
        proof {
            reveal_strlit("~");
            assert("~"@ =~= seq!['~']);
        }
        let p = replace_all(dir.as_str(), inp.home.as_str(), "~");
        append_string(&mut out, &p);
        append_str(&mut out, "\x1b[0m");
        proof {
            assert(out@ =~= statusline_full_chars(*inp, *table));
        }
        return out;
    }
    // the components
    let pr_d = render_full_pr(inp);
    let model_d = render_full_model(inp);
    let context_d = render_full_context(inp);
    let summary_d = render_full_summary(inp);
    let session_d = render_full_session_id(inp);
    let duration_d = render_full_duration(inp);
    let cost_d = render_full_cost(inp, table);
    let mut comps = new_string();
    push_component(&mut comps, &pr_d);
    push_component(&mut comps, &model_d);
    push_component(&mut comps, &context_d);
    push_component(&mut comps, &summary_d);
    push_component(&mut comps, &session_d);
    push_component(&mut comps, &duration_d);
    push_component(&mut comps, &cost_d);
    proof {
        lemma_components7(
            full_pr_chars(*inp),
            full_model_chars(*inp),
            full_context_chars(*inp),
            full_summary_chars(*inp),
            full_session_id_chars(*inp),
            full_duration_chars(*inp),
            full_cost_chars(*inp, *table),
        );
        assert(comps@ =~= components_chars(
            seq![
                full_pr_chars(*inp),
                full_model_chars(*inp),
                full_context_chars(*inp),
                full_summary_chars(*inp),
                full_session_id_chars(*inp),
                full_duration_chars(*inp),
                full_cost_chars(*inp, *table),
            ],
        ));
    }
    // the directory display
    let repo_name = repo_name_of(inp.repo_url.as_str());
    let mut home_projects = crate::strutil::to_owned_string(inp.home.as_str());
    append_str(&mut home_projects, "/Projects/");
    append_string(&mut home_projects, &repo_name);
    let hide = inp.short_mode && str_eq(dir.as_str(), home_projects.as_str());
    let mut display_dir = new_string();
    if !hide {
        proof {
            reveal_strlit("~");
            assert("~"@ =~= seq!['~']);
        }
        let p = replace_all(dir.as_str(), inp.home.as_str(), "~");
        append_string(&mut display_dir, &p);
        push_char(&mut display_dir, ' ');
    }
    proof {
        assert(display_dir@ =~= full_display_dir(*inp));
    }
    let git_status = render_repo_status(
        &inp.status_lines,
        &inp.diff_lines,
        inp.ahead,
        inp.behind,
        inp.stash_entries,
    );
    let mut out = new_string();
    if crate::gitstatus::is_worktree_git_dir(inp.git_dir.as_str()) {
        let trimmed = trim_end(display_dir.as_str());
        let wt_name = last_segment(trimmed.as_str());
        let branch_d = branch_display(inp.branch.as_str(), wt_name.as_str());
        append_str(&mut out, "\x1b[36m");
        append_string(&mut out, &display_dir);
        append_str(&mut out, "\x1b[0m\x1b[35m[");
        append_string(&mut out, &branch_d);
        append_string(&mut out, &git_status);
        append_str(&mut out, "]\x1b[0m");
        append_string(&mut out, &comps);
    } else if display_dir.as_str().unicode_len() == 0 {
        append_str(&mut out, "\x1b[32m[");
        append_string(&mut out, &inp.branch);
        append_string(&mut out, &git_status);
        append_str(&mut out, "]\x1b[0m");
        append_string(&mut out, &comps);
    } else {
        append_str(&mut out, "\x1b[36m");
        append_string(&mut out, &display_dir);
        append_str(&mut out, "\x1b[0m\x1b[32m[");
        append_string(&mut out, &inp.branch);
        append_string(&mut out, &git_status);
        append_str(&mut out, "]\x1b[0m");
        append_string(&mut out, &comps);
    }
    proof {
        assert(out@ =~= statusline_full_chars(*inp, *table));
    }
    out
}

/// Renders the pull-request component.
fn render_full_pr(inp: &FullInput) -> (r: String)
    ensures
        r@ == full_pr_chars(*inp),
{
    let mut out = new_string();
    let has_url = inp.pr_url.as_str().unicode_len() > 0;
    let has_status = inp.pr_status.as_str().unicode_len() > 0;
    if has_url || has_status {
        append_string(&mut out, &inp.pr_url);
        if has_url && has_status {
            push_char(&mut out, ' ');
        }
        append_string(&mut out, &inp.pr_status);
        append_str(&mut out, "\x1b[0m");
    }
    proof {
        assert(out@ =~= full_pr_chars(*inp));
    }
    out
}

/// Renders the model component.
fn render_full_model(inp: &FullInput) -> (r: String)
    ensures
        r@ == full_model_chars(*inp),
{
    let mut out = new_string();
    match &inp.model_display_name {
        Some(m) => {
            append_str(&mut out, "\x1b[90m");
            append_string(&mut out, m);
        },
        None => {},
    }
    proof {
        assert(out@ =~= full_model_chars(*inp));
    }
    out
}

/// Renders the session-summary component.
fn render_full_summary(inp: &FullInput) -> (r: String)
    ensures
        r@ == full_summary_chars(*inp),
{
    let mut out = new_string();
    if inp.session_id.is_some() && inp.transcript_lines.is_some() && inp.git_dir.as_str().unicode_len() > 0 {
        match &inp.session_summary {
            Some(s) => {
                append_str(&mut out, "\x1b[38;5;75m");
                append_string(&mut out, s);
                append_str(&mut out, "\x1b[0m");
            },
            None => {},
        }
    }
    proof {
        assert(out@ =~= full_summary_chars(*inp));
    }
    out
}

/// Renders the session-identifier component.
fn render_full_session_id(inp: &FullInput) -> (r: String)
    ensures
        r@ == full_session_id_chars(*inp),
{
    let mut out = new_string();
    match &inp.session_id {
        Some(id) => {
            append_string(&mut out, id);
            append_str(&mut out, "\x1b[0m");
        },
        None => {},
    }
    proof {
        assert(out@ =~= full_session_id_chars(*inp));
    }
    out
}

/// Renders the duration component.
fn render_full_duration(inp: &FullInput) -> (r: String)
    ensures
        r@ == full_duration_chars(*inp),
{
    let mut out = new_string();
    match &inp.transcript_lines {
        Some(ls) => {
            match get_session_duration(ls) {
                Some(d) => {
                    append_str(&mut out, "\x1b[38;5;245m");
                    append_string(&mut out, &d);
                    append_str(&mut out, "\x1b[0m");
                },
                None => {},
            }
        },
        None => {},
    }
    proof {
        assert(out@ =~= full_duration_chars(*inp));
    }
    out
}

/// Renders the cost component.
fn render_full_cost(inp: &FullInput, table: &PricingTable) -> (r: String)
    ensures
        r@ == full_cost_chars(*inp, *table),
{
    let mut out = new_string();
    match (&inp.transcript_lines, &inp.model_id) {
        (Some(ls), Some(mid)) => {
            match calculate_session_cost(ls, mid.as_str(), table) {
                Some(n) => {
                    if n < 100_000_000 {
                        append_str(&mut out, "\x1b[32m");
                    } else if n < 1_000_000_000 {
                        append_str(&mut out, "\x1b[33m");
                    } else {
                        append_str(&mut out, "\x1b[31m");
                    }
                    let cost = crate::display::format_cost_dollars(n);
                    append_string(&mut out, &cost);
                    append_str(&mut out, "\x1b[0m");
                },
                None => {},
            }
        },
        _ => {},
    }
    proof {
        assert(out@ =~= full_cost_chars(*inp, *table));
    }
    out
}

} // verus!
