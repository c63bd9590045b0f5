//! The repository inspector's pure logic: classifying porcelain status
//! codes, totalling diff-stat line counts, rendering ahead/behind and stash
//! fragments, and recognizing linked worktrees. The external queries
//! themselves run outside the library; their output lines come in as plain
//! strings.

use vstd::prelude::*;
use vstd::string::StrSliceExecFns;
use crate::strutil::{
    split_char_spec, split_char, push_char, append_str, new_string, contains_seq, contains,
    views_of,
};
use crate::numfmt::{dec_chars, parse_i32_spec, parse_i32_like};

verus! {

/// The class a porcelain status line falls in, read off its two-character
/// status code.
pub enum StatusClass {
    Added,
    Modified,
    Deleted,
    Untracked,
    Other,
}

/// Classifies one porcelain status line: added or staged, modified, deleted,
/// untracked, or none of these (lines shorter than a status code included).
pub open spec fn classify_code(l: Seq<char>) -> StatusClass {
    if l.len() < 2 {
        StatusClass::Other
    } else {
        let c0 = l[0];
        let c1 = l[1];
        if c0 == 'A' || (c0 == 'M' && c1 == ' ') {
            StatusClass::Added
        } else if c1 == 'M' {
            StatusClass::Modified
        } else if c0 == 'D' || (c0 == ' ' && c1 == 'D') {
            StatusClass::Deleted
        } else if c0 == '?' && c1 == '?' {
            StatusClass::Untracked
        } else {
            StatusClass::Other
        }
    }
}

/// How many status lines fall in the given class.
pub open spec fn count_class(lines: Seq<Seq<char>>, cls: StatusClass) -> int
    decreases lines.len(),
{
    if lines.len() == 0 {
        0
    } else {
        count_class(lines.drop_last(), cls) + if classify_code(lines.last()) == cls {
            1int
        } else {
            0int
        }
    }
}

/// Classifies one status line, executably.
fn classify_line(l: &String) -> (r: StatusClass)
    ensures
        r == classify_code(l@),
{
    let len = l.as_str().unicode_len();
    if len < 2 {
        return StatusClass::Other;
    }
    let c0 = l.as_str().get_char(0);
    let c1 = l.as_str().get_char(1);
    if c0 == 'A' || (c0 == 'M' && c1 == ' ') {
        StatusClass::Added
    } else if c1 == 'M' {
        StatusClass::Modified
    } else if c0 == 'D' || (c0 == ' ' && c1 == 'D') {
        StatusClass::Deleted
    } else if c0 == '?' && c1 == '?' {
        StatusClass::Untracked
    } else {
        StatusClass::Other
    }
}

/// A ` <sym><count>` fragment, empty when the count is zero.
pub open spec fn count_fragment(sym: char, n: int) -> Seq<char> {
    if n > 0 {
        seq![' ', sym] + dec_chars(n)
    } else {
        Seq::<char>::empty()
    }
}

/// The counts fragment of a status query: ` +N` added, ` ~N` modified,
/// ` -N` deleted and ` ?N` untracked, each only when non-zero.
pub open spec fn status_counts_chars(lines: Seq<Seq<char>>) -> Seq<char> {
    count_fragment('+', count_class(lines, StatusClass::Added)) + count_fragment(
        '~',
        count_class(lines, StatusClass::Modified),
    ) + count_fragment('-', count_class(lines, StatusClass::Deleted)) + count_fragment(
        '?',
        count_class(lines, StatusClass::Untracked),
    )
}

/// The value a diff-stat field contributes: its decimal value, or zero when
/// it is not a number (binary files print `-`).
pub open spec fn numstat_val(part: Seq<char>) -> int {
    match parse_i32_spec(part) {
        Some(v) => v,
        None => 0,
    }
}

/// The added and deleted line counts one diff-stat line contributes.
pub open spec fn line_delta(l: Seq<char>) -> (int, int) {
    let parts = split_char_spec(l, '\t');
    if parts.len() >= 2 {
        (numstat_val(parts[0]), numstat_val(parts[1]))
    } else {
        (0, 0)
    }
}

/// The added and deleted line totals of a diff-stat query.
pub open spec fn total_delta(lines: Seq<Seq<char>>) -> (int, int)
    decreases lines.len(),
{
    if lines.len() == 0 {
        (0, 0)
    } else {
        let prev = total_delta(lines.drop_last());
        let d = line_delta(lines.last());
        (prev.0 + d.0, prev.1 + d.1)
    }
}

/// Diff-stat totals stay within `lines.len()` times the field range.
proof fn lemma_total_delta_bounds(lines: Seq<Seq<char>>)
    ensures
        -(lines.len() as int) * 0x80000000 <= total_delta(lines).0 <= (lines.len() as int)
            * 0x80000000,
        -(lines.len() as int) * 0x80000000 <= total_delta(lines).1 <= (lines.len() as int)
            * 0x80000000,
    decreases lines.len(),
{
    if lines.len() > 0 {
        lemma_total_delta_bounds(lines.drop_last());
        let n = lines.len() as int;
        assert(n * 0x80000000 == (n - 1) * 0x80000000 + 0x80000000) by (nonlinear_arith);
    }
}

/// The ` Δ+N` / ` Δ-N` net-delta fragment of a diff-stat query, empty when
/// the net change is zero.
pub open spec fn delta_fragment(lines: Seq<Seq<char>>) -> Seq<char> {
    let t = total_delta(lines);
    let delta = t.0 - t.1;
    if delta > 0 {
        seq![' ', 'Δ', '+'] + dec_chars(delta)
    } else if delta < 0 {
        seq![' ', 'Δ', '-'] + dec_chars(-delta)
    } else {
        Seq::<char>::empty()
    }
}

/// The whole working-tree status fragment: file counts, then the net line
/// delta; empty exactly when the status query printed nothing.
pub open spec fn git_status_spec(status: Seq<Seq<char>>, diff: Seq<Seq<char>>) -> Seq<char> {
    if status.len() == 0 {
        Seq::<char>::empty()
    } else {
        status_counts_chars(status) + delta_fragment(diff)
    }
}

/// Appends a ` <sym><count>` fragment when the count is non-zero.
fn push_count_fragment(out: &mut String, sym: char, n: usize)
    ensures
        final(out)@ == old(out)@ + count_fragment(sym, n as int),
{
    if n > 0 {
        push_char(out, ' ');
        push_char(out, sym);
        crate::numfmt::push_dec_u128(out, n as u128);
    }
    proof {
        assert(final(out)@ =~= old(out)@ + count_fragment(sym, n as int));
    }
}

/// Renders the working-tree status fragment from the lines of a porcelain
/// status query and a diff-stat query.
pub fn get_git_status(status_lines: &Vec<String>, diff_lines: &Vec<String>) -> (r: String)
    ensures
        r@ == git_status_spec(status_lines.deep_view(), diff_lines.deep_view()),
{
    let ghost sdeep = status_lines.deep_view();
    let ghost ddeep = diff_lines.deep_view();
    let mut out = new_string();
    if status_lines.len() == 0 {
        proof {
            assert(out@ =~= git_status_spec(sdeep, ddeep));
        }
        return out;
    }
    let mut added: usize = 0;
    let mut modified: usize = 0;
    let mut deleted: usize = 0;
    let mut untracked: usize = 0;
    let mut i: usize = 0;
    proof {
        assert(sdeep.take(0) =~= Seq::<Seq<char>>::empty());
    }
    while i < status_lines.len()
        invariant
            i <= status_lines@.len(),
            sdeep == status_lines.deep_view(),
            added as int == count_class(sdeep.take(i as int), StatusClass::Added),
            modified as int == count_class(sdeep.take(i as int), StatusClass::Modified),
            deleted as int == count_class(sdeep.take(i as int), StatusClass::Deleted),
            untracked as int == count_class(sdeep.take(i as int), StatusClass::Untracked),
            added <= i && modified <= i && deleted <= i && untracked <= i,
        decreases status_lines@.len() - i,
    {
        proof {
            assert(sdeep.take(i + 1).drop_last() =~= sdeep.take(i as int));
            assert(sdeep.take(i + 1).last() == sdeep[i as int]);
            assert(sdeep[i as int] == status_lines@[i as int]@);
        }
        match classify_line(&status_lines[i]) {
            StatusClass::Added => {
                added += 1;
            },
            StatusClass::Modified => {
                modified += 1;
            },
            StatusClass::Deleted => {
                deleted += 1;
            },
            StatusClass::Untracked => {
                untracked += 1;
            },
            StatusClass::Other => {},
        }
        i += 1;
    }
    proof {
        assert(sdeep.take(status_lines@.len() as int) =~= sdeep);
    }
    push_count_fragment(&mut out, '+', added);
    push_count_fragment(&mut out, '~', modified);
    push_count_fragment(&mut out, '-', deleted);
    push_count_fragment(&mut out, '?', untracked);
    // net line delta from the diff-stat lines
    let mut add_total: i128 = 0;
    let mut del_total: i128 = 0;
    let mut j: usize = 0;
    proof {
        assert(ddeep.take(0) =~= Seq::<Seq<char>>::empty());
    }
    while j < diff_lines.len()
        invariant
            j <= diff_lines@.len(),
            ddeep == diff_lines.deep_view(),
            add_total as int == total_delta(ddeep.take(j as int)).0,
            del_total as int == total_delta(ddeep.take(j as int)).1,
            -(j as int) * 0x80000000 <= add_total as int <= (j as int) * 0x80000000,
            -(j as int) * 0x80000000 <= del_total as int <= (j as int) * 0x80000000,
        decreases diff_lines@.len() - j,
    {
        proof {
            assert(ddeep.take(j + 1).drop_last() =~= ddeep.take(j as int));
            assert(ddeep.take(j + 1).last() == ddeep[j as int]);
            assert(ddeep[j as int] == diff_lines@[j as int]@);
            assert((j + 1) * 0x80000000 == j * 0x80000000 + 0x80000000) by (nonlinear_arith);
            assert(j as int * 0x80000000 < 0x7fffffffffffffffffffffffffffffff)
                by (nonlinear_arith)
                requires
                    0 <= j < 0x10000000000000000,
            {
            }
        }
        let (a, d) = numstat_fields(&diff_lines[j]);
        add_total = add_total + a as i128;
        del_total = del_total + d as i128;
        j += 1;
    }
    proof {
        assert(ddeep.take(diff_lines@.len() as int) =~= ddeep);
        lemma_total_delta_bounds(ddeep);
        assert((ddeep.len() as int) * 0x80000000 < 0x7fffffffffffffffffffffffffffffff)
            by (nonlinear_arith)
            requires
                0 <= ddeep.len() < 0x10000000000000000,
        {
        }
    }
    let delta: i128 = add_total - del_total;
    if delta > 0 {
        push_char(&mut out, ' ');
        push_char(&mut out, 'Δ');
        push_char(&mut out, '+');
        crate::numfmt::push_dec_u128(&mut out, delta as u128);
    } else if delta < 0 {
        push_char(&mut out, ' ');
        push_char(&mut out, 'Δ');
        push_char(&mut out, '-');
        crate::numfmt::push_dec_u128(&mut out, (-delta) as u128);
    }
    proof {
        assert(out@ =~= git_status_spec(sdeep, ddeep));
    }
    out
}

/// The added and deleted counts of one diff-stat line, executably.
fn numstat_fields(l: &String) -> (r: (i64, i64))
    ensures
        r.0 as int == line_delta(l@).0,
        r.1 as int == line_delta(l@).1,
        -0x80000000 <= r.0 <= 0x80000000,
        -0x80000000 <= r.1 <= 0x80000000,
{
    let parts = split_char(l.as_str(), '\t');
    proof {
        assert(parts@.len() == views_of(parts@).len());
    }
    if parts.len() >= 2 {
        proof {
            assert(parts@[0]@ == views_of(parts@)[0]);
            assert(parts@[1]@ == views_of(parts@)[1]);
        }
        let a = match parse_i32_like(parts[0].as_str()) {
            Some(v) => v,
            None => 0,
        };
        let d = match parse_i32_like(parts[1].as_str()) {
            Some(v) => v,
            None => 0,
        };
        (a, d)
    } else {
        (0, 0)
    }
}

/// The ` ⇡N` / ` ⇣N` ahead/behind fragment, each part only when non-zero.
pub open spec fn ahead_behind_chars(ahead: int, behind: int) -> Seq<char> {
    (if ahead > 0 {
        seq![' ', '⇡'] + dec_chars(ahead)
    } else {
        Seq::<char>::empty()
    }) + (if behind > 0 {
        seq![' ', '⇣'] + dec_chars(behind)
    } else {
        Seq::<char>::empty()
    })
}

/// Renders the ahead/behind fragment.
pub fn render_ahead_behind(ahead: u64, behind: u64) -> (r: String)
    ensures
        r@ == ahead_behind_chars(ahead as int, behind as int),
{
    let mut out = new_string();
    if ahead > 0 {
        push_char(&mut out, ' ');
        push_char(&mut out, '⇡');
        crate::numfmt::push_dec_u128(&mut out, ahead as u128);
    }
    if behind > 0 {
        push_char(&mut out, ' ');
        push_char(&mut out, '⇣');
        crate::numfmt::push_dec_u128(&mut out, behind as u128);
    }
    proof {
        assert(out@ =~= ahead_behind_chars(ahead as int, behind as int));
    }
    out
}

/// Two tab-separated counts, as a left-right count query prints them.
pub open spec fn count_pair_spec(s: Seq<char>) -> Option<(u64, u64)> {
    let parts = split_char_spec(s, '\t');
    if parts.len() != 2 {
        None
    } else {
        match (crate::numfmt::parse_u64_spec(parts[0]), crate::numfmt::parse_u64_spec(parts[1])) {
            (Some(a), Some(b)) => Some((a, b)),
            _ => None,
        }
    }
}

/// Parses the two tab-separated counts of a left-right count query.
pub fn parse_count_pair(s: &str) -> (r: Option<(u64, u64)>)
    ensures
        r == count_pair_spec(s@),
{
    let parts = split_char(s, '\t');
    proof {
        assert(parts@.len() == views_of(parts@).len());
    }
    if parts.len() != 2 {
        return None;
    }
    proof {
        assert(parts@[0]@ == views_of(parts@)[0]);
        assert(parts@[1]@ == views_of(parts@)[1]);
    }
    let a = match crate::numfmt::parse_u64(parts[0].as_str()) {
        Some(a) => a,
        None => {
            return None;
        },
    };
    let b = match crate::numfmt::parse_u64(parts[1].as_str()) {
        Some(b) => b,
        None => {
            return None;
        },
    };
    Some((a, b))
}

/// The ` *` stash marker, present when the stash list has any entry.
pub open spec fn stash_chars(stash_entries: int) -> Seq<char> {
    if stash_entries > 0 {
        seq![' ', '*']
    } else {
        Seq::<char>::empty()
    }
}

/// Renders the stash marker.
pub fn render_stash(stash_entries: u64) -> (r: String)
    ensures
        r@ == stash_chars(stash_entries as int),
{
    let mut out = new_string();
    if stash_entries > 0 {
        push_char(&mut out, ' ');
        push_char(&mut out, '*');
    }
    proof {
        assert(out@ =~= stash_chars(stash_entries as int));
    }
    out
}

/// The whole repository status fragment: file counts and net delta, then
/// ahead/behind, then the stash marker.
pub fn render_repo_status(
    status_lines: &Vec<String>,
    diff_lines: &Vec<String>,
    ahead: u64,
    behind: u64,
    stash_entries: u64,
) -> (r: String)
    ensures
        r@ == git_status_spec(status_lines.deep_view(), diff_lines.deep_view())
            + ahead_behind_chars(ahead as int, behind as int) + stash_chars(stash_entries as int),
{
    let mut out = get_git_status(status_lines, diff_lines);
    let ab = render_ahead_behind(ahead, behind);
    crate::strutil::append_string(&mut out, &ab);
    let st = render_stash(stash_entries);
    crate::strutil::append_string(&mut out, &st);
    out
}

/// Whether a repository metadata directory lies inside a linked worktree.
pub fn is_worktree_git_dir(git_dir: &str) -> (r: bool)
    ensures
        r == contains_seq(git_dir@, "/.git/worktrees/"@),
{
    contains(git_dir, "/.git/worktrees/")
}

/// The last `/`-separated segment of a path or URL.
pub open spec fn last_segment_spec(s: Seq<char>) -> Seq<char> {
    split_char_spec(s, '/').last()
}

/// The last `/`-separated segment, executably.
pub fn last_segment(s: &str) -> (r: String)
    ensures
        r@ == last_segment_spec(s@),
{
    let parts = split_char(s, '/');
    proof {
        assert(parts@.len() == views_of(parts@).len());
        assert(parts@[parts@.len() - 1]@ == views_of(parts@)[parts@.len() - 1]);
    }
    let last = parts.len() - 1;
    crate::strutil::to_owned_string(parts[last].as_str())
}

/// Whether `s` ends with `suffix`.
pub open spec fn ends_with_seq(s: Seq<char>, suffix: Seq<char>) -> bool {
    crate::strutil::matches_at(s, suffix, s.len() - suffix.len())
}

/// The repository name a remote URL denotes: the last path segment without
/// its `.git` suffix; when the segment has no such suffix, the whole URL
/// stands in.
pub open spec fn repo_name_spec(url: Seq<char>) -> Seq<char> {
    let seg = last_segment_spec(url);
    if ends_with_seq(seg, ".git"@) {
        seg.take(seg.len() - 4)
    } else {
        url
    }
}

/// The repository name a remote URL denotes, executably.
pub fn repo_name_of(url: &str) -> (r: String)
    ensures
        r@ == repo_name_spec(url@),
{
    let seg = last_segment(url);
    let slen = seg.as_str().unicode_len();
    let sfx = ".git";
    proof {
        reveal_strlit(".git");
    }
    let sfxlen = sfx.unicode_len();
    if slen >= sfxlen {
        if crate::strutil::check_match_at(seg.as_str(), sfx, slen - sfxlen) {
            let piece = seg.as_str().substring_char(0, slen - sfxlen);
            proof {
                assert(piece@ =~= seg@.take(seg@.len() - 4));
            }
            return crate::strutil::to_owned_string(piece);
        }
    }
    crate::strutil::to_owned_string(url)
}

/// The branch fragment of a linked worktree: the marker alone when the
/// branch name repeats the worktree's directory name, the name and marker
/// otherwise.
pub open spec fn branch_display_spec(branch: Seq<char>, worktree_name: Seq<char>) -> Seq<char> {
    if branch == worktree_name {
        seq!['↟']
    } else {
        branch + seq!['↟']
    }
}

/// Renders the worktree branch fragment.
pub fn branch_display(branch: &str, worktree_name: &str) -> (r: String)
    ensures
        r@ == branch_display_spec(branch@, worktree_name@),
{
    let mut out = new_string();
    if !crate::strutil::str_eq(branch, worktree_name) {
        append_str(&mut out, branch);
    }
    push_char(&mut out, '↟');
    proof {
        assert(out@ =~= branch_display_spec(branch@, worktree_name@));
    }
    out
}

} // verus!
