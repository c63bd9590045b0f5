use statusline::checks::pr_status_from_output;
use statusline::strutil::split_lines;
use statusline::compose::{
    statusline, statusline_full, ContextInfo, CostInfo, FullInput, Snapshot, SnapshotUsage,
};
use statusline::display::fish_shorten_path;
use statusline::gitstatus::{
    branch_display, get_git_status, is_worktree_git_dir, parse_count_pair, render_ahead_behind,
    render_repo_status, render_stash, repo_name_of,
};
use statusline::pricing::PricingTable;

fn lines(ls: &[&str]) -> Vec<String> {
    ls.iter().map(|l| l.to_string()).collect()
}

#[test]
fn git_status_counts_each_class() {
    let status = lines(&["M  a.rs", " M b.rs", "?? c", "D  d", "A  e", "MM f"]);
    let s = get_git_status(&status, &lines(&[]));
    assert_eq!(s, " +2 ~2 -1 ?1");
}

#[test]
fn git_status_empty_output_is_empty() {
    assert_eq!(get_git_status(&lines(&[]), &lines(&["1\t2\tx.rs"])), "");
}

#[test]
fn git_status_net_delta() {
    let status = lines(&["?? c"]);
    let up = lines(&["10\t3\tx.rs", "2\t1\ty.rs"]);
    assert_eq!(get_git_status(&status, &up), " ?1 Δ+8");
    let down = lines(&["1\t5\tx.rs"]);
    assert_eq!(get_git_status(&status, &down), " ?1 Δ-4");
    let flat = lines(&["3\t3\tx.rs"]);
    assert_eq!(get_git_status(&status, &flat), " ?1");
}

#[test]
fn git_status_binary_numstat_counts_zero() {
    let status = lines(&["?? c"]);
    let diff = lines(&["-\t-\timg.png", "4\t1\tx.rs"]);
    assert_eq!(get_git_status(&status, &diff), " ?1 Δ+3");
}

#[test]
fn ahead_behind_fragments() {
    assert_eq!(render_ahead_behind(2, 3), " ⇡2 ⇣3");
    assert_eq!(render_ahead_behind(2, 0), " ⇡2");
    assert_eq!(render_ahead_behind(0, 3), " ⇣3");
    assert_eq!(render_ahead_behind(0, 0), "");
}

#[test]
fn count_pair_parses_two_fields() {
    assert_eq!(parse_count_pair("2\t3"), Some((2, 3)));
    assert_eq!(parse_count_pair("2"), None);
    assert_eq!(parse_count_pair("x\t3"), None);
}

#[test]
fn stash_marker() {
    assert_eq!(render_stash(2), " *");
    assert_eq!(render_stash(0), "");
}

#[test]
fn repo_status_combines_fragments() {
    let status = lines(&["?? c"]);
    let s = render_repo_status(&status, &lines(&[]), 1, 0, 1);
    assert_eq!(s, " ?1 ⇡1 *");
}

#[test]
fn repo_name_strips_git_suffix() {
    assert_eq!(repo_name_of("git@example.invalid:org/demo.git"), "demo");
    assert_eq!(repo_name_of("https://example.invalid/org/demo.git"), "demo");
    // without the suffix the whole URL stands in
    assert_eq!(
        repo_name_of("https://example.invalid/org/demo"),
        "https://example.invalid/org/demo"
    );
}

#[test]
fn worktree_detection_and_branch_marker() {
    assert!(is_worktree_git_dir("/repo/.git/worktrees/fix"));
    assert!(!is_worktree_git_dir("/repo/.git"));
    assert_eq!(branch_display("fix", "fix"), "↟");
    assert_eq!(branch_display("main", "fix"), "main↟");
}

#[test]
fn fish_paths_shorten_all_but_last() {
    assert_eq!(fish_shorten_path("/home/u/Projects/demo", "/home/u"), "~/P/demo");
    assert_eq!(fish_shorten_path("/home/u/.config/app", "/home/u"), "~/.c/app");
    assert_eq!(fish_shorten_path("/var/log/messages", "/home/u"), "/v/l/messages");
    assert_eq!(fish_shorten_path("plain", "/home/u"), "plain");
    assert_eq!(fish_shorten_path("/home/u", "/home/u"), "~");
}

#[test]
fn checks_render_buckets_in_order() {
    let out = pr_status_from_output(
        "[{\"bucket\":\"pass\",\"name\":\"build\"},{\"bucket\":\"fail\",\"name\":\"lint\"},{\"bucket\":\"pending\",\"name\":\"deploy\"},{\"bucket\":\"pass\",\"name\":\"test\"}]",
    );
    assert_eq!(out, "✗:lint ○:deploy ✓2");
}

#[test]
fn checks_ellipsis_and_counts() {
    let out = pr_status_from_output(
        "[{\"bucket\":\"fail\",\"name\":\"a\"},{\"bucket\":\"fail\",\"name\":\"b\"},{\"bucket\":\"fail\",\"name\":\"c\"},{\"bucket\":\"fail\",\"name\":\"d\"}]",
    );
    assert_eq!(out, "✗4:a,b,c...");
}

#[test]
fn checks_default_bucket_is_pending() {
    let out = pr_status_from_output("[{\"name\":\"probe\"}]");
    assert_eq!(out, "○:probe");
}

#[test]
fn checks_unknown_bucket_ignored_and_bad_output_empty() {
    assert_eq!(pr_status_from_output("[{\"bucket\":\"skipped\",\"name\":\"x\"}]"), "");
    assert_eq!(pr_status_from_output("not json"), "");
    assert_eq!(pr_status_from_output("{\"bucket\":\"fail\"}"), "");
}

fn base_full_input() -> FullInput {
    FullInput {
        current_dir: Some("/home/u/Projects/demo".to_string()),
        model_display_name: None,
        model_id: None,
        transcript_lines: None,
        session_id: None,
        context_capacity: 160000,
        is_repo: true,
        branch: "main".to_string(),
        git_dir: "/home/u/Projects/demo/.git".to_string(),
        repo_url: "git@example.invalid:org/demo.git".to_string(),
        status_lines: Vec::new(),
        diff_lines: Vec::new(),
        ahead: 0,
        behind: 0,
        stash_entries: 0,
        pr_url: String::new(),
        pr_status: String::new(),
        session_summary: None,
        home: "/home/u".to_string(),
        short_mode: false,
    }
}

#[test]
fn full_line_outside_repository_shows_path_only() {
    let mut inp = base_full_input();
    inp.is_repo = false;
    let out = statusline_full(&inp, &PricingTable::new());
    assert_eq!(out, "\x1b[36m~/Projects/demo\x1b[0m");
    assert!(!out.contains("[main"));
}

#[test]
fn full_line_without_directory_is_home_marker() {
    let mut inp = base_full_input();
    inp.current_dir = None;
    assert_eq!(statusline_full(&inp, &PricingTable::new()), "\x1b[36m~\x1b[0m");
}

#[test]
fn full_line_in_repository_shows_branch_and_context() {
    let inp = base_full_input();
    let out = statusline_full(&inp, &PricingTable::new());
    assert!(out.contains("[main]"));
    assert!(out.contains("\x1b[90m0%"));
    assert!(out.starts_with("\x1b[36m~/Projects/demo "));
}

#[test]
fn full_line_hides_standard_project_dir_in_short_mode() {
    let mut inp = base_full_input();
    inp.short_mode = true;
    let out = statusline_full(&inp, &PricingTable::new());
    assert!(out.starts_with("\x1b[32m[main]"));
}

#[test]
fn full_line_marks_worktrees() {
    let mut inp = base_full_input();
    inp.current_dir = Some("/home/u/trees/demo".to_string());
    inp.git_dir = "/home/u/Projects/demo/.git/worktrees/demo".to_string();
    inp.branch = "demo".to_string();
    let out = statusline_full(&inp, &PricingTable::new());
    assert!(out.contains("\x1b[35m[↟"));
}

#[test]
fn full_line_shows_ahead_behind_and_stash() {
    let mut inp = base_full_input();
    inp.status_lines = vec!["?? new".to_string()];
    inp.ahead = 2;
    inp.behind = 1;
    inp.stash_entries = 1;
    let out = statusline_full(&inp, &PricingTable::new());
    assert!(out.contains("[main ?1 ⇡2 ⇣1 *]"));
}

#[test]
fn full_line_joins_pr_url_and_status() {
    let mut inp = base_full_input();
    inp.pr_url = "https://example.invalid/pr/7".to_string();
    inp.pr_status = "✓2".to_string();
    let out = statusline_full(&inp, &PricingTable::new());
    assert!(out.contains("https://example.invalid/pr/7 ✓2\x1b[0m"));
}

fn base_snapshot() -> Snapshot {
    Snapshot {
        current_dir: Some("/home/u/Projects/demo".to_string()),
        model_display_name: None,
        output_style: None,
        context: None,
        cost: None,
        branch: String::new(),
        home: "/home/u".to_string(),
    }
}

#[test]
fn snapshot_line_warns_on_missing_directory() {
    let mut s = base_snapshot();
    s.current_dir = None;
    assert_eq!(
        statusline(&s),
        "\x1b[31m\u{f071} missing workspace.current_dir\x1b[0m"
    );
}

#[test]
fn snapshot_line_plain_directory() {
    let s = base_snapshot();
    assert_eq!(statusline(&s), "\x1b[36m~/P/demo\x1b[0m");
}

#[test]
fn snapshot_line_with_branch_and_lines_changed() {
    let mut s = base_snapshot();
    s.branch = "main".to_string();
    s.cost = Some(CostInfo {
        total_cost_nanos: None,
        total_lines_added: Some(3),
        total_lines_removed: Some(1),
    });
    let out = statusline(&s);
    assert!(out.contains("\x1b[32mmain(\x1b[32m+3\x1b[0m \x1b[31m-1\x1b[0m)"));
}

#[test]
fn snapshot_line_context_bar() {
    let mut s = base_snapshot();
    s.context = Some(ContextInfo {
        context_window_size: Some(200000),
        current_usage: Some(SnapshotUsage {
            input_tokens: Some(100000),
            cache_creation_input_tokens: None,
            cache_read_input_tokens: None,
        }),
    });
    let out = statusline(&s);
    // half usage: eight of fifteen bar cells, yellow, fifty percent
    let bar: String =
        std::iter::repeat('█').take(8).chain(std::iter::repeat('░').take(7)).collect();
    assert!(out.contains(&bar));
    assert!(out.contains("\x1b[33m50%"));
}

#[test]
fn snapshot_line_cost_component() {
    let mut s = base_snapshot();
    s.cost = Some(CostInfo {
        total_cost_nanos: Some(12_340_000_000),
        total_lines_added: None,
        total_lines_removed: None,
    });
    let out = statusline(&s);
    assert!(out.contains("\x1b[33m12.34\x1b[0m"));
}

#[test]
fn split_lines_matches_line_semantics() {
    assert_eq!(split_lines(""), Vec::<String>::new());
    assert_eq!(split_lines("a\nb"), vec!["a", "b"]);
    assert_eq!(split_lines("a\nb\n"), vec!["a", "b"]);
    assert_eq!(split_lines("a\r\nb\r\n"), vec!["a", "b"]);
    assert_eq!(split_lines("a\n\nb"), vec!["a", "", "b"]);
    assert_eq!(split_lines("\n"), vec![""]);
    assert_eq!(split_lines("a\r"), vec!["a\r"]);
}
