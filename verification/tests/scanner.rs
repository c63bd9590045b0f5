use statusline::display::{format_cost, format_cost_dollars, format_tokens};
use statusline::pricing::{ModelPricing, PricingTable};
use statusline::transcript::{
    calculate_session_cost, get_context_pct, get_first_user_message, get_session_duration,
    shell_escape_message,
};

fn lines(ls: &[&str]) -> Vec<String> {
    ls.iter().map(|l| l.to_string()).collect()
}

fn assistant_usage_line(ts: i64, input: u64, output: u64) -> String {
    format!(
        "{{\"timestamp\":{},\"message\":{{\"role\":\"assistant\",\"usage\":{{\"input_tokens\":{},\"output_tokens\":{}}}}}}}",
        ts, input, output
    )
}

fn test_table() -> PricingTable {
    let mut t = PricingTable::new();
    t.push_model(
        "test-model",
        ModelPricing {
            input_nanos: 3000,
            output_nanos: 15000,
            cache_creation_nanos: Some(3750),
            cache_read_nanos: Some(300),
        },
    );
    t.push_model(
        "bare-model",
        ModelPricing {
            input_nanos: 1000,
            output_nanos: 5000,
            cache_creation_nanos: None,
            cache_read_nanos: None,
        },
    );
    t
}

#[test]
fn pct_empty_transcript() {
    assert_eq!(get_context_pct(&lines(&[]), 50, 160000), "0");
}

#[test]
fn pct_basic_half() {
    let ls = lines(&[&assistant_usage_line(5, 80000, 0)]);
    assert_eq!(get_context_pct(&ls, 50, 160000), "50");
}

#[test]
fn pct_latest_timestamp_wins() {
    let ls = lines(&[
        &assistant_usage_line(5, 16000, 0),
        &assistant_usage_line(9, 32000, 0),
    ]);
    assert_eq!(get_context_pct(&ls, 50, 160000), "20");
    let rev = lines(&[
        &assistant_usage_line(9, 32000, 0),
        &assistant_usage_line(5, 16000, 0),
    ]);
    assert_eq!(get_context_pct(&rev, 50, 160000), "20");
}

#[test]
fn pct_tie_keeps_first_seen() {
    let ls = lines(&[
        &assistant_usage_line(7, 16000, 0),
        &assistant_usage_line(7, 32000, 0),
    ]);
    assert_eq!(get_context_pct(&ls, 50, 160000), "10");
}

#[test]
fn pct_exactly_ninety_has_one_decimal() {
    let ls = lines(&[&assistant_usage_line(1, 144000, 0)]);
    assert_eq!(get_context_pct(&ls, 50, 160000), "90.0");
}

#[test]
fn pct_below_ninety_is_whole() {
    // 89.9 percent: rendered as a rounded whole number
    let ls = lines(&[&assistant_usage_line(1, 143840, 0)]);
    assert_eq!(get_context_pct(&ls, 50, 160000), "90");
    // 89.375 percent rounds down
    let low = lines(&[&assistant_usage_line(1, 143000, 0)]);
    assert_eq!(get_context_pct(&low, 50, 160000), "89");
}

#[test]
fn pct_clamped_at_hundred() {
    let ls = lines(&[&assistant_usage_line(1, 400000, 0)]);
    assert_eq!(get_context_pct(&ls, 50, 160000), "100.0");
}

#[test]
fn pct_counts_all_four_usage_fields() {
    let line = "{\"timestamp\":1,\"message\":{\"role\":\"assistant\",\"usage\":{\"input_tokens\":10000,\"output_tokens\":10000,\"cache_read_input_tokens\":10000,\"cache_creation_input_tokens\":10000}}}";
    assert_eq!(get_context_pct(&lines(&[line]), 50, 160000), "25");
}

#[test]
fn pct_textual_timestamp_is_parsed() {
    let line = "{\"timestamp\":\"2024-01-01T00:00:05Z\",\"message\":{\"role\":\"assistant\",\"usage\":{\"input_tokens\":80000}}}";
    assert_eq!(get_context_pct(&lines(&[line]), 50, 160000), "50");
}

#[test]
fn pct_skips_blank_garbage_and_other_roles() {
    let user = "{\"timestamp\":9,\"message\":{\"role\":\"user\",\"usage\":{\"input_tokens\":150000}}}";
    let ls = lines(&["", "   ", "not json at all", user, &assistant_usage_line(2, 16000, 0)]);
    assert_eq!(get_context_pct(&ls, 50, 160000), "10");
}

#[test]
fn pct_only_scans_trailing_window() {
    let mut raw: Vec<String> = vec![assistant_usage_line(100, 80000, 0)];
    for _ in 0..50 {
        raw.push(String::new());
    }
    assert_eq!(get_context_pct(&raw, 50, 160000), "0");
}

#[test]
fn pct_zero_capacity_renders_zero() {
    let ls = lines(&[&assistant_usage_line(1, 80000, 0)]);
    assert_eq!(get_context_pct(&ls, 50, 0), "0");
}

#[test]
fn duration_absent_below_two_nonblank_lines() {
    assert_eq!(get_session_duration(&lines(&[])), None);
    assert_eq!(get_session_duration(&lines(&["{\"timestamp\":5}"])), None);
    assert_eq!(get_session_duration(&lines(&["{\"timestamp\":5}", "   ", ""])), None);
}

#[test]
fn duration_absent_below_two_parseable_records() {
    // two non-blank lines, but only one parses as a record
    let ls = lines(&["not a record", "{\"timestamp\":60000}"]);
    assert_eq!(get_session_duration(&ls), None);
    // still absent when the single record sits among more non-blank lines
    let ls2 = lines(&["garbage", "more garbage", "{\"timestamp\":3720000}"]);
    assert_eq!(get_session_duration(&ls2), None);
    // two records suffice even when only one bears a timestamp field
    let ls3 = lines(&["{}", "{\"timestamp\":60000}"]);
    assert_eq!(get_session_duration(&ls3).unwrap(), "<1m");
}

#[test]
fn duration_hours_and_minutes() {
    let ls = lines(&["{\"timestamp\":0}", "{\"timestamp\":3720000}"]);
    assert_eq!(get_session_duration(&ls).unwrap(), "1h2m");
}

#[test]
fn duration_minutes_only() {
    let ls = lines(&["{\"timestamp\":0}", "{\"timestamp\":300000}"]);
    assert_eq!(get_session_duration(&ls).unwrap(), "5m");
}

#[test]
fn duration_under_a_minute() {
    let ls = lines(&["{\"timestamp\":0}", "{\"timestamp\":59999}"]);
    assert_eq!(get_session_duration(&ls).unwrap(), "<1m");
}

#[test]
fn duration_from_calendar_timestamps() {
    let ls = lines(&[
        "{\"timestamp\":\"2024-01-01T00:00:00Z\"}",
        "{\"timestamp\":\"2024-01-01T01:02:00Z\"}",
    ]);
    assert_eq!(get_session_duration(&ls).unwrap(), "1h2m");
}

#[test]
fn duration_absent_on_unparseable_first_timestamp() {
    let ls = lines(&["{\"timestamp\":\"bogus\"}", "{\"timestamp\":60000}"]);
    assert_eq!(get_session_duration(&ls), None);
}

#[test]
fn duration_negative_span_renders_under_a_minute() {
    let ls = lines(&["{\"timestamp\":7200000}", "{\"timestamp\":0}"]);
    assert_eq!(get_session_duration(&ls).unwrap(), "<1m");
}

#[test]
fn cost_absent_for_unknown_model() {
    let table = test_table();
    let ls = lines(&[&assistant_usage_line(1, 1000000, 1000000)]);
    assert_eq!(calculate_session_cost(&ls, "mystery-model", &table), None);
}

#[test]
fn cost_zero_usage_is_suppressed() {
    let table = test_table();
    let ls = lines(&[&assistant_usage_line(1, 0, 0)]);
    assert_eq!(calculate_session_cost(&ls, "test-model", &table), None);
}

#[test]
fn cost_positive_when_any_field_charged() {
    let table = test_table();
    let ls = lines(&[&assistant_usage_line(1, 1, 0)]);
    let c = calculate_session_cost(&ls, "test-model", &table).unwrap();
    assert!(c > 0);
}

#[test]
fn cost_thousand_in_five_hundred_out() {
    // 1000 x 3e-6 + 500 x 15e-6 dollars, in nanodollars
    let table = test_table();
    let ls = lines(&[&assistant_usage_line(1, 1000, 500)]);
    let c = calculate_session_cost(&ls, "test-model", &table).unwrap();
    assert_eq!(c, 10_500_000);
    assert_eq!(format_cost_dollars(c), "$0.01");
}

#[test]
fn cost_additive_over_disjoint_subsets() {
    let table = test_table();
    let a = lines(&[&assistant_usage_line(1, 1000, 500)]);
    let b = lines(&[
        &assistant_usage_line(2, 7000, 300),
        &assistant_usage_line(3, 11, 17),
    ]);
    let mut union = a.clone();
    union.extend(b.iter().cloned());
    let ca = calculate_session_cost(&a, "test-model", &table).unwrap();
    let cb = calculate_session_cost(&b, "test-model", &table).unwrap();
    let cu = calculate_session_cost(&union, "test-model", &table).unwrap();
    assert_eq!(ca + cb, cu);
}

#[test]
fn cost_order_independent() {
    let table = test_table();
    let a = lines(&[&assistant_usage_line(1, 1000, 500)]);
    let b = lines(&[&assistant_usage_line(2, 7000, 300)]);
    let mut ab = a.clone();
    ab.extend(b.iter().cloned());
    let mut ba = b.clone();
    ba.extend(a.iter().cloned());
    assert_eq!(
        calculate_session_cost(&ab, "test-model", &table),
        calculate_session_cost(&ba, "test-model", &table)
    );
}

#[test]
fn cost_accepts_both_record_shapes() {
    let table = test_table();
    let nested = assistant_usage_line(1, 1000, 0);
    let top_level =
        "{\"type\":\"assistant\",\"message\":{\"usage\":{\"input_tokens\":1000}}}".to_string();
    let ls = vec![nested, top_level];
    // both lines are charged: 2000 tokens x 3e-6 dollars
    assert_eq!(calculate_session_cost(&ls, "test-model", &table), Some(6_000_000));
}

#[test]
fn cost_nested_role_overrides_top_level_type() {
    let table = test_table();
    let line =
        "{\"message\":{\"role\":\"user\",\"usage\":{\"input_tokens\":1000}},\"type\":\"assistant\"}";
    assert_eq!(calculate_session_cost(&lines(&[line]), "test-model", &table), None);
}

#[test]
fn cost_cache_rates_only_when_defined() {
    let table = test_table();
    let line = "{\"message\":{\"role\":\"assistant\",\"usage\":{\"cache_creation_input_tokens\":1000,\"cache_read_input_tokens\":1000}}}";
    // with cache rates: 1000 x 3750 + 1000 x 300 nanodollars
    assert_eq!(
        calculate_session_cost(&lines(&[line]), "test-model", &table),
        Some(4_050_000)
    );
    // without cache rates the same record costs nothing
    assert_eq!(calculate_session_cost(&lines(&[line]), "bare-model", &table), None);
}

#[test]
fn cost_skips_malformed_lines() {
    let table = test_table();
    let ls = lines(&[
        &assistant_usage_line(1, 1000, 500),
        "{{{corrupt",
        &assistant_usage_line(2, 1000, 500),
    ]);
    assert_eq!(calculate_session_cost(&ls, "test-model", &table), Some(21_000_000));
}

#[test]
fn first_user_message_picks_substantial_text() {
    let ls = lines(&[
        "{\"message\":{\"role\":\"user\",\"content\":\"/compact\"}}",
        "{\"message\":{\"role\":\"user\",\"content\":\"Caveat: the following is injected\"}}",
        "{\"message\":{\"role\":\"user\",\"content\":\"short\"}}",
        "{\"message\":{\"role\":\"user\",\"content\":\"  please refactor the scanner module for clarity  \"}}",
    ]);
    assert_eq!(
        get_first_user_message(&ls).unwrap(),
        "please refactor the scanner module for clarity"
    );
}

#[test]
fn first_user_message_reads_content_lists() {
    let ls = lines(&[
        "{\"message\":{\"role\":\"user\",\"content\":[{\"text\":\"summarize the cache design notes for me\"}]}}",
    ]);
    assert_eq!(
        get_first_user_message(&ls).unwrap(),
        "summarize the cache design notes for me"
    );
}

#[test]
fn first_user_message_skips_assistant_and_placeholder() {
    let ls = lines(&[
        "{\"message\":{\"role\":\"assistant\",\"content\":\"a long enough assistant reply here\"}}",
        "{\"message\":{\"role\":\"user\",\"content\":\"this message holds (no content) inside it\"}}",
    ]);
    assert_eq!(get_first_user_message(&ls), None);
}

#[test]
fn shell_escape_quotes_and_cuts() {
    let escaped = shell_escape_message("a\\b \"c\" $d `e` 'f'");
    assert_eq!(escaped, "a\\\\b \\\"c\\\" \\$d \\`e\\` '\\''f'\\''");
    let long: String = std::iter::repeat('x').take(600).collect();
    let cut = shell_escape_message(&long);
    assert_eq!(cut.chars().count(), 500);
}

#[test]
fn format_tokens_scales() {
    assert_eq!(format_tokens(0), "0.0k");
    assert_eq!(format_tokens(999), "1.0k");
    assert_eq!(format_tokens(9949), "9.9k");
    assert_eq!(format_tokens(12500), "12k");
    assert_eq!(format_tokens(13500), "14k");
    assert_eq!(format_tokens(99499), "99k");
    assert_eq!(format_tokens(123456), "123k");
    assert_eq!(format_tokens(250500), "251k");
}

#[test]
fn format_cost_decimals() {
    assert_eq!(format_cost(5_000_000), "0.005");
    assert_eq!(format_cost(9_999_999), "0.010");
    assert_eq!(format_cost(10_500_000), "0.01");
    assert_eq!(format_cost(123_456_789), "0.12");
    assert_eq!(format_cost(1_234_567_890), "1.23");
    assert_eq!(format_cost(0), "0.000");
}

#[test]
fn empty_transcript_yields_nothing() {
    let table = test_table();
    let empty: Vec<String> = Vec::new();
    assert_eq!(get_context_pct(&empty, 50, 160000), "0");
    assert_eq!(get_session_duration(&empty), None);
    assert_eq!(calculate_session_cost(&empty, "test-model", &table), None);
    assert_eq!(get_first_user_message(&empty), None);
}

#[test]
fn format_tokens_largest_count() {
    assert_eq!(format_tokens(u64::MAX), "18446744073709552k");
}

#[test]
fn pricing_first_entry_wins_on_equal_keys() {
    let mut t = PricingTable::new();
    t.push_model(
        "twice",
        ModelPricing {
            input_nanos: 1000,
            output_nanos: 1000,
            cache_creation_nanos: None,
            cache_read_nanos: None,
        },
    );
    t.push_model(
        "twice",
        ModelPricing {
            input_nanos: 9000,
            output_nanos: 9000,
            cache_creation_nanos: None,
            cache_read_nanos: None,
        },
    );
    assert_eq!(t.lookup("twice").unwrap().input_nanos, 1000);
    assert!(t.lookup("thrice").is_none());
}
