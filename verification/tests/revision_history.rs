use mergify_stack::change_type::ChangeType;
use mergify_stack::revision_history::{
    MARKER_PREFIX, MARKER_SUFFIX, MAX_REASON_LEN, RevisionHistoryComment, escape_reason,
};
use mergify_stack::timestamp::Timestamp;

fn t() -> Timestamp {
    // 2026-06-04 12:30:00 UTC
    Timestamp::new(1_780_576_200, 0).unwrap()
}

#[test]
fn escape_reason_handles_backslash_pipe_newline_and_truncation() {
    assert_eq!(escape_reason(""), "");
    assert_eq!(escape_reason("a|b"), "a\\|b");
    assert_eq!(escape_reason("a\nb"), "a<br>b");
    assert_eq!(escape_reason("a\\b"), "a\\\\b");
    let long = "x".repeat(MAX_REASON_LEN + 50);
    let out = escape_reason(&long);
    assert_eq!(out.chars().count(), MAX_REASON_LEN);
    assert!(out.ends_with('…'));
}

#[test]
fn compare_url_strips_api_v3_for_ghe_and_api_dot_github_dot_com_for_dotcom() {
    let c = RevisionHistoryComment {
        github_server: "https://api.github.com".into(),
        user: "o".into(),
        repo: "r".into(),
        entries: Vec::new(),
        raw_rows: Vec::new(),
    };
    assert_eq!(
        c.compare_url("aaa", "bbb"),
        "https://github.com/o/r/compare/aaa...bbb",
    );

    let ghe = RevisionHistoryComment {
        github_server: "https://ghe.example.com/api/v3".into(),
        user: "o".into(),
        repo: "r".into(),
        entries: Vec::new(),
        raw_rows: Vec::new(),
    };
    assert_eq!(
        ghe.compare_url("aaa", "bbb"),
        "https://ghe.example.com/o/r/compare/aaa...bbb",
    );

    let trailing = RevisionHistoryComment {
        github_server: "https://api.github.com/".into(),
        user: "o".into(),
        repo: "r".into(),
        entries: Vec::new(),
        raw_rows: Vec::new(),
    };
    assert_eq!(
        trailing.compare_url("aaa", "bbb"),
        "https://github.com/o/r/compare/aaa...bbb",
    );
}

#[test]
fn body_renders_initial_and_rebase_and_content_rows() {
    let mut c = RevisionHistoryComment::create_initial(
        "https://api.github.com",
        "o",
        "r",
        "1234567abcdef",
        "abcdef1234567",
        ChangeType::Content,
        t(),
        "review feedback",
        None,
    );
    c.append(
        "abcdef1234567",
        "fedcba7654321",
        ChangeType::Rebase,
        t(),
        "",
        None,
    );

    let body = c.body(42);

    assert!(body.contains("| 1 | initial | `1234567` |  | 2026-06-04 12:30 UTC |"));
    assert!(body.contains(
        "| 2 | content | [`1234567 \u{2192} abcdef1`](https://github.com/o/r/compare/1234567abcdef...abcdef1234567) | review feedback | 2026-06-04 12:30 UTC |"
    ));
    assert!(body.contains(
        "| 3 | rebase | `abcdef1 \u{2192} fedcba7` _(rebase only)_ |  | 2026-06-04 12:30 UTC |"
    ));
}

#[test]
fn body_replay_sha_is_used_for_headline_url_with_raw_fallback() {
    let c = RevisionHistoryComment::create_initial(
        "https://api.github.com",
        "o",
        "r",
        "1234567abcdef",
        "abcdef1234567",
        ChangeType::Content,
        t(),
        "edit",
        Some("ffffffffffffff"),
    );
    let body = c.body(42);
    assert!(body.contains(
        "[`1234567 \u{2192} abcdef1`](https://github.com/o/r/compare/1234567abcdef...ffffffffffffff) ([raw](https://github.com/o/r/compare/1234567abcdef...abcdef1234567))"
    ));
}

#[test]
fn json_marker_contains_compare_url_and_replay_sha_for_each_entry() {
    let c = RevisionHistoryComment::create_initial(
        "https://api.github.com",
        "o",
        "r",
        "1234567abcdef",
        "abcdef1234567",
        ChangeType::Content,
        t(),
        "edit",
        Some("ffffffffffffff"),
    );
    let body = c.body(42);
    let line = body
        .lines()
        .find(|l| l.starts_with(MARKER_PREFIX))
        .expect("marker");
    assert!(line.ends_with(MARKER_SUFFIX));
    let payload = &line[MARKER_PREFIX.len()..line.len() - MARKER_SUFFIX.len()];
    let v: serde_json::Value = serde_json::from_str(payload).unwrap();
    assert_eq!(v["schema_version"], 1);
    assert_eq!(v["pull_number"], 42);
    assert_eq!(v["entries"][0]["change_type"], "initial");
    assert_eq!(v["entries"][0]["old_sha"], serde_json::Value::Null);
    assert_eq!(v["entries"][0]["compare_url"], serde_json::Value::Null);
    assert_eq!(v["entries"][1]["change_type"], "content");
    assert_eq!(v["entries"][1]["replay_sha"], "ffffffffffffff");
    assert_eq!(
        v["entries"][1]["compare_url"],
        "https://github.com/o/r/compare/1234567abcdef...ffffffffffffff",
    );
    assert_eq!(v["entries"][1]["timestamp_iso"], "2026-06-04T12:30:00Z");
}

#[test]
fn is_revision_comment_matches_first_line_only() {
    assert!(RevisionHistoryComment::is_revision_comment(
        "### Revision history\nbody",
    ));
    assert!(!RevisionHistoryComment::is_revision_comment(
        "### Revision history details"
    ));
    assert!(!RevisionHistoryComment::is_revision_comment(
        "Some other comment",
    ));
}

#[test]
fn parse_round_trips_a_rendered_body() {
    let mut c = RevisionHistoryComment::create_initial(
        "https://api.github.com",
        "o",
        "r",
        "1234567abcdef",
        "abcdef1234567",
        ChangeType::Content,
        t(),
        "fix lint",
        None,
    );
    c.append(
        "abcdef1234567",
        "fedcba7654321",
        ChangeType::Rebase,
        t(),
        "",
        None,
    );
    let body = c.body(42);

    let parsed = RevisionHistoryComment::parse(&body, "https://api.github.com", "o", "r")
        .expect("parses back");
    assert_eq!(parsed.entries.len(), 3);
    assert_eq!(parsed.entries[0].old_sha, None);
    assert_eq!(parsed.entries[0].new_sha, "1234567abcdef");
    assert_eq!(parsed.entries[1].reason, "fix lint");
    assert_eq!(parsed.entries[1].change_type, ChangeType::Content);
    assert_eq!(parsed.entries[2].change_type, ChangeType::Rebase);

    let rerendered = parsed.body(42);
    assert_eq!(rerendered, body);
}

#[test]
fn parse_returns_none_for_non_revision_comments() {
    assert!(
        RevisionHistoryComment::parse(
            "Some other comment body",
            "https://api.github.com",
            "o",
            "r",
        )
        .is_none()
    );
}

#[test]
fn parse_returns_none_when_marker_line_is_corrupted() {
    let body = "### Revision history\n\
                | # | Type | Changes | Date | Reason |\n\
                |---|------|---------|------|--------|\n\
                | 1 | initial | `1234567` | 2026-06-04 12:30 UTC | |\n\
                <!-- mergify-revision-data: {\"schema_version\": -->\n";
    assert!(RevisionHistoryComment::parse(body, "https://api.github.com", "o", "r").is_none());
}

#[test]
fn parse_handles_4_column_legacy_rows_when_marker_missing() {
    let body = "### Revision history\n\
                | # | Type | Changes | Date |\n\
                |---|------|---------|------|\n\
                | 1 | initial | `1234567` | 2026-06-04 12:30 UTC |\n\
                | 2 | content | `1234567 \u{2192} abcdef1` | 2026-06-04 12:30 UTC |\n";
    let parsed = RevisionHistoryComment::parse(body, "https://api.github.com", "o", "r")
        .expect("parses");
    assert_eq!(parsed.entries.len(), 2);
    assert_eq!(parsed.entries[0].change_type, ChangeType::Initial);
    assert_eq!(parsed.entries[1].change_type, ChangeType::Content);
    assert!(parsed.entries[0].new_sha.is_empty());
}

#[test]
fn a_reason_is_cut_after_it_is_escaped() {
    let pipes = "|".repeat(MAX_REASON_LEN);
    let out = escape_reason(&pipes);
    assert_eq!(out.chars().count(), MAX_REASON_LEN);
    assert_eq!(out, "\\|".repeat(99) + "\\…");
    let short = "|".repeat(MAX_REASON_LEN / 2);
    assert_eq!(escape_reason(&short), "\\|".repeat(100));
}

#[test]
fn historic_rows_are_kept_when_a_revision_is_added() {
    let first = RevisionHistoryComment::create_initial(
        "https://api.github.com",
        "o",
        "r",
        "1234567abcdef",
        "abcdef1234567",
        ChangeType::Content,
        t(),
        "a | b\nc",
        Some("ffffffffffffff"),
    )
    .body(42);
    let mut parsed =
        RevisionHistoryComment::parse(&first, "https://other.example.com", "x", "y").unwrap();
    assert_eq!(parsed.entries[1].reason, "a | b\nc");
    assert_eq!(parsed.entries[1].replay_sha.as_deref(), Some("ffffffffffffff"));
    assert_eq!(parsed.entries[1].timestamp, Some(t()));
    parsed.append("abcdef1234567", "fedcba7654321", ChangeType::Rebase, t(), "", None);
    let second = parsed.body(42);
    for row in first.lines().filter(|l| l.starts_with("| 1 ") || l.starts_with("| 2 ")) {
        assert!(second.lines().any(|l| l == row), "{row}");
    }
    assert!(second.contains("| 3 | rebase |"));
}

#[test]
fn the_marker_is_the_json_of_serde() {
    let body = RevisionHistoryComment::create_initial(
        "https://api.github.com",
        "o",
        "r",
        "1234567abcdef",
        "abcdef1234567",
        ChangeType::Content,
        t(),
        "quote \" slash \\ tab \t bell \u{7} é 🎉",
        None,
    )
    .json_marker(7);
    let payload = body
        .strip_prefix(MARKER_PREFIX)
        .unwrap()
        .strip_suffix(MARKER_SUFFIX)
        .unwrap();
    let v: serde_json::Value = serde_json::from_str(payload).unwrap();
    assert_eq!(v["pull_number"], 7);
    assert_eq!(
        v["entries"][1]["reason"],
        "quote \" slash \\ tab \t bell \u{7} é 🎉"
    );
    assert_eq!(v["entries"][1]["replay_sha"], serde_json::Value::Null);
}

#[test]
fn the_type_of_a_row_is_a_word() {
    let body = |kind: &str| {
        format!(
            "### Revision history\n| # | Type | Changes | Date |\n|---|------|---------|------|\n\
             | 1 | {kind} | `1234567` | 2026-06-04 12:30 UTC |\n"
        )
    };
    let entries = |kind: &str| {
        RevisionHistoryComment::parse(&body(kind), "https://api.github.com", "o", "r")
            .map_or(0, |h| h.entries.len())
    };
    assert_eq!(entries("initial"), 1);
    assert_eq!(entries("été_2"), 1);
    assert_eq!(entries("a-b"), 0);
    assert_eq!(entries("→"), 0);
}
