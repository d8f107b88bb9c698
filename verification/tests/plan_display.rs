use mergify_stack::plan_display::{PlanRow, render_plan};

fn row(sha: &str, subject: &str, change_id: &str, action: Option<&str>) -> PlanRow {
    PlanRow {
        sha: sha.to_string(),
        subject: subject.to_string(),
        change_id: change_id.to_string(),
        action: action.map(str::to_string),
    }
}

#[test]
fn title_only_when_no_rows() {
    assert_eq!(render_plan("Drop plan:", &vec![]), vec!["Drop plan:"]);
}

#[test]
fn cid_shown_when_present() {
    let rows = vec![row(
        "abc123def4567890",
        "Add the thing",
        "I0123456789abcdef",
        None,
    )];
    assert_eq!(
        render_plan("Move plan:", &rows),
        vec![
            "Move plan:".to_string(),
            "  1. abc123def456 Add the thing (I0123456789a)".to_string(),
        ],
    );
}

#[test]
fn cid_omitted_when_absent() {
    let rows = vec![row("abc123def4567890", "No change id", "", None)];
    assert_eq!(
        render_plan("Move plan:", &rows),
        vec![
            "Move plan:".to_string(),
            "  1. abc123def456 No change id".to_string(),
        ],
    );
}

#[test]
fn action_tag_appended_when_present() {
    let rows = vec![row(
        "abc123def4567890",
        "Drop me",
        "I0123456789abcdef",
        Some("drop"),
    )];
    assert_eq!(
        render_plan("Drop plan:", &rows),
        vec![
            "Drop plan:".to_string(),
            "  1. abc123def456 Drop me (I0123456789a) [drop]".to_string(),
        ],
    );
}

#[test]
fn action_tag_without_cid() {
    let rows = vec![row("abc123def4567890", "Drop me", "", Some("drop"))];
    assert_eq!(
        render_plan("Drop plan:", &rows),
        vec![
            "Drop plan:".to_string(),
            "  1. abc123def456 Drop me [drop]".to_string(),
        ],
    );
}

#[test]
fn sha_and_change_id_truncated_to_twelve() {
    // Full 40-hex SHA and full I+40-hex Change-Id both truncate to exactly 12
    // chars.
    let rows = vec![row(
        "0123456789abcdef0123456789abcdef01234567",
        "Long ids",
        "I0123456789abcdef0123456789abcdef01234567",
        Some("fixup"),
    )];
    assert_eq!(
        render_plan("Fixup plan:", &rows),
        vec![
            "Fixup plan:".to_string(),
            "  1. 0123456789ab Long ids (I0123456789a) [fixup]".to_string(),
        ],
    );
}

#[test]
fn short_sha_and_cid_are_left_intact() {
    let rows = vec![row("abc", "Short", "I12", None)];
    assert_eq!(
        render_plan("Reorder plan:", &rows),
        vec![
            "Reorder plan:".to_string(),
            "  1. abc Short (I12)".to_string(),
        ],
    );
}

#[test]
fn multi_row_numbering_is_one_based_and_sequential() {
    let rows = vec![
        row("aaaa111111111111", "First", "Iaaaa11112222", Some("fixup")),
        row("bbbb222222222222", "Second", "", None),
        row("cccc333333333333", "Third", "Icccc33334444", None),
    ];
    assert_eq!(
        render_plan("Squash plan:", &rows),
        vec![
            "Squash plan:".to_string(),
            "  1. aaaa11111111 First (Iaaaa1111222) [fixup]".to_string(),
            "  2. bbbb22222222 Second".to_string(),
            "  3. cccc33333333 Third (Icccc3333444)".to_string(),
        ],
    );
}
