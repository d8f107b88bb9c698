use mergify_stack::changes::{Action, LocalChange};
use mergify_stack::pull::Pull;
use mergify_stack::push_helpers::{build_change_tasks, format_pull_description};

fn numbered(number: u64) -> Pull {
    Pull {
        number: Some(number),
        ..Pull::default()
    }
}

fn change(action: Action, pull: Option<Pull>) -> LocalChange {
    LocalChange {
        commit_sha: "deadbeef".to_string(),
        title: "t".to_string(),
        message: "m".to_string(),
        change_id: "Iaaaaaaaaaaaaaaaaaaaaaaaaaaaaaaaaaaaaaaaa".to_string(),
        action,
        pull,
        note: String::new(),
    }
}

#[test]
fn format_strips_change_id_trailer() {
    let msg = "feat: x\n\nChange-Id: Iaaaaaaaaaaaaaaaaaaaaaaaaaaaaaaaaaaaaaaaa\n";
    assert_eq!(format_pull_description(msg, None), "feat: x");
}

#[test]
fn format_strips_stale_depends_on_lines_and_preserves_internal_blanks() {
    let msg = "feat: x\n\nDepends-On: #999\n\nbody";
    assert_eq!(
        format_pull_description(msg, None),
        "feat: x\n\n\n\nbody",
    );
}

#[test]
fn format_appends_depends_on_when_predecessor_is_known() {
    let msg = "feat: x\n\nbody\n\nChange-Id: Iaaaaaaaaaaaaaaaaaaaaaaaaaaaaaaaaaaaaaaaa\n";
    let out = format_pull_description(msg, Some(42));
    assert!(out.ends_with("\n\nDepends-On: #42"));
    assert!(!out.contains("Change-Id"));
}

#[test]
fn format_preserves_body_when_no_trailers_present() {
    let out = format_pull_description("feat: x\n\nbody", None);
    assert_eq!(out, "feat: x\n\nbody");
}

#[test]
fn build_assigns_depends_on_anchors_in_order() {
    let locals = vec![
        change(Action::Create, None),
        change(Action::Create, None),
        change(Action::Create, None),
    ];
    let tasks = build_change_tasks(&locals);
    assert_eq!(tasks[0].depends_on_index, None);
    assert_eq!(tasks[1].depends_on_index, Some(0));
    assert_eq!(tasks[2].depends_on_index, Some(1));
}

#[test]
fn build_marks_creates_as_not_ready_and_updates_as_ready_with_pull() {
    let locals = vec![
        change(Action::Create, None),
        change(Action::Update, Some(numbered(2))),
        change(Action::SkipUpToDate, Some(numbered(3))),
        change(Action::SkipMerged, Some(numbered(4))),
    ];
    let tasks = build_change_tasks(&locals);
    assert!(!tasks[0].pull_ready_at_start);
    assert!(tasks[1].pull_ready_at_start);
    assert!(tasks[2].pull_ready_at_start);
    assert!(tasks[3].pull_ready_at_start);
}

#[test]
fn build_skip_merged_does_not_anchor_next_task_dependency() {
    let locals = vec![
        change(Action::Update, Some(numbered(1))),
        change(Action::SkipMerged, Some(numbered(99))),
        change(Action::Create, None),
    ];
    let tasks = build_change_tasks(&locals);
    assert_eq!(tasks[2].depends_on_index, Some(1));
}

#[test]
fn build_initial_pull_carries_through_for_non_create_actions() {
    let pull = numbered(42);
    let locals = vec![change(Action::Update, Some(pull.clone()))];
    let tasks = build_change_tasks(&locals);
    assert_eq!(tasks[0].initial_pull.as_ref(), Some(&pull));
}

#[test]
fn a_written_header_is_replaced_by_the_next_one() {
    let once = format_pull_description("feat: x\n\nbody", Some(7));
    assert_eq!(once, "feat: x\n\nbody\n\nDepends-On: #7");
    assert_eq!(
        format_pull_description(&once, Some(8)),
        "feat: x\n\nbody\n\nDepends-On: #8"
    );
}

#[test]
fn dependencies_point_to_lower_changes_only() {
    let locals = vec![
        change(Action::SkipCreate, None),
        change(Action::Create, None),
        change(Action::SkipNextOnly, None),
        change(Action::Create, None),
    ];
    let tasks = build_change_tasks(&locals);
    assert_eq!(tasks[0].depends_on_index, None);
    assert_eq!(tasks[1].depends_on_index, None);
    assert_eq!(tasks[2].depends_on_index, Some(1));
    assert_eq!(tasks[3].depends_on_index, Some(1));
}

#[test]
fn a_description_is_kept_by_a_second_pass() {
    let id = "I0123456789abcdef0123456789abcdef01234567";
    let message = format!("feat: x\n\nwhy\nDepends-On: #7\nDepends-On: (#8)\nmore\nChange-Id: {id}\n\n");
    let once = format_pull_description(&message, None);
    assert_eq!(once, "feat: x\n\nwhy\n\n\nmore");
    assert_eq!(format_pull_description(&once, None), once);
}
