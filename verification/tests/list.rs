use mergify_stack::changes::{Action, LocalChange};
use mergify_stack::commands::list::{
    CheckRun, GivenReview, check_target, compute_ci_status, compute_review_status, detail_paths,
    list_entries,
};
use mergify_stack::commands::list::StackListEntry;
use mergify_stack::commands::open::{
    Outcome, build_labels, opened, pick_interactive, resolve_entry, resolve_ref_to_sha,
};
use mergify_stack::error::CliError;
use mergify_stack::pull::{MergedAt, Pull};

fn run(name: &str, status: &str, conclusion: Option<&str>) -> CheckRun {
    CheckRun {
        name: Some(name.to_string()),
        status: Some(status.to_string()),
        conclusion: conclusion.map(str::to_string),
    }
}

fn review(login: &str, state: &str) -> GivenReview {
    GivenReview {
        login: Some(login.to_string()),
        state: Some(state.to_string()),
    }
}

#[test]
fn compute_ci_status_classifies_passing() {
    let runs = vec![
        run("ci-1", "completed", Some("success")),
        run("ci-2", "completed", Some("skipped")),
    ];
    let (status, checks) = compute_ci_status(&runs);
    assert_eq!(status, "passing");
    assert_eq!(checks.len(), 2);
    assert!(checks.iter().all(|c| c.status == "success"));
}

#[test]
fn compute_ci_status_classifies_failing_over_pending() {
    let runs = vec![
        run("ci-1", "in_progress", None),
        run("ci-2", "completed", Some("failure")),
    ];
    let (status, _) = compute_ci_status(&runs);
    assert_eq!(status, "failing");
}

#[test]
fn compute_ci_status_classifies_pending() {
    let runs = vec![run("ci-1", "queued", None)];
    let (status, _) = compute_ci_status(&runs);
    assert_eq!(status, "pending");
}

#[test]
fn compute_review_status_latest_per_user_promoting_states() {
    let reviews = vec![
        review("alice", "COMMENTED"),
        review("alice", "APPROVED"),
        review("bob", "CHANGES_REQUESTED"),
    ];
    let (status, list) = compute_review_status(&reviews);
    assert_eq!(status, "changes_requested");
    assert_eq!(list.len(), 2);
    let by_user: std::collections::HashMap<_, _> =
        list.into_iter().map(|r| (r.user, r.state)).collect();
    assert_eq!(by_user["alice"], "APPROVED");
    assert_eq!(by_user["bob"], "CHANGES_REQUESTED");
}

#[test]
fn compute_review_status_approved_when_no_changes_requested() {
    let reviews = vec![review("alice", "APPROVED")];
    let (status, _) = compute_review_status(&reviews);
    assert_eq!(status, "approved");
}

#[test]
fn compute_review_status_pending_when_only_comments() {
    let reviews = vec![review("alice", "COMMENTED")];
    let (status, _) = compute_review_status(&reviews);
    assert_eq!(status, "pending");
}

fn change(action: Action, pull: Option<Pull>) -> LocalChange {
    LocalChange {
        commit_sha: "abc".to_string(),
        title: "t".to_string(),
        message: String::new(),
        change_id: "I1".to_string(),
        action,
        pull,
        note: String::new(),
    }
}

#[test]
fn a_change_is_listed_with_the_state_of_its_pull_request() {
    let pull = |draft: bool, merged_at: MergedAt| {
        Some(Pull {
            number: Some(3),
            draft: Some(draft),
            merged_at,
            head_sha: Some("def".to_string()),
            ..Pull::default()
        })
    };
    let changes = vec![
        change(Action::Create, None),
        change(Action::Update, pull(false, MergedAt::Null)),
        change(Action::Update, pull(true, MergedAt::Null)),
        change(Action::SkipMerged, pull(false, MergedAt::Time)),
    ];
    let status: Vec<String> = list_entries(&changes).into_iter().map(|e| e.status).collect();
    assert_eq!(status, vec!["no_pr", "open", "draft", "merged"]);
    assert_eq!(detail_paths("o", "r", &changes[0]), None);
    assert_eq!(
        detail_paths("o", "r", &changes[1]),
        Some((
            "/repos/o/r/commits/def/check-runs".to_string(),
            "/repos/o/r/pulls/3/reviews".to_string()
        ))
    );
}

#[test]
fn a_branch_that_targets_itself_is_refused() {
    assert_eq!(check_target("topic", "origin", "main"), Ok(()));
    assert!(matches!(
        check_target("main", "origin", "main"),
        Err(CliError::InvalidState(_))
    ));
}

fn entry(title: &str, sha: &str, pull: Option<(u64, &str)>) -> StackListEntry {
    StackListEntry {
        commit_sha: sha.to_string(),
        title: title.to_string(),
        change_id: String::new(),
        status: pull.map_or("no_pr", |_| "open").to_string(),
        pull_number: pull.map(|(number, _)| number),
        pull_url: pull.map(|(_, url)| url.to_string()),
        ci_status: String::new(),
        ci_checks: Vec::new(),
        review_status: String::new(),
        reviews: Vec::new(),
        mergeable: None,
    }
}

fn two_entries() -> Vec<StackListEntry> {
    vec![
        entry(
            "feat: add API endpoint",
            "a1b2c3d4e5f60718293a4b5c6d7e8f9012345678",
            Some((101, "https://github.com/o/r/pull/101")),
        ),
        entry(
            "wip: not pushed yet",
            "0123456789abcdef0123456789abcdef01234567",
            None,
        ),
    ]
}

#[test]
fn labels_show_pr_number_or_no_pr_marker() {
    assert_eq!(
        build_labels(&two_entries()),
        vec![
            "#101 feat: add API endpoint (a1b2c3d)".to_string(),
            "(no PR) wip: not pushed yet (0123456)".to_string(),
        ],
    );
}

#[test]
fn picker_preselects_the_leaf_and_returns_the_picked_entry() {
    let entries = two_entries();
    let seen_default = std::cell::Cell::new(usize::MAX);
    let selector = |labels: &Vec<String>, default: usize| -> Result<Option<usize>, String> {
        assert_eq!(labels.len(), 2);
        seen_default.set(default);
        Ok(Some(0))
    };
    let picked = pick_interactive(&entries, selector).unwrap().unwrap();
    assert_eq!(seen_default.get(), 1);
    assert_eq!(picked.commit_sha, entries[0].commit_sha);
}

#[test]
fn cancel_yields_none() {
    let selector = |_: &Vec<String>, _: usize| -> Result<Option<usize>, String> { Ok(None) };
    assert!(
        pick_interactive(&two_entries(), selector)
            .unwrap()
            .is_none()
    );
}

#[test]
fn selector_io_error_becomes_cli_error() {
    let selector = |_: &Vec<String>, _: usize| -> Result<Option<usize>, String> {
        Err("terminal exploded".to_string())
    };
    let entries = two_entries();
    let err = pick_interactive(&entries, selector).unwrap_err();
    assert!(matches!(err, CliError::Generic(_)));
}

#[test]
fn a_commit_is_opened_by_its_sha() {
    let entries = two_entries();
    let sha = resolve_ref_to_sha("HEAD~1", true, "a1b2c3d4e5f60718293a4b5c6d7e8f9012345678\n")
        .unwrap();
    let found = resolve_entry(&entries, "HEAD~1", &sha).unwrap();
    assert_eq!(
        opened(found),
        Ok(Outcome::Opened {
            pull_number: 101,
            title: "feat: add API endpoint".to_string(),
            pull_url: "https://github.com/o/r/pull/101".to_string(),
        })
    );
    assert!(opened(&entries[1]).is_err());
    assert!(resolve_entry(&entries, "x", "ffffffffff").is_err());
    assert!(resolve_ref_to_sha("nope", false, "").is_err());
}
