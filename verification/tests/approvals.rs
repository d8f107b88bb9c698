use mergify_stack::approvals::{
    ConflictStep, MERGEABLE_RETRY_DELAY_MS, PullState, RebaseReason, SubmittedReview,
    conflict_next, conflict_start, decide_rebase, lowest_live_pull, needs_reviews,
    pull_is_approved, reviewed_pulls,
};
use mergify_stack::changes::{Action, Changes, LocalChange};
use mergify_stack::pull::Pull;

fn review(state: &str, login: &str) -> SubmittedReview {
    SubmittedReview {
        state: state.to_string(),
        login: Some(login.to_string()),
    }
}

fn numbered(number: u64) -> Pull {
    Pull {
        number: Some(number),
        ..Pull::default()
    }
}

fn state(mergeable: Option<bool>, mergeable_state: &str) -> Option<PullState> {
    Some(PullState {
        mergeable,
        mergeable_state: Some(mergeable_state.to_string()),
    })
}

#[test]
fn pull_is_approved_uses_latest_review_per_reviewer() {
    assert!(!pull_is_approved(&vec![
        review("APPROVED", "alice"),
        review("COMMENTED", "bob"),
        review("CHANGES_REQUESTED", "alice"),
    ]));
}

#[test]
fn pull_is_approved_returns_true_when_any_reviewer_has_latest_approval() {
    assert!(pull_is_approved(&vec![
        review("CHANGES_REQUESTED", "alice"),
        review("APPROVED", "bob"),
    ]));
}

#[test]
fn a_comment_after_an_approval_does_not_take_it_back() {
    assert!(pull_is_approved(&vec![
        review("APPROVED", "alice"),
        review("COMMENTED", "alice"),
    ]));
    assert!(!pull_is_approved(&vec![]));
}

#[test]
fn bottom_pull_has_conflict_returns_true_on_dirty_state() {
    let step = conflict_start(&Some(numbered(1)));
    assert_eq!(step, ConflictStep::Ask(1));
    assert_eq!(
        conflict_next(step, &state(Some(false), "dirty")),
        ConflictStep::Known(true)
    );
}

#[test]
fn bottom_pull_has_conflict_returns_false_for_clean_state() {
    let step = conflict_start(&Some(numbered(1)));
    assert_eq!(
        conflict_next(step, &state(Some(true), "clean")),
        ConflictStep::Known(false)
    );
}

#[test]
fn bottom_pull_has_conflict_short_circuits_when_no_bottom_pull() {
    assert_eq!(conflict_start(&None), ConflictStep::Known(false));
}

#[test]
fn bottom_pull_has_conflict_returns_false_on_http_error() {
    let step = conflict_start(&Some(numbered(1)));
    assert_eq!(conflict_next(step, &None), ConflictStep::Known(false));
}

#[test]
fn an_unknown_state_is_asked_for_once_more() {
    let again = conflict_next(ConflictStep::Ask(4), &state(None, "unknown"));
    assert_eq!(again, ConflictStep::AskAgain(4));
    assert_eq!(
        conflict_next(again, &state(None, "unknown")),
        ConflictStep::Known(false)
    );
    assert_eq!(
        conflict_next(again, &state(Some(false), "dirty")),
        ConflictStep::Known(true)
    );
    assert_eq!(MERGEABLE_RETRY_DELAY_MS, 1000);
}

fn local_change_with_pull(action: Action, pull: Option<Pull>) -> LocalChange {
    LocalChange {
        commit_sha: "deadbeef".to_string(),
        title: "t".to_string(),
        message: "m".to_string(),
        change_id: "Iaaaaaaaaaaaaaaaaaaaaaaaaaaaaaaaaaaaaaaaa".to_string(),
        action,
        pull,
        note: String::new(),
    }
}

fn one_update() -> Changes {
    Changes {
        locals: vec![local_change_with_pull(Action::Update, Some(numbered(1)))],
        orphans: Vec::new(),
    }
}

#[test]
fn decide_rebase_explicit_skip_short_circuits() {
    assert!(!needs_reviews(true, false));
    let d = decide_rebase(&one_update(), true, false, &vec![], false);
    assert!(!d.should_rebase);
    assert_eq!(d.reason, RebaseReason::ExplicitSkip);
    assert!(d.approved_pulls.is_empty());
}

#[test]
fn decide_rebase_force_short_circuits_without_querying_github() {
    assert!(!needs_reviews(false, true));
    let d = decide_rebase(&one_update(), false, true, &vec![], false);
    assert!(d.should_rebase);
    assert_eq!(d.reason, RebaseReason::Forced);
}

#[test]
fn decide_rebase_skips_when_any_pr_approved_and_no_conflict() {
    assert!(needs_reviews(false, false));
    let d = decide_rebase(&one_update(), false, false, &vec![1], false);
    assert!(!d.should_rebase);
    assert_eq!(d.reason, RebaseReason::SkippedForApprovals);
    assert_eq!(d.approved_pulls.len(), 1);
}

#[test]
fn decide_rebase_overrides_approval_when_bottom_conflicts() {
    let d = decide_rebase(&one_update(), false, false, &vec![1], true);
    assert!(d.should_rebase);
    assert_eq!(d.reason, RebaseReason::ConflictOverride);
}

#[test]
fn decide_rebase_rebases_when_no_approvals() {
    let d = decide_rebase(&one_update(), false, false, &vec![], false);
    assert!(d.should_rebase);
    assert_eq!(d.reason, RebaseReason::NoApprovals);
    assert!(d.approved_pulls.is_empty());
}

#[test]
fn decide_rebase_excludes_skip_merged_pulls_from_approval_set() {
    let planned = Changes {
        locals: vec![
            local_change_with_pull(Action::SkipMerged, Some(numbered(1))),
            local_change_with_pull(Action::Update, Some(numbered(2))),
        ],
        orphans: Vec::new(),
    };
    assert_eq!(reviewed_pulls(&planned), vec![numbered(2)]);
    assert_eq!(lowest_live_pull(&planned), Some(numbered(2)));
    let d = decide_rebase(&planned, false, false, &vec![1], false);
    assert!(d.should_rebase);
    assert_eq!(d.reason, RebaseReason::NoApprovals);
}
