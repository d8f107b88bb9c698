use mergify_stack::approvals::{RebaseDecision, RebaseReason};
use mergify_stack::pull::Pull;
use mergify_stack::rebase_log::{rebase_dry_run, rebase_performed, rebase_skipped};

fn numbered(number: u64) -> Pull {
    Pull {
        number: Some(number),
        ..Pull::default()
    }
}

fn titled(number: u64, title: &str) -> Pull {
    Pull {
        title: Some(title.to_string()),
        ..numbered(number)
    }
}

fn decision(reason: RebaseReason, approved: Vec<Pull>) -> RebaseDecision {
    RebaseDecision {
        should_rebase: matches!(
            reason,
            RebaseReason::Forced | RebaseReason::ConflictOverride | RebaseReason::NoApprovals,
        ),
        reason,
        approved_pulls: approved,
    }
}

#[test]
fn performed_no_approvals_omits_qualifier() {
    let d = decision(RebaseReason::NoApprovals, Vec::new());
    assert_eq!(
        rebase_performed("feat/x", "origin", "main", 0, &d),
        "branch `feat/x` rebased on `origin/main`",
    );
}

#[test]
fn performed_with_merged_drops_count_appears_in_prefix() {
    let d = decision(RebaseReason::NoApprovals, Vec::new());
    assert_eq!(
        rebase_performed("feat/x", "origin", "main", 2, &d),
        "branch `feat/x` rebased on `origin/main` (dropped 2 merged commit(s))",
    );
}

#[test]
fn performed_conflict_override_lists_dismissed_approvals() {
    let d = decision(
        RebaseReason::ConflictOverride,
        vec![numbered(12), numbered(34)],
    );
    let out = rebase_performed("feat/x", "origin", "main", 0, &d);
    assert!(out.contains("bottom PR has conflicts"));
    assert!(out.contains("#12, #34"));
}

#[test]
fn performed_forced_mentions_force_rebase_flag() {
    let d = decision(RebaseReason::Forced, Vec::new());
    assert_eq!(
        rebase_performed("feat/x", "origin", "main", 0, &d),
        "branch `feat/x` rebased on `origin/main` (--force-rebase; approvals may be dismissed)",
    );
}

#[test]
fn skipped_explicit_skip_line_matches_python() {
    let d = decision(RebaseReason::ExplicitSkip, Vec::new());
    assert_eq!(
        rebase_skipped("feat/x", &d),
        Some("branch `feat/x` rebase skipped (--skip-rebase)".to_string()),
    );
}

#[test]
fn skipped_for_approvals_singular_grammar_for_one_pr() {
    let d = decision(
        RebaseReason::SkippedForApprovals,
        vec![numbered(1)],
    );
    assert_eq!(
        rebase_skipped("feat/x", &d).unwrap(),
        "branch `feat/x` rebase skipped: 1 PR has approvals \
         (use --force-rebase to rebase anyway)",
    );
}

#[test]
fn skipped_for_approvals_plural_grammar_for_multiple_prs() {
    let d = decision(
        RebaseReason::SkippedForApprovals,
        vec![numbered(1), numbered(2)],
    );
    assert_eq!(
        rebase_skipped("feat/x", &d).unwrap(),
        "branch `feat/x` rebase skipped: 2 PRs have approvals \
         (use --force-rebase to rebase anyway)",
    );
}

#[test]
fn skipped_returns_none_for_non_skip_decisions() {
    for r in [
        RebaseReason::Forced,
        RebaseReason::ConflictOverride,
        RebaseReason::NoApprovals,
    ] {
        assert!(rebase_skipped("feat/x", &decision(r, Vec::new())).is_none());
    }
}

#[test]
fn dry_run_skipped_for_approvals_fans_out_one_line_per_pull() {
    let d = decision(
        RebaseReason::SkippedForApprovals,
        vec![
            titled(1, "feat: a"),
            titled(2, "feat: b"),
        ],
    );
    let lines = rebase_dry_run("feat/x", "origin", "main", 5, &d);
    assert_eq!(lines.len(), 4, "header + 2 rows + footer");
    assert!(lines[0].contains("approvals detected on 2 PRs"));
    assert_eq!(lines[1], "  - PR #1 — \"feat: a\"");
    assert_eq!(lines[2], "  - PR #2 — \"feat: b\"");
    assert_eq!(lines[3], "  Use --force-rebase to rebase anyway.");
}

#[test]
fn dry_run_no_approvals_is_silent_when_branch_is_up_to_date() {
    let d = decision(RebaseReason::NoApprovals, Vec::new());
    assert!(rebase_dry_run("feat/x", "origin", "main", 0, &d).is_empty());
}

#[test]
fn dry_run_no_approvals_warns_when_branch_is_behind() {
    let d = decision(RebaseReason::NoApprovals, Vec::new());
    let lines = rebase_dry_run("feat/x", "origin", "main", 3, &d);
    assert_eq!(lines.len(), 1);
    assert!(lines[0].contains("behind `origin/main` by 3 commits"));
    let lines = rebase_dry_run("feat/x", "origin", "main", 1, &d);
    assert!(lines[0].contains("behind `origin/main` by 1 commit"));
}

#[test]
fn dry_run_forced_announces_intent_to_rebase() {
    let d = decision(RebaseReason::Forced, Vec::new());
    let lines = rebase_dry_run("feat/x", "origin", "main", 0, &d);
    assert_eq!(lines.len(), 1);
    assert!(lines[0].contains("would be rebased"));
    assert!(lines[0].contains("--force-rebase"));
}
