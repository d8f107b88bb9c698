use mergify_stack::approvals::{RebaseDecision, RebaseReason};
use mergify_stack::change_type::ChangeType;
use mergify_stack::changes::{Action, LocalChange};
use mergify_stack::commands::push::{
    LoadedHistory, Outcome, PushAction, PushRun, RevisionStep, RowPlan, closing_line, dry_run,
    git_count_behind, needs_replay, notes_warning, old_heads_warning, pre_flight_summary, revised_history,
    revision_reason, revision_step, row_plan, shows_stack, stack_entries_of, stack_prefix, upsert_words,
};
use mergify_stack::comment_upsert::RevisionInput;
use mergify_stack::error::CliError;
use mergify_stack::notes_push::NotesLease;
use mergify_stack::plan::{PlannedChange, PlannedChanges};
use mergify_stack::progress::Mark;
use mergify_stack::pull::Pull;
use mergify_stack::timestamp::Timestamp;

fn pull(number: u64, head_sha: &str, base_ref: &str) -> Pull {
    Pull {
        number: Some(number),
        html_url: Some(format!("https://github.com/o/r/pull/{number}")),
        head_sha: Some(head_sha.to_string()),
        head_ref: Some(format!("stack/{number}")),
        base_ref: Some(base_ref.to_string()),
        state: Some("open".to_string()),
        ..Pull::default()
    }
}

fn change(sha: &str, action: Action, pull: Option<Pull>, base: &str) -> PlannedChange {
    PlannedChange {
        change: LocalChange {
            commit_sha: sha.to_string(),
            title: format!("title {sha}"),
            message: format!("message {sha}"),
            change_id: format!("I{sha}"),
            action,
            pull,
            note: String::new(),
        },
        dest_branch: format!("stack/{sha}"),
        base_branch: base.to_string(),
    }
}

fn planned() -> PlannedChanges {
    PlannedChanges {
        locals: vec![
            change(
                "aaaaaaaaaa",
                Action::Update,
                Some(pull(1, "0000000000", "main")),
                "main",
            ),
            change("bbbbbbbbbb", Action::Create, None, "stack/aaaaaaaaaa"),
        ],
        orphans: vec![pull(9, "9999999999", "main")],
    }
}

#[test]
fn a_push_goes_through_its_stages_in_order() {
    let mut run = PushRun::start(planned(), true);
    let mut seen: Vec<String> = Vec::new();
    loop {
        match run.action() {
            PushAction::FetchOldHeads(numbers) => {
                assert_eq!(numbers, vec![1]);
                seen.push("fetch".to_string());
                run.done();
            }
            PushAction::DetectType {
                index,
                old_sha,
                new_sha,
            } => {
                assert_eq!((index, old_sha.as_str(), new_sha.as_str()), (0, "0000000000", "aaaaaaaaaa"));
                seen.push("type".to_string());
                run.done();
            }
            PushAction::Revise { index, number, .. } => {
                assert_eq!((index, number), (0, 1));
                seen.push("revise".to_string());
                run.revised(true);
            }
            PushAction::Retarget(bases) => {
                assert_eq!(bases.len(), 1);
                seen.push("retarget".to_string());
                run.done();
            }
            PushAction::Push(entries) => {
                assert_eq!(entries.len(), 2);
                assert_eq!(entries[0].pull_head_sha.as_deref(), Some("0000000000"));
                assert_eq!(entries[1].pull_head_sha, None);
                seen.push("push".to_string());
                run.done();
            }
            PushAction::Upsert { index, depends_on } => {
                assert_eq!(depends_on, if index == 0 { None } else { Some(1) });
                let input = run.upsert_input(index, depends_on, true, false);
                assert_eq!(input.create_as_draft, true);
                seen.push(format!("upsert {index}"));
                let reply = pull(index as u64 + 1, "x", "main");
                run.upserted(reply);
            }
            PushAction::CommentStack { number } => {
                seen.push(format!("comment {number}"));
                run.done();
            }
            PushAction::CommentRevision { index } => {
                seen.push(format!("revision {index}"));
                run.done();
            }
            PushAction::DeleteOrphan { index, head_ref } => {
                assert_eq!((index, head_ref.as_str()), (0, "stack/9"));
                seen.push("orphan".to_string());
                run.done();
            }
            PushAction::Nothing => {
                break;
            }
        }
    }
    assert_eq!(
        seen,
        vec![
            "fetch", "type", "revise", "retarget", "push", "upsert 0", "upsert 1", "comment 1",
            "comment 2", "revision 0", "orphan"
        ]
    );
    assert!(shows_stack(&run.planned.locals));
    assert!(!shows_stack(&run.planned.locals[..1].to_vec()));
    let numbers: Vec<u64> = stack_entries_of(&run.planned.locals)
        .iter()
        .map(|e| e.number)
        .collect();
    assert_eq!(numbers, vec![1, 2]);
}

#[test]
fn a_push_of_nothing_has_nothing_to_send() {
    let mut run = PushRun::start(
        PlannedChanges {
            locals: vec![],
            orphans: vec![],
        },
        true,
    );
    let mut steps = 0;
    while run.action() != PushAction::Nothing {
        match run.action() {
            PushAction::Push(entries) => assert!(entries.is_empty()),
            PushAction::Retarget(bases) => assert!(bases.is_empty()),
            PushAction::FetchOldHeads(numbers) => assert!(numbers.is_empty()),
            other => panic!("unexpected: {other:?}"),
        }
        run.done();
        steps += 1;
        assert!(steps < 10);
    }
    assert_eq!(closing_line(0, 0), "Already up to date.");
    assert_eq!(closing_line(1, 0), "Finished.");
    assert_eq!(closing_line(0, 1), "Finished.");
}

#[test]
fn a_dry_run_promotes_what_a_rebase_would_change() {
    let decision = |should_rebase: bool| RebaseDecision {
        should_rebase,
        reason: if should_rebase {
            RebaseReason::NoApprovals
        } else {
            RebaseReason::ExplicitSkip
        },
        approved_pulls: vec![],
    };
    let up_to_date = || PlannedChanges {
        locals: vec![change(
            "aaaaaaaaaa",
            Action::SkipUpToDate,
            Some(pull(1, "aaaaaaaaaa", "main")),
            "main",
        )],
        orphans: vec![],
    };
    let action_after = |should_rebase: bool, behind: u32| {
        match dry_run(
            up_to_date(),
            decision(should_rebase),
            behind,
            "topic",
            "origin",
            "main",
            false,
        ) {
            Outcome::DryRun {
                planned, log_lines, ..
            } => {
                assert_eq!(log_lines[0], "Stacked pull request plan:");
                planned.locals[0].change.action
            }
            other => panic!("unexpected: {other:?}"),
        }
    };
    assert_eq!(action_after(true, 2), Action::Update);
    assert_eq!(action_after(true, 0), Action::SkipUpToDate);
    assert_eq!(action_after(false, 2), Action::SkipUpToDate);
}

#[test]
fn commits_behind_are_counted() {
    assert_eq!(git_count_behind("12"), Ok(12));
    assert_eq!(git_count_behind("+7"), Ok(7));
    let why = "x1".parse::<u32>().unwrap_err().to_string();
    assert_eq!(
        git_count_behind("x1"),
        Err(CliError::Generic(format!(
            "`git rev-list --count` returned non-integer {:?}: {why}",
            "x1"
        )))
    );
    for text in ["", "-1", "4294967296", "1 ", "+", "a\"b\n"] {
        let why = text.parse::<u32>().unwrap_err().to_string();
        assert_eq!(
            git_count_behind(text),
            Err(CliError::Generic(format!(
                "`git rev-list --count` returned non-integer {text:?}: {why}"
            )))
        );
    }
    assert_eq!(git_count_behind("4294967295"), Ok(u32::MAX));
}

#[test]
fn branches_stand_under_the_prefix() {
    assert_eq!(stack_prefix("stack/me", "topic"), "stack/me/topic");
    assert_eq!(stack_prefix("", "topic"), "topic");
    assert_eq!(pre_flight_summary(3), "read 3 pull request(s)");
}

#[test]
fn rows_say_what_a_push_will_do() {
    let all = planned();
    assert_eq!(
        row_plan(&all.locals[0]),
        RowPlan::Queued {
            title: "title aaaaaaaaaa".to_string(),
            detail: Some("0000000→aaaaaaa".to_string()),
        }
    );
    assert_eq!(
        row_plan(&all.locals[1]),
        RowPlan::Queued {
            title: "title bbbbbbbbbb".to_string(),
            detail: Some("bbbbbbb".to_string()),
        }
    );
    let merged = change(
        "c",
        Action::SkipMerged,
        Some(pull(3, "c", "main")),
        "main",
    );
    match row_plan(&merged) {
        RowPlan::Settled { mark, word, url, .. } => {
            assert_eq!((mark, word), (Mark::Merged, "merged"));
            assert_eq!(url.as_deref(), Some("https://github.com/o/r/pull/3"));
        }
        other => panic!("unexpected: {other:?}"),
    }
    assert_eq!(upsert_words(Action::Create), ("creating", "created"));
    assert_eq!(upsert_words(Action::Update), ("updating", "updated"));
}

#[test]
fn a_history_that_cannot_be_loaded_is_not_overwritten() {
    let input = RevisionInput {
        pull_number: 4,
        old_sha: "aaaaaaaaaaaa",
        new_sha: "bbbbbbbbbbbb",
        change_type: ChangeType::Content,
        reason: "",
        replay_sha: None,
        timestamp: Timestamp::new(0, 0).unwrap(),
    };
    let server = "https://api.github.com";
    let first = revised_history(LoadedHistory::Missing, server, "o", "r", &input).unwrap();
    assert_eq!(first.entries.len(), 2);
    match revision_step(Some(first.clone()), ChangeType::Content) {
        RevisionStep::Reuse(history) => assert_eq!(history.body(4), first.body(4)),
        RevisionStep::Build { .. } => panic!("a pending history is reused"),
    }
    let next = revised_history(LoadedHistory::Found(first), server, "o", "r", &input).unwrap();
    assert_eq!(next.entries.len(), 3);
    let failed = LoadedHistory::Failed("timeout".to_string());
    assert!(
        revised_history(failed, server, "o", "r", &input)
            .unwrap_err()
            .contains("timeout")
    );
}

#[test]
fn only_content_is_replayed_and_a_marker_is_no_reason() {
    assert!(needs_replay(ChangeType::Content));
    assert!(!needs_replay(ChangeType::Rebase));
    assert!(!needs_replay(ChangeType::Unknown));
    assert!(matches!(
        revision_step(None, ChangeType::Content),
        RevisionStep::Build { replay: true }
    ));
    assert!(matches!(
        revision_step(None, ChangeType::Rebase),
        RevisionStep::Build { replay: false }
    ));
    assert_eq!(revision_reason("why", false), "why");
    assert_eq!(revision_reason("{}", true), "");
}

#[test]
fn unknown_notes_are_warned_about_after_a_push() {
    assert!(notes_warning(1, &NotesLease::Unknown).is_some());
    assert!(notes_warning(0, &NotesLease::Unknown).is_none());
    assert!(notes_warning(1, &NotesLease::RemoteAbsent).is_none());
    let warning = old_heads_warning(&CliError::Generic("no network".to_string()));
    assert!(warning.ends_with("fall back to 'unknown': no network"), "{warning}");
}
