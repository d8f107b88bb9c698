use mergify_stack::commands::drop::{self, plan_drop};
use mergify_stack::commands::edit::{self, plan_edit};
use mergify_stack::commands::fixup::{self, NO_PARENT, plan_fixup};
use mergify_stack::commands::move_cmd::{self, Position, plan_move};
use mergify_stack::commands::new::{
    Base, Trunk, choose_base, create_args, create_failure, created, fetch_args, fetch_failure,
};
use mergify_stack::commands::reorder::{self, plan_reorder};
use mergify_stack::commands::reword::{self, plan_reword, reword_editor};
use mergify_stack::commands::squash::{self, SAME_AS_TARGET, plan_squash, squash_editor};
use mergify_stack::error::CliError;
use mergify_stack::local_commits::LocalCommit;

const SHAS: [&str; 3] = [
    "1aaaaaaaaaaaaaaaaaaaaaaaaaaaaaaaaaaaaaaa",
    "2bbbbbbbbbbbbbbbbbbbbbbbbbbbbbbbbbbbbbbb",
    "3ccccccccccccccccccccccccccccccccccccccc",
];
const IDS: [&str; 3] = [
    "Iaaaaaaaaaaaaaaaaaaaaaaaaaaaaaaaaaaaaaa01",
    "Ibbbbbbbbbbbbbbbbbbbbbbbbbbbbbbbbbbbbbb02",
    "Icccccccccccccccccccccccccccccccccccccc03",
];

fn stack() -> Vec<LocalCommit> {
    ["A", "B", "C"]
        .iter()
        .enumerate()
        .map(|(i, label)| LocalCommit {
            commit_sha: SHAS[i].to_string(),
            title: format!("Commit {label}"),
            message: format!("Commit {label}\n\nChange-Id: {}", IDS[i]),
            change_id: IDS[i].to_string(),
            slug: String::new(),
            note: String::new(),
        })
        .collect()
}

fn texts(v: &[&str]) -> Vec<String> {
    v.iter().map(|s| s.to_string()).collect()
}

#[test]
fn dry_run_resolves_commits_without_spawning_rebase() {
    match plan_drop(&texts(&[&SHAS[1][..12]]), &stack(), true, "mergify").unwrap() {
        drop::Step::Finished(drop::Outcome::DryRun { plan }) => {
            assert_eq!(plan.len(), 1);
            assert_eq!(plan[0].sha, SHAS[1]);
            assert_eq!(plan[0].subject, "Commit B");
        }
        other => panic!("unexpected: {other:?}"),
    }
}

#[test]
fn drop_duplicate_prefix_is_rejected() {
    let err = plan_drop(
        &texts(&[&SHAS[1][..7], &SHAS[1][..12]]),
        &stack(),
        true,
        "mergify",
    )
    .unwrap_err();
    match err {
        CliError::InvalidState(msg) => {
            assert!(msg.contains("duplicate"), "got: {msg}");
        }
        other => panic!("unexpected: {other:?}"),
    }
}

#[test]
fn drop_change_id_prefix_resolves_against_stack() {
    match plan_drop(&texts(&[&IDS[2][..9]]), &stack(), true, "mergify").unwrap() {
        drop::Step::Finished(drop::Outcome::DryRun { plan }) => {
            assert_eq!(plan[0].sha, SHAS[2]);
        }
        other => panic!("unexpected: {other:?}"),
    }
}

#[test]
fn empty_stack_returns_empty_outcome() {
    assert_eq!(
        plan_drop(&texts(&["anything"]), &vec![], false, "mergify"),
        Ok(drop::Step::Finished(drop::Outcome::EmptyStack))
    );
}

#[test]
fn drop_unknown_prefix_returns_stack_not_found() {
    let err = plan_drop(&texts(&["deadbeef1234"]), &stack(), false, "mergify").unwrap_err();
    match err {
        CliError::StackNotFound(_) => {}
        other => panic!("unexpected: {other:?}"),
    }
}

#[test]
fn a_drop_rebases_with_an_editor_that_drops() {
    match plan_drop(&texts(&["2b", "3c"]), &stack(), false, "/opt/it's here/mergify").unwrap() {
        drop::Step::Rebase { dropped, editor } => {
            assert_eq!(dropped.len(), 2);
            assert_eq!(
                editor,
                format!(
                    "'/opt/it'\\''s here/mergify' _internal rebase-todo-rewrite --action drop --shas '{},{}'",
                    SHAS[1], SHAS[2]
                )
            );
        }
        other => panic!("unexpected: {other:?}"),
    }
}

fn edited(prefix: &str) -> Result<edit::EditingCommit, CliError> {
    match plan_edit(prefix, &stack(), "mergify")? {
        edit::Step::Rebase { commit, .. } => Ok(commit),
        other => panic!("unexpected: {other:?}"),
    }
}

#[test]
fn match_commit_resolves_by_sha_prefix() {
    let target = edited(&SHAS[1][..7]).unwrap();
    assert_eq!(target.sha, SHAS[1]);
    assert_eq!(target.subject, "Commit B");
}

#[test]
fn match_commit_resolves_by_change_id_prefix() {
    let target = edited(&IDS[1][..9]).unwrap();
    assert_eq!(target.sha, SHAS[1]);
}

#[test]
fn match_commit_unknown_prefix_returns_stack_not_found() {
    match edited("deadbeef1234").unwrap_err() {
        CliError::StackNotFound(msg) => {
            assert!(msg.contains("deadbeef1234"), "got: {msg}");
        }
        other => panic!("unexpected: {other:?}"),
    }
}

#[test]
fn first_commit_is_rejected() {
    let err = plan_fixup(&texts(&[&SHAS[0][..12]]), &stack(), true, "mergify").unwrap_err();
    match err {
        CliError::InvalidState(msg) => {
            assert!(msg.contains("first commit"), "got: {msg}");
            assert_eq!(msg, NO_PARENT);
        }
        other => panic!("unexpected: {other:?}"),
    }
}

#[test]
fn dry_run_resolves_without_spawning_rebase() {
    match plan_fixup(&texts(&[&SHAS[1][..12]]), &stack(), true, "mergify").unwrap() {
        fixup::Step::Finished(fixup::Outcome::DryRun { plan }) => {
            assert_eq!(plan.len(), 3);
            assert_eq!(plan[1].sha, SHAS[1]);
            assert_eq!(plan[1].subject, "Commit B");
            assert_eq!(plan[1].action.as_deref(), Some("fixup"));
            assert_eq!(plan[0].action, None);
            assert_eq!(plan[2].action, None);
        }
        other => panic!("unexpected: {other:?}"),
    }
}

#[test]
fn fixup_duplicate_prefix_is_rejected() {
    let err = plan_fixup(
        &texts(&[&SHAS[1][..7], &SHAS[1][..12]]),
        &stack(),
        true,
        "mergify",
    )
    .unwrap_err();
    match err {
        CliError::InvalidState(msg) => {
            assert!(msg.contains("duplicate"));
        }
        other => panic!("unexpected: {other:?}"),
    }
}

fn trunk(tracking_set: bool) -> Result<Trunk, CliError> {
    Ok(Trunk {
        current_branch: "main".to_string(),
        remote: "origin".to_string(),
        branch: "main".to_string(),
        tracking_set,
    })
}

#[test]
fn creates_branch_with_checkout_using_trunk() {
    let (base, auto_set) = choose_base(None, trunk(false)).unwrap();
    assert_eq!(fetch_args(&base), vec!["fetch", "origin", "main"]);
    assert_eq!(
        create_args("feature-x", &base, true),
        vec!["checkout", "--track", "-b", "feature-x", "origin/main"]
    );
    let outcome = created("feature-x", &base, auto_set, true);
    assert_eq!(outcome.branch_name, "feature-x");
    assert_eq!(outcome.base_refspec, "origin/main");
    assert!(outcome.checked_out);
    assert_eq!(outcome.upstream_auto_set, None);
}

#[test]
fn creates_branch_without_checkout() {
    let (base, auto_set) = choose_base(None, trunk(true)).unwrap();
    assert_eq!(
        create_args("feature-y", &base, false),
        vec!["branch", "--track", "feature-y", "origin/main"]
    );
    let outcome = created("feature-y", &base, auto_set, false);
    assert!(!outcome.checked_out);
    assert_eq!(outcome.upstream_auto_set.unwrap().current_branch, "main");
}

#[test]
fn creates_branch_from_explicit_base() {
    let (base, auto_set) = choose_base(
        Some(Base {
            remote: "origin".to_string(),
            branch: "develop".to_string(),
        }),
        trunk(true),
    )
    .unwrap();
    assert_eq!(base.refspec(), "origin/develop");
    let outcome = created("feature-z", &base, auto_set, true);
    assert_eq!(outcome.base_refspec, "origin/develop");
    assert_eq!(outcome.upstream_auto_set, None);
}

#[test]
fn errors_when_branch_already_exists() {
    let err = create_failure(
        "existing",
        &CliError::Generic("fatal: a branch named 'existing' already exists".to_string()),
    );
    match err {
        CliError::Generic(msg) => {
            assert!(msg.contains("already exists"), "unexpected error: {msg}");
            assert!(msg.contains("existing"), "unexpected error: {msg}");
        }
        other => panic!("unexpected: {other:?}"),
    }
}

#[test]
fn errors_when_trunk_cannot_be_resolved() {
    let err = choose_base(
        None,
        Err(CliError::Generic("no upstream configured".to_string())),
    )
    .unwrap_err();
    match err {
        CliError::StackNotFound(msg) => {
            assert!(msg.contains("could not determine trunk branch"));
        }
        other => panic!("unexpected: {other:?}"),
    }
}

#[test]
fn a_base_that_cannot_be_fetched_is_named() {
    let base = Base {
        remote: "origin".to_string(),
        branch: "gone".to_string(),
    };
    let err = fetch_failure(&base, &CliError::Generic("fatal: no such ref".to_string()));
    assert_eq!(
        err,
        CliError::Generic("failed to fetch from origin: fatal: no such ref".to_string())
    );
}

#[test]
fn dry_run_returns_target() {
    match plan_reword(&SHAS[1][..12], &stack(), false, true).unwrap() {
        reword::Step::Finished(reword::Outcome::DryRun {
            commit,
            inline_message,
        }) => {
            assert_eq!(commit.sha, SHAS[1]);
            assert_eq!(commit.subject, "Commit B");
            assert!(!inline_message);
        }
        other => panic!("unexpected: {other:?}"),
    }
}

#[test]
fn dry_run_with_message_signals_amend() {
    match plan_reword(&SHAS[1][..12], &stack(), true, true).unwrap() {
        reword::Step::Finished(reword::Outcome::DryRun {
            inline_message: true,
            ..
        }) => {}
        other => panic!("unexpected: {other:?}"),
    }
}

#[test]
fn reword_unknown_prefix_returns_stack_not_found() {
    match plan_reword("deadbeef1234", &stack(), false, true).unwrap_err() {
        CliError::StackNotFound(_) => {}
        other => panic!("unexpected: {other:?}"),
    }
}

#[test]
fn a_reword_opens_an_editor_or_takes_a_message() {
    let open = reword_editor("mergify", "abc", None);
    assert_eq!(
        open,
        "'mergify' _internal rebase-todo-rewrite --action reword --sha 'abc'"
    );
    let given = reword_editor("mergify", "abc", Some("/tmp/m"));
    assert!(given.contains("exec-after"), "{given}");
    assert!(given.contains("/tmp/m"), "{given}");
}

#[test]
fn a_reorder_lists_the_new_order() {
    let order = texts(&["3c", "1a", "2b"]);
    match plan_reorder(&order, &stack(), true, "mergify").unwrap() {
        reorder::Step::Finished(reorder::Outcome::DryRun { plan }) => {
            let shas: Vec<&str> = plan.iter().map(|r| r.sha.as_str()).collect();
            assert_eq!(shas, vec![SHAS[2], SHAS[0], SHAS[1]]);
        }
        other => panic!("unexpected: {other:?}"),
    }
    assert_eq!(
        plan_reorder(&texts(&["1a", "2b", "3c"]), &stack(), false, "mergify"),
        Ok(reorder::Step::Finished(reorder::Outcome::AlreadyInOrder))
    );
    assert!(matches!(
        plan_reorder(&texts(&["1a", "2b"]), &stack(), false, "mergify"),
        Err(CliError::InvalidState(_))
    ));
}

fn moved(prefix: &str, position: Position, target: Option<&str>) -> Vec<String> {
    match plan_move(prefix, position, target, &stack(), true, "mergify").unwrap() {
        move_cmd::Step::Finished(move_cmd::Outcome::DryRun { plan }) => {
            plan.into_iter().map(|c| c.subject).collect()
        }
        other => panic!("unexpected: {other:?}"),
    }
}

#[test]
fn a_moved_commit_stands_where_it_was_asked_to() {
    assert_eq!(
        moved("3c", Position::First, None),
        vec!["Commit C", "Commit A", "Commit B"]
    );
    assert_eq!(
        moved("1a", Position::Last, None),
        vec!["Commit B", "Commit C", "Commit A"]
    );
    assert_eq!(
        moved("3c", Position::Before, Some("2b")),
        vec!["Commit A", "Commit C", "Commit B"]
    );
    assert_eq!(
        moved("1a", Position::After, Some("2b")),
        vec!["Commit B", "Commit A", "Commit C"]
    );
    assert_eq!(
        plan_move("1a", Position::First, None, &stack(), false, "mergify"),
        Ok(move_cmd::Step::Finished(
            move_cmd::Outcome::AlreadyInPosition
        ))
    );
}

#[test]
fn a_move_beside_nothing_or_itself_is_rejected() {
    assert!(matches!(
        plan_move("1a", Position::Before, None, &stack(), false, "mergify"),
        Err(CliError::InvalidState(_))
    ));
    assert!(matches!(
        plan_move("1a", Position::After, Some("1a"), &stack(), false, "mergify"),
        Err(CliError::InvalidState(_))
    ));
}

#[test]
fn squashed_sources_follow_their_target() {
    match plan_squash(&texts(&["3c"]), "1a", &stack(), false).unwrap() {
        squash::Step::Rebase {
            plan,
            ordered,
            fixups,
        } => {
            let subjects: Vec<&str> = plan.iter().map(|c| c.subject.as_str()).collect();
            assert_eq!(subjects, vec!["Commit A", "Commit C", "Commit B"]);
            assert_eq!(ordered, vec![SHAS[0], SHAS[2], SHAS[1]]);
            assert_eq!(fixups, vec![SHAS[2]]);
            let editor = squash_editor("mergify", &ordered, &fixups, None);
            assert!(editor.contains("--action squash"), "{editor}");
        }
        other => panic!("unexpected: {other:?}"),
    }
}

#[test]
fn a_commit_is_not_squashed_into_itself() {
    assert_eq!(
        plan_squash(&texts(&["1a"]), "1a", &stack(), true),
        Err(CliError::InvalidState(SAME_AS_TARGET.to_string()))
    );
}

#[test]
fn a_command_without_commits_to_work_on_is_rejected() {
    let none: Vec<String> = vec![];
    assert_eq!(
        plan_drop(&none, &stack(), true, "mergify"),
        Err(CliError::InvalidState("no commits to drop".to_string()))
    );
    assert_eq!(
        plan_fixup(&none, &stack(), true, "mergify"),
        Err(CliError::InvalidState("no commits to fixup".to_string()))
    );
    assert_eq!(
        plan_reorder(&none, &stack(), true, "mergify"),
        Err(CliError::InvalidState("no commit prefixes given".to_string()))
    );
    assert_eq!(
        plan_squash(&none, "1a", &stack(), true),
        Err(CliError::InvalidState(
            "at least one source commit required".to_string()
        ))
    );
}

#[test]
fn a_squash_with_a_message_amends_after_the_last_source() {
    let ordered = texts(&[SHAS[0], SHAS[1], SHAS[2]]);
    let fixups = texts(&[SHAS[1], SHAS[2]]);
    assert_eq!(
        squash_editor("mergify", &ordered, &fixups, Some("/tmp/m")),
        format!(
            "'mergify' _internal rebase-todo-rewrite --action squash --shas '{},{},{}' --fixup-shas '{},{}' --sha '{}' --command 'git commit --amend -F '\\''/tmp/m'\\'''",
            SHAS[0], SHAS[1], SHAS[2], SHAS[1], SHAS[2], SHAS[2]
        )
    );
}

#[test]
fn squashed_sources_must_differ() {
    match plan_squash(&texts(&["2b", &SHAS[1][..12]]), "1a", &stack(), true).unwrap_err() {
        CliError::InvalidState(msg) => {
            assert_eq!(
                msg,
                format!(
                    "duplicate — source prefix '{}' resolves to the same commit as another",
                    &SHAS[1][..12]
                )
            );
        }
        other => panic!("unexpected: {other:?}"),
    }
}
