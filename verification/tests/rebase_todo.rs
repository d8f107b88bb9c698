use mergify_stack::error::CliError;
use mergify_stack::rebase_todo::{Action, rewrite};

const TODO: &str = "\
pick 1a2b3c4d feat: add foo
pick deadbeef chore: bump deps
pick cafe1234 fix: typo

# Rebase abc..def onto abc (3 commands)
";

#[test]
fn edit_marks_matching_pick() {
    let out = rewrite(
        TODO,
        &Action::Edit {
            sha: "deadbeef".to_string(),
        },
    )
    .unwrap();
    assert!(out.contains("edit deadbeef chore: bump deps\n"));
    assert!(out.contains("pick 1a2b3c4d feat: add foo\n"));
    assert!(out.contains("pick cafe1234 fix: typo\n"));
    assert!(out.contains("# Rebase abc..def onto abc (3 commands)\n"));
}

#[test]
fn edit_matches_by_short_prefix() {
    let todo = "pick abc12 feat\n";
    let out = rewrite(
        todo,
        &Action::Edit {
            sha: "abc1234567".to_string(),
        },
    )
    .unwrap();
    assert_eq!(out, "edit abc12 feat\n");
}

#[test]
fn edit_matches_by_long_prefix() {
    let todo = "pick abc1234567 feat\n";
    let out = rewrite(
        todo,
        &Action::Edit {
            sha: "abc12".to_string(),
        },
    )
    .unwrap();
    assert_eq!(out, "edit abc1234567 feat\n");
}

#[test]
fn edit_with_no_match_errors() {
    let err = rewrite(
        TODO,
        &Action::Edit {
            sha: "ffffffff".to_string(),
        },
    )
    .unwrap_err();
    match err {
        CliError::InvalidState(msg) => {
            assert!(msg.contains("ffffffff"), "got: {msg}");
            assert!(msg.contains("rebase-todo"));
        }
        other => panic!("unexpected: {other:?}"),
    }
}

#[test]
fn edit_preserves_crlf_line_endings() {
    let todo = "pick deadbeef chore: bump\r\n";
    let out = rewrite(
        todo,
        &Action::Edit {
            sha: "deadbeef".to_string(),
        },
    )
    .unwrap();
    assert_eq!(out, "edit deadbeef chore: bump\r\n");
}

#[test]
fn edit_keeps_subjects_with_spaces() {
    let todo = "pick 1a2b3c4d feat: support remote/origin/HEAD lookups\n";
    let out = rewrite(
        todo,
        &Action::Edit {
            sha: "1a2b3c4d".to_string(),
        },
    )
    .unwrap();
    assert_eq!(
        out,
        "edit 1a2b3c4d feat: support remote/origin/HEAD lookups\n"
    );
}

#[test]
fn non_pick_lines_are_left_alone() {
    let todo = "\
pick 1a2b3c4d feat
fixup deadbeef hotfix
exec cargo test
";
    let out = rewrite(
        todo,
        &Action::Edit {
            sha: "1a2b3c4d".to_string(),
        },
    )
    .unwrap();
    assert_eq!(
        out,
        "edit 1a2b3c4d feat\nfixup deadbeef hotfix\nexec cargo test\n"
    );
}

#[test]
fn drop_removes_targeted_pick_lines() {
    let out = rewrite(
        TODO,
        &Action::Drop {
            shas: vec!["deadbeef".to_string()],
        },
    )
    .unwrap();
    assert!(!out.contains("deadbeef"));
    assert!(out.contains("pick 1a2b3c4d feat: add foo\n"));
    assert!(out.contains("pick cafe1234 fix: typo\n"));
    assert!(out.contains("# Rebase abc..def onto abc (3 commands)\n"));
}

#[test]
fn drop_handles_multiple_shas() {
    let out = rewrite(
        TODO,
        &Action::Drop {
            shas: vec!["1a2b3c4d".to_string(), "cafe1234".to_string()],
        },
    )
    .unwrap();
    assert!(!out.contains("1a2b3c4d"));
    assert!(!out.contains("cafe1234"));
    assert!(out.contains("pick deadbeef chore: bump deps\n"));
}

#[test]
fn drop_with_no_match_errors() {
    let err = rewrite(
        TODO,
        &Action::Drop {
            shas: vec!["ffffffff".to_string()],
        },
    )
    .unwrap_err();
    match err {
        CliError::InvalidState(msg) => {
            assert!(msg.contains("ffffffff"), "got: {msg}");
            assert!(msg.contains("partial drop"));
        }
        other => panic!("unexpected: {other:?}"),
    }
}

#[test]
fn drop_with_partial_match_errors_and_lists_missing() {
    let err = rewrite(
        TODO,
        &Action::Drop {
            shas: vec!["deadbeef".to_string(), "ffffffff".to_string()],
        },
    )
    .unwrap_err();
    match err {
        CliError::InvalidState(msg) => {
            assert!(msg.contains("ffffffff"), "got: {msg}");
            assert!(!msg.contains("deadbeef"), "got: {msg}");
        }
        other => panic!("unexpected: {other:?}"),
    }
}

#[test]
fn drop_with_empty_target_list_errors() {
    let err = rewrite(TODO, &Action::Drop { shas: vec![] }).unwrap_err();
    match err {
        CliError::InvalidState(msg) => {
            assert!(msg.contains("no commits to drop"), "got: {msg}");
        }
        other => panic!("unexpected: {other:?}"),
    }
}

#[test]
fn fixup_rewrites_targeted_pick_to_fixup() {
    let out = rewrite(
        TODO,
        &Action::Fixup {
            shas: vec!["deadbeef".to_string()],
        },
    )
    .unwrap();
    assert!(out.contains("fixup deadbeef chore: bump deps\n"));
    assert!(out.contains("pick 1a2b3c4d feat: add foo\n"));
    assert!(out.contains("pick cafe1234 fix: typo\n"));
}

#[test]
fn fixup_handles_multiple_shas() {
    let out = rewrite(
        TODO,
        &Action::Fixup {
            shas: vec!["1a2b3c4d".to_string(), "cafe1234".to_string()],
        },
    )
    .unwrap();
    assert!(out.contains("fixup 1a2b3c4d feat: add foo\n"));
    assert!(out.contains("fixup cafe1234 fix: typo\n"));
    assert!(out.contains("pick deadbeef chore: bump deps\n"));
}

#[test]
fn fixup_with_no_match_errors() {
    let err = rewrite(
        TODO,
        &Action::Fixup {
            shas: vec!["ffffffff".to_string()],
        },
    )
    .unwrap_err();
    match err {
        CliError::InvalidState(msg) => {
            assert!(msg.contains("ffffffff"), "got: {msg}");
            assert!(msg.contains("partial fixup"));
        }
        other => panic!("unexpected: {other:?}"),
    }
}

#[test]
fn reword_marks_matching_pick() {
    let out = rewrite(
        TODO,
        &Action::Reword {
            sha: "deadbeef".to_string(),
        },
    )
    .unwrap();
    assert!(out.contains("reword deadbeef chore: bump deps\n"));
    assert!(out.contains("pick 1a2b3c4d feat: add foo\n"));
}

#[test]
fn reword_with_no_match_errors() {
    let err = rewrite(
        TODO,
        &Action::Reword {
            sha: "ffffffff".to_string(),
        },
    )
    .unwrap_err();
    match err {
        CliError::InvalidState(msg) => assert!(msg.contains("partial reword"), "got: {msg}"),
        other => panic!("unexpected: {other:?}"),
    }
}

#[test]
fn exec_after_injects_line_below_target() {
    let out = rewrite(
        TODO,
        &Action::ExecAfter {
            sha: "deadbeef".to_string(),
            command: "git commit --amend -F /tmp/msg.txt".to_string(),
        },
    )
    .unwrap();
    assert_eq!(
        out,
        "pick 1a2b3c4d feat: add foo\n\
         pick deadbeef chore: bump deps\n\
         exec git commit --amend -F /tmp/msg.txt\n\
         pick cafe1234 fix: typo\n\
         \n\
         # Rebase abc..def onto abc (3 commands)\n"
    );
}

#[test]
fn reorder_rewrites_picks_in_given_order() {
    let out = rewrite(
        TODO,
        &Action::Reorder {
            ordered_shas: vec![
                "cafe1234".to_string(),
                "1a2b3c4d".to_string(),
                "deadbeef".to_string(),
            ],
        },
    )
    .unwrap();
    assert_eq!(
        out,
        "pick cafe1234 fix: typo\n\
         pick 1a2b3c4d feat: add foo\n\
         pick deadbeef chore: bump deps\n\
         \n\
         # Rebase abc..def onto abc (3 commands)\n"
    );
}

#[test]
fn reorder_count_mismatch_errors() {
    let err = rewrite(
        TODO,
        &Action::Reorder {
            ordered_shas: vec!["1a2b3c4d".to_string()],
        },
    )
    .unwrap_err();
    match err {
        CliError::InvalidState(msg) => {
            assert!(
                msg.contains("3 pick lines") && msg.contains("1 ordered"),
                "got: {msg}"
            );
        }
        other => panic!("unexpected: {other:?}"),
    }
}

#[test]
fn squash_folds_srcs_into_target_and_keeps_target_verb() {
    let out = rewrite(
        TODO,
        &Action::Squash {
            ordered_shas: vec![
                "1a2b3c4d".to_string(), // A
                "cafe1234".to_string(), // C (will be fixed up into A)
                "deadbeef".to_string(), // B (stays a pick)
            ],
            fixup_shas: vec!["cafe1234".to_string()],
            exec_after_sha: None,
            exec_command: None,
        },
    )
    .unwrap();
    assert_eq!(
        out,
        "pick 1a2b3c4d feat: add foo\n\
         fixup cafe1234 fix: typo\n\
         pick deadbeef chore: bump deps\n\
         \n\
         # Rebase abc..def onto abc (3 commands)\n"
    );
}

#[test]
fn squash_with_exec_after_injects_command() {
    let out = rewrite(
        TODO,
        &Action::Squash {
            ordered_shas: vec![
                "1a2b3c4d".to_string(),
                "cafe1234".to_string(),
                "deadbeef".to_string(),
            ],
            fixup_shas: vec!["cafe1234".to_string()],
            exec_after_sha: Some("cafe1234".to_string()),
            exec_command: Some("git commit --amend -F /tmp/msg.txt".to_string()),
        },
    )
    .unwrap();
    assert_eq!(
        out,
        "pick 1a2b3c4d feat: add foo\n\
         fixup cafe1234 fix: typo\n\
         exec git commit --amend -F /tmp/msg.txt\n\
         pick deadbeef chore: bump deps\n\
         \n\
         # Rebase abc..def onto abc (3 commands)\n"
    );
}

#[test]
fn squash_count_mismatch_errors() {
    let err = rewrite(
        TODO,
        &Action::Squash {
            ordered_shas: vec!["1a2b3c4d".to_string()],
            fixup_shas: vec![],
            exec_after_sha: None,
            exec_command: None,
        },
    )
    .unwrap_err();
    match err {
        CliError::InvalidState(msg) => {
            assert!(msg.contains("3 pick lines"), "got: {msg}");
        }
        other => panic!("unexpected: {other:?}"),
    }
}

#[test]
fn reorder_unknown_sha_errors() {
    let err = rewrite(
        TODO,
        &Action::Reorder {
            ordered_shas: vec![
                "ffffffff".to_string(),
                "1a2b3c4d".to_string(),
                "deadbeef".to_string(),
            ],
        },
    )
    .unwrap_err();
    match err {
        CliError::InvalidState(msg) => assert!(msg.contains("ffffffff"), "got: {msg}"),
        other => panic!("unexpected: {other:?}"),
    }
}

#[test]
fn exec_after_with_no_match_errors() {
    let err = rewrite(
        TODO,
        &Action::ExecAfter {
            sha: "ffffffff".to_string(),
            command: "true".to_string(),
        },
    )
    .unwrap_err();
    match err {
        CliError::InvalidState(msg) => {
            assert!(msg.contains("ffffffff"), "got: {msg}");
            assert!(msg.contains("unanchored"));
        }
        other => panic!("unexpected: {other:?}"),
    }
}

fn reorder(todo: &str, shas: &[&str]) -> String {
    let ordered_shas: Vec<String> = shas.iter().map(|s| s.to_string()).collect();
    rewrite(todo, &Action::Reorder { ordered_shas }).unwrap()
}

#[test]
fn the_order_that_stands_is_kept() {
    assert_eq!(reorder(TODO, &["1a2b3c4d", "deadbeef", "cafe1234"]), TODO);
}

#[test]
fn other_lines_follow_the_picks_of_a_new_order() {
    let todo = "# first\npick aaaa one\nexec true\npick bbbb two\n";
    assert_eq!(
        reorder(todo, &["bbbb", "aaaa"]),
        "pick bbbb two\npick aaaa one\n# first\nexec true\n"
    );
}

#[test]
fn a_last_line_without_an_end_stays_without_one() {
    let out = rewrite(
        "pick aaaa one",
        &Action::Edit {
            sha: "aaaa".to_string(),
        },
    )
    .unwrap();
    assert_eq!(out, "edit aaaa one");
}

fn strings(v: &[&str]) -> Vec<String> {
    v.iter().map(|s| s.to_string()).collect()
}

fn squash(todo: &str, shas: &[&str], fixups: &[&str], exec: Option<(&str, &str)>) -> String {
    rewrite(
        todo,
        &Action::Squash {
            ordered_shas: strings(shas),
            fixup_shas: strings(fixups),
            exec_after_sha: exec.map(|e| e.0.to_string()),
            exec_command: exec.map(|e| e.1.to_string()),
        },
    )
    .unwrap()
}

fn refusal(todo: &str, action: Action) -> String {
    match rewrite(todo, &action).unwrap_err() {
        CliError::InvalidState(msg) => msg,
        other => panic!("unexpected: {other:?}"),
    }
}

#[test]
fn squash_with_an_unknown_anchor_adds_no_command() {
    let order = ["1a2b3c4d", "deadbeef", "cafe1234"];
    assert_eq!(squash(TODO, &order, &[], Some(("ffffffff", "true"))), TODO);
}

#[test]
fn a_target_of_several_lines_is_refused() {
    let todo = "pick abc1 a\npick abc2 b\n";
    assert_eq!(
        refusal(todo, Action::Drop { shas: strings(&["abc"]) }),
        "rebase-todo drop: target(s) abc matched multiple `pick` lines; pass a longer SHA prefix"
    );
    assert_eq!(
        refusal(todo, Action::Drop { shas: strings(&["abc1", "abc"]) }),
        "rebase-todo drop: target(s) abc matched multiple `pick` lines; pass a longer SHA prefix"
    );
    assert_eq!(
        refusal(todo, Action::Fixup { shas: strings(&["abc"]) }),
        "rebase-todo fixup: target(s) abc matched multiple `pick` lines; pass a longer SHA prefix"
    );
    assert_eq!(
        refusal(todo, Action::Reorder { ordered_shas: strings(&["abc", "abc2"]) }),
        "rebase-todo reorder: target(s) abc matched multiple `pick` lines; pass a longer SHA prefix"
    );
    assert_eq!(
        refusal(
            todo,
            Action::Squash {
                ordered_shas: strings(&["abc2", "abc"]),
                fixup_shas: vec![],
                exec_after_sha: None,
                exec_command: None,
            }
        ),
        "rebase-todo squash: target(s) abc matched multiple `pick` lines; pass a longer SHA prefix"
    );
}

#[test]
fn a_sha_that_is_asked_for_twice_is_refused() {
    let todo = "pick abc1 a\npick def2 b\n";
    assert_eq!(
        refusal(todo, Action::Reorder { ordered_shas: strings(&["abc1", "abc1"]) }),
        "rebase-todo reorder: no remaining pick line matches abc1"
    );
}

#[test]
fn a_command_stands_on_a_line_of_its_own() {
    let after = |todo: &str| {
        rewrite(
            todo,
            &Action::ExecAfter {
                sha: "abc".to_string(),
                command: "true".to_string(),
            },
        )
        .unwrap()
    };
    assert_eq!(after("pick abc feat"), "pick abc feat\nexec true\n");
    assert_eq!(after("pick abc feat\r\n"), "pick abc feat\r\nexec true\r\n");
    assert_eq!(after("pick abc feat\r"), "pick abc feat\r\nexec true\r");
    assert_eq!(
        after("pick abc feat\npick def b"),
        "pick abc feat\nexec true\npick def b"
    );
}

#[test]
fn a_last_line_that_moves_up_gets_an_end() {
    let todo = "pick abc a\npick def b";
    assert_eq!(reorder(todo, &["def", "abc"]), "pick def b\npick abc a\n");
    assert_eq!(
        squash(todo, &["def", "abc"], &["abc"], None),
        "pick def b\nfixup abc a\n"
    );
    let todo = "# note\npick abc a";
    assert_eq!(reorder(todo, &["abc"]), "pick abc a\n# note\n");
}

#[test]
fn a_line_that_nothing_follows_is_not_ended() {
    assert_eq!(reorder("pick a x", &["a"]), "pick a x");
    assert_eq!(reorder("pick a x\r", &["a"]), "pick a x\r");
    assert_eq!(
        reorder("pick a x\npick b y", &["a", "b"]),
        "pick a x\npick b y"
    );
    assert_eq!(squash("pick a x\r", &["a"], &[], None), "pick a x\r");
    assert_eq!(squash("pick a x", &["a"], &[], None), "pick a x\n");
    assert_eq!(
        squash("pick a x\r", &["a"], &[], Some(("a", "true"))),
        "pick a x\r\nexec true\r"
    );
    assert_eq!(
        squash("pick b y\npick a x\r", &["a", "b"], &[], None),
        "pick a x\r\npick b y\n"
    );
}

#[test]
fn a_squash_without_a_command_is_a_reorder_with_other_verbs() {
    let order = ["cafe1234", "1a2b3c4d", "deadbeef"];
    let plain = reorder(TODO, &order);
    assert_eq!(squash(TODO, &order, &[], None), plain);
    assert_eq!(
        squash(TODO, &order, &["1a2b"], None),
        plain.replace("pick 1a2b3c4d", "fixup 1a2b3c4d")
    );
    let half = |sha: Option<&str>, command: Option<&str>| {
        rewrite(
            TODO,
            &Action::Squash {
                ordered_shas: strings(&order),
                fixup_shas: vec![],
                exec_after_sha: sha.map(str::to_string),
                exec_command: command.map(str::to_string),
            },
        )
        .unwrap()
    };
    assert_eq!(half(Some("cafe1234"), None), plain);
    assert_eq!(half(None, Some("true")), plain);
}
