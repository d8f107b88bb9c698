use mergify_stack::commands::note::{
    Action, CommitTarget, EDITOR_TEMPLATE, Outcome, attach_note, commit_target, pick_editor,
    plan_note, resolve_change_id_prefix, sanitize_message, show_note, strip_comments,
};
use mergify_stack::error::CliError;
use mergify_stack::local_commits::LocalCommit;

const SHA: &str = "1111111111111111111111111111111111111111";

fn planned(action: &Action, edited: &str, note_exists: bool) -> Result<(Vec<String>, Outcome), CliError> {
    let (args, outcome) = plan_note(action, edited, note_exists, SHA, "subject")?;
    Ok((args.unwrap_or_default(), outcome))
}

fn attached(text: &str) -> Vec<String> {
    [
        "notes",
        "--ref=refs/notes/mergify/stack",
        "add",
        "-f",
        "-m",
        text,
        SHA,
    ]
    .iter()
    .map(|s| s.to_string())
    .collect()
}

fn commit(change_id: &str) -> LocalCommit {
    LocalCommit {
        commit_sha: SHA.to_string(),
        title: "feature".to_string(),
        message: format!("feature\n\nChange-Id: {change_id}"),
        change_id: change_id.to_string(),
        slug: String::new(),
        note: String::new(),
    }
}

#[test]
fn add_attaches_note_to_head() {
    match commit_target(None) {
        CommitTarget::AskGit(args) => {
            assert_eq!(args, vec!["rev-parse", "--verify", "HEAD^{commit}"]);
        }
        other => panic!("unexpected: {other:?}"),
    }
    let (args, outcome) = planned(&Action::Replace("fixed a typo".into()), "", false).unwrap();
    assert!(matches!(outcome, Outcome::Attached { .. }));
    assert_eq!(args, attached("fixed a typo"));
}

#[test]
fn add_to_specific_sha_via_prefix() {
    match commit_target(Some("1111111111")) {
        CommitTarget::AskGit(args) => {
            assert_eq!(args, vec!["rev-parse", "--verify", "1111111111^{commit}"]);
        }
        other => panic!("unexpected: {other:?}"),
    }
    let (args, outcome) = planned(&Action::Replace("note for first".into()), "", false).unwrap();
    assert_eq!(
        outcome,
        Outcome::Attached {
            sha: SHA.to_string(),
            subject: "subject".to_string(),
        }
    );
    assert_eq!(args, attached("note for first"));
}

#[test]
fn append_concatenates_with_blank_line() {
    // `git notes append` puts a blank line between the two.
    let (args, _) = planned(&Action::Append("second line".into()), "", true).unwrap();
    assert_eq!(args, attach_note(SHA, "second line", true));
    assert_eq!(args[2], "append");
    assert!(!args.iter().any(|a| a == "-f"));
}

#[test]
fn replace_is_default() {
    let (args, _) = planned(&Action::Replace("second".into()), "", true).unwrap();
    assert_eq!(args, attached("second"));
}

#[test]
fn remove_deletes_note() {
    let (args, outcome) = planned(&Action::Remove, "", true).unwrap();
    assert!(matches!(outcome, Outcome::Removed { .. }));
    assert_eq!(
        args,
        vec!["notes", "--ref=refs/notes/mergify/stack", "remove", SHA]
    );
    assert_eq!(show_note(SHA).last().unwrap(), SHA);
}

#[test]
fn remove_is_idempotent() {
    let (args, outcome) = planned(&Action::Remove, "", false).unwrap();
    assert!(matches!(outcome, Outcome::NoNoteToRemove { .. }));
    assert!(args.is_empty());
}

#[test]
fn empty_inline_message_is_rejected() {
    let err = planned(&Action::Replace("   ".into()), "", false).unwrap_err();
    match err {
        CliError::InvalidState(msg) => {
            assert!(msg.contains("note is empty"), "got: {msg}");
        }
        other => panic!("unexpected: {other:?}"),
    }
    assert!(planned(&Action::Append("\n\t".into()), "", true).is_err());
}

#[test]
fn editor_fallback_strips_comments_and_writes_real_note() {
    let (args, _) =
        planned(&Action::FromEditor, "real note text\n# template line\n", false).unwrap();
    assert_eq!(args, attached("real note text"));
}

#[test]
fn editor_fallback_rejects_empty_result() {
    let err = planned(&Action::FromEditor, "# only a comment\n   \n", false).unwrap_err();
    match err {
        CliError::InvalidState(msg) => assert!(msg.contains("note is empty"), "got: {msg}"),
        other => panic!("unexpected: {other:?}"),
    }
    assert!(planned(&Action::FromEditor, EDITOR_TEMPLATE, false).is_err());
}

#[test]
fn editor_fallback_treats_empty_env_var_as_unset() {
    assert_eq!(
        pick_editor(Some(""), Some("/tmp/visual-editor.sh"), None),
        "/tmp/visual-editor.sh"
    );
    assert_eq!(pick_editor(Some("vi -f"), Some("x"), Some("y")), "vi -f");
    assert_eq!(pick_editor(None, Some(""), Some("nano")), "nano");
}

#[test]
fn note_change_id_prefix_resolves_against_stack() {
    let change_id = "Iabcdef0123456789abcdef0123456789abcdef01";
    assert_eq!(
        commit_target(Some(&change_id[..9])),
        CommitTarget::InStack(change_id[..9].to_string())
    );
    assert_eq!(
        resolve_change_id_prefix(&change_id[..9], &vec![commit(change_id)]),
        Ok(SHA.to_string())
    );
}

#[test]
fn change_id_prefix_with_no_match_errors() {
    let err = resolve_change_id_prefix(
        "Ibeef",
        &vec![commit("Idead0000000000000000000000000000000000ff")],
    )
    .unwrap_err();
    match err {
        CliError::InvalidState(m) => {
            assert!(m.contains("no commit found matching Change-Id"), "got: {m}");
        }
        other => panic!("unexpected: {other:?}"),
    }
}

#[test]
fn only_change_ids_are_compared() {
    let commits = vec![commit("Idead0000000000000000000000000000000000ff")];
    assert_eq!(
        resolve_change_id_prefix("1111", &commits),
        Err(CliError::InvalidState(
            "no commit found matching Change-Id prefix '1111'".to_string()
        ))
    );
    assert_eq!(resolve_change_id_prefix("", &commits), Ok(SHA.to_string()));
}

#[test]
fn a_note_is_trimmed_and_comments_go() {
    assert_eq!(sanitize_message("  why \n"), Ok("why".to_string()));
    assert_eq!(strip_comments("a\n# b\n  # c\nd\n"), "a\nd");
    assert!(!strip_comments("a\n# b\nd\n").contains('#'));
}
