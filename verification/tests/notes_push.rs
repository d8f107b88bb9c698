use mergify_stack::error::CliError;
use mergify_stack::local_commits::STACK_NOTES_REF;
use mergify_stack::notes_push::{
    NOTES_INCOMING_REF, NotesFetch, NotesLease, PUSH_ENV_MARKER, PushEntry, lease_beside_local,
    lease_without_local, notes_fetch_args, notes_merge_args, push_branches, push_failure,
};

const NOT_FOUND: &str = "fatal: couldn't find remote ref refs/notes/mergify/stack\n";

fn entry(sha: &str, branch: &str, head: Option<&str>) -> PushEntry {
    PushEntry {
        commit_sha: sha.to_string(),
        dest_branch: branch.to_string(),
        pull_head_sha: head.map(str::to_string),
    }
}

#[test]
fn fetch_notes_ref_returns_remote_absent_on_first_push_when_neither_side_has_ref() {
    let got = lease_without_local(NotesFetch::Failed(NOT_FOUND.to_string()), "origin").unwrap();
    assert_eq!(got, NotesLease::RemoteAbsent);
}

#[test]
fn fetch_notes_ref_returns_remote_absent_when_local_ref_already_exists() {
    let got = lease_beside_local(NotesFetch::Failed(NOT_FOUND.to_string()));
    assert_eq!(got, NotesLease::RemoteAbsent);
}

#[test]
fn fetch_notes_ref_returns_remote_at_when_only_remote_has_ref() {
    let remote_sha = "1111111111111111111111111111111111111111".to_string();
    let got = lease_without_local(NotesFetch::Fetched(Ok(remote_sha.clone())), "origin").unwrap();
    assert_eq!(got, NotesLease::RemoteAt(remote_sha));
}

#[test]
fn fetch_notes_ref_returns_unknown_when_remote_unreachable() {
    let got = lease_beside_local(NotesFetch::Failed(
        "fatal: '/tmp/no-such-remote' does not appear to be a git repository\n".to_string(),
    ));
    assert_eq!(got, NotesLease::Unknown);
    assert_eq!(
        lease_beside_local(NotesFetch::NotStarted("no git".to_string())),
        NotesLease::Unknown
    );
}

#[test]
fn a_failed_first_fetch_is_an_error() {
    let err = lease_without_local(
        NotesFetch::Failed("fatal: unable to access\n".to_string()),
        "origin",
    )
    .unwrap_err();
    let CliError::Generic(msg) = err else {
        panic!("expected Generic");
    };
    assert!(msg.contains("unable to access"), "{msg}");
    let err = lease_without_local(NotesFetch::NotStarted("no git".to_string()), "origin");
    assert_eq!(
        err,
        Err(CliError::Generic(
            "failed to spawn `git fetch`: no git".to_string()
        ))
    );
}

#[test]
fn incoming_notes_are_merged_beside_the_local_ones() {
    let beside = notes_fetch_args(true, "origin");
    assert_eq!(beside[..2], ["fetch".to_string(), "origin".to_string()]);
    assert!(
        beside[3].ends_with(&format!(":{NOTES_INCOMING_REF}")),
        "{beside:?}"
    );
    let first = notes_fetch_args(false, "origin");
    assert!(first[3].ends_with(&format!(":{STACK_NOTES_REF}")), "{first:?}");
    assert!(
        notes_merge_args().iter().any(|a| a == NOTES_INCOMING_REF),
        "the incoming notes are merged"
    );
    assert_eq!(PUSH_ENV_MARKER, "MERGIFY_STACK_PUSH");
}

#[test]
fn push_branches_is_noop_when_entries_empty() {
    assert_eq!(
        push_branches("origin", &vec![], false, &NotesLease::RemoteAbsent, false),
        None
    );
}

#[test]
fn push_branches_lands_create_entries_against_a_bare_remote() {
    let args = push_branches(
        "origin",
        &vec![entry("abc", "stack/feat/x", None)],
        false,
        &NotesLease::RemoteAbsent,
        false,
    )
    .unwrap();
    assert_eq!(args[0], "push");
    assert!(args.iter().any(|a| a == "--atomic"));
    // A branch that must not exist yet.
    assert!(
        args.iter()
            .any(|a| a == "--force-with-lease=refs/heads/stack/feat/x:"),
        "{args:?}"
    );
    assert!(
        args.iter().any(|a| a == "abc:refs/heads/stack/feat/x"),
        "{args:?}"
    );
    assert!(!args.iter().any(|a| a.contains(STACK_NOTES_REF)), "{args:?}");
}

#[test]
fn push_branches_update_entry_fails_when_remote_diverged_from_lease() {
    let args = push_branches(
        "origin",
        &vec![entry(
            "abc",
            "stack/feat/x",
            Some("0000000000000000000000000000000000000000"),
        )],
        false,
        &NotesLease::RemoteAbsent,
        false,
    )
    .unwrap();
    assert!(
        args.iter().any(|a| a
            == "--force-with-lease=refs/heads/stack/feat/x:0000000000000000000000000000000000000000"),
        "{args:?}"
    );
    let err = push_failure("exit status: 1", "");
    let CliError::Generic(msg) = err else {
        panic!("expected Generic CliError");
    };
    assert!(
        msg.contains("exited"),
        "error must surface a non-zero git push exit ({msg})",
    );
}

#[test]
fn push_branches_notes_lease_rejects_when_remote_moved() {
    // The lease is the state that was fetched, so git refuses the push where
    // the remote has moved on.
    let args = push_branches(
        "origin",
        &vec![entry("abc", "stack/feat/y", None)],
        false,
        &NotesLease::RemoteAt("v1".to_string()),
        true,
    )
    .unwrap();
    assert!(args.iter().any(|a| a == "--atomic"));
    assert!(
        args.iter()
            .any(|a| a == &format!("--force-with-lease={STACK_NOTES_REF}:v1")),
        "{args:?}"
    );
}

#[test]
fn push_branches_notes_lease_succeeds_when_lease_current() {
    let args = push_branches(
        "origin",
        &vec![entry("abc", "stack/feat/y", None)],
        true,
        &NotesLease::RemoteAt("v1".to_string()),
        true,
    )
    .unwrap();
    assert!(
        args.last().unwrap().ends_with(STACK_NOTES_REF),
        "the notes are pushed beside the branches: {args:?}"
    );
    assert!(args.iter().any(|a| a == "--no-verify"));
}

#[test]
fn notes_of_unknown_state_are_not_pushed() {
    let args = push_branches(
        "origin",
        &vec![entry("abc", "stack/feat/y", None)],
        false,
        &NotesLease::Unknown,
        true,
    )
    .unwrap();
    assert!(!args.iter().any(|a| a.contains(STACK_NOTES_REF)), "{args:?}");
}
