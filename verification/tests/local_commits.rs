use mergify_stack::error::CliError;
use mergify_stack::local_commits::{LocalCommit, log_args, log_failure, parse as parse_with};

fn slug(title: &str, change_id: &str) -> String {
    format!("{title}--{}", &change_id[1..9])
}

fn parse(raw: &str) -> Result<Vec<LocalCommit>, CliError> {
    parse_with(raw, slug)
}

fn record(sha: &str, title: &str, body: &str) -> String {
    record_with_note(sha, title, body, "")
}

fn record_with_note(sha: &str, title: &str, body: &str, note: &str) -> String {
    // NUL between fields, RS after the note.
    format!("{sha}\x00{title}\x00{body}\x00{note}\x1e")
}

#[test]
fn parse_returns_commits_in_input_order() {
    let raw = record(
        "aaaa111111111111111111111111111111111111",
        "first",
        "body1\n\nChange-Id: Iaaaaaaaaaaaaaaaaaaaaaaaaaaaaaaaaaaaaaaaa",
    ) + &record(
        "bbbb222222222222222222222222222222222222",
        "second",
        "body2\n\nChange-Id: Ibbbbbbbbbbbbbbbbbbbbbbbbbbbbbbbbbbbbbbbb",
    );
    let commits = parse(&raw).unwrap();
    assert_eq!(commits.len(), 2);
    assert_eq!(commits[0].title, "first");
    assert_eq!(
        commits[0].commit_sha,
        "aaaa111111111111111111111111111111111111"
    );
    assert_eq!(
        commits[0].change_id,
        "Iaaaaaaaaaaaaaaaaaaaaaaaaaaaaaaaaaaaaaaaa"
    );
    assert_eq!(commits[1].title, "second");
    assert_eq!(
        commits[1].change_id,
        "Ibbbbbbbbbbbbbbbbbbbbbbbbbbbbbbbbbbbbbbbb"
    );
}

#[test]
fn parse_skips_empty_records_at_boundary() {
    let raw = record(
        "aaaa111111111111111111111111111111111111",
        "only",
        "Change-Id: Iaaaaaaaaaaaaaaaaaaaaaaaaaaaaaaaaaaaaaaaa",
    );
    let commits = parse(&raw).unwrap();
    assert_eq!(commits.len(), 1);
}

#[test]
fn parse_returns_empty_on_empty_input() {
    assert!(parse("").unwrap().is_empty());
    assert!(parse("\x1e\x1e").unwrap().is_empty());
}

#[test]
fn parse_picks_last_trailer_when_message_has_multiple() {
    let raw = record(
        "aaaa111111111111111111111111111111111111",
        "amended",
        "body\n\nChange-Id: I1111111111111111111111111111111111111111\nChange-Id: I2222222222222222222222222222222222222222",
    );
    let commits = parse(&raw).unwrap();
    assert_eq!(
        commits[0].change_id,
        "I2222222222222222222222222222222222222222"
    );
}

#[test]
fn parse_rejects_record_missing_a_field() {
    let raw = "aaaa111111111111111111111111111111111111\x00title\x00body\x1e";
    let err = parse(raw).unwrap_err();
    match err {
        CliError::Generic(msg) => assert!(msg.contains("Unexpected git log record format")),
        other => panic!("expected Generic, got: {other:?}"),
    }
}

#[test]
fn parse_extracts_note_when_present() {
    let raw = record_with_note(
        "aaaa111111111111111111111111111111111111",
        "amend",
        "body\n\nChange-Id: Iaaaaaaaaaaaaaaaaaaaaaaaaaaaaaaaaaaaaaaaa",
        "address review feedback",
    );
    let commits = parse(&raw).unwrap();
    assert_eq!(commits.len(), 1);
    assert_eq!(commits[0].note, "address review feedback");
}

#[test]
fn parse_returns_empty_note_when_absent() {
    let raw = record(
        "aaaa111111111111111111111111111111111111",
        "no-note",
        "Change-Id: Iaaaaaaaaaaaaaaaaaaaaaaaaaaaaaaaaaaaaaaaa",
    );
    let commits = parse(&raw).unwrap();
    assert_eq!(commits.len(), 1);
    assert_eq!(commits[0].note, "");
}

#[test]
fn parse_returns_invalid_state_when_change_id_missing() {
    let raw = record(
        "aaaa111111111111111111111111111111111111",
        "broken",
        "body with no trailer",
    );
    let err = parse(&raw).unwrap_err();
    match err {
        CliError::InvalidState(msg) => {
            assert!(msg.contains("Change-Id"));
            assert!(
                msg.contains("aaaa111111111111111111111111111111111111"),
                "missing-Change-Id error must name the offending commit so the user can fix it: {msg}",
            );
        }
        other => panic!("expected InvalidState, got: {other:?}"),
    }
}

#[test]
fn read_walks_a_real_repository() {
    // What git prints for two commits, the second with a note.
    let raw = record(
        "1111111111111111111111111111111111111111",
        "first",
        "Change-Id: Iaaaaaaaaaaaaaaaaaaaaaaaaaaaaaaaaaaaaaaaa\n",
    ) + "\n"
        + &record_with_note(
            "2222222222222222222222222222222222222222",
            "second",
            "Change-Id: Ibbbbbbbbbbbbbbbbbbbbbbbbbbbbbbbbbbbbbbbb\n",
            "address review feedback\n",
        );
    let commits = parse(&raw).unwrap();
    assert_eq!(commits.len(), 2);
    assert_eq!(commits[0].title, "first");
    assert_eq!(commits[1].title, "second");
    assert_eq!(
        commits[0].change_id,
        "Iaaaaaaaaaaaaaaaaaaaaaaaaaaaaaaaaaaaaaaaa"
    );
    assert_eq!(commits[0].note, "");
    assert_eq!(commits[1].note, "address review feedback");
}

#[test]
fn the_slug_is_made_of_title_and_change_id() {
    let raw = record("a1", "feat", "Change-Id: Iabcdef0123456789abcdef0123456789abcdef01");
    assert_eq!(parse(&raw).unwrap()[0].slug, "feat--abcdef01");
}

#[test]
fn git_is_asked_for_the_range_and_the_notes() {
    let args = log_args("base", "HEAD");
    assert_eq!(args[0], "log");
    assert!(args.iter().any(|a| a == "base..HEAD"), "{args:?}");
    assert!(
        args.iter().any(|a| a.contains("refs/notes/mergify/stack")),
        "{args:?}"
    );
    match log_failure("base", "HEAD", "fatal: bad revision\n") {
        CliError::Generic(m) => assert!(m.contains("fatal: bad revision"), "{m}"),
        other => panic!("{other:?}"),
    }
}
