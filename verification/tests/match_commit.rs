use mergify_stack::error::CliError;
use mergify_stack::local_commits::LocalCommit;
use mergify_stack::match_commit::{
    Candidate, Duplicate, Refused, ambiguous, not_found, resolve_all, resolve_commit,
};

fn cand<'a>(sha: &'a str, title: &'a str, change_id: &'a str) -> Candidate<'a> {
    Candidate {
        commit_sha: sha,
        title,
        change_id,
    }
}

#[test]
fn not_found_is_stack_not_found_with_field_and_prefix() {
    match not_found("Change-Id", "Ibeef") {
        CliError::StackNotFound(msg) => {
            assert_eq!(msg, "no commit found matching Change-Id prefix 'Ibeef'");
        }
        other => panic!("expected StackNotFound, got: {other:?}"),
    }
}

#[test]
fn ambiguous_is_invalid_state_with_count_and_header() {
    let candidates = vec![
        cand(
            "aaaaaaaaaaaa1111111111111111111111111111",
            "first",
            "Iaaaaaaaaaaaa1111111111111111111111111111",
        ),
        cand(
            "bbbbbbbbbbbb2222222222222222222222222222",
            "second",
            "Ibbbbbbbbbbbb2222222222222222222222222222",
        ),
    ];
    match ambiguous("SHA", "ab", &candidates) {
        CliError::InvalidState(msg) => {
            assert_eq!(
                msg,
                "ambiguous SHA prefix 'ab' matches 2 commits:\n  \
                 aaaaaaaaaaaa first (Iaaaaaaaaaaa)\n  \
                 bbbbbbbbbbbb second (Ibbbbbbbbbbb)"
            );
        }
        other => panic!("expected InvalidState, got: {other:?}"),
    }
}

#[test]
fn ambiguous_truncates_sha_and_change_id_to_twelve() {
    let candidates = vec![cand(
        "0123456789abcdef0123456789abcdef01234567",
        "subject",
        "I0123456789abcdef0123456789abcdef01234567",
    )];
    match ambiguous("SHA", "01", &candidates) {
        CliError::InvalidState(msg) => {
            assert!(
                msg.contains("  0123456789ab subject (I0123456789a)"),
                "got: {msg}"
            );
        }
        other => panic!("expected InvalidState, got: {other:?}"),
    }
}

#[test]
fn ambiguous_omits_parens_when_no_change_id() {
    let candidates = vec![cand("abcdef0123456789", "no cid", "")];
    match ambiguous("SHA", "abc", &candidates) {
        CliError::InvalidState(msg) => {
            assert!(msg.contains("  abcdef012345 no cid"), "got: {msg}");
            assert!(!msg.contains('('), "no parens expected: {msg}");
        }
        other => panic!("expected InvalidState, got: {other:?}"),
    }
}

#[test]
fn ambiguous_handles_short_sha_and_change_id_without_panicking() {
    let candidates = vec![cand("abc", "short", "Ixyz")];
    match ambiguous("Change-Id", "Ix", &candidates) {
        CliError::InvalidState(msg) => {
            assert!(msg.contains("  abc short (Ixyz)"), "got: {msg}");
        }
        other => panic!("expected InvalidState, got: {other:?}"),
    }
}

fn commit(sha: &str, title: &str, change_id: &str) -> LocalCommit {
    LocalCommit {
        commit_sha: sha.to_string(),
        title: title.to_string(),
        message: String::new(),
        change_id: change_id.to_string(),
        slug: String::new(),
        note: String::new(),
    }
}

fn stack() -> Vec<LocalCommit> {
    vec![
        commit("aa11", "one", "Iaaaa"),
        commit("aa22", "two", "Iabbb"),
        commit("bb33", "three", "Icccc"),
    ]
}

#[test]
fn a_prefix_means_the_only_commit_that_starts_with_it() {
    assert_eq!(resolve_commit("bb", &stack()), Ok(2));
    assert_eq!(resolve_commit("aa2", &stack()), Ok(1));
    assert_eq!(resolve_commit("Iab", &stack()), Ok(1));
}

#[test]
fn two_matches_are_an_error_that_lists_them() {
    assert_eq!(
        resolve_commit("aa", &stack()),
        Err(CliError::InvalidState(
            "ambiguous SHA prefix 'aa' matches 2 commits:\n  aa11 one (Iaaaa)\n  aa22 two (Iabbb)"
                .to_string()
        ))
    );
}

#[test]
fn several_prefixes_mean_different_commits() {
    let prefixes = vec!["bb".to_string(), "aa1".to_string()];
    assert_eq!(
        resolve_all(&prefixes, &stack(), None, Duplicate::Commit),
        Ok(vec![2, 0])
    );
    let twice = vec!["bb".to_string(), "Icccc".to_string()];
    assert_eq!(
        resolve_all(&twice, &stack(), None, Duplicate::Source),
        Err(CliError::InvalidState(
            "duplicate — source prefix 'Icccc' resolves to the same commit as another".to_string()
        ))
    );
}

#[test]
fn a_refused_commit_is_reported_with_its_reason() {
    let refused = Refused {
        sha: "aa11",
        reason: "not this one",
    };
    assert_eq!(
        resolve_all(&vec!["aa1".to_string()], &stack(), Some(refused), Duplicate::Commit),
        Err(CliError::InvalidState("not this one".to_string()))
    );
}
