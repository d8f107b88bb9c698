use mergify_stack::change_type::ChangeType;
use mergify_stack::comment_upsert::{
    Comment, CommentAction, RevisionInput, comment_path, comments_path, next_body, path_and_query,
    update_revision_history_for_pull, update_stack_comment_for_pull,
    upsert_revision_history_comment,
};
use mergify_stack::error::CliError;
use mergify_stack::revision_history::RevisionHistoryComment;
use mergify_stack::timestamp::Timestamp;

const FRESH: &str =
    "This pull request is part of a [Mergify stack](https://docs.mergify.com/stacks/):\nFRESH";

fn ts() -> Timestamp {
    // 2026-06-04 12:30:00 UTC
    Timestamp::new(1_780_576_200, 0).unwrap()
}

fn comment(url: &str, body: &str) -> Comment {
    Comment {
        url: url.to_string(),
        body: body.to_string(),
    }
}

fn input<'a>(
    old_sha: &'a str,
    new_sha: &'a str,
    change_type: ChangeType,
    reason: &'a str,
) -> RevisionInput<'a> {
    RevisionInput {
        pull_number: 42,
        old_sha,
        new_sha,
        change_type,
        reason,
        replay_sha: None,
        timestamp: ts(),
    }
}

#[test]
fn stack_comment_creates_when_missing() {
    let action =
        update_stack_comment_for_pull("o", "r", 1, &vec![], &vec![], FRESH, 2).unwrap();
    assert_eq!(
        action,
        CommentAction::Post {
            path: "/repos/o/r/issues/1/comments".to_string(),
            body: FRESH.to_string(),
        }
    );
}

#[test]
fn stack_comment_patches_when_existing_body_differs() {
    let comments = vec![
        comment("https://api.github.com/repos/o/r/issues/comments/99", "hello"),
        comment(
            "https://api.github.com/repos/o/r/issues/comments/100",
            "This pull request is part of a [Mergify stack](https://docs.mergify.com/stacks/):\nSTALE",
        ),
    ];
    let action =
        update_stack_comment_for_pull("o", "r", 1, &comments, &vec![false, true], FRESH, 2)
            .unwrap();
    assert_eq!(
        action,
        CommentAction::Patch {
            path: "/repos/o/r/issues/comments/100".to_string(),
            body: FRESH.to_string(),
        }
    );
}

#[test]
fn stack_comment_skips_when_only_one_pull() {
    assert_eq!(
        update_stack_comment_for_pull("o", "r", 1, &vec![], &vec![], FRESH, 1),
        Ok(CommentAction::Nothing)
    );
}

#[test]
fn a_comment_that_is_right_already_stays() {
    let comments = vec![comment("https://api.github.com/repos/o/r/issues/comments/100", FRESH)];
    assert_eq!(
        update_stack_comment_for_pull("o", "r", 1, &comments, &vec![true], FRESH, 2),
        Ok(CommentAction::Nothing)
    );
}

#[test]
fn revision_history_creates_when_missing() {
    let action = update_revision_history_for_pull(
        "o",
        "r",
        "https://api.github.com",
        &vec![],
        &input(
            "aaaaaaaaaaaa",
            "bbbbbbbbbbbb",
            ChangeType::Content,
            "review feedback",
        ),
    )
    .unwrap();
    let CommentAction::Post { path, body } = action else {
        panic!("expected a POST");
    };
    assert_eq!(path, "/repos/o/r/issues/42/comments");
    assert!(body.starts_with("### Revision history\n"));
    assert!(body.contains("| 1 | initial |"));
    assert!(body.contains("| 2 | content |"));
}

#[test]
fn revision_history_appends_to_existing_parseable_comment() {
    let seed = RevisionHistoryComment::create_initial(
        "https://api.github.com",
        "o",
        "r",
        "aaaaaaaaaaaa",
        "bbbbbbbbbbbb",
        ChangeType::Content,
        ts(),
        "first push",
        None,
    );
    let comments = vec![comment(
        "https://api.github.com/repos/o/r/issues/comments/200",
        &seed.body(42),
    )];
    let action = update_revision_history_for_pull(
        "o",
        "r",
        "https://api.github.com",
        &comments,
        &input("bbbbbbbbbbbb", "cccccccccccc", ChangeType::Rebase, ""),
    )
    .unwrap();
    let CommentAction::Patch { path, body } = action else {
        panic!("expected a PATCH");
    };
    assert_eq!(path, "/repos/o/r/issues/comments/200");
    assert!(body.contains("| 1 | initial |"));
    assert!(body.contains("| 2 | content |"));
    assert!(body.contains("| 3 | rebase |"));
}

#[test]
fn revision_history_overwrites_when_existing_marker_corrupted() {
    let comments = vec![comment(
        "https://api.github.com/repos/o/r/issues/comments/300",
        "### Revision history\n\n<!-- mergify-revision-data: not-json -->",
    )];
    let action = update_revision_history_for_pull(
        "o",
        "r",
        "https://api.github.com",
        &comments,
        &input("aaaaaaaaaaaa", "bbbbbbbbbbbb", ChangeType::Content, "recover"),
    )
    .unwrap();
    let CommentAction::Patch { path, body } = action else {
        panic!("expected a PATCH");
    };
    assert_eq!(path, "/repos/o/r/issues/comments/300");
    assert!(body.contains("| 1 | initial |"));
    assert!(body.contains("| 2 | content |"));
    assert!(!body.contains("| 3 |"));
}

#[test]
fn the_next_body_of_nothing_is_an_initial_one() {
    let i = input("aaaaaaaaaaaa", "bbbbbbbbbbbb", ChangeType::Content, "why");
    let expected = RevisionHistoryComment::create_initial(
        "https://api.github.com",
        "o",
        "r",
        "aaaaaaaaaaaa",
        "bbbbbbbbbbbb",
        ChangeType::Content,
        ts(),
        "why",
        None,
    )
    .body(42);
    assert_eq!(next_body(None, "https://api.github.com", "o", "r", &i), expected);
}

#[test]
fn a_comment_is_addressed_by_path_and_query() {
    assert_eq!(comments_path("o", "r", 3), "/repos/o/r/issues/3/comments");
    assert_eq!(
        comment_path("https://ghe.example.com/api/v3/repos/o/r/issues/comments/1?x=y"),
        Ok("/api/v3/repos/o/r/issues/comments/1?x=y".to_string())
    );
    assert_eq!(path_and_query("/a", None), "/a");
    assert_eq!(path_and_query("/a", Some("b=c")), "/a?b=c");
}

#[test]
fn a_comment_without_a_proper_url_is_an_error() {
    let err = comment_path("not a url").unwrap_err();
    assert!(matches!(err, CliError::GitHubApi(_)), "{err:?}");
    let parse_error = url::Url::parse("not a url").unwrap_err().to_string();
    assert!(err.message().contains(&parse_error), "{err:?}");
}

#[test]
fn a_prepared_history_replaces_the_comment_that_is_one() {
    let old = comment(
        "https://api.github.com/repos/o/r/issues/comments/5",
        "### Revision history\nold",
    );
    let other = comment("https://api.github.com/repos/o/r/issues/comments/4", "hello");
    let new = "### Revision history\nnew";
    assert_eq!(
        upsert_revision_history_comment("o", "r", 3, &vec![other.clone(), old], new),
        Ok(CommentAction::Patch {
            path: "/repos/o/r/issues/comments/5".to_string(),
            body: new.to_string(),
        })
    );
    assert_eq!(
        upsert_revision_history_comment("o", "r", 3, &vec![other], new),
        Ok(CommentAction::Post {
            path: "/repos/o/r/issues/3/comments".to_string(),
            body: new.to_string(),
        })
    );
}
