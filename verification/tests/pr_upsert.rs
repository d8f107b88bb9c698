use mergify_stack::changes::Action;
use mergify_stack::error::CliError;
use mergify_stack::pr_upsert::{
    PrRequest, PrUpsertInput, StaleBase, create_or_update_pr, delete_orphan_branch,
    neutralize_stale_bases, upserted_pull,
};
use mergify_stack::pull::Pull;

fn existing() -> Pull {
    Pull {
        number: Some(42),
        body: Some("old body\n\nDepends-On: #999".to_string()),
        ..Pull::default()
    }
}

fn bare(action: Action) -> PrUpsertInput<'static> {
    PrUpsertInput {
        action,
        title: "x",
        message: "x",
        dest_branch: "b",
        base_branch: "main",
        pull: None,
        depends_on_number: None,
        create_as_draft: false,
        keep_pull_request_title_and_body: false,
    }
}

#[test]
fn create_posts_pulls_endpoint_with_draft_and_full_body() {
    let input = PrUpsertInput {
        action: Action::Create,
        title: "feat: x",
        message: "feat: x\n\nbody\n\nChange-Id: Iaaaaaaaaaaaaaaaaaaaaaaaaaaaaaaaaaaaaaaaa\n",
        dest_branch: "jd/feature/Iaaaaaa",
        base_branch: "main",
        pull: None,
        depends_on_number: Some(7),
        create_as_draft: true,
        keep_pull_request_title_and_body: false,
    };
    let request = create_or_update_pr("o", "r", input).unwrap();
    let reply = Pull {
        number: Some(42),
        ..Pull::default()
    };
    assert_eq!(upserted_pull(&None, &request, reply).number, Some(42));
    let PrRequest::Post {
        path,
        title,
        body,
        draft,
        head,
        base,
    } = request
    else {
        panic!("expected a POST");
    };
    assert_eq!(path, "/repos/o/r/pulls");
    assert_eq!(title, "feat: x");
    assert!(draft);
    assert_eq!(head, "jd/feature/Iaaaaaa");
    assert_eq!(base, "main");
    assert!(!body.contains("Change-Id"));
    assert!(body.ends_with("\n\nDepends-On: #7"));
}

#[test]
fn update_patches_pulls_endpoint_and_returns_existing_pull() {
    let existing = existing();
    let input = PrUpsertInput {
        action: Action::Update,
        title: "feat: x (rewritten)",
        message: "feat: x\n\nfresh body",
        dest_branch: "jd/feature/Iaaaaaa",
        base_branch: "main",
        pull: Some(&existing),
        depends_on_number: None,
        create_as_draft: false,
        keep_pull_request_title_and_body: false,
    };
    let request = create_or_update_pr("o", "r", input).unwrap();
    let known = Some(existing.clone());
    assert_eq!(upserted_pull(&known, &request, Pull::default()), existing);
    assert_eq!(
        request,
        PrRequest::Patch {
            path: "/repos/o/r/pulls/42".to_string(),
            title: Some("feat: x (rewritten)".to_string()),
            head: "jd/feature/Iaaaaaa".to_string(),
            base: Some("main".to_string()),
            body: "feat: x\n\nfresh body".to_string(),
        }
    );
}

#[test]
fn update_with_keep_title_omits_title_and_rewrites_body_from_existing() {
    let existing = existing();
    let input = PrUpsertInput {
        action: Action::Update,
        title: "ignored",
        message: "ignored",
        dest_branch: "jd/feature/Iaaaaaa",
        base_branch: "main",
        pull: Some(&existing),
        depends_on_number: None,
        create_as_draft: false,
        keep_pull_request_title_and_body: true,
    };
    let PrRequest::Patch { title, body, .. } = create_or_update_pr("o", "r", input).unwrap() else {
        panic!("expected a PATCH");
    };
    assert!(title.is_none(), "title must be absent");
    assert!(!body.contains("Depends-On"));
    assert!(body.starts_with("old body"));
}

#[test]
fn update_without_existing_pull_errors() {
    let err = create_or_update_pr("o", "r", bare(Action::Update)).unwrap_err();
    let CliError::Generic(msg) = err else {
        panic!("expected Generic");
    };
    assert!(msg.contains("change.pull unset"));
}

#[test]
fn skip_actions_are_rejected() {
    for action in [Action::SkipMerged, Action::SkipUpToDate] {
        assert!(create_or_update_pr("o", "r", bare(action)).is_err());
    }
    for action in [Action::SkipCreate, Action::SkipNextOnly] {
        assert!(create_or_update_pr("o", "r", bare(action)).is_err());
    }
}

#[test]
fn delete_orphan_branch_returns_deleted_on_2xx() {
    assert_eq!(
        delete_orphan_branch("o", "r", "orphan-branch"),
        "/repos/o/r/git/refs/heads/orphan-branch"
    );
}

#[test]
fn only_bases_that_move_are_neutralized() {
    let base = |n: u64, from: &str, to: &str| StaleBase {
        pull_number: n,
        current_base_ref: from.to_string(),
        new_base_ref: to.to_string(),
    };
    assert_eq!(
        neutralize_stale_bases(&vec![
            base(1, "main", "main"),
            base(2, "old", "new"),
            base(3, "a", "b"),
        ]),
        vec![2, 3]
    );
}

#[test]
fn a_base_is_sent_only_to_retarget() {
    let base_of = |current: Option<&str>| {
        let pull = Pull {
            base_ref: current.map(str::to_string),
            ..existing()
        };
        let input = PrUpsertInput {
            pull: Some(&pull),
            ..bare(Action::Update)
        };
        match create_or_update_pr("o", "r", input).unwrap() {
            PrRequest::Patch { base, .. } => base,
            other => panic!("unexpected: {other:?}"),
        }
    };
    assert_eq!(base_of(Some("main")), None);
    assert_eq!(base_of(Some("stack/a/1")), Some("main".to_string()));
    assert_eq!(base_of(None), Some("main".to_string()));
}
