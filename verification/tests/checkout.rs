use mergify_stack::commands::checkout::{
    Outcome, Target, build_chain, checked_stack_branch, derive_local_branch, is_chain_finite,
    parse_target, plan_checkout, stack_branch_of_pull,
};
use mergify_stack::error::CliError;
use mergify_stack::pull::{MergedAt, Pull};
use mergify_stack::remote_changes::{RemoteChange, group_by_change_id, search_query};

fn pull(number: u64, base: &str, head: &str) -> RemoteChange {
    RemoteChange {
        change_id: format!("I{number:040}"),
        pull: Pull {
            number: Some(number),
            title: Some(format!("PR #{number}")),
            html_url: Some(format!("https://github.com/o/r/pull/{number}")),
            state: Some("open".to_string()),
            base_ref: Some(base.to_string()),
            head_ref: Some(head.to_string()),
            ..Pull::default()
        },
    }
}

fn closed(mut change: RemoteChange) -> RemoteChange {
    change.pull.state = Some("closed".to_string());
    change
}

/// The pull requests that a search for a stack gives.
fn found(changes: Vec<RemoteChange>) -> Vec<RemoteChange> {
    let pulls = changes
        .into_iter()
        .map(|c| Pull {
            merged_at: MergedAt::Null,
            ..c.pull
        })
        .collect();
    group_by_change_id(pulls).unwrap()
}

fn two_pulls(stack_branch: &str) -> Vec<RemoteChange> {
    let heads = [
        format!("{stack_branch}/feat-a--aaaaaaaa"),
        format!("{stack_branch}/feat-b--bbbbbbbb"),
    ];
    found(vec![pull(1, "main", &heads[0]), pull(2, &heads[0], &heads[1])])
}

fn checkout(
    changes: &Vec<RemoteChange>,
    target: &str,
    local_stack_prefix: Option<&str>,
    dry_run: bool,
) -> (Outcome, Vec<Vec<String>>) {
    let Target::Branch(branch) = parse_target(target).unwrap() else {
        panic!("expected a branch");
    };
    assert!(is_chain_finite(changes, &branch));
    let chain = build_chain(changes, &branch).unwrap();
    let planned = plan_checkout(chain, &branch, None, local_stack_prefix, "origin", dry_run);
    (planned.outcome, planned.git_calls)
}

#[test]
fn builds_chain_from_root_to_leaf() {
    let stack = "stack/a";
    let changes = vec![
        pull(1, "main", "stack/a/1"),
        pull(2, "stack/a/1", "stack/a/2"),
        pull(3, "stack/a/2", "stack/a/3"),
    ];
    let chain = build_chain(&changes, stack).unwrap();
    let nums: Vec<u64> = chain.iter().map(|p| p.number).collect();
    assert_eq!(nums, [1, 2, 3]);
}

#[test]
fn skips_closed_prs() {
    let stack = "stack/a";
    let changes = vec![
        pull(1, "main", "stack/a/1"),
        closed(pull(2, "stack/a/1", "stack/a/2")),
    ];
    let chain = build_chain(&changes, stack).unwrap();
    let nums: Vec<u64> = chain.iter().map(|p| p.number).collect();
    assert_eq!(nums, [1]);
}

#[test]
fn detects_two_roots() {
    let stack = "stack/a";
    let changes = vec![
        pull(1, "main", "stack/a/1"),
        pull(2, "develop", "stack/a/2"),
    ];
    let err = build_chain(&changes, stack).unwrap_err();
    match err {
        CliError::InvalidState(msg) => assert!(msg.contains("two root commits"), "got: {msg}"),
        other => panic!("unexpected: {other:?}"),
    }
}

#[test]
fn two_roots_on_the_same_branch_are_two_roots() {
    let changes = vec![
        pull(1, "main", "stack/a/1"),
        pull(2, "main", "stack/a/2"),
    ];
    assert_eq!(
        build_chain(&changes, "stack/a").unwrap_err(),
        CliError::InvalidState("unexpected stack layout, two root commits found".to_string())
    );
    let one_open = vec![pull(1, "main", "stack/a/1"), closed(pull(2, "main", "stack/a/2"))];
    assert_eq!(build_chain(&one_open, "stack/a").unwrap().len(), 1);
}

#[test]
fn no_open_prs_returns_empty() {
    let stack = "stack/a";
    let chain = build_chain(&vec![closed(pull(1, "main", "stack/a/1"))], stack).unwrap();
    assert!(chain.is_empty());
}

#[test]
fn pull_requests_that_target_each_other_are_no_chain() {
    let changes = vec![
        pull(1, "main", "stack/a/1"),
        pull(2, "stack/a/1", "stack/a/1"),
    ];
    assert!(!is_chain_finite(&changes, "stack/a"));
}

#[test]
fn run_no_stacked_prs_returns_no_stacked_prs() {
    let (outcome, calls) = checkout(&vec![], "stack/author/my-branch", None, true);
    assert!(matches!(outcome, Outcome::NoStackedPrs));
    assert!(calls.is_empty());
}

#[test]
fn run_dry_run_returns_chain_without_touching_git() {
    let changes = two_pulls("stack/author/my-branch");
    let (outcome, calls) = checkout(&changes, "stack/author/my-branch", None, true);
    assert!(calls.is_empty());
    match outcome {
        Outcome::CheckedOut {
            chain,
            created,
            local_branch,
            upstream,
            ..
        } => {
            let nums: Vec<u64> = chain.iter().map(|p| p.number).collect();
            assert_eq!(nums, [1, 2]);
            assert!(!created);
            assert_eq!(local_branch, "my-branch");
            assert_eq!(upstream, "origin/main");
        }
        Outcome::NoStackedPrs => panic!("unexpected NoStackedPrs"),
    }
}

#[test]
fn a_checkout_fetches_the_leaf_and_follows_the_trunk() {
    let changes = two_pulls("stack/author/my-branch");
    let (outcome, calls) = checkout(&changes, "stack/author/my-branch", None, false);
    assert!(matches!(outcome, Outcome::CheckedOut { created: true, .. }));
    let leaf = "stack/author/my-branch/feat-b--bbbbbbbb";
    assert_eq!(
        calls,
        vec![
            vec!["fetch".to_string(), "origin".to_string(), leaf.to_string()],
            vec![
                "checkout".to_string(),
                "-b".to_string(),
                "my-branch".to_string(),
                format!("origin/{leaf}")
            ],
            vec![
                "branch".to_string(),
                "--set-upstream-to=origin/main".to_string()
            ],
        ]
    );
}

#[test]
fn run_strips_changeid_suffix_from_a_pasted_leaf_ref() {
    let Target::Branch(branch) =
        parse_target("stack/author/my-branch/feat-b--bbbbbbbb").unwrap()
    else {
        panic!("expected a branch");
    };
    assert!(
        search_query("user", "repo", &branch, None).contains("head:stack/author/my-branch/"),
        "{branch}"
    );
}

#[test]
fn parse_target_reads_owner_repo_and_number_from_a_pull_url() {
    assert_eq!(
        parse_target("https://github.com/Mergifyio/mergify-cli/pull/1774").unwrap(),
        Target::Pull {
            owner: "Mergifyio".to_string(),
            repo: "mergify-cli".to_string(),
            number: 1774,
        },
    );
}

#[test]
fn parse_target_accepts_a_pull_url_with_tab_suffix_and_fragment() {
    assert_eq!(
        parse_target("https://github.com/o/r/pull/12/files#diff-abc").unwrap(),
        Target::Pull {
            owner: "o".to_string(),
            repo: "r".to_string(),
            number: 12,
        },
    );
}

#[test]
fn parse_target_accepts_a_pull_url_on_an_enterprise_host() {
    assert_eq!(
        parse_target("https://ghe.example.com/o/r/pull/7").unwrap(),
        Target::Pull {
            owner: "o".to_string(),
            repo: "r".to_string(),
            number: 7,
        },
    );
}

#[test]
fn parse_target_treats_anything_else_as_a_branch_and_strips_the_changeid() {
    assert_eq!(
        parse_target("stack/author/my-branch/feat-b--bbbbbbbb").unwrap(),
        Target::Branch("stack/author/my-branch".to_string()),
    );
    assert_eq!(
        parse_target("my-feature").unwrap(),
        Target::Branch("my-feature".to_string()),
    );
}

#[test]
fn parse_target_accepts_a_pull_url_pasted_without_its_scheme() {
    assert_eq!(
        parse_target("github.com/Mergifyio/mergify-cli/pull/1774").unwrap(),
        Target::Pull {
            owner: "Mergifyio".to_string(),
            repo: "mergify-cli".to_string(),
            number: 1774,
        },
    );
}

#[test]
fn parse_target_keeps_a_branch_whose_segments_merely_resemble_a_pull_url() {
    assert_eq!(
        parse_target("team/repo/pull/12").unwrap(),
        Target::Branch("team/repo/pull/12".to_string()),
    );
}

#[test]
fn parse_target_trims_trailing_slashes_from_a_branch() {
    assert_eq!(
        parse_target("stack/author/my-branch/").unwrap(),
        Target::Branch("stack/author/my-branch".to_string()),
    );
}

#[test]
fn parse_target_rejects_a_url_that_is_not_a_pull_request() {
    let err = parse_target("https://github.com/o/r/issues/12").unwrap_err();
    match err {
        CliError::InvalidState(msg) => assert!(msg.contains("pull request URL"), "got: {msg}"),
        other => panic!("unexpected: {other:?}"),
    }
}

#[test]
fn run_checks_out_the_whole_stack_from_a_middle_pull_url() {
    let stack = "stack/author/my-branch";
    let heads = [
        format!("{stack}/feat-a--aaaaaaaa"),
        format!("{stack}/feat-b--bbbbbbbb"),
        format!("{stack}/feat-c--cccccccc"),
    ];
    let changes = found(vec![
        pull(1, "main", &heads[0]),
        pull(2, &heads[0], &heads[1]),
        pull(3, &heads[1], &heads[2]),
    ]);
    let target = parse_target("https://github.com/user/repo/pull/2").unwrap();
    assert_eq!(
        target,
        Target::Pull {
            owner: "user".to_string(),
            repo: "repo".to_string(),
            number: 2,
        }
    );
    let branch = stack_branch_of_pull(&changes[1].pull).unwrap();
    assert_eq!(branch, stack);
    assert_eq!(
        search_query("user", "repo", &branch, None),
        "repo:user/repo is:pull-request head:stack/author/my-branch/"
    );
    let (outcome, _) = checkout(&changes, &branch, None, true);
    match outcome {
        Outcome::CheckedOut {
            chain,
            local_branch,
            upstream,
            stack_branch,
            ..
        } => {
            let nums: Vec<u64> = chain.iter().map(|p| p.number).collect();
            assert_eq!(nums, [1, 2, 3]);
            assert_eq!(stack_branch, stack);
            assert_eq!(local_branch, "my-branch");
            assert_eq!(upstream, "origin/main");
        }
        Outcome::NoStackedPrs => panic!("unexpected NoStackedPrs"),
    }
}

#[test]
fn run_keeps_the_whole_branch_name_below_the_local_stack_prefix() {
    let changes = two_pulls("devs/jd/feature/login");
    let (outcome, _) = checkout(&changes, "devs/jd/feature/login", Some("devs/jd"), true);
    match outcome {
        Outcome::CheckedOut {
            local_branch,
            under_local_prefix,
            ..
        } => {
            assert_eq!(local_branch, "feature/login");
            assert!(under_local_prefix);
        }
        Outcome::NoStackedPrs => panic!("unexpected NoStackedPrs"),
    }
}

#[test]
fn run_flags_a_stack_that_is_not_under_the_local_prefix() {
    let changes = two_pulls("devs/alice/feat");
    let (outcome, _) = checkout(&changes, "devs/alice/feat", Some("devs/jd"), true);
    match outcome {
        Outcome::CheckedOut {
            local_branch,
            under_local_prefix,
            ..
        } => {
            assert_eq!(local_branch, "feat");
            assert!(!under_local_prefix);
        }
        Outcome::NoStackedPrs => panic!("unexpected NoStackedPrs"),
    }
}

#[test]
fn run_does_not_resolve_the_repository_for_a_pull_url_target() {
    let changes = two_pulls("stack/author/my-branch");
    assert!(matches!(
        parse_target("https://github.com/user/repo/pull/2"),
        Ok(Target::Pull { .. })
    ));
    assert_eq!(
        stack_branch_of_pull(&changes[1].pull),
        Ok("stack/author/my-branch".to_string())
    );
}

#[test]
fn a_stack_without_a_name_is_refused() {
    assert!(checked_stack_branch(String::new()).is_err());
    assert_eq!(
        checked_stack_branch("stack/a".to_string()),
        Ok("stack/a".to_string())
    );
    assert_eq!(derive_local_branch("a/b/c", None), "c");
    assert_eq!(derive_local_branch("a/b/c", Some("b/c")), "b/c");
}
