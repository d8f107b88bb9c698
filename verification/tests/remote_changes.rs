use mergify_stack::error::CliError;
use mergify_stack::pull::{MergedAt, Pull};
use mergify_stack::remote_changes::{find_entry, group_by_change_id, pull_path, search_query};

fn pr(number: u64, state: &str, head_ref: &str, merged_at: Option<&str>) -> Pull {
    Pull {
        number: Some(number),
        state: Some(state.to_string()),
        draft: Some(false),
        merged_at: if merged_at.is_some() {
            MergedAt::Time
        } else {
            MergedAt::Null
        },
        head_ref: Some(head_ref.to_string()),
        head_sha: Some(format!("sha{number}")),
        ..Pull::default()
    }
}

#[test]
fn group_skips_closed_unmerged_pr() {
    let pulls = vec![pr(1, "closed", "prefix/feat-a--aaaaaaaa", None)];
    let out = group_by_change_id(pulls).unwrap();
    assert!(out.is_empty(), "got: {out:?}");
}

#[test]
fn group_keeps_closed_merged_pr() {
    let pulls = vec![pr(
        1,
        "closed",
        "prefix/feat-a--aaaaaaaa",
        Some("2026-01-01T00:00:00Z"),
    )];
    let out = group_by_change_id(pulls).unwrap();
    assert_eq!(out.len(), 1);
    assert_eq!(out[0].change_id, "aaaaaaaa");
}

#[test]
fn group_extracts_change_id_from_new_style_short_suffix() {
    let pulls = vec![pr(1, "open", "prefix/improve-thing--deadbeef", None)];
    let out = group_by_change_id(pulls).unwrap();
    assert_eq!(out[0].change_id, "deadbeef");
}

#[test]
fn group_extracts_change_id_from_old_style_full_segment() {
    let full = "I0123456789abcdef0123456789abcdef01234567";
    let pulls = vec![pr(1, "open", &format!("prefix/{full}"), None)];
    let out = group_by_change_id(pulls).unwrap();
    assert_eq!(out[0].change_id, full);
}

#[test]
fn group_drops_pr_whose_branch_has_no_recognisable_change_id() {
    let pulls = vec![pr(1, "open", "prefix/random-branch", None)];
    let out = group_by_change_id(pulls).unwrap();
    assert!(out.is_empty(), "got: {out:?}");
}

#[test]
fn group_picks_open_over_closed_when_change_ids_collide() {
    let pulls = vec![
        pr(1, "closed", "prefix/feat-a--deadbeef", None),
        pr(2, "open", "prefix/feat-a--deadbeef", None),
    ];
    let out = group_by_change_id(pulls).unwrap();
    assert_eq!(out.len(), 1);
    assert_eq!(out[0].pull.number, Some(2));
}

#[test]
fn group_preserves_first_seen_order_across_distinct_change_ids() {
    let pulls = vec![
        pr(1, "open", "prefix/feat-a--aaaaaaaa", None),
        pr(2, "open", "prefix/feat-b--bbbbbbbb", None),
        pr(3, "open", "prefix/feat-c--cccccccc", None),
    ];
    let out = group_by_change_id(pulls).unwrap();
    assert_eq!(
        out.iter().map(|c| c.change_id.as_str()).collect::<Vec<_>>(),
        vec!["aaaaaaaa", "bbbbbbbb", "cccccccc"],
    );
}

#[test]
fn group_errors_on_two_open_prs_with_same_change_id() {
    let pulls = vec![
        pr(1, "open", "prefix/feat-a--deadbeef", None),
        pr(2, "open", "prefix/feat-a--deadbeef", None),
    ];
    let err = group_by_change_id(pulls).unwrap_err();
    match err {
        CliError::InvalidState(msg) => {
            assert!(msg.contains("More than 1 pull found"), "got: {msg}");
            assert!(msg.contains("prefix/feat-a--deadbeef"), "got: {msg}");
        }
        other => panic!("expected InvalidState, got: {other:?}"),
    }
}

#[test]
fn group_errors_when_pr_payload_lacks_head_ref() {
    let pulls = vec![Pull {
        number: Some(1),
        state: Some("open".to_string()),
        merged_at: MergedAt::Null,
        ..Pull::default()
    }];
    let err = group_by_change_id(pulls).unwrap_err();
    match err {
        CliError::GitHubApi(msg) => {
            assert!(msg.contains("head.ref"), "got: {msg}");
        }
        other => panic!("expected GitHubApi, got: {other:?}"),
    }
}

#[test]
fn get_remote_changes_searches_then_fetches_each_pull() {
    assert_eq!(
        search_query("user", "repo", "prefix", Some("author")),
        "repo:user/repo author:author is:pull-request head:prefix/"
    );
    assert_eq!(pull_path("user", "repo", 11), "/repos/user/repo/pulls/11");
    assert_eq!(pull_path("user", "repo", 22), "/repos/user/repo/pulls/22");
    let got = group_by_change_id(vec![
        pr(11, "open", "prefix/feat-a--aaaaaaaa", None),
        pr(22, "open", "prefix/feat-b--bbbbbbbb", None),
    ])
    .unwrap();
    assert_eq!(got.len(), 2);
    assert_eq!(got[0].change_id, "aaaaaaaa");
    assert_eq!(got[0].pull.number, Some(11));
    assert_eq!(got[1].change_id, "bbbbbbbb");
    assert_eq!(got[1].pull.number, Some(22));
}

#[test]
fn a_search_without_an_author_takes_pull_requests_of_everyone() {
    assert_eq!(
        search_query("user", "repo", "prefix", None),
        "repo:user/repo is:pull-request head:prefix/"
    );
}

#[test]
fn grouped_ids_are_unique() {
    let out = group_by_change_id(vec![
        pr(1, "closed", "prefix/a--deadbeef", Some("t")),
        pr(2, "open", "prefix/b--deadbeef", None),
        pr(3, "open", "prefix/c--cafecafe", None),
    ])
    .unwrap();
    let ids: Vec<&str> = out.iter().map(|c| c.change_id.as_str()).collect();
    assert_eq!(ids, vec!["deadbeef", "cafecafe"]);
    assert_eq!(out[0].pull.number, Some(2));
    assert_eq!(find_entry(&out, "cafecafe"), 1);
    assert_eq!(find_entry(&out, "00000000"), 2);
}
