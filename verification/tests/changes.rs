use mergify_stack::changes::{
    Action, LocalChange, classify, format_local_change_log, format_orphan_change_log,
};
use mergify_stack::local_commits::LocalCommit;
use mergify_stack::pull::{MergedAt, Pull};
use mergify_stack::remote_changes::RemoteChange;

fn local(sha: &str, change_id: &str, title: &str) -> LocalCommit {
    LocalCommit {
        commit_sha: sha.to_string(),
        title: title.to_string(),
        message: String::new(),
        change_id: change_id.to_string(),
        slug: format!("{title}--00000000"),
        note: String::new(),
    }
}

fn pull_merged(change_id: &str, head_sha: &str, number: u64) -> RemoteChange {
    RemoteChange {
        change_id: change_id.to_string(),
        pull: Pull {
            number: Some(number),
            state: Some("closed".to_string()),
            merged_at: MergedAt::Time,
            head_sha: Some(head_sha.to_string()),
            head_ref: Some("stack/x".to_string()),
            ..Pull::default()
        },
    }
}

fn pull_open(change_id: &str, head_sha: &str, number: u64) -> RemoteChange {
    RemoteChange {
        change_id: change_id.to_string(),
        pull: Pull {
            number: Some(number),
            state: Some("open".to_string()),
            merged_at: MergedAt::Null,
            head_sha: Some(head_sha.to_string()),
            head_ref: Some("stack/x".to_string()),
            ..Pull::default()
        },
    }
}

#[test]
fn create_when_no_matching_pull() {
    let cid = "Iaaaaaaaaaaaaaaaaaaaaaaaaaaaaaaaaaaaaaa01";
    let res = classify(&vec![local("abc", cid, "A")], vec![]).unwrap();
    assert_eq!(res.locals[0].action, Action::Create);
    assert!(res.locals[0].pull.is_none());
}

#[test]
fn skip_merged_when_head_matches() {
    let cid = "Iaaaaaaaaaaaaaaaaaaaaaaaaaaaaaaaaaaaaaa01";
    let res = classify(&vec![local("abc", cid, "A")], vec![pull_merged(cid, "abc", 1)]).unwrap();
    assert_eq!(res.locals[0].action, Action::SkipMerged);
    assert!(res.locals[0].pull.is_some());
}

#[test]
fn create_when_amended_after_merge() {
    let cid = "Iaaaaaaaaaaaaaaaaaaaaaaaaaaaaaaaaaaaaaa01";
    // The head of the pull request is abc, the commit is def.
    let res = classify(&vec![local("def", cid, "A")], vec![pull_merged(cid, "abc", 1)]).unwrap();
    assert_eq!(res.locals[0].action, Action::Create);
    // The merged pull request does not count any more.
    assert!(res.locals[0].pull.is_none());
}

#[test]
fn skip_up_to_date_when_open_pr_head_matches() {
    let cid = "Iaaaaaaaaaaaaaaaaaaaaaaaaaaaaaaaaaaaaaa01";
    let res = classify(&vec![local("abc", cid, "A")], vec![pull_open(cid, "abc", 1)]).unwrap();
    assert_eq!(res.locals[0].action, Action::SkipUpToDate);
}

#[test]
fn update_when_open_pr_head_differs() {
    let cid = "Iaaaaaaaaaaaaaaaaaaaaaaaaaaaaaaaaaaaaaa01";
    let res = classify(&vec![local("def", cid, "A")], vec![pull_open(cid, "abc", 1)]).unwrap();
    assert_eq!(res.locals[0].action, Action::Update);
}

#[test]
fn unmatched_open_pull_becomes_orphan() {
    let res = classify(
        &vec![],
        vec![pull_open(
            "Iaaaaaaaaaaaaaaaaaaaaaaaaaaaaaaaaaaaaaa01",
            "abc",
            1,
        )],
    )
    .unwrap();
    assert_eq!(res.orphans.len(), 1);
}

#[test]
fn closed_unmatched_pull_is_not_an_orphan() {
    let res = classify(
        &vec![],
        vec![pull_merged(
            "Iaaaaaaaaaaaaaaaaaaaaaaaaaaaaaaaaaaaaaa01",
            "abc",
            1,
        )],
    )
    .unwrap();
    assert!(res.orphans.is_empty());
}

#[test]
fn orphans_keep_the_order_of_the_search() {
    let a = "Iaaaaaaaaaaaaaaaaaaaaaaaaaaaaaaaaaaaaaa01";
    let b = "Ibaaaaaaaaaaaaaaaaaaaaaaaaaaaaaaaaaaaaa02";
    let c = "Icaaaaaaaaaaaaaaaaaaaaaaaaaaaaaaaaaaaaa03";
    let res = classify(
        &vec![local("x", a, "A")],
        vec![pull_open(a, "x", 1), pull_open(b, "y", 2), pull_open(c, "z", 3)],
    )
    .unwrap();
    let numbers: Vec<Option<u64>> = res.orphans.iter().map(|p| p.number).collect();
    assert_eq!(numbers, vec![Some(2), Some(3)]);
}

#[test]
fn a_short_id_matches_the_full_one() {
    let full = "Iabcd1234aaaaaaaaaaaaaaaaaaaaaaaaaaaaaaaa";
    let res = classify(
        &vec![local("abc", full, "A")],
        vec![pull_open("abcd1234", "abc", 5)],
    )
    .unwrap();
    assert_eq!(res.locals[0].action, Action::SkipUpToDate);
    assert_eq!(res.locals[0].pull.as_ref().unwrap().number, Some(5));
}

fn change(action: Action, pull: Option<Pull>) -> LocalChange {
    LocalChange {
        commit_sha: "abc1234def5678".to_string(),
        title: "Add feature".to_string(),
        message: String::new(),
        change_id: "Iaaaa".to_string(),
        action,
        pull,
        note: String::new(),
    }
}

fn at(url: &str) -> Pull {
    Pull {
        html_url: Some(url.to_string()),
        ..Pull::default()
    }
}

#[test]
fn format_create_plan_uses_branch_placeholder_url() {
    let c = change(Action::Create, None);
    let line = format_local_change_log(&c, "stack/feat/x", true, false);
    assert_eq!(line, "* [to create] 'abc1234 - Add feature <stack/feat/x>");
}

#[test]
fn format_create_done_uses_pull_url_and_draft_flag() {
    let pull = Pull {
        draft: Some(true),
        ..at("https://gh/pull/7")
    };
    let c = change(Action::Create, Some(pull));
    let line = format_local_change_log(&c, "stack/feat/x", false, false);
    assert_eq!(
        line,
        "* [created] 'abc1234 - Add feature (draft) https://gh/pull/7"
    );
}

#[test]
fn format_create_as_draft_flag_applies_without_pull() {
    let c = change(Action::Create, None);
    let line = format_local_change_log(&c, "stack/feat/x", true, true);
    assert_eq!(
        line,
        "* [to create] 'abc1234 - Add feature (draft) <stack/feat/x>"
    );
}

#[test]
fn format_update_shows_old_to_new_head() {
    let pull = Pull {
        head_sha: Some("fff0000aaa".to_string()),
        ..at("https://gh/pull/7")
    };
    let c = change(Action::Update, Some(pull));
    let line = format_local_change_log(&c, "stack/feat/x", true, false);
    assert_eq!(
        line,
        "* [to update] 'fff0000 -> abc1234 - Add feature https://gh/pull/7"
    );
}

#[test]
fn format_skip_up_to_date() {
    let pull = Pull {
        head_sha: Some("abc1234def5678".to_string()),
        ..at("https://gh/pull/7")
    };
    let c = change(Action::SkipUpToDate, Some(pull));
    let line = format_local_change_log(&c, "stack/feat/x", false, false);
    assert_eq!(
        line,
        "* [up-to-date] 'abc1234 - Add feature https://gh/pull/7"
    );
}

#[test]
fn format_skip_merged_uses_merge_commit_and_flag() {
    let pull = Pull {
        merged_at: MergedAt::Time,
        merge_commit_sha: Some("9998887ccc".to_string()),
        ..at("https://gh/pull/7")
    };
    let c = change(Action::SkipMerged, Some(pull));
    let line = format_local_change_log(&c, "stack/feat/x", false, false);
    assert_eq!(
        line,
        "* [merged] '9998887 - Add feature (merged) https://gh/pull/7"
    );
}

#[test]
fn format_orphan_plan_and_deleted() {
    let pull = Pull {
        title: Some("Old PR".to_string()),
        head_sha: Some("deadbeef0000".to_string()),
        ..at("https://gh/pull/9")
    };
    assert_eq!(
        format_orphan_change_log(&pull, true),
        "* [to delete] 'deadbee - Old PR https://gh/pull/9"
    );
    assert_eq!(
        format_orphan_change_log(&pull, false),
        "* [deleted] 'deadbee - Old PR https://gh/pull/9"
    );
}
