use mergify_stack::changes::Action;
use mergify_stack::local_commits::LocalCommit;
use mergify_stack::plan::{PlannerOpts, as_changes, plan, promote_skip_up_to_date_to_update};
use mergify_stack::pull::{MergedAt, Pull};
use mergify_stack::remote_changes::RemoteChange;

fn local(sha: &str, change_id: &str, title: &str) -> LocalCommit {
    LocalCommit {
        commit_sha: sha.to_string(),
        title: title.to_string(),
        message: String::new(),
        change_id: change_id.to_string(),
        slug: format!("{title}--00000000"),
        note: String::new(),
    }
}

fn pull_open(change_id: &str, head_sha: &str, head_ref: &str, number: u64) -> RemoteChange {
    RemoteChange {
        change_id: change_id.to_string(),
        pull: Pull {
            number: Some(number),
            state: Some("open".to_string()),
            merged_at: MergedAt::Null,
            head_sha: Some(head_sha.to_string()),
            head_ref: Some(head_ref.to_string()),
            ..Pull::default()
        },
    }
}

fn opts<'a>(stack_prefix: &'a str, base_branch: &'a str) -> PlannerOpts<'a> {
    PlannerOpts {
        stack_prefix,
        base_branch,
        only_update_existing_pulls: false,
        next_only: false,
    }
}

#[test]
fn dest_branch_synthesised_from_slug_when_no_pull() {
    let cid = "Iaaaaaaaaaaaaaaaaaaaaaaaaaaaaaaaaaaaaaa01";
    let planned = plan(
        &vec![local("abc", cid, "feat-a")],
        vec![],
        opts("stack/jd", "main"),
    )
    .unwrap();
    assert_eq!(planned.locals[0].dest_branch, "stack/jd/feat-a--00000000");
    assert_eq!(planned.locals[0].base_branch, "main");
}

#[test]
fn dest_branch_uses_existing_pull_head_ref_when_present() {
    let cid = "Iaaaaaaaaaaaaaaaaaaaaaaaaaaaaaaaaaaaaaa01";
    let pull = pull_open(cid, "abc", "stack/jd/custom-name", 1);
    let planned = plan(
        &vec![local("abc", cid, "feat-a")],
        vec![pull],
        opts("stack/jd", "main"),
    )
    .unwrap();
    assert_eq!(planned.locals[0].dest_branch, "stack/jd/custom-name");
}

#[test]
fn base_branch_chains_to_previous_dest_branch() {
    let cid1 = "Iaaaaaaaaaaaaaaaaaaaaaaaaaaaaaaaaaaaaaa01";
    let cid2 = "Ibbbbbbbbbbbbbbbbbbbbbbbbbbbbbbbbbbbbbb02";
    let planned = plan(
        &vec![local("abc", cid1, "feat-a"), local("def", cid2, "feat-b")],
        vec![],
        opts("stack/jd", "main"),
    )
    .unwrap();
    assert_eq!(planned.locals[0].base_branch, "main");
    assert_eq!(planned.locals[1].base_branch, planned.locals[0].dest_branch);
}

#[test]
fn next_only_skips_every_change_past_the_bottom() {
    let cid1 = "Iaaaaaaaaaaaaaaaaaaaaaaaaaaaaaaaaaaaaaa01";
    let cid2 = "Ibbbbbbbbbbbbbbbbbbbbbbbbbbbbbbbbbbbbbb02";
    let cid3 = "Icccccccccccccccccccccccccccccccccccccc03";
    let planned = plan(
        &vec![
            local("abc", cid1, "feat-a"),
            local("def", cid2, "feat-b"),
            local("ghi", cid3, "feat-c"),
        ],
        vec![pull_open(cid2, "def", "stack/jd/b", 2)],
        PlannerOpts {
            next_only: true,
            ..opts("stack/jd", "main")
        },
    )
    .unwrap();
    assert_eq!(planned.locals[0].change.action, Action::Create);
    assert_eq!(planned.locals[1].change.action, Action::SkipNextOnly);
    assert_eq!(planned.locals[2].change.action, Action::SkipNextOnly);
}

#[test]
fn only_update_existing_pulls_turns_create_into_skip_create() {
    let cid1 = "Iaaaaaaaaaaaaaaaaaaaaaaaaaaaaaaaaaaaaaa01";
    let cid2 = "Ibbbbbbbbbbbbbbbbbbbbbbbbbbbbbbbbbbbbbb02";
    let planned = plan(
        &vec![local("abc", cid1, "feat-a"), local("def", cid2, "feat-b")],
        vec![pull_open(cid2, "xxx", "stack/jd/b", 2)],
        PlannerOpts {
            only_update_existing_pulls: true,
            ..opts("stack/jd", "main")
        },
    )
    .unwrap();
    assert_eq!(planned.locals[0].change.action, Action::SkipCreate);
    assert_eq!(planned.locals[1].change.action, Action::Update);
}

#[test]
fn next_only_wins_over_only_update_existing_pulls_above_the_bottom() {
    let cid1 = "Iaaaaaaaaaaaaaaaaaaaaaaaaaaaaaaaaaaaaaa01";
    let cid2 = "Ibbbbbbbbbbbbbbbbbbbbbbbbbbbbbbbbbbbbbb02";
    let planned = plan(
        &vec![local("abc", cid1, "feat-a"), local("def", cid2, "feat-b")],
        vec![],
        PlannerOpts {
            next_only: true,
            only_update_existing_pulls: true,
            ..opts("stack/jd", "main")
        },
    )
    .unwrap();
    assert_eq!(planned.locals[0].change.action, Action::SkipCreate);
    assert_eq!(planned.locals[1].change.action, Action::SkipNextOnly);
}

#[test]
fn promote_rewrites_skip_up_to_date_to_update() {
    let cid = "Iaaaaaaaaaaaaaaaaaaaaaaaaaaaaaaaaaaaaaa01";
    let mut planned = plan(
        &vec![local("abc", cid, "feat-a")],
        vec![pull_open(cid, "abc", "stack/jd/feat-a", 1)],
        opts("stack/jd", "main"),
    )
    .unwrap();
    assert_eq!(planned.locals[0].change.action, Action::SkipUpToDate);
    promote_skip_up_to_date_to_update(&mut planned);
    assert_eq!(planned.locals[0].change.action, Action::Update);
}

#[test]
fn orphans_pass_through_from_classify() {
    let cid = "Iaaaaaaaaaaaaaaaaaaaaaaaaaaaaaaaaaaaaaa01";
    let planned = plan(
        &vec![],
        vec![pull_open(cid, "abc", "stack/jd/feat-x", 7)],
        opts("stack/jd", "main"),
    )
    .unwrap();
    assert_eq!(planned.orphans.len(), 1);
}

#[test]
fn promoting_twice_is_promoting_once() {
    let cid = "Iaaaaaaaaaaaaaaaaaaaaaaaaaaaaaaaaaaaaaa01";
    let mut once = plan(
        &vec![local("abc", cid, "feat-a")],
        vec![pull_open(cid, "abc", "stack/jd/feat-a", 1)],
        opts("stack/jd", "main"),
    )
    .unwrap();
    promote_skip_up_to_date_to_update(&mut once);
    let mut twice = once.clone();
    promote_skip_up_to_date_to_update(&mut twice);
    assert_eq!(once, twice);
    assert_eq!(as_changes(&once).locals[0].action, Action::Update);
}
