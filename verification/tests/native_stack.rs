use mergify_stack::native_stack::{
    MIN_STACK_SIZE, Member, append, appendable_tail, is_member_of, open_pull_number, register,
    registered_number, unstack, unstack_failure,
};
use mergify_stack::pull::{MergedAt, Pull};

fn stacked(number: u64, stack_number: Option<u64>) -> Pull {
    Pull {
        number: Some(number),
        stack_number,
        ..Pull::default()
    }
}

fn pull(number: u64, state: &str, merged_at: MergedAt) -> Option<Pull> {
    Some(Pull {
        number: Some(number),
        state: Some(state.to_string()),
        merged_at,
        ..Pull::default()
    })
}

fn member(number: u64, registered: bool) -> Member {
    Member { number, registered }
}

#[test]
fn registered_number_reads_the_stack_object_off_a_pull_payload() {
    let pulls = vec![stacked(1, None), stacked(2, Some(7))];
    assert_eq!(registered_number(&pulls), Some(7));
}

#[test]
fn registered_number_is_none_when_nothing_is_stacked() {
    let pulls = vec![stacked(1, None), stacked(2, None)];
    assert_eq!(registered_number(&pulls), None);
}

#[test]
fn open_pull_number_selects_only_live_members() {
    assert_eq!(open_pull_number(&pull(5, "open", MergedAt::Null)), Some(5));
    assert_eq!(open_pull_number(&pull(5, "closed", MergedAt::Time)), None);
    assert_eq!(open_pull_number(&pull(5, "closed", MergedAt::Null)), None);
    assert_eq!(open_pull_number(&None), None);
}

#[test]
fn register_posts_members_bottom_to_top_as_integers() {
    let request = register("o", "r", &vec![9, 10, 11]).unwrap();
    assert_eq!(request.path, "/repos/o/r/stacks");
    assert_eq!(request.pull_requests, vec![9, 10, 11]);
}

#[test]
fn register_below_the_floor_issues_no_request() {
    assert_eq!(MIN_STACK_SIZE, 2);
    assert_eq!(register("o", "r", &vec![9]), None);
    assert_eq!(register("o", "r", &vec![]), None);
}

#[test]
fn is_member_of_matches_only_the_stack_we_read() {
    let pull = stacked(1, Some(7));
    assert!(is_member_of(&pull, 7));
    assert!(!is_member_of(&pull, 8));
    assert!(!is_member_of(&stacked(1, None), 7));
}

#[test]
fn appendable_tail_is_empty_when_the_registration_is_already_right() {
    let members = vec![member(101, true), member(102, true)];
    assert_eq!(appendable_tail(&members), Some(vec![]));
}

#[test]
fn appendable_tail_returns_the_new_changes_on_top() {
    let members = vec![
        member(101, true),
        member(102, true),
        member(103, false),
        member(104, false),
    ];
    assert_eq!(appendable_tail(&members), Some(vec![103, 104]));
}

#[test]
fn appendable_tail_refuses_a_change_inserted_under_a_member() {
    let members = vec![member(101, true), member(103, false), member(102, true)];
    assert_eq!(appendable_tail(&members), None);
}

#[test]
fn appendable_tail_of_an_all_new_stack_is_everything() {
    let members = vec![member(101, false), member(102, false)];
    assert_eq!(appendable_tail(&members), Some(vec![101, 102]));
    assert_eq!(appendable_tail(&vec![]), Some(vec![]));
}

#[test]
fn append_posts_the_new_members_to_the_add_endpoint() {
    let request = append("o", "r", 7, &vec![11]).unwrap();
    assert_eq!(request.path, "/repos/o/r/stacks/7/add");
    assert_eq!(request.pull_requests, vec![11]);
}

#[test]
fn append_of_nothing_issues_no_request() {
    assert_eq!(append("o", "r", 7, &vec![]), None);
}

#[test]
fn unstack_posts_to_the_stack_number_with_no_body() {
    assert_eq!(unstack("o", "r", 7), "/repos/o/r/stacks/7/unstack");
}

#[test]
fn unstack_failure_is_fatal_and_explains_itself() {
    let msg = unstack_failure(7);
    assert!(
        msg.contains("could not dissolve GitHub stack #7"),
        "got: {msg}"
    );
    assert!(msg.contains("unstack it by hand"), "got: {msg}");
}
