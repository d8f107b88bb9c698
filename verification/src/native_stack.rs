//! The registration of a pushed stack with GitHub's own stacks.
//!
//! The registration only tells GitHub which pull requests, in which order,
//! form one stack. A push that refreshes commits needs no request, one that
//! adds a change on top appends it, and one that retargets a pull request or
//! removes one dissolves the stack and registers it again. Registering and
//! appending never fail a push; dissolving before the changes does, because
//! going on would lose pull requests.
use crate::pull::Pull;
use crate::text;
use vstd::prelude::*;

verus! {

/// The fewest pull requests that make a stack on GitHub.
pub const MIN_STACK_SIZE: usize = 2;

/// The number that a pull request says its stack has.
pub open spec fn first_stack_number(pulls: Seq<Pull>) -> Option<u64>
    decreases pulls.len(),
{
    if pulls.len() == 0 {
        None
    } else if pulls[0].stack_number is Some {
        pulls[0].stack_number
    } else {
        first_stack_number(pulls.drop_first())
    }
}

/// The stack that the pull requests belong to: that of the first one which
/// names one.
pub fn registered_number(pulls: &Vec<Pull>) -> (r: Option<u64>)
    ensures
        r == first_stack_number(pulls@),
{
    let mut i: usize = 0;
    proof {
        assert(pulls@.skip(0) =~= pulls@);
    }
    while i < pulls.len()
        invariant
            i <= pulls.len(),
            first_stack_number(pulls@) == first_stack_number(pulls@.skip(i as int)),
        decreases pulls.len() - i,
    {
        proof {
            assert(pulls@.skip(i as int).drop_first() =~= pulls@.skip(i + 1));
            assert(pulls@.skip(i as int)[0] == pulls@[i as int]);
        }
        if pulls[i].stack_number.is_some() {
            return pulls[i].stack_number;
        }
        i += 1;
    }
    None
}

/// Whether a pull request belongs to stack `number`.
pub fn is_member_of(pull: &Pull, number: u64) -> (r: bool)
    ensures
        r == (pull.stack_number == Some(number)),
{
    match pull.stack_number {
        Some(n) => n == number,
        None => false,
    }
}

/// The path of the stacks of a repository.
pub open spec fn stacks_path_text(user: Seq<char>, repo: Seq<char>) -> Seq<char> {
    "/repos/"@ + user + "/"@ + repo + "/stacks"@
}

fn stacks_path(user: &str, repo: &str) -> (r: String)
    ensures
        r@ == stacks_path_text(user@, repo@),
{
    let mut p = "/repos/".to_owned();
    p.append(user);
    p.append("/");
    p.append(repo);
    p.append("/stacks");
    p
}

/// The request that dissolves stack `number`.
pub fn unstack(user: &str, repo: &str, number: u64) -> (r: String)
    ensures
        r@ == stacks_path_text(user@, repo@) + "/"@ + text::decimal(number as nat) + "/unstack"@,
{
    let mut p = stacks_path(user, repo);
    p.append("/");
    p.append(text::decimal_of(number).as_str());
    p.append("/unstack");
    p
}

/// What the user reads where stack `number` cannot be dissolved.
pub fn unstack_failure(number: u64) -> (r: String)
    ensures
        r@ == "could not dissolve GitHub stack #"@ + text::decimal(number as nat)
            + " before updating the pull requests (GitHub refuses to change a pull request's base branch while it is stacked). Retry, or unstack it by hand and push again"@,
{
    let mut m = "could not dissolve GitHub stack #".to_owned();
    m.append(text::decimal_of(number).as_str());
    m.append(
        " before updating the pull requests (GitHub refuses to change a pull request's base branch while it is stacked). Retry, or unstack it by hand and push again",
    );
    m
}

/// A request that hands over members of a stack.
#[derive(Debug, Clone, PartialEq, Eq)]
pub struct StackRequest {
    pub path: String,
    /// The members, from the bottom to the top.
    pub pull_requests: Vec<u64>,
}

/// The request that registers `pulls` as one stack, from the bottom to the
/// top. There is none where they are too few to be a stack.
pub fn register(user: &str, repo: &str, pulls: &Vec<u64>) -> (r: Option<StackRequest>)
    ensures
        match r {
            Some(q) => pulls.len() >= 2 && q.path@ == stacks_path_text(user@, repo@)
                && q.pull_requests@ == pulls@,
            None => pulls.len() < 2,
        },
{
    if pulls.len() < MIN_STACK_SIZE {
        return None;
    }
    let members = members_of(pulls);
    Some(StackRequest { path: stacks_path(user, repo), pull_requests: members })
}

/// The request that puts `pulls` on top of stack `number`. There is none where
/// nothing has to be added.
pub fn append(user: &str, repo: &str, number: u64, pulls: &Vec<u64>) -> (r: Option<StackRequest>)
    ensures
        match r {
            Some(q) => pulls.len() > 0 && q.path@ == stacks_path_text(user@, repo@) + "/"@
                + text::decimal(number as nat) + "/add"@ && q.pull_requests@ == pulls@,
            None => pulls.len() == 0,
        },
{
    if pulls.len() == 0 {
        return None;
    }
    let mut p = stacks_path(user, repo);
    p.append("/");
    p.append(text::decimal_of(number).as_str());
    p.append("/add");
    let members = members_of(pulls);
    Some(StackRequest { path: p, pull_requests: members })
}

/// A list of its own with the same numbers.
fn members_of(pulls: &Vec<u64>) -> (r: Vec<u64>)
    ensures
        r@ == pulls@,
{
    let mut members: Vec<u64> = Vec::new();
    let mut i: usize = 0;
    while i < pulls.len()
        invariant
            i <= pulls.len(),
            members@ == pulls@.take(i as int),
        decreases pulls.len() - i,
    {
        members.push(pulls[i]);
        proof {
            assert(pulls@.take(i + 1) =~= pulls@.take(i as int).push(pulls@[i as int]));
        }
        i += 1;
    }
    proof {
        assert(pulls@.take(i as int) =~= pulls@);
    }
    members
}

/// An open pull request of a stack, and whether GitHub's registration already
/// has it.
#[derive(Debug, Clone, Copy, PartialEq, Eq, Structural)]
pub struct Member {
    pub number: u64,
    pub registered: bool,
}

/// The number of members from the bottom on that are registered.
pub open spec fn registered_run(members: Seq<Member>) -> nat
    decreases members.len(),
{
    if members.len() == 0 || !members[0].registered {
        0
    } else {
        1 + registered_run(members.drop_first())
    }
}

/// Whether the registered members are a bottom part of the stack.
pub open spec fn only_tail_missing(members: Seq<Member>) -> bool {
    forall|i: int|
        registered_run(members) <= i < members.len() ==> !(#[trigger] members[i]).registered
}

/// The members that GitHub is missing, where they are exactly the top part of
/// the stack. An empty list means that the registration is right as it is.
/// There is no list where a registered member stands above one that is not:
/// that cannot be put right by appending.
pub fn appendable_tail(members: &Vec<Member>) -> (r: Option<Vec<u64>>)
    ensures
        match r {
            Some(v) => only_tail_missing(members@) && v@ == members@.skip(
                registered_run(members@) as int,
            ).map_values(|m: Member| m.number),
            None => !only_tail_missing(members@),
        },
{
    let mut split: usize = 0;
    proof {
        assert(members@.skip(0) =~= members@);
    }
    while split < members.len() && members[split].registered
        invariant
            split <= members.len(),
            registered_run(members@) == split + registered_run(members@.skip(split as int)),
        decreases members.len() - split,
    {
        proof {
            assert(members@.skip(split as int).drop_first() =~= members@.skip(split + 1));
            assert(members@.skip(split as int)[0] == members@[split as int]);
        }
        split += 1;
    }
    proof {
        if split < members.len() {
            assert(members@.skip(split as int)[0] == members@[split as int]);
        }
        assert(registered_run(members@) == split);
    }
    let ghost tail = members@.skip(split as int).map_values(|m: Member| m.number);
    let mut out: Vec<u64> = Vec::new();
    let mut i: usize = split;
    while i < members.len()
        invariant
            split <= i <= members.len(),
            registered_run(members@) == split,
            tail == members@.skip(split as int).map_values(|m: Member| m.number),
            out@ == tail.take(i - split),
            forall|j: int| split <= j < i ==> !(#[trigger] members@[j]).registered,
        decreases members.len() - i,
    {
        if members[i].registered {
            proof {
                assert(members@[i as int].registered);
            }
            return None;
        }
        let ghost before = out@;
        out.push(members[i].number);
        proof {
            assert(tail[i - split] == members@[i as int].number);
            assert(out@ =~= tail.take(i - split + 1));
        }
        i += 1;
    }
    proof {
        assert(tail.take(i - split) =~= tail);
    }
    Some(out)
}

/// The number of a pull request that is open and not merged.
pub fn open_pull_number(pull: &Option<Pull>) -> (r: Option<u64>)
    ensures
        r == (match pull {
            Some(p) => if p.merged() || p.in_state("closed"@) {
                None
            } else {
                p.number
            },
            None => None,
        }),
{
    match pull {
        Some(p) => if p.is_merged() || p.has_state("closed") {
            None
        } else {
            p.number
        },
        None => None,
    }
}

/// Appending what is missing completes the registration: every member is then
/// either registered already or among those that are appended, and no
/// registered one is appended again.
pub proof fn law_tail_completes_the_stack(members: Seq<Member>, i: int)
    requires
        only_tail_missing(members),
        0 <= i < members.len(),
    ensures
        members[i].registered <==> i < registered_run(members),
{
    lemma_registered_run(members);
}

proof fn lemma_registered_run(members: Seq<Member>)
    ensures
        registered_run(members) <= members.len(),
        forall|i: int| 0 <= i < registered_run(members) ==> (#[trigger] members[i]).registered,
    decreases members.len(),
{
    if members.len() > 0 && members[0].registered {
        let t = members.drop_first();
        lemma_registered_run(t);
        assert forall|i: int| 0 <= i < registered_run(members) implies (
        #[trigger] members[i]).registered by {
            if i > 0 {
                assert(t[i - 1] == members[i]);
            }
        }
    }
}

/// The stack is that of the first pull request which names one, wherever it
/// stands.
pub proof fn law_first_named_stack_counts(pulls: Seq<Pull>, k: int)
    requires
        0 <= k <= pulls.len(),
        forall|i: int| 0 <= i < k ==> (#[trigger] pulls[i]).stack_number is None,
        k < pulls.len() ==> pulls[k].stack_number is Some,
    ensures
        first_stack_number(pulls) == (if k < pulls.len() {
            pulls[k].stack_number
        } else {
            None
        }),
    decreases pulls.len(),
{
    if k > 0 {
        assert(pulls[0].stack_number is None);
        let t = pulls.drop_first();
        assert forall|i: int| 0 <= i < k - 1 implies (#[trigger] t[i]).stack_number is None by {
            assert(t[i] == pulls[i + 1]);
        }
        law_first_named_stack_counts(t, k - 1);
    }
}

/// Appending is possible exactly where no registered member stands above one
/// that is not, and then all that are missing are appended, in their order.
pub proof fn law_missing_members_are_appended(members: Seq<Member>)
    ensures
        only_tail_missing(members) <==> forall|i: int, j: int|
            0 <= i < j < members.len() && (#[trigger] members[j]).registered ==> (
            #[trigger] members[i]).registered,
        only_tail_missing(members) ==> members.skip(registered_run(members) as int).map_values(
            |m: Member| m.number,
        ) == members.filter(|m: Member| !m.registered).map_values(|m: Member| m.number),
{
    lemma_registered_run(members);
    let k = registered_run(members) as int;
    if k < members.len() {
        lemma_run_ends(members);
    }
    if only_tail_missing(members) {
        assert forall|i: int, j: int|
            0 <= i < j < members.len() && (#[trigger] members[j]).registered implies (
        #[trigger] members[i]).registered by {
            assert(j < k);
        }
        lemma_tail_is_filter(members, k);
    } else {
        let j = choose|j: int| k <= j < members.len() && (#[trigger] members[j]).registered;
        assert(!members[k].registered && members[j].registered);
    }
}

proof fn lemma_run_ends(members: Seq<Member>)
    requires
        registered_run(members) < members.len(),
    ensures
        !members[registered_run(members) as int].registered,
    decreases members.len(),
{
    if members[0].registered {
        lemma_run_ends(members.drop_first());
    }
}

proof fn lemma_tail_is_filter(members: Seq<Member>, k: int)
    requires
        0 <= k <= members.len(),
        forall|i: int| 0 <= i < k ==> (#[trigger] members[i]).registered,
        forall|i: int| k <= i < members.len() ==> !(#[trigger] members[i]).registered,
    ensures
        members.skip(k) == members.filter(|m: Member| !m.registered),
    decreases members.len(),
{
    reveal(Seq::filter);
    let f = |m: Member| !m.registered;
    if members.len() > 0 {
        let t = members.drop_last();
        if k < members.len() {
            lemma_tail_is_filter(t, k);
            assert(members.skip(k) =~= t.skip(k).push(members.last()));
        } else {
            lemma_tail_is_filter(t, k - 1);
            assert(members.skip(k) =~= t.skip(k - 1));
        }
    } else {
        assert(members.skip(k) =~= members.filter(f));
    }
}

/// A pull request belongs to a stack by its number, and only while it is open is
/// its own number one to register.
pub proof fn law_members_are_told_by_their_numbers(
    pull: &Pull,
    number: u64,
    member: bool,
    held: &Option<Pull>,
    open: Option<u64>,
)
    requires
        call_ensures(is_member_of, (pull, number), member),
        call_ensures(open_pull_number, (held,), open),
    ensures
        member <==> pull.stack_number is Some && pull.stack_number->0 == number,
        held is None ==> open is None,
        held is Some && held->0.merged_at == crate::pull::MergedAt::Time ==> open is None,
        held is Some && held->0.state is Some && held->0.state->0@ == "closed"@ ==> open is None,
        held is Some && held->0.merged_at != crate::pull::MergedAt::Time && !(held->0.state is Some
            && held->0.state->0@ == "closed"@) ==> open == held->0.number,
{
    if held is Some {
        crate::pull::law_state_is_what_github_says(held->0, "closed"@);
    }
}

/// A stack takes two pull requests to register and one to append, and they are sent
/// as they are, to the stacks of the repository.
pub proof fn law_stack_requests_read(
    user: &str,
    repo: &str,
    number: u64,
    pulls: &Vec<u64>,
    created: Option<StackRequest>,
    appended: Option<StackRequest>,
    dissolved: String,
)
    requires
        call_ensures(register, (user, repo, pulls), created),
        call_ensures(append, (user, repo, number, pulls), appended),
        call_ensures(unstack, (user, repo, number), dissolved),
    ensures
        created is Some <==> pulls@.len() >= 2,
        created is Some ==> created->0.path@ == "/repos/"@ + user@ + "/"@ + repo@ + "/stacks"@
            && created->0.pull_requests@ == pulls@,
        appended is Some <==> pulls@.len() >= 1,
        appended is Some ==> appended->0.path@ == "/repos/"@ + user@ + "/"@ + repo@ + "/stacks"@
            + "/"@ + text::decimal(number as nat) + "/add"@ && appended->0.pull_requests@ == pulls@,
        dissolved@ == "/repos/"@ + user@ + "/"@ + repo@ + "/stacks"@ + "/"@ + text::decimal(
            number as nat,
        ) + "/unstack"@,
{
}

/// What is appended is what follows the registered members, and a gap makes the
/// stack one that cannot be appended to.
pub proof fn law_tail_is_what_is_missing(members: &Vec<Member>, r: Option<Vec<u64>>)
    requires
        call_ensures(appendable_tail, (members,), r),
    ensures
        r is Some <==> forall|i: int, j: int|
            0 <= i < j < members@.len() && (#[trigger] members@[j]).registered ==> (
            #[trigger] members@[i]).registered,
        r is Some ==> r->0@ == members@.filter(|m: Member| !m.registered).map_values(
            |m: Member| m.number,
        ),
{
    law_missing_members_are_appended(members@);
}

} // verus!
