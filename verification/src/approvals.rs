//! Whether a push rebases the stack onto the trunk.
//!
//! A rebase force-pushes every branch and so dismisses the approvals that
//! users gave. Without one, a stack whose bottom conflicts with the trunk
//! cannot be merged. The flags decide first; else the stack is rebased unless
//! a pull request is approved and the bottom one has no conflict.
use crate::changes::{Action, Changes, LocalChange};
use crate::pull::{Pull, copy_opt};
use crate::text;
use vstd::prelude::*;

verus! {

/// Why a rebase was decided or not.
#[derive(Debug, Clone, Copy, PartialEq, Eq, Structural)]
pub enum RebaseReason {
    /// `--skip-rebase` was given.
    ExplicitSkip,
    /// `--force-rebase` was given.
    Forced,
    /// Pull requests are approved, but the bottom one has a conflict.
    ConflictOverride,
    /// Pull requests are approved, and there is no conflict.
    SkippedForApprovals,
    /// There are no approvals to keep.
    NoApprovals,
}

/// The decision, and the approved pull requests behind it.
#[derive(Debug, Clone, PartialEq, Eq)]
pub struct RebaseDecision {
    pub should_rebase: bool,
    pub reason: RebaseReason,
    pub approved_pulls: Vec<Pull>,
}

/// A review of a pull request.
#[derive(Debug, Clone, PartialEq, Eq)]
pub struct SubmittedReview {
    pub state: String,
    /// Who gave it, where that is known.
    pub login: Option<String>,
}

/// What GitHub says of the merge of a pull request.
#[derive(Debug, Clone, PartialEq, Eq)]
pub struct PullState {
    pub mergeable_state: Option<String>,
    pub mergeable: Option<bool>,
}

/// Whether a review says something about approval, and who gave it is known.
pub open spec fn counts(r: SubmittedReview) -> bool {
    &&& r.state@ != "COMMENTED"@
    &&& r.state@ != "PENDING"@
    &&& r.login matches Some(l)
    &&& l@.len() > 0
}

/// Whether review `i` is the last one that counts of its user.
pub open spec fn stands(reviews: Seq<SubmittedReview>, i: int) -> bool {
    &&& 0 <= i < reviews.len()
    &&& counts(reviews[i])
    &&& forall|j: int|
        i < j < reviews.len() && counts(#[trigger] reviews[j]) ==> reviews[j].login->0@
            != reviews[i].login->0@
}

/// Whether a user's last word is an approval.
pub open spec fn approved(reviews: Seq<SubmittedReview>) -> bool {
    exists|i: int| #[trigger] stands(reviews, i) && reviews[i].state@ == "APPROVED"@
}

fn review_counts(r: &SubmittedReview) -> (b: bool)
    ensures
        b == counts(*r),
{
    if text::same(r.state.as_str(), "COMMENTED") || text::same(r.state.as_str(), "PENDING") {
        return false;
    }
    match &r.login {
        Some(l) => !l.as_str().is_empty(),
        None => false,
    }
}

fn review_stands(reviews: &Vec<SubmittedReview>, i: usize) -> (b: bool)
    requires
        i < reviews.len(),
    ensures
        b == stands(reviews@, i as int),
{
    if !review_counts(&reviews[i]) {
        return false;
    }
    let login: &str = match &reviews[i].login {
        Some(l) => l.as_str(),
        None => "",
    };
    let mut j: usize = i + 1;
    while j < reviews.len()
        invariant
            i < j <= reviews.len(),
            login@ == reviews@[i as int].login->0@,
            forall|k: int|
                i < k < j && counts(#[trigger] reviews@[k]) ==> reviews@[k].login->0@
                    != reviews@[i as int].login->0@,
        decreases reviews.len() - j,
    {
        if review_counts(&reviews[j]) {
            if let Some(l) = &reviews[j].login {
                if text::same(l.as_str(), login) {
                    return false;
                }
            }
        }
        j += 1;
    }
    true
}

/// Whether a pull request is approved: of each user the last review counts
/// that is neither a comment nor pending, and one of those is an approval.
pub fn pull_is_approved(reviews: &Vec<SubmittedReview>) -> (r: bool)
    ensures
        r == approved(reviews@),
{
    let mut i: usize = 0;
    while i < reviews.len()
        invariant
            i <= reviews.len(),
            forall|k: int|
                0 <= k < i && #[trigger] stands(reviews@, k) ==> reviews@[k].state@
                    != "APPROVED"@,
        decreases reviews.len() - i,
    {
        if review_stands(reviews, i) && text::same(reviews[i].state.as_str(), "APPROVED") {
            return true;
        }
        i += 1;
    }
    false
}

/// The pull requests of the changes that are not merged.
pub open spec fn live_pulls(changes: Seq<LocalChange>) -> Seq<Pull>
    decreases changes.len(),
{
    if changes.len() == 0 {
        seq![]
    } else {
        let c = changes.last();
        let before = live_pulls(changes.drop_last());
        if c.action != Action::SkipMerged && c.pull is Some {
            before.push(c.pull->0)
        } else {
            before
        }
    }
}

/// The pull request of the first change that is not merged.
pub open spec fn bottom_pull(changes: Seq<LocalChange>) -> Option<Pull>
    decreases changes.len(),
{
    if changes.len() == 0 {
        None
    } else if changes[0].action != Action::SkipMerged {
        changes[0].pull
    } else {
        bottom_pull(changes.drop_first())
    }
}

/// Those of `pulls` whose number is among `numbers`, in their order.
pub open spec fn with_numbers(pulls: Seq<Pull>, numbers: Seq<u64>) -> Seq<Pull>
    decreases pulls.len(),
{
    if pulls.len() == 0 {
        seq![]
    } else {
        let before = with_numbers(pulls.drop_last(), numbers);
        if pulls.last().number matches Some(n) && numbers.contains(n) {
            before.push(pulls.last())
        } else {
            before
        }
    }
}

/// The pull requests whose reviews decide about a rebase.
pub fn reviewed_pulls(changes: &Changes) -> (r: Vec<Pull>)
    ensures
        r@ == live_pulls(changes.locals@),
{
    let locals = &changes.locals;
    let mut out: Vec<Pull> = Vec::new();
    let mut i: usize = 0;
    proof {
        assert(locals@.take(0) =~= seq![]);
    }
    while i < locals.len()
        invariant
            i <= locals.len(),
            out@ == live_pulls(locals@.take(i as int)),
        decreases locals.len() - i,
    {
        proof {
            assert(locals@.take(i + 1).drop_last() =~= locals@.take(i as int));
        }
        let c = &locals[i];
        if c.action != Action::SkipMerged {
            if let Some(p) = &c.pull {
                out.push(p.copy());
            }
        }
        i += 1;
    }
    proof {
        assert(locals@.take(i as int) =~= locals@);
    }
    out
}

/// The pull request that would conflict with the trunk, if one does.
pub fn lowest_live_pull(changes: &Changes) -> (r: Option<Pull>)
    ensures
        r == bottom_pull(changes.locals@),
{
    let locals = &changes.locals;
    let mut i: usize = 0;
    proof {
        assert(locals@.skip(0) =~= locals@);
    }
    while i < locals.len()
        invariant
            i <= locals.len(),
            locals@ == changes.locals@,
            bottom_pull(locals@) == bottom_pull(locals@.skip(i as int)),
        decreases locals.len() - i,
    {
        proof {
            assert(locals@.skip(i as int).drop_first() =~= locals@.skip(i + 1));
        }
        if locals[i].action != Action::SkipMerged {
            return copy_opt(&locals[i].pull);
        }
        i += 1;
    }
    None
}

fn has_number(numbers: &Vec<u64>, n: u64) -> (r: bool)
    ensures
        r == numbers@.contains(n),
{
    let mut i: usize = 0;
    while i < numbers.len()
        invariant
            i <= numbers.len(),
            forall|j: int| 0 <= j < i ==> numbers@[j] != n,
        decreases numbers.len() - i,
    {
        if numbers[i] == n {
            return true;
        }
        i += 1;
    }
    false
}

fn select_numbers(pulls: &Vec<Pull>, numbers: &Vec<u64>) -> (r: Vec<Pull>)
    ensures
        r@ == with_numbers(pulls@, numbers@),
{
    let mut out: Vec<Pull> = Vec::new();
    let mut i: usize = 0;
    proof {
        assert(pulls@.take(0) =~= seq![]);
    }
    while i < pulls.len()
        invariant
            i <= pulls.len(),
            out@ == with_numbers(pulls@.take(i as int), numbers@),
        decreases pulls.len() - i,
    {
        proof {
            assert(pulls@.take(i + 1).drop_last() =~= pulls@.take(i as int));
        }
        if let Some(n) = pulls[i].number {
            if has_number(numbers, n) {
                out.push(pulls[i].copy());
            }
        }
        i += 1;
    }
    proof {
        assert(pulls@.take(i as int) =~= pulls@);
    }
    out
}

// ---------------------------------------------------------------------------
// The conflict of the bottom pull request
// ---------------------------------------------------------------------------

/// What to do next to learn whether the bottom pull request has a conflict.
#[derive(Debug, Clone, Copy, PartialEq, Eq, Structural)]
pub enum ConflictStep {
    /// Ask for the state of this pull request.
    Ask(u64),
    /// GitHub has not worked it out yet: wait, and ask once more.
    AskAgain(u64),
    /// It is known.
    Known(bool),
}

/// How long to wait before asking again, in milliseconds.
pub const MERGEABLE_RETRY_DELAY_MS: u64 = 1000;

/// Whether a state is that of a conflict.
pub open spec fn conflicts(s: PullState) -> bool {
    text::opt_text(s.mergeable_state) == Some("dirty"@)
}

fn is_conflict(s: &PullState) -> (r: bool)
    ensures
        r == conflicts(*s),
{
    text::same_opt(&s.mergeable_state, "dirty")
}

/// The first step: without a bottom pull request there is nothing to conflict
/// with.
pub fn conflict_start(bottom: &Option<Pull>) -> (r: ConflictStep)
    ensures
        r == (match bottom {
            Some(p) => match p.number {
                Some(n) => ConflictStep::Ask(n),
                None => ConflictStep::Known(false),
            },
            None => ConflictStep::Known(false),
        }),
{
    match bottom {
        Some(p) => match p.number {
            Some(n) => ConflictStep::Ask(n),
            None => ConflictStep::Known(false),
        },
        None => ConflictStep::Known(false),
    }
}

/// The step that a reply leads to.
pub open spec fn conflict_after(step: ConflictStep, reply: Option<PullState>) -> ConflictStep {
    match (step, reply) {
        (ConflictStep::Known(b), _) => ConflictStep::Known(b),
        (_, None) => ConflictStep::Known(false),
        (ConflictStep::Ask(n), Some(s)) => if s.mergeable is None {
            ConflictStep::AskAgain(n)
        } else {
            ConflictStep::Known(conflicts(s))
        },
        (ConflictStep::AskAgain(_), Some(s)) => ConflictStep::Known(conflicts(s)),
    }
}

/// The step that a reply leads to. A request that failed counts as no
/// conflict, so that a hiccup never forces a rebase, and GitHub is asked no
/// more than twice.
pub fn conflict_next(step: ConflictStep, reply: &Option<PullState>) -> (r: ConflictStep)
    ensures
        r == conflict_after(step, *reply),
{
    match step {
        ConflictStep::Known(b) => ConflictStep::Known(b),
        ConflictStep::Ask(n) => match reply {
            None => ConflictStep::Known(false),
            Some(s) => if s.mergeable.is_none() {
                ConflictStep::AskAgain(n)
            } else {
                ConflictStep::Known(is_conflict(s))
            },
        },
        ConflictStep::AskAgain(_) => match reply {
            None => ConflictStep::Known(false),
            Some(s) => ConflictStep::Known(is_conflict(s)),
        },
    }
}

// ---------------------------------------------------------------------------
// The decision
// ---------------------------------------------------------------------------

/// Whether reviews and conflicts have to be looked at: no flag decides.
pub fn needs_reviews(skip_rebase: bool, force_rebase: bool) -> (r: bool)
    ensures
        r == (!skip_rebase && !force_rebase),
{
    !skip_rebase && !force_rebase
}

/// The reason of the decision.
pub open spec fn reason_for(
    approved_pulls: Seq<Pull>,
    has_conflict: bool,
    skip_rebase: bool,
    force_rebase: bool,
) -> RebaseReason {
    if skip_rebase {
        RebaseReason::ExplicitSkip
    } else if force_rebase {
        RebaseReason::Forced
    } else if approved_pulls.len() == 0 {
        RebaseReason::NoApprovals
    } else if has_conflict {
        RebaseReason::ConflictOverride
    } else {
        RebaseReason::SkippedForApprovals
    }
}

/// Whether a reason leads to a rebase.
pub open spec fn rebases(reason: RebaseReason) -> bool {
    reason != RebaseReason::ExplicitSkip && reason != RebaseReason::SkippedForApprovals
}

/// Decide whether a push rebases the stack. `approved_numbers` are the pull
/// requests that are approved, `has_conflict` is whether the bottom one
/// conflicts with the trunk; neither matters where a flag is given.
pub fn decide_rebase(
    planned_changes: &Changes,
    skip_rebase: bool,
    force_rebase: bool,
    approved_numbers: &Vec<u64>,
    has_conflict: bool,
) -> (r: RebaseDecision)
    ensures
        r.reason == reason_for(
            with_numbers(live_pulls(planned_changes.locals@), approved_numbers@),
            has_conflict,
            skip_rebase,
            force_rebase,
        ),
        r.should_rebase == rebases(r.reason),
        r.approved_pulls@ == (if skip_rebase || force_rebase {
            seq![]
        } else {
            with_numbers(live_pulls(planned_changes.locals@), approved_numbers@)
        }),
{
    if skip_rebase {
        return RebaseDecision {
            should_rebase: false,
            reason: RebaseReason::ExplicitSkip,
            approved_pulls: Vec::new(),
        };
    }
    if force_rebase {
        return RebaseDecision {
            should_rebase: true,
            reason: RebaseReason::Forced,
            approved_pulls: Vec::new(),
        };
    }
    let pulls = reviewed_pulls(planned_changes);
    let approved_pulls = select_numbers(&pulls, approved_numbers);
    if approved_pulls.len() > 0 && has_conflict {
        RebaseDecision { should_rebase: true, reason: RebaseReason::ConflictOverride, approved_pulls }
    } else if approved_pulls.len() > 0 {
        RebaseDecision {
            should_rebase: false,
            reason: RebaseReason::SkippedForApprovals,
            approved_pulls,
        }
    } else {
        RebaseDecision { should_rebase: true, reason: RebaseReason::NoApprovals, approved_pulls }
    }
}

// ---------------------------------------------------------------------------
// Laws
// ---------------------------------------------------------------------------

/// Without a flag, approvals are only put at risk for a conflict: a rebase
/// with approved pull requests means that the bottom one conflicts.
pub proof fn law_approvals_are_kept(approved_pulls: Seq<Pull>, has_conflict: bool)
    ensures
        approved_pulls.len() > 0 ==> rebases(
            reason_for(approved_pulls, has_conflict, false, false),
        ) == has_conflict,
        approved_pulls.len() == 0 ==> rebases(
            reason_for(approved_pulls, has_conflict, false, false),
        ),
{
}

/// A later review that counts replaces the earlier ones of its user: an
/// approval followed by another verdict of the same person is none.
pub proof fn law_last_verdict_counts(reviews: Seq<SubmittedReview>, i: int, j: int)
    requires
        0 <= i < j < reviews.len(),
        counts(reviews[i]),
        counts(reviews[j]),
        reviews[i].login->0@ == reviews[j].login->0@,
    ensures
        !stands(reviews, i),
{
}

/// Whatever the replies are, it is known after two of them.
pub proof fn law_conflict_takes_two_replies(
    step: ConflictStep,
    first: Option<PullState>,
    second: Option<PullState>,
)
    requires
        !(step is AskAgain),
    ensures
        conflict_after(conflict_after(step, first), second) is Known,
{
}

/// The pull requests whose reviews count are those of all changes but the
/// merged ones, in order.
pub proof fn law_live_pulls_are_all_but_merged(changes: Seq<LocalChange>)
    ensures
        live_pulls(changes) == changes.filter(
            |c: LocalChange| c.action != Action::SkipMerged && c.pull is Some,
        ).map_values(|c: LocalChange| c.pull->0),
    decreases changes.len(),
{
    reveal(Seq::filter);
    let f = |c: LocalChange| c.action != Action::SkipMerged && c.pull is Some;
    let g = |c: LocalChange| c.pull->0;
    if changes.len() > 0 {
        let t = changes.drop_last();
        law_live_pulls_are_all_but_merged(t);
        if f(changes.last()) {
            assert(changes.filter(f).map_values(g) =~= t.filter(f).map_values(g).push(
                g(changes.last()),
            ));
        }
    } else {
        assert(changes.filter(f).map_values(g) =~= seq![]);
    }
}

/// Among the approved pull requests are all that count and have one of the
/// approved numbers, and no others.
pub proof fn law_approved_are_those_with_the_numbers(pulls: Seq<Pull>, numbers: Seq<u64>)
    ensures
        with_numbers(pulls, numbers) == pulls.filter(
            |p: Pull| p.number is Some && numbers.contains(p.number->0),
        ),
    decreases pulls.len(),
{
    reveal(Seq::filter);
    if pulls.len() > 0 {
        law_approved_are_those_with_the_numbers(pulls.drop_last(), numbers);
    }
}

/// Without a flag, a change that is not merged and whose pull request is
/// approved keeps the stack from being rebased, unless the bottom conflicts; and
/// only such a change does.
pub proof fn law_one_approval_stops_a_rebase(
    changes: Seq<LocalChange>,
    numbers: Seq<u64>,
    has_conflict: bool,
)
    ensures
        ({
            let found = with_numbers(live_pulls(changes), numbers);
            let reason = reason_for(found, has_conflict, false, false);
            let any = exists|i: int|
                0 <= i < changes.len() && (#[trigger] changes[i]).action != Action::SkipMerged
                    && changes[i].pull is Some && changes[i].pull->0.number is Some
                    && numbers.contains(changes[i].pull->0.number->0);
            &&& any <==> found.len() > 0
            &&& rebases(reason) == (!any || has_conflict)
            &&& !any ==> reason == RebaseReason::NoApprovals
            &&& any && has_conflict ==> reason == RebaseReason::ConflictOverride
            &&& any && !has_conflict ==> reason == RebaseReason::SkippedForApprovals
        }),
    decreases changes.len(),
{
    let found = with_numbers(live_pulls(changes), numbers);
    if changes.len() > 0 {
        let t = changes.drop_last();
        law_one_approval_stops_a_rebase(t, numbers, has_conflict);
        let c = changes.last();
        if c.action != Action::SkipMerged && c.pull is Some {
            assert(live_pulls(changes).drop_last() =~= live_pulls(t));
        }
        assert forall|i: int| 0 <= i < t.len() implies #[trigger] t[i] == changes[i] by {}
        let before = with_numbers(live_pulls(t), numbers);
        if before.len() > 0 {
            let j = choose|j: int|
                0 <= j < t.len() && (#[trigger] t[j]).action != Action::SkipMerged
                    && t[j].pull is Some && t[j].pull->0.number is Some && numbers.contains(
                    t[j].pull->0.number->0,
                );
            assert(changes[j].action != Action::SkipMerged);
        }
        if found.len() > 0 && before.len() == 0 {
            assert(changes[changes.len() - 1].action != Action::SkipMerged);
        }
        if exists|i: int|
            0 <= i < changes.len() && (#[trigger] changes[i]).action != Action::SkipMerged
                && changes[i].pull is Some && changes[i].pull->0.number is Some
                && numbers.contains(changes[i].pull->0.number->0) {
            let i = choose|i: int|
                0 <= i < changes.len() && (#[trigger] changes[i]).action != Action::SkipMerged
                    && changes[i].pull is Some && changes[i].pull->0.number is Some
                    && numbers.contains(changes[i].pull->0.number->0);
            if i < t.len() {
                assert(t[i].action != Action::SkipMerged);
            }
        }
    }
}

/// A flag decides whatever the reviews say, and skipping comes first.
pub proof fn law_flags_decide(found: Seq<Pull>, has_conflict: bool, force: bool)
    ensures
        reason_for(found, has_conflict, true, force) == RebaseReason::ExplicitSkip,
        reason_for(found, has_conflict, false, true) == RebaseReason::Forced,
        !rebases(RebaseReason::ExplicitSkip),
        rebases(RebaseReason::Forced),
        rebases(RebaseReason::NoApprovals),
        rebases(RebaseReason::ConflictOverride),
        !rebases(RebaseReason::SkippedForApprovals),
{
}

/// A pull request is approved where some user approved it and has since given no
/// other review than comments and drafts of one.
pub proof fn law_approval_stands_until_replaced(reviews: Seq<SubmittedReview>)
    ensures
        approved(reviews) <==> exists|i: int|
            0 <= i < reviews.len() && (#[trigger] reviews[i]).state@ == "APPROVED"@
                && reviews[i].login is Some && reviews[i].login->0@.len() > 0 && forall|j: int|
                i < j < reviews.len() && (#[trigger] reviews[j]).login is Some
                    && reviews[j].login->0@ == reviews[i].login->0@ ==> reviews[j].state@
                    == "COMMENTED"@ || reviews[j].state@ == "PENDING"@,
{
    reveal_strlit("APPROVED");
    reveal_strlit("COMMENTED");
    reveal_strlit("PENDING");
    assert("APPROVED"@[0] == 'A' && "COMMENTED"@[0] == 'C' && "PENDING"@[0] == 'P');
    if approved(reviews) {
        let i = choose|i: int| #[trigger] stands(reviews, i) && reviews[i].state@ == "APPROVED"@;
        assert(reviews[i].state@ == "APPROVED"@);
        assert forall|j: int| i < j < reviews.len() && (#[trigger] reviews[j]).login is Some
            && reviews[j].login->0@ == reviews[i].login->0@ implies reviews[j].state@
            == "COMMENTED"@ || reviews[j].state@ == "PENDING"@ by {
            assert(!counts(reviews[j]));
        }
    }
    if exists|i: int|
        0 <= i < reviews.len() && (#[trigger] reviews[i]).state@ == "APPROVED"@
            && reviews[i].login is Some && reviews[i].login->0@.len() > 0 && forall|j: int|
            i < j < reviews.len() && (#[trigger] reviews[j]).login is Some
                && reviews[j].login->0@ == reviews[i].login->0@ ==> reviews[j].state@
                == "COMMENTED"@ || reviews[j].state@ == "PENDING"@ {
        let i = choose|i: int|
            0 <= i < reviews.len() && (#[trigger] reviews[i]).state@ == "APPROVED"@
                && reviews[i].login is Some && reviews[i].login->0@.len() > 0 && forall|j: int|
                i < j < reviews.len() && (#[trigger] reviews[j]).login is Some
                    && reviews[j].login->0@ == reviews[i].login->0@ ==> reviews[j].state@
                    == "COMMENTED"@ || reviews[j].state@ == "PENDING"@;
        assert(stands(reviews, i));
    }
}

/// The pull request that is asked about is that of the lowest change that is not
/// merged.
pub proof fn law_bottom_is_the_first_unmerged(changes: Seq<LocalChange>, k: int)
    requires
        0 <= k <= changes.len(),
        forall|i: int| 0 <= i < k ==> (#[trigger] changes[i]).action == Action::SkipMerged,
        k < changes.len() ==> changes[k].action != Action::SkipMerged,
    ensures
        bottom_pull(changes) == (if k < changes.len() {
            changes[k].pull
        } else {
            None
        }),
    decreases changes.len(),
{
    if k > 0 {
        assert(changes[0].action == Action::SkipMerged);
        let t = changes.drop_first();
        assert forall|i: int| 0 <= i < k - 1 implies (#[trigger] t[i]).action
            == Action::SkipMerged by {
            assert(t[i] == changes[i + 1]);
        }
        law_bottom_is_the_first_unmerged(t, k - 1);
    }
}

/// There is a conflict exactly where GitHub, asked once or twice, says `dirty`
/// in the reply that counts: the first one that knows, else the second. A failed
/// request is no conflict.
pub proof fn law_conflict_is_what_github_says(
    n: u64,
    first: Option<PullState>,
    second: Option<PullState>,
)
    ensures
        conflict_after(ConflictStep::Ask(n), None) == ConflictStep::Known(false),
        conflict_after(ConflictStep::AskAgain(n), None) == ConflictStep::Known(false),
        first is Some && first->0.mergeable is None ==> conflict_after(ConflictStep::Ask(n), first)
            == ConflictStep::AskAgain(n),
        first is Some && first->0.mergeable is Some ==> conflict_after(ConflictStep::Ask(n), first)
            == ConflictStep::Known(
            first->0.mergeable_state is Some && first->0.mergeable_state->0@ == "dirty"@,
        ),
        second is Some ==> conflict_after(ConflictStep::AskAgain(n), second) == ConflictStep::Known(
            second->0.mergeable_state is Some && second->0.mergeable_state->0@ == "dirty"@,
        ),
{
}

/// The reviews that count are those of all pull requests but the merged ones.
pub proof fn law_reviews_are_read_of_all_but_merged(changes: &Changes, r: Vec<Pull>)
    requires
        call_ensures(reviewed_pulls, (changes,), r),
    ensures
        r@ == changes.locals@.filter(
            |c: LocalChange| c.action != Action::SkipMerged && c.pull is Some,
        ).map_values(|c: LocalChange| c.pull->0),
{
    law_live_pulls_are_all_but_merged(changes.locals@);
}

/// Without a flag, a push rebases the stack unless a change that is not merged
/// has an approved pull request and the bottom does not conflict. A flag decides
/// alone, and skipping comes first.
pub proof fn law_decision_follows_the_reviews(
    changes: &Changes,
    skip: bool,
    force: bool,
    numbers: &Vec<u64>,
    has_conflict: bool,
    r: RebaseDecision,
)
    requires
        call_ensures(decide_rebase, (changes, skip, force, numbers, has_conflict), r),
    ensures
        ({
            let any = exists|i: int|
                0 <= i < changes.locals@.len() && (#[trigger] changes.locals@[i]).action
                    != Action::SkipMerged && changes.locals@[i].pull is Some
                    && changes.locals@[i].pull->0.number is Some && numbers@.contains(
                    changes.locals@[i].pull->0.number->0,
                );
            &&& skip ==> !r.should_rebase && r.reason == RebaseReason::ExplicitSkip
            &&& !skip && force ==> r.should_rebase && r.reason == RebaseReason::Forced
            &&& !skip && !force ==> r.should_rebase == (!any || has_conflict)
            &&& !skip && !force && !any ==> r.reason == RebaseReason::NoApprovals
            &&& !skip && !force && any && has_conflict ==> r.reason
                == RebaseReason::ConflictOverride
            &&& !skip && !force && any && !has_conflict ==> r.reason
                == RebaseReason::SkippedForApprovals
            &&& !skip && !force ==> r.approved_pulls@ == changes.locals@.filter(
                |c: LocalChange| c.action != Action::SkipMerged && c.pull is Some,
            ).map_values(|c: LocalChange| c.pull->0).filter(
                |p: Pull| p.number is Some && numbers@.contains(p.number->0),
            )
            &&& skip || force ==> r.approved_pulls@.len() == 0
        }),
{
    law_one_approval_stops_a_rebase(changes.locals@, numbers@, has_conflict);
    law_live_pulls_are_all_but_merged(changes.locals@);
    law_approved_are_those_with_the_numbers(live_pulls(changes.locals@), numbers@);
}

/// The reviews are looked at where no flag decides.
pub proof fn law_flags_spare_the_reviews(skip: bool, force: bool, r: bool)
    requires
        call_ensures(needs_reviews, (skip, force), r),
    ensures
        r <==> !skip && !force,
{
}

/// GitHub is asked about the bottom pull request where it has a number; without
/// one there is no conflict.
pub proof fn law_bottom_is_asked_about(bottom: &Option<Pull>, r: ConflictStep)
    requires
        call_ensures(conflict_start, (bottom,), r),
    ensures
        bottom is Some && bottom->0.number is Some ==> r == ConflictStep::Ask(
            bottom->0.number->0,
        ),
        bottom is None || bottom->0.number is None ==> r == ConflictStep::Known(false),
{
}

} // verus!
