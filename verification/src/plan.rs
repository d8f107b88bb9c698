//! The plan of a push: what [`crate::changes::classify`] says of each commit,
//! with the flags of the command applied and the branches filled in.
use crate::changes::{Action, Changes, LocalChange, classify};
use crate::error::CliError;
use crate::local_commits::LocalCommit;
use crate::pull::Pull;
use crate::remote_changes::RemoteChange;
use crate::text;
use vstd::prelude::*;

verus! {

/// The flags of a push that change what is pushed.
#[derive(Debug, Clone, Copy)]
pub struct PlannerOpts<'a> {
    /// The prefix of the branches that the push makes.
    pub stack_prefix: &'a str,
    /// The branch that the bottom of the stack targets.
    pub base_branch: &'a str,
    /// Open no pull request, only update those that exist.
    pub only_update_existing_pulls: bool,
    /// Push the bottom of the stack only.
    pub next_only: bool,
}

/// A change with the branch of its pull request and the branch it targets.
#[derive(Debug, Clone, PartialEq, Eq)]
pub struct PlannedChange {
    pub change: LocalChange,
    /// The head branch of the pull request.
    pub dest_branch: String,
    /// The branch that the pull request targets.
    pub base_branch: String,
}

/// The planned changes of a stack, and the open pull requests that belong to
/// none of its commits.
#[derive(Debug, Clone, PartialEq, Eq)]
pub struct PlannedChanges {
    pub locals: Vec<PlannedChange>,
    pub orphans: Vec<Pull>,
}

/// A planned change as the contracts see it.
pub struct PlanEntry {
    pub change: LocalChange,
    pub dest_branch: Seq<char>,
    pub base_branch: Seq<char>,
}

impl View for PlannedChange {
    type V = PlanEntry;

    open spec fn view(&self) -> PlanEntry {
        PlanEntry {
            change: self.change,
            dest_branch: self.dest_branch@,
            base_branch: self.base_branch@,
        }
    }
}

/// The contents of a list of planned changes.
pub open spec fn plan_entries(v: Seq<PlannedChange>) -> Seq<PlanEntry> {
    v.map_values(|p: PlannedChange| p@)
}

/// The action of change `idx` under the flags.
pub open spec fn flagged_action(action: Action, idx: int, next_only: bool, only_update: bool) -> Action {
    if next_only && idx > 0 {
        Action::SkipNextOnly
    } else if only_update && action == Action::Create {
        Action::SkipCreate
    } else {
        action
    }
}

/// A change with another action.
pub open spec fn with_action(change: LocalChange, action: Action) -> LocalChange {
    LocalChange { action, ..change }
}

/// The slug of the last commit with `sha`, or nothing.
pub open spec fn slug_of(commits: Seq<LocalCommit>, sha: Seq<char>) -> Seq<char>
    decreases commits.len(),
{
    if commits.len() == 0 {
        seq![]
    } else if commits.last().commit_sha@ == sha {
        commits.last().slug@
    } else {
        slug_of(commits.drop_last(), sha)
    }
}

/// The branch of the pull request: the one it has, else
/// `<stack prefix>/<slug>`.
pub open spec fn dest_of(
    change: LocalChange,
    commits: Seq<LocalCommit>,
    stack_prefix: Seq<char>,
) -> Seq<char> {
    match change.pull {
        Some(p) => match p.head_ref {
            Some(h) => h@,
            None => stack_prefix + "/"@ + slug_of(commits, change.commit_sha@),
        },
        None => stack_prefix + "/"@ + slug_of(commits, change.commit_sha@),
    }
}

/// The plan for the classified changes: each targets the branch of the one
/// below it, and the bottom one targets the trunk.
pub open spec fn planned(
    changes: Seq<LocalChange>,
    commits: Seq<LocalCommit>,
    stack_prefix: Seq<char>,
    trunk: Seq<char>,
    next_only: bool,
    only_update: bool,
) -> Seq<PlanEntry>
    decreases changes.len(),
{
    if changes.len() == 0 {
        seq![]
    } else {
        let below = planned(
            changes.drop_last(),
            commits,
            stack_prefix,
            trunk,
            next_only,
            only_update,
        );
        let idx = changes.len() - 1;
        below.push(
            PlanEntry {
                change: with_action(
                    changes.last(),
                    flagged_action(changes.last().action, idx, next_only, only_update),
                ),
                dest_branch: dest_of(changes.last(), commits, stack_prefix),
                base_branch: if below.len() > 0 {
                    below.last().dest_branch
                } else {
                    trunk
                },
            },
        )
    }
}

/// The slug of the last commit with `sha`, or nothing.
fn find_slug(commits: &Vec<LocalCommit>, sha: &str) -> (r: String)
    ensures
        r@ == slug_of(commits@, sha@),
{
    let mut i: usize = commits.len();
    proof {
        assert(commits@.take(i as int) =~= commits@);
    }
    while i > 0
        invariant
            i <= commits.len(),
            slug_of(commits@, sha@) == slug_of(commits@.take(i as int), sha@),
        decreases i,
    {
        i -= 1;
        proof {
            assert(commits@.take(i + 1).drop_last() =~= commits@.take(i as int));
        }
        if text::same(commits[i].commit_sha.as_str(), sha) {
            return commits[i].slug.clone();
        }
    }
    String::new()
}

/// Plan a push.
pub fn plan(
    local_commits: &Vec<LocalCommit>,
    remote_changes: Vec<RemoteChange>,
    opts: PlannerOpts<'_>,
) -> (r: Result<PlannedChanges, CliError>)
    ensures
        r is Ok,
        plan_entries(r->Ok_0.locals@) == planned(
            crate::changes::classified(
                local_commits@,
                crate::remote_changes::entries(remote_changes@),
            ),
            local_commits@,
            opts.stack_prefix@,
            opts.base_branch@,
            opts.next_only,
            opts.only_update_existing_pulls,
        ),
        r->Ok_0.orphans@ == crate::changes::open_pulls(
            crate::changes::left_after(
                local_commits@,
                crate::remote_changes::entries(remote_changes@),
            ),
        ),
{
    let classified = match classify(local_commits, remote_changes) {
        Ok(c) => c,
        Err(e) => {
            return Err(e);
        },
    };
    let ghost cs = classified.locals@;
    let mut locals: Vec<PlannedChange> = Vec::new();
    let mut idx: usize = 0;
    proof {
        assert(cs.take(0) =~= seq![]);
        assert(plan_entries(locals@) =~= seq![]);
    }
    while idx < classified.locals.len()
        invariant
            idx <= classified.locals.len(),
            cs == classified.locals@,
            locals.len() == idx,
            plan_entries(locals@) == planned(
                cs.take(idx as int),
                local_commits@,
                opts.stack_prefix@,
                opts.base_branch@,
                opts.next_only,
                opts.only_update_existing_pulls,
            ),
        decreases classified.locals.len() - idx,
    {
        let ghost before = plan_entries(locals@);
        proof {
            assert(cs.take(idx + 1).drop_last() =~= cs.take(idx as int));
        }
        let mut change = classified.locals[idx].copy();
        if opts.next_only && idx > 0 {
            change.action = Action::SkipNextOnly;
        } else if opts.only_update_existing_pulls && change.action == Action::Create {
            change.action = Action::SkipCreate;
        }
        let mut own_branch: Option<String> = None;
        if let Some(p) = &change.pull {
            own_branch = text::clone_opt(&p.head_ref);
        }
        let dest_branch: String = match own_branch {
            Some(h) => h,
            None => {
                let mut d = opts.stack_prefix.to_owned();
                d.append("/");
                d.append(find_slug(local_commits, change.commit_sha.as_str()).as_str());
                d
            },
        };
        let base_branch: String = if idx > 0 {
            proof {
                assert(before.last() == locals@[idx - 1]@);
            }
            locals[idx - 1].dest_branch.clone()
        } else {
            opts.base_branch.to_owned()
        };
        let entry = PlannedChange { change, dest_branch, base_branch };
        locals.push(entry);
        proof {
            assert(plan_entries(locals@) =~= before.push(entry@));
        }
        idx += 1;
    }
    proof {
        assert(cs.take(idx as int) =~= cs);
    }
    Ok(PlannedChanges { locals, orphans: classified.orphans })
}

/// A planned change after a rebase was decided: what was up to date gets a new
/// SHA and has to be updated.
pub open spec fn promoted(p: PlannedChange) -> PlannedChange {
    if p.change.action == Action::SkipUpToDate {
        PlannedChange { change: with_action(p.change, Action::Update), ..p }
    } else {
        p
    }
}

/// Turn every `SkipUpToDate` into `Update`: after a rebase those pull requests
/// get new SHAs.
pub fn promote_skip_up_to_date_to_update(planned: &mut PlannedChanges)
    ensures
        final(planned).locals@ == old(planned).locals@.map_values(
            |p: PlannedChange| promoted(p),
        ),
        final(planned).orphans == old(planned).orphans,
{
    let ghost before = planned.locals@;
    let mut out: Vec<PlannedChange> = Vec::new();
    let mut i: usize = 0;
    while i < planned.locals.len()
        invariant
            i <= planned.locals.len(),
            before == planned.locals@,
            *planned == *old(planned),
            out.len() == i,
            forall|j: int| 0 <= j < i ==> #[trigger] out@[j] == promoted(before[j]),
        decreases planned.locals.len() - i,
    {
        let p = &planned.locals[i];
        let mut change = p.change.copy();
        if change.action == Action::SkipUpToDate {
            change.action = Action::Update;
        }
        out.push(
            PlannedChange {
                change,
                dest_branch: p.dest_branch.clone(),
                base_branch: p.base_branch.clone(),
            },
        );
        i += 1;
    }
    planned.locals = out;
    proof {
        assert(planned.locals@ =~= before.map_values(|p: PlannedChange| promoted(p)));
    }
}

/// The changes of a plan without its branches.
pub fn as_changes(planned: &PlannedChanges) -> (r: Changes)
    ensures
        r.locals@ == planned.locals@.map_values(|p: PlannedChange| p.change),
        r.orphans@ == planned.orphans@,
{
    let mut locals: Vec<LocalChange> = Vec::new();
    let mut i: usize = 0;
    while i < planned.locals.len()
        invariant
            i <= planned.locals.len(),
            locals.len() == i,
            forall|j: int| 0 <= j < i ==> #[trigger] locals@[j] == planned.locals@[j].change,
        decreases planned.locals.len() - i,
    {
        locals.push(planned.locals[i].change.copy());
        i += 1;
    }
    let mut orphans: Vec<Pull> = Vec::new();
    let mut k: usize = 0;
    while k < planned.orphans.len()
        invariant
            k <= planned.orphans.len(),
            orphans.len() == k,
            forall|j: int| 0 <= j < k ==> #[trigger] orphans@[j] == planned.orphans@[j],
        decreases planned.orphans.len() - k,
    {
        orphans.push(planned.orphans[k].copy());
        k += 1;
    }
    proof {
        assert(locals@ =~= planned.locals@.map_values(|p: PlannedChange| p.change));
        assert(orphans@ =~= planned.orphans@);
    }
    Changes { locals, orphans }
}

// ---------------------------------------------------------------------------
// Laws
// ---------------------------------------------------------------------------

/// The planned pull requests form one chain: the bottom one targets the trunk,
/// and every other one the branch of the one below it. With `next_only` only
/// the bottom one can be pushed.
pub proof fn law_plan_is_a_chain(
    changes: Seq<LocalChange>,
    commits: Seq<LocalCommit>,
    stack_prefix: Seq<char>,
    trunk: Seq<char>,
    next_only: bool,
    only_update: bool,
)
    ensures
        ({
            let p = planned(changes, commits, stack_prefix, trunk, next_only, only_update);
            &&& p.len() == changes.len()
            &&& p.len() > 0 ==> p[0].base_branch == trunk
            &&& forall|i: int|
                0 < i < p.len() ==> #[trigger] p[i].base_branch == p[i - 1].dest_branch
            &&& forall|i: int|
                0 < i < p.len() && next_only ==> !(#[trigger] p[i].change).action.pushes()
            &&& forall|i: int|
                0 <= i < p.len() && only_update ==> (#[trigger] p[i].change).action
                    != Action::Create
        }),
    decreases changes.len(),
{
    if changes.len() > 0 {
        law_plan_is_a_chain(
            changes.drop_last(),
            commits,
            stack_prefix,
            trunk,
            next_only,
            only_update,
        );
        let below = planned(
            changes.drop_last(),
            commits,
            stack_prefix,
            trunk,
            next_only,
            only_update,
        );
        let p = planned(changes, commits, stack_prefix, trunk, next_only, only_update);
        assert(p.drop_last() =~= below);
        assert forall|i: int| 0 < i < p.len() implies #[trigger] p[i].base_branch == p[i
            - 1].dest_branch by {
            if i < below.len() {
                assert(below[i].base_branch == below[i - 1].dest_branch);
            }
        }
        assert forall|i: int| 0 < i < p.len() && next_only implies !(
        #[trigger] p[i].change).action.pushes() by {
            if i < below.len() {
                assert(!below[i].change.action.pushes());
            }
        }
        assert forall|i: int| 0 <= i < p.len() && only_update implies (
        #[trigger] p[i].change).action != Action::Create by {
            if i < below.len() {
                assert(below[i].change.action != Action::Create);
            }
        }
    }
}

/// Promoting twice is the same as promoting once, and leaves nothing up to
/// date.
pub proof fn law_promote_is_idempotent(p: PlannedChange)
    ensures
        promoted(promoted(p)) == promoted(p),
        promoted(p).change.action != Action::SkipUpToDate,
{
}

/// The slug of a commit is found by its SHA, where no two commits share one.
proof fn lemma_slug_of(commits: Seq<LocalCommit>, k: int)
    requires
        0 <= k < commits.len(),
        forall|i: int|
            k < i < commits.len() ==> (#[trigger] commits[i]).commit_sha@ != commits[k].commit_sha@,
    ensures
        slug_of(commits, commits[k].commit_sha@) == commits[k].slug@,
    decreases commits.len(),
{
    if k < commits.len() - 1 {
        assert(commits[commits.len() - 1].commit_sha@ != commits[k].commit_sha@);
        lemma_slug_of(commits.drop_last(), k);
    }
}

/// A pull request keeps its branch, whatever becomes of its change and of the
/// title of its commit. A change without one gets the branch that its own commit
/// names, below the prefix of the stack; of commits with the same SHA the last one
/// names it.
pub proof fn law_branch_is_the_pull_requests_own(
    changes: Seq<LocalChange>,
    commits: Seq<LocalCommit>,
    stack_prefix: Seq<char>,
    trunk: Seq<char>,
    next_only: bool,
    only_update: bool,
    i: int,
)
    requires
        0 <= i < changes.len(),
        changes.len() == commits.len(),
        forall|k: int|
            0 <= k < commits.len() ==> (#[trigger] changes[k]).commit_sha@ == commits[k].commit_sha@,
    ensures
        ({
            let p = planned(changes, commits, stack_prefix, trunk, next_only, only_update);
            let last = forall|k: int|
                i < k < commits.len() ==> (#[trigger] commits[k]).commit_sha@
                    != commits[i].commit_sha@;
            &&& p.len() == changes.len()
            &&& changes[i].pull is Some && changes[i].pull->0.head_ref is Some ==> p[i].dest_branch
                == changes[i].pull->0.head_ref->0@
            &&& last && (changes[i].pull is None || changes[i].pull->0.head_ref is None)
                ==> p[i].dest_branch == stack_prefix + "/"@ + commits[i].slug@
        }),
{
    lemma_planned_at(changes, commits, stack_prefix, trunk, next_only, only_update, i);
    assert(changes[i].commit_sha@ == commits[i].commit_sha@);
    if forall|k: int|
        i < k < commits.len() ==> (#[trigger] commits[k]).commit_sha@ != commits[i].commit_sha@ {
        lemma_slug_of(commits, i);
    }
}

/// What is planned for a change does not depend on those above it.
proof fn lemma_planned_at(
    changes: Seq<LocalChange>,
    commits: Seq<LocalCommit>,
    stack_prefix: Seq<char>,
    trunk: Seq<char>,
    next_only: bool,
    only_update: bool,
    i: int,
)
    requires
        0 <= i < changes.len(),
    ensures
        ({
            let p = planned(changes, commits, stack_prefix, trunk, next_only, only_update);
            &&& p.len() == changes.len()
            &&& p[i].dest_branch == dest_of(changes[i], commits, stack_prefix)
            &&& p[i].change == with_action(
                changes[i],
                flagged_action(changes[i].action, i, next_only, only_update),
            )
        }),
    decreases changes.len(),
{
    let t = changes.drop_last();
    law_plan_is_a_chain(t, commits, stack_prefix, trunk, next_only, only_update);
    if i < t.len() {
        lemma_planned_at(t, commits, stack_prefix, trunk, next_only, only_update, i);
    }
}

/// Planning changes nothing about a change but its action, and that only by a
/// flag: `next_only` skips all but the bottom one, and `only_update` what would
/// be created.
pub proof fn law_flags_only_skip(
    changes: Seq<LocalChange>,
    commits: Seq<LocalCommit>,
    stack_prefix: Seq<char>,
    trunk: Seq<char>,
    next_only: bool,
    only_update: bool,
    i: int,
)
    requires
        0 <= i < changes.len(),
    ensures
        ({
            let p = planned(changes, commits, stack_prefix, trunk, next_only, only_update);
            let was = changes[i];
            let is = p[i].change;
            &&& p.len() == changes.len()
            &&& is.commit_sha == was.commit_sha && is.title == was.title && is.message
                == was.message && is.change_id == was.change_id && is.pull == was.pull && is.note
                == was.note
            &&& !next_only && !only_update ==> is.action == was.action
            &&& i == 0 && !only_update ==> is.action == was.action
            &&& i == 0 && was.action != Action::Create ==> is.action == was.action
            &&& next_only && i > 0 ==> is.action == Action::SkipNextOnly
            &&& !(next_only && i > 0) && only_update && was.action == Action::Create ==> is.action
                == Action::SkipCreate
            &&& !(next_only && i > 0) && was.action != Action::Create ==> is.action == was.action
        }),
{
    lemma_planned_at(changes, commits, stack_prefix, trunk, next_only, only_update, i);
}

/// After a rebase what was up to date is updated, and nothing else changes.
pub proof fn law_promotion_is_for_the_up_to_date(p: PlannedChange)
    ensures
        p.change.action == Action::SkipUpToDate ==> promoted(p).change.action == Action::Update,
        p.change.action != Action::SkipUpToDate ==> promoted(p) == p,
        promoted(p).dest_branch == p.dest_branch,
        promoted(p).base_branch == p.base_branch,
        promoted(p).change.commit_sha == p.change.commit_sha,
        promoted(p).change.pull == p.change.pull,
        promoted(p).change.change_id == p.change.change_id,
        promoted(p).change.title == p.change.title,
        promoted(p).change.message == p.change.message,
        promoted(p).change.note == p.change.note,
{
}

/// The plan of a stack: the branch of each commit is that of its pull request,
/// else the one that the commit itself names.
pub proof fn law_every_commit_has_its_branch(
    commits: Seq<LocalCommit>,
    remotes: Seq<crate::remote_changes::RemoteEntry>,
    stack_prefix: Seq<char>,
    trunk: Seq<char>,
    next_only: bool,
    only_update: bool,
    i: int,
)
    requires
        0 <= i < commits.len(),
    ensures
        ({
            let last = forall|k: int|
                i < k < commits.len() ==> (#[trigger] commits[k]).commit_sha@
                    != commits[i].commit_sha@;
            let p = planned(
                crate::changes::classified(commits, remotes),
                commits,
                stack_prefix,
                trunk,
                next_only,
                only_update,
            );
            let q = p[i].change.pull;
            &&& p.len() == commits.len()
            &&& p[i].change.commit_sha == commits[i].commit_sha
            &&& q is Some && q->0.head_ref is Some ==> p[i].dest_branch == q->0.head_ref->0@
            &&& last && (q is None || q->0.head_ref is None) ==> p[i].dest_branch == stack_prefix
                + "/"@ + commits[i].slug@
        }),
{
    let changes = crate::changes::classified(commits, remotes);
    crate::changes::law_one_change_per_commit(commits, remotes);
    assert forall|k: int| 0 <= k < commits.len() implies (#[trigger] changes[k]).commit_sha@
        == commits[k].commit_sha@ by {
        assert(changes[k] == crate::changes::classified(commits, remotes)[k]);
    }
    law_branch_is_the_pull_requests_own(
        changes,
        commits,
        stack_prefix,
        trunk,
        next_only,
        only_update,
        i,
    );
    law_flags_only_skip(changes, commits, stack_prefix, trunk, next_only, only_update, i);
}

/// A plan is never refused. It has an entry for every commit, in their order; the
/// branch of an entry is that of its pull request, else the one that its commit
/// names below the prefix; and each targets the branch of the one below, the
/// bottom one the trunk.
pub proof fn law_plan_of_a_push(
    commits: &Vec<LocalCommit>,
    remotes: Vec<RemoteChange>,
    opts: PlannerOpts<'_>,
    r: Result<PlannedChanges, CliError>,
    i: int,
)
    requires
        call_ensures(plan, (commits, remotes, opts), r),
        0 <= i < commits@.len(),
    ensures
        r is Ok,
        r->Ok_0.locals@.len() == commits@.len(),
        ({
            let last = forall|k: int|
                i < k < commits@.len() ==> (#[trigger] commits@[k]).commit_sha@
                    != commits@[i].commit_sha@;
            let p = r->Ok_0.locals@[i];
            let q = p.change.pull;
            &&& p.change.commit_sha@ == commits@[i].commit_sha@
            &&& p.change.change_id@ == commits@[i].change_id@
            &&& q is Some && q->0.head_ref is Some ==> p.dest_branch@ == q->0.head_ref->0@
            &&& last && (q is None || q->0.head_ref is None) ==> p.dest_branch@
                == opts.stack_prefix@ + "/"@ + commits@[i].slug@
            &&& i == 0 ==> p.base_branch@ == opts.base_branch@
            &&& i > 0 ==> p.base_branch@ == r->Ok_0.locals@[i - 1].dest_branch@
        }),
{
    let all = crate::remote_changes::entries(remotes@);
    let changes = crate::changes::classified(commits@, all);
    let prefix = opts.stack_prefix@;
    let trunk = opts.base_branch@;
    let next_only = opts.next_only;
    let only_update = opts.only_update_existing_pulls;
    let entries = plan_entries(r->Ok_0.locals@);
    law_every_commit_has_its_branch(commits@, all, prefix, trunk, next_only, only_update, i);
    lemma_change_id_is_kept(commits@, all, prefix, trunk, next_only, only_update, i);
    law_plan_is_a_chain(changes, commits@, prefix, trunk, next_only, only_update);
    assert(entries.len() == r->Ok_0.locals@.len());
    assert(entries[i] == r->Ok_0.locals@[i]@);
    if i > 0 {
        assert(entries[i - 1] == r->Ok_0.locals@[i - 1]@);
        assert(entries[i].base_branch == entries[i - 1].dest_branch);
    }
}

/// Planning keeps the Change-Id of every commit.
proof fn lemma_change_id_is_kept(
    commits: Seq<LocalCommit>,
    remotes: Seq<crate::remote_changes::RemoteEntry>,
    stack_prefix: Seq<char>,
    trunk: Seq<char>,
    next_only: bool,
    only_update: bool,
    i: int,
)
    requires
        0 <= i < commits.len(),
    ensures
        planned(
            crate::changes::classified(commits, remotes),
            commits,
            stack_prefix,
            trunk,
            next_only,
            only_update,
        )[i].change.change_id == commits[i].change_id,
{
    let changes = crate::changes::classified(commits, remotes);
    crate::changes::law_one_change_per_commit(commits, remotes);
    assert(changes[i].change_id == commits[i].change_id);
    law_flags_only_skip(changes, commits, stack_prefix, trunk, next_only, only_update, i);
}

/// The changes of a plan are its own, in their order.
pub proof fn law_changes_of_a_plan(planned: &PlannedChanges, r: Changes)
    requires
        call_ensures(as_changes, (planned,), r),
    ensures
        r.locals@.len() == planned.locals@.len(),
        forall|i: int|
            0 <= i < r.locals@.len() ==> #[trigger] r.locals@[i] == planned.locals@[i].change,
        r.orphans@ == planned.orphans@,
{
}

/// Where several commits have the same SHA, the last of them names the branch of
/// them all.
pub proof fn law_last_commit_names_the_branch(
    changes: Seq<LocalChange>,
    commits: Seq<LocalCommit>,
    stack_prefix: Seq<char>,
    trunk: Seq<char>,
    next_only: bool,
    only_update: bool,
    i: int,
    k: int,
)
    requires
        0 <= i < changes.len(),
        0 <= k < commits.len(),
        changes[i].commit_sha@ == commits[k].commit_sha@,
        forall|m: int|
            k < m < commits.len() ==> (#[trigger] commits[m]).commit_sha@ != commits[k].commit_sha@,
        changes[i].pull is None || changes[i].pull->0.head_ref is None,
    ensures
        planned(
            changes,
            commits,
            stack_prefix,
            trunk,
            next_only,
            only_update,
        )[i].dest_branch == stack_prefix + "/"@ + commits[k].slug@,
{
    lemma_planned_at(changes, commits, stack_prefix, trunk, next_only, only_update, i);
    lemma_slug_of(commits, k);
}

} // verus!
