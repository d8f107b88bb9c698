//! `stack push`: the order in which a planned push does its work, and what
//! each piece of work is.
//!
//! A push first prepares the revision histories, moves the targets of the pull
//! requests out of the way, and pushes all branches at once. Only then are the
//! pull requests created and updated, one after the other from the bottom, so
//! that each can name the one that it depends on; then the comments follow,
//! and at last the branches of the orphans are removed. [`PushRun`] is that
//! order: it says what to do next, and is told how it went.
use crate::approvals::RebaseDecision;
use crate::change_type::ChangeType;
use crate::changes::{Action, LocalChange, format_local_change_log, format_orphan_change_log};
use crate::comment_upsert::RevisionInput;
use crate::error::{CliError, Failure};
use crate::notes_push::{NotesLease, PushEntry};
use crate::outside;
use crate::plan::{PlannedChange, PlannedChanges, promote_skip_up_to_date_to_update};
use crate::pr_upsert::{PrUpsertInput, StaleBase};
use crate::progress::Mark;
use crate::pull::{MergedAt, Pull, field_or};
use crate::rebase_log::rebase_dry_run;
use crate::revision_history::RevisionHistoryComment;
use crate::text;
use vstd::prelude::*;

verus! {

/// What a push was asked to do.
#[derive(Debug)]
pub struct Options<'a> {
    /// The address of the API of the GitHub server.
    pub github_server: &'a str,
    /// The remote and the branch of the trunk.
    pub trunk: (&'a str, &'a str),
    /// Who the pull requests belong to.
    pub author: &'a str,
    /// What the branches of the pull requests start with.
    pub branch_prefix: &'a str,
    pub user: &'a str,
    pub repo: &'a str,
    pub skip_rebase: bool,
    pub force_rebase: bool,
    pub next_only: bool,
    pub dry_run: bool,
    pub create_as_draft: bool,
    pub keep_pull_request_title_and_body: bool,
    pub only_update_existing_pulls: bool,
    pub revision_history: bool,
    /// Push without the hooks of git.
    pub skip_hooks: bool,
}

/// How a push ended.
#[derive(Debug)]
pub enum Outcome {
    /// Nothing was done; the lines say what would be.
    DryRun {
        planned: PlannedChanges,
        rebase: RebaseDecision,
        commits_behind: u32,
        log_lines: Vec<String>,
    },
    Pushed { planned: PlannedChanges, rebase: RebaseDecision },
}

// ---------------------------------------------------------------------------
// Before the push
// ---------------------------------------------------------------------------

/// What the branches of a stack start with.
pub open spec fn prefix_of_stack(branch_prefix: Seq<char>, dest_branch: Seq<char>) -> Seq<char> {
    if branch_prefix.len() == 0 {
        dest_branch
    } else {
        branch_prefix + "/"@ + dest_branch
    }
}

/// What the branches of a stack start with: the branch itself, below the
/// prefix where there is one.
pub fn stack_prefix(branch_prefix: &str, dest_branch: &str) -> (r: String)
    ensures
        r@ == prefix_of_stack(branch_prefix@, dest_branch@),
{
    if branch_prefix.is_empty() {
        return dest_branch.to_owned();
    }
    let mut p = branch_prefix.to_owned();
    p.append("/");
    p.append(dest_branch);
    p
}

/// The number of commits that git counted.
pub open spec fn counted(out: Seq<char>) -> Result<u32, Failure> {
    match text::parse_number(out, u32::MAX as nat) {
        Some(n) => Ok(n as u32),
        None => Err(
            Failure::Generic(
                "`git rev-list --count` returned non-integer "@ + outside::debug_text(out) + ": "@
                    + outside::number_error(out),
            ),
        ),
    }
}

/// The number of commits that the stack is behind, from what git printed.
pub fn git_count_behind(out: &str) -> (r: Result<u32, CliError>)
    ensures
        match r {
            Ok(n) => counted(out@) == Ok::<u32, Failure>(n),
            Err(e) => counted(out@) == Err::<u32, Failure>(e@),
        },
{
    match outside::parse_count(out) {
        Ok(n) => Ok(n),
        Err(e) => {
            let mut m = "`git rev-list --count` returned non-integer ".to_owned();
            m.append(outside::debug_of(out).as_str());
            m.append(": ");
            m.append(e.as_str());
            Err(CliError::Generic(m))
        },
    }
}

/// The lines that a preview shows of the changes.
pub open spec fn change_previews(locals: Seq<PlannedChange>, create_as_draft: bool) -> Seq<
    Seq<char>,
> {
    locals.map_values(
        |p: PlannedChange|
            crate::changes::change_line(p.change, p.dest_branch@, true, create_as_draft),
    )
}

/// The lines that a preview shows of the orphans.
pub open spec fn orphan_previews(orphans: Seq<Pull>) -> Seq<Seq<char>> {
    orphans.map_values(|p: Pull| crate::changes::orphan_line(p, true))
}

/// Add the preview of a plan to `log`: the changes from the bottom, then the
/// orphans.
pub fn push_plan_preview(log: &mut Vec<String>, planned: &PlannedChanges, create_as_draft: bool)
    ensures
        text::texts(final(log)@) == text::texts(old(log)@) + change_previews(planned.locals@, create_as_draft)
            + orphan_previews(planned.orphans@),
{
    let ghost start = text::texts(log@);
    let ghost changes = change_previews(planned.locals@, create_as_draft);
    let ghost orphans = orphan_previews(planned.orphans@);
    let mut i: usize = 0;
    proof {
        assert(start + changes.take(0) =~= start);
    }
    while i < planned.locals.len()
        invariant
            i <= planned.locals.len(),
            changes == change_previews(planned.locals@, create_as_draft),
            text::texts(log@) == start + changes.take(i as int),
        decreases planned.locals.len() - i,
    {
        let ghost before = log@;
        let p = &planned.locals[i];
        let line = format_local_change_log(
            &p.change,
            p.dest_branch.as_str(),
            true,
            create_as_draft,
        );
        log.push(line);
        proof {
            assert(text::texts(log@) =~= text::texts(before).push(changes[i as int]));
            assert(text::texts(log@) =~= start + changes.take(i + 1));
        }
        i += 1;
    }
    let mut j: usize = 0;
    proof {
        assert(changes.take(i as int) =~= changes);
        assert(start + changes + orphans.take(0) =~= start + changes);
    }
    while j < planned.orphans.len()
        invariant
            j <= planned.orphans.len(),
            orphans == orphan_previews(planned.orphans@),
            text::texts(log@) == start + changes + orphans.take(j as int),
        decreases planned.orphans.len() - j,
    {
        let ghost before = log@;
        let line = format_orphan_change_log(&planned.orphans[j], true);
        log.push(line);
        proof {
            assert(text::texts(log@) =~= text::texts(before).push(orphans[j as int]));
            assert(text::texts(log@) =~= start + changes + orphans.take(j + 1));
        }
        j += 1;
    }
    proof {
        assert(orphans.take(j as int) =~= orphans);
    }
}

/// The changes of a dry run: where the stack would be rebased onto something
/// new, those that are up to date would change too.
pub open spec fn dry_run_locals(
    locals: Seq<PlannedChange>,
    should_rebase: bool,
    commits_behind: u32,
) -> Seq<PlannedChange> {
    if should_rebase && commits_behind > 0 {
        locals.map_values(|p: PlannedChange| crate::plan::promoted(p))
    } else {
        locals
    }
}

/// How a dry run ends: with the plan as it would be carried out, and the lines
/// that tell of it.
pub fn dry_run(
    planned: PlannedChanges,
    rebase: RebaseDecision,
    commits_behind: u32,
    dest_branch: &str,
    remote: &str,
    base_branch: &str,
    create_as_draft: bool,
) -> (r: Outcome)
    ensures
        r matches Outcome::DryRun { planned: p, rebase: d, commits_behind: n, log_lines } && {
            &&& p.locals@ == dry_run_locals(planned.locals@, rebase.should_rebase, commits_behind)
            &&& p.orphans == planned.orphans
            &&& d == rebase
            &&& n == commits_behind
            &&& text::texts(log_lines@) == seq!["Stacked pull request plan:"@]
                + crate::rebase_log::dry_run_lines(
                dest_branch@,
                remote@,
                base_branch@,
                commits_behind as nat,
                rebase.reason,
                rebase.approved_pulls@,
            ) + change_previews(p.locals@, create_as_draft) + orphan_previews(p.orphans@)
                + seq!["Finished (dry-run mode)."@]
        },
{
    let mut log: Vec<String> = Vec::new();
    log.push("Stacked pull request plan:".to_owned());
    let ghost title = text::texts(log@);
    proof {
        assert(title =~= seq!["Stacked pull request plan:"@]);
    }
    let lines = rebase_dry_run(dest_branch, remote, base_branch, commits_behind, &rebase);
    let ghost all = text::texts(lines@);
    let mut i: usize = 0;
    proof {
        assert(title + all.take(0) =~= title);
    }
    while i < lines.len()
        invariant
            i <= lines.len(),
            all == text::texts(lines@),
            text::texts(log@) == title + all.take(i as int),
        decreases lines.len() - i,
    {
        let ghost before = log@;
        log.push(lines[i].clone());
        proof {
            assert(text::texts(log@) =~= text::texts(before).push(all[i as int]));
            assert(text::texts(log@) =~= title + all.take(i + 1));
        }
        i += 1;
    }
    proof {
        assert(all.take(i as int) =~= all);
    }
    let mut p = planned;
    if rebase.should_rebase && commits_behind > 0 {
        promote_skip_up_to_date_to_update(&mut p);
    }
    push_plan_preview(&mut log, &p, create_as_draft);
    let ghost before = log@;
    log.push("Finished (dry-run mode).".to_owned());
    proof {
        assert(text::texts(log@) =~= text::texts(before) + seq!["Finished (dry-run mode)."@]);
    }
    Outcome::DryRun { planned: p, rebase, commits_behind, log_lines: log }
}

/// The line that says how many pull requests were read.
pub fn pre_flight_summary(pulls: usize) -> (r: String)
    ensures
        r@ == "read "@ + text::decimal(pulls as nat) + " pull request(s)"@,
{
    let mut m = "read ".to_owned();
    m.append(text::decimal_of(pulls as u64).as_str());
    m.append(" pull request(s)");
    m
}

// ---------------------------------------------------------------------------
// The pieces of a push
// ---------------------------------------------------------------------------

/// The number of the pull request of a change.
pub open spec fn number_of(p: PlannedChange) -> Option<u64> {
    match p.change.pull {
        Some(q) => q.number,
        None => None,
    }
}

/// The pull request that a change updates.
pub open spec fn updated_pull(p: PlannedChange) -> Option<Pull> {
    if p.change.action == Action::Update {
        p.change.pull
    } else {
        None
    }
}

/// The number of the pull request that a change updates.
pub open spec fn updated_number(p: PlannedChange) -> Option<u64> {
    match updated_pull(p) {
        Some(q) => q.number,
        None => None,
    }
}

/// The head of the pull request that a change updates.
pub open spec fn updated_head(p: PlannedChange) -> Option<Seq<char>> {
    match updated_pull(p) {
        Some(q) => text::opt_text(q.head_sha),
        None => None,
    }
}

/// The numbers of the pull requests that a push updates.
pub open spec fn updated_numbers(locals: Seq<PlannedChange>) -> Seq<u64>
    decreases locals.len(),
{
    if locals.len() == 0 {
        seq![]
    } else {
        let before = updated_numbers(locals.drop_last());
        match updated_number(locals.last()) {
            Some(n) => before.push(n),
            None => before,
        }
    }
}

/// The target of the pull request that a change updates, before and after.
pub open spec fn stale_base(p: PlannedChange) -> Option<crate::pr_upsert::StaleBaseView> {
    match updated_pull(p) {
        Some(q) => match (q.number, q.base_ref) {
            (Some(n), Some(b)) => Some(
                crate::pr_upsert::StaleBaseView {
                    pull_number: n,
                    current_base_ref: b@,
                    new_base_ref: p.base_branch@,
                },
            ),
            _ => None,
        },
        None => None,
    }
}

/// The targets of the pull requests that a push updates.
pub open spec fn stale_bases(locals: Seq<PlannedChange>) -> Seq<crate::pr_upsert::StaleBaseView>
    decreases locals.len(),
{
    if locals.len() == 0 {
        seq![]
    } else {
        let before = stale_bases(locals.drop_last());
        match stale_base(locals.last()) {
            Some(b) => before.push(b),
            None => before,
        }
    }
}

/// The branch of a change as a push lands it.
pub open spec fn push_entry(p: PlannedChange) -> crate::notes_push::PushEntryView {
    crate::notes_push::PushEntryView {
        commit_sha: p.change.commit_sha@,
        dest_branch: p.dest_branch@,
        pull_head_sha: updated_head(p),
    }
}

/// The branches that a push lands: one for each change that is created or
/// updated. The branch of an update must still have the head that was seen.
pub open spec fn push_entries(locals: Seq<PlannedChange>) -> Seq<crate::notes_push::PushEntryView>
    decreases locals.len(),
{
    if locals.len() == 0 {
        seq![]
    } else {
        let before = push_entries(locals.drop_last());
        let p = locals.last();
        if p.change.action.pushes() {
            before.push(push_entry(p))
        } else {
            before
        }
    }
}

/// The number of the closest pull request below: that of the last change which
/// has one.
pub open spec fn nearest_number(locals: Seq<PlannedChange>) -> Option<u64>
    decreases locals.len(),
{
    if locals.len() == 0 {
        None
    } else if number_of(locals.last()) is Some {
        number_of(locals.last())
    } else {
        nearest_number(locals.drop_last())
    }
}

/// Whether the comment that shows the stack belongs on the pull request of a
/// change: there is one, with a number, and it is not merged.
pub open spec fn commented(p: PlannedChange) -> bool {
    p.change.pull matches Some(q) && !q.merged() && q.number is Some
}

fn pull_number(pull: &Option<Pull>) -> (r: Option<u64>)
    ensures
        r == (match pull {
            Some(q) => q.number,
            None => None,
        }),
{
    match pull {
        Some(q) => q.number,
        None => None,
    }
}

fn updated_pull_ref(p: &PlannedChange) -> (r: Option<&Pull>)
    ensures
        match r {
            Some(q) => updated_pull(*p) == Some(*q),
            None => updated_pull(*p) is None,
        },
{
    if p.change.action == Action::Update {
        match &p.change.pull {
            Some(q) => Some(q),
            None => None,
        }
    } else {
        None
    }
}

fn updated_head_text(p: &PlannedChange) -> (r: Option<String>)
    ensures
        text::opt_text(r) == updated_head(*p),
{
    match updated_pull_ref(p) {
        Some(q) => text::clone_opt(&q.head_sha),
        None => None,
    }
}

/// The numbers of the pull requests that a push updates.
pub fn updated_pr_numbers(locals: &Vec<PlannedChange>) -> (r: Vec<u64>)
    ensures
        r@ == updated_numbers(locals@),
{
    let mut out: Vec<u64> = Vec::new();
    let mut i: usize = 0;
    proof {
        assert(locals@.take(0) =~= seq![]);
    }
    while i < locals.len()
        invariant
            i <= locals.len(),
            out@ == updated_numbers(locals@.take(i as int)),
        decreases locals.len() - i,
    {
        proof {
            assert(locals@.take(i + 1).drop_last() =~= locals@.take(i as int));
        }
        if let Some(q) = updated_pull_ref(&locals[i]) {
            if let Some(n) = q.number {
                out.push(n);
            }
        }
        i += 1;
    }
    proof {
        assert(locals@.take(i as int) =~= locals@);
    }
    out
}

/// The targets of the pull requests that a push updates.
pub fn stale_bases_of(locals: &Vec<PlannedChange>) -> (r: Vec<StaleBase>)
    ensures
        r@.map_values(|b: StaleBase| b@) == stale_bases(locals@),
{
    let mut out: Vec<StaleBase> = Vec::new();
    let mut i: usize = 0;
    proof {
        assert(locals@.take(0) =~= seq![]);
        assert(out@.map_values(|b: StaleBase| b@) =~= seq![]);
    }
    while i < locals.len()
        invariant
            i <= locals.len(),
            out@.map_values(|b: StaleBase| b@) == stale_bases(locals@.take(i as int)),
        decreases locals.len() - i,
    {
        let ghost before = out@;
        proof {
            assert(locals@.take(i + 1).drop_last() =~= locals@.take(i as int));
        }
        if let Some(q) = updated_pull_ref(&locals[i]) {
            if let (Some(n), Some(b)) = (q.number, &q.base_ref) {
                let entry = StaleBase {
                    pull_number: n,
                    current_base_ref: b.clone(),
                    new_base_ref: locals[i].base_branch.clone(),
                };
                out.push(entry);
                proof {
                    assert(out@.map_values(|b: StaleBase| b@) =~= before.map_values(
                        |b: StaleBase| b@,
                    ).push(entry@));
                }
            }
        }
        i += 1;
    }
    proof {
        assert(locals@.take(i as int) =~= locals@);
    }
    out
}

/// The branches that a push lands.
pub fn push_entries_of(locals: &Vec<PlannedChange>) -> (r: Vec<PushEntry>)
    ensures
        r@.map_values(|e: PushEntry| e@) == push_entries(locals@),
{
    let mut out: Vec<PushEntry> = Vec::new();
    let mut i: usize = 0;
    proof {
        assert(locals@.take(0) =~= seq![]);
        assert(out@.map_values(|e: PushEntry| e@) =~= seq![]);
    }
    while i < locals.len()
        invariant
            i <= locals.len(),
            out@.map_values(|e: PushEntry| e@) == push_entries(locals@.take(i as int)),
        decreases locals.len() - i,
    {
        let ghost before = out@;
        let p = &locals[i];
        proof {
            assert(locals@.take(i + 1).drop_last() =~= locals@.take(i as int));
        }
        if p.change.action.is_push() {
            let entry = PushEntry {
                commit_sha: p.change.commit_sha.clone(),
                dest_branch: p.dest_branch.clone(),
                pull_head_sha: updated_head_text(p),
            };
            out.push(entry);
            proof {
                assert(out@.map_values(|e: PushEntry| e@) =~= before.map_values(
                    |e: PushEntry| e@,
                ).push(entry@));
            }
        }
        i += 1;
    }
    proof {
        assert(locals@.take(i as int) =~= locals@);
    }
    out
}

/// The number of the closest pull request below change `i`.
fn number_below(locals: &Vec<PlannedChange>, i: usize) -> (r: Option<u64>)
    requires
        i <= locals.len(),
    ensures
        r == nearest_number(locals@.take(i as int)),
{
    let mut j: usize = i;
    while j > 0
        invariant
            j <= i <= locals.len(),
            nearest_number(locals@.take(i as int)) == nearest_number(locals@.take(j as int)),
        decreases j,
    {
        proof {
            assert(locals@.take(j as int).drop_last() =~= locals@.take(j - 1));
        }
        let n = pull_number(&locals[j - 1].change.pull);
        if n.is_some() {
            return n;
        }
        j -= 1;
    }
    None
}

// ---------------------------------------------------------------------------
// The order
// ---------------------------------------------------------------------------

/// Where a push is. An index is that of a change, or of an orphan.
#[derive(Debug, Clone, Copy, PartialEq, Eq, Structural)]
pub enum Stage {
    OldHeads,
    Types(usize),
    Revisions(usize),
    Bases,
    Branches,
    Upserts(usize),
    StackComments(usize),
    RevisionComments(usize),
    Orphans(usize),
    Closed,
}

/// What a push does next.
#[derive(Debug, Clone, PartialEq, Eq)]
pub enum PushAction {
    /// Fetch the heads that these pull requests have.
    FetchOldHeads(Vec<u64>),
    /// Tell what kind of change leads from one commit to the other.
    DetectType { index: usize, old_sha: String, new_sha: String },
    /// Prepare the revision history of a pull request.
    Revise { index: usize, number: u64, old_sha: String, new_sha: String },
    /// Let the pull requests among these whose target changes target the trunk.
    Retarget(Vec<StaleBase>),
    /// Push these branches, all or none.
    Push(Vec<PushEntry>),
    /// Create or update the pull request of a change.
    Upsert { index: usize, depends_on: Option<u64> },
    /// Bring the comment that shows the stack up to date on a pull request.
    CommentStack { number: u64 },
    /// Bring the revision history of a change up to date.
    CommentRevision { index: usize },
    /// Remove the branch of an orphan.
    DeleteOrphan { index: usize, head_ref: String },
    Nothing,
}

/// What a push does next, as the contracts see it.
pub enum PushActionView {
    FetchOldHeads(Seq<u64>),
    DetectType { index: usize, old_sha: Seq<char>, new_sha: Seq<char> },
    Revise { index: usize, number: u64, old_sha: Seq<char>, new_sha: Seq<char> },
    Retarget(Seq<crate::pr_upsert::StaleBaseView>),
    Push(Seq<crate::notes_push::PushEntryView>),
    Upsert { index: usize, depends_on: Option<u64> },
    CommentStack { number: u64 },
    CommentRevision { index: usize },
    DeleteOrphan { index: usize, head_ref: Seq<char> },
    Nothing,
}

impl View for PushAction {
    type V = PushActionView;

    open spec fn view(&self) -> PushActionView {
        match self {
            PushAction::FetchOldHeads(v) => PushActionView::FetchOldHeads(v@),
            PushAction::DetectType { index, old_sha, new_sha } => PushActionView::DetectType {
                index: *index,
                old_sha: old_sha@,
                new_sha: new_sha@,
            },
            PushAction::Revise { index, number, old_sha, new_sha } => PushActionView::Revise {
                index: *index,
                number: *number,
                old_sha: old_sha@,
                new_sha: new_sha@,
            },
            PushAction::Retarget(v) => PushActionView::Retarget(
                v@.map_values(|b: StaleBase| b@),
            ),
            PushAction::Push(v) => PushActionView::Push(v@.map_values(|e: PushEntry| e@)),
            PushAction::Upsert { index, depends_on } => PushActionView::Upsert {
                index: *index,
                depends_on: *depends_on,
            },
            PushAction::CommentStack { number } => PushActionView::CommentStack {
                number: *number,
            },
            PushAction::CommentRevision { index } => PushActionView::CommentRevision {
                index: *index,
            },
            PushAction::DeleteOrphan { index, head_ref } => PushActionView::DeleteOrphan {
                index: *index,
                head_ref: head_ref@,
            },
            PushAction::Nothing => PushActionView::Nothing,
        }
    }
}

/// The first index from `i` on whose flag is set, or the number of flags.
pub open spec fn first_from(flags: Seq<bool>, i: int) -> int
    decreases flags.len() - i,
{
    if i >= flags.len() {
        flags.len() as int
    } else if flags[i] {
        i
    } else {
        first_from(flags, i + 1)
    }
}

/// Whether the kind of change `p` can be told.
pub open spec fn typed(p: PlannedChange) -> bool {
    updated_head(p) is Some
}

/// Whether change `p` has a revision history.
pub open spec fn revisable(p: PlannedChange) -> bool {
    updated_head(p) is Some && updated_number(p) is Some
}

/// A push on its way, as the contracts see it.
pub struct RunView {
    pub locals: Seq<PlannedChange>,
    pub orphans: Seq<Pull>,
    pub revision_history: bool,
    /// The changes whose revision history is prepared.
    pub revised: Seq<bool>,
    pub stage: Stage,
}

impl RunView {
    pub open spec fn typed_flags(self) -> Seq<bool> {
        self.locals.map_values(|p: PlannedChange| typed(p))
    }

    pub open spec fn revisable_flags(self) -> Seq<bool> {
        self.locals.map_values(|p: PlannedChange| revisable(p))
    }

    pub open spec fn pushed_flags(self) -> Seq<bool> {
        self.locals.map_values(|p: PlannedChange| p.change.action.pushes())
    }

    pub open spec fn commented_flags(self) -> Seq<bool> {
        self.locals.map_values(|p: PlannedChange| commented(p))
    }

    pub open spec fn removable_flags(self) -> Seq<bool> {
        self.orphans.map_values(|p: Pull| p.head_ref is Some)
    }

    /// The changes whose revision history is prepared, after that of change `i`
    /// was or was not. A history belongs to a Change-Id.
    pub open spec fn revised_with(self, i: int, prepared: bool) -> Seq<bool> {
        Seq::new(
            self.locals.len(),
            |k: int|
                self.revised[k] || (prepared && self.locals[k].change.change_id@
                    == self.locals[i].change.change_id@),
        )
    }

    /// The stage at the orphans from `i` on.
    pub open spec fn at_orphans(self, i: int) -> Stage {
        let j = first_from(self.removable_flags(), i);
        if j < self.orphans.len() {
            Stage::Orphans(j as usize)
        } else {
            Stage::Closed
        }
    }

    /// The stage at the comments with revision histories from `i` on.
    pub open spec fn at_revision_comments(self, i: int) -> Stage {
        let j = first_from(self.revised, i);
        if j < self.revised.len() {
            Stage::RevisionComments(j as usize)
        } else {
            self.at_orphans(0)
        }
    }

    /// The stage at the comments that show the stack from `i` on. A stack of
    /// one pull request gets none.
    pub open spec fn at_stack_comments(self, i: int) -> Stage {
        let j = first_from(self.commented_flags(), i);
        if stack_entries(self.locals).len() > 1 && j < self.locals.len() {
            Stage::StackComments(j as usize)
        } else {
            self.at_revision_comments(0)
        }
    }

    /// The stage at the pull requests from `i` on.
    pub open spec fn at_upserts(self, i: int) -> Stage {
        let j = first_from(self.pushed_flags(), i);
        if j < self.locals.len() {
            Stage::Upserts(j as usize)
        } else {
            self.at_stack_comments(0)
        }
    }

    /// The stage at the revision histories from `i` on.
    pub open spec fn at_revisions(self, i: int) -> Stage {
        let j = first_from(self.revisable_flags(), i);
        if self.revision_history && j < self.locals.len() {
            Stage::Revisions(j as usize)
        } else {
            Stage::Bases
        }
    }

    /// The stage at the kinds of changes from `i` on.
    pub open spec fn at_types(self, i: int) -> Stage {
        let j = first_from(self.typed_flags(), i);
        if self.revision_history && j < self.locals.len() {
            Stage::Types(j as usize)
        } else {
            self.at_revisions(0)
        }
    }

    /// The stage that a push starts at.
    pub open spec fn first_stage(self) -> Stage {
        if self.revision_history && updated_numbers(self.locals).len() > 0 {
            Stage::OldHeads
        } else {
            self.at_types(0)
        }
    }

    /// The stage after this one.
    pub open spec fn next_stage(self) -> Stage {
        match self.stage {
            Stage::OldHeads => self.at_types(0),
            Stage::Types(i) => self.at_types(i + 1),
            Stage::Revisions(i) => self.at_revisions(i + 1),
            Stage::Bases => Stage::Branches,
            Stage::Branches => self.at_upserts(0),
            Stage::Upserts(i) => self.at_upserts(i + 1),
            Stage::StackComments(i) => self.at_stack_comments(i + 1),
            Stage::RevisionComments(i) => self.at_revision_comments(i + 1),
            Stage::Orphans(i) => self.at_orphans(i + 1),
            Stage::Closed => Stage::Closed,
        }
    }

    /// Whether the stage has something to do.
    pub open spec fn wf(self) -> bool {
        &&& self.revised.len() == self.locals.len()
        &&& match self.stage {
            Stage::Types(i) => i < self.locals.len() && typed(self.locals[i as int]),
            Stage::Revisions(i) => i < self.locals.len() && revisable(self.locals[i as int]),
            Stage::Upserts(i) => i < self.locals.len()
                && self.locals[i as int].change.action.pushes(),
            Stage::StackComments(i) => i < self.locals.len() && commented(self.locals[i as int]),
            Stage::RevisionComments(i) => i < self.locals.len() && self.revised[i as int],
            Stage::Orphans(i) => i < self.orphans.len() && self.orphans[i as int].head_ref is Some,
            _ => true,
        }
    }

    /// What is to be done at the stage.
    pub open spec fn action(self) -> PushActionView {
        match self.stage {
            Stage::OldHeads => PushActionView::FetchOldHeads(updated_numbers(self.locals)),
            Stage::Types(i) => PushActionView::DetectType {
                index: i,
                old_sha: updated_head(self.locals[i as int])->0,
                new_sha: self.locals[i as int].change.commit_sha@,
            },
            Stage::Revisions(i) => PushActionView::Revise {
                index: i,
                number: updated_number(self.locals[i as int])->0,
                old_sha: updated_head(self.locals[i as int])->0,
                new_sha: self.locals[i as int].change.commit_sha@,
            },
            Stage::Bases => PushActionView::Retarget(stale_bases(self.locals)),
            Stage::Branches => PushActionView::Push(push_entries(self.locals)),
            Stage::Upserts(i) => PushActionView::Upsert {
                index: i,
                depends_on: nearest_number(self.locals.take(i as int)),
            },
            Stage::StackComments(i) => PushActionView::CommentStack {
                number: number_of(self.locals[i as int])->0,
            },
            Stage::RevisionComments(i) => PushActionView::CommentRevision { index: i },
            Stage::Orphans(i) => PushActionView::DeleteOrphan {
                index: i,
                head_ref: self.orphans[i as int].head_ref->0@,
            },
            Stage::Closed => PushActionView::Nothing,
        }
    }
}

/// An entry of the comment that shows the stack.
#[derive(Debug, Clone, PartialEq, Eq)]
pub struct StackEntry {
    pub number: u64,
    pub change_id: String,
    pub head_sha: String,
    pub base_branch: String,
    pub dest_branch: String,
    pub title: String,
    pub html_url: String,
}

/// An entry of the comment that shows the stack, as the contracts see it.
pub struct StackEntryView {
    pub number: u64,
    pub change_id: Seq<char>,
    pub head_sha: Seq<char>,
    pub base_branch: Seq<char>,
    pub dest_branch: Seq<char>,
    pub title: Seq<char>,
    pub html_url: Seq<char>,
}

impl View for StackEntry {
    type V = StackEntryView;

    open spec fn view(&self) -> StackEntryView {
        StackEntryView {
            number: self.number,
            change_id: self.change_id@,
            head_sha: self.head_sha@,
            base_branch: self.base_branch@,
            dest_branch: self.dest_branch@,
            title: self.title@,
            html_url: self.html_url@,
        }
    }
}

/// The entry of a change whose pull request has a number.
pub open spec fn stack_entry(p: PlannedChange) -> Option<StackEntryView> {
    match p.change.pull {
        Some(q) => match q.number {
            Some(n) => Some(
                StackEntryView {
                    number: n,
                    change_id: p.change.change_id@,
                    head_sha: crate::pull::text_or(q.head_sha, ""@),
                    base_branch: p.base_branch@,
                    dest_branch: p.dest_branch@,
                    title: crate::pull::text_or(q.title, p.change.title@),
                    html_url: crate::pull::text_or(q.html_url, ""@),
                },
            ),
            None => None,
        },
        None => None,
    }
}

/// The entries of the changes whose pull requests have a number.
pub open spec fn stack_entries(locals: Seq<PlannedChange>) -> Seq<StackEntryView>
    decreases locals.len(),
{
    if locals.len() == 0 {
        seq![]
    } else {
        let before = stack_entries(locals.drop_last());
        match stack_entry(locals.last()) {
            Some(e) => before.push(e),
            None => before,
        }
    }
}

/// The entry of a change in the comment that shows the stack.
pub fn stack_entry_from_planned(p: &PlannedChange) -> (r: Option<StackEntry>)
    ensures
        match r {
            Some(e) => stack_entry(*p) == Some(e@),
            None => stack_entry(*p) is None,
        },
{
    match &p.change.pull {
        Some(q) => match q.number {
            Some(n) => Some(
                StackEntry {
                    number: n,
                    change_id: p.change.change_id.clone(),
                    head_sha: field_or(&q.head_sha, ""),
                    base_branch: p.base_branch.clone(),
                    dest_branch: p.dest_branch.clone(),
                    title: field_or(&q.title, p.change.title.as_str()),
                    html_url: field_or(&q.html_url, ""),
                },
            ),
            None => None,
        },
        None => None,
    }
}

/// The entries of the comment that shows the stack, from the bottom.
pub fn stack_entries_of(locals: &Vec<PlannedChange>) -> (r: Vec<StackEntry>)
    ensures
        r@.map_values(|e: StackEntry| e@) == stack_entries(locals@),
{
    let mut out: Vec<StackEntry> = Vec::new();
    let mut i: usize = 0;
    proof {
        assert(locals@.take(0) =~= seq![]);
        assert(out@.map_values(|e: StackEntry| e@) =~= seq![]);
    }
    while i < locals.len()
        invariant
            i <= locals.len(),
            out@.map_values(|e: StackEntry| e@) == stack_entries(locals@.take(i as int)),
        decreases locals.len() - i,
    {
        let ghost before = out@;
        proof {
            assert(locals@.take(i + 1).drop_last() =~= locals@.take(i as int));
        }
        if let Some(e) = stack_entry_from_planned(&locals[i]) {
            out.push(e);
            proof {
                assert(out@.map_values(|e: StackEntry| e@) =~= before.map_values(
                    |e: StackEntry| e@,
                ).push(e@));
            }
        }
        i += 1;
    }
    proof {
        assert(locals@.take(i as int) =~= locals@);
    }
    out
}

/// A push on its way: what is planned, and where the push is.
pub struct PushRun {
    pub planned: PlannedChanges,
    pub revision_history: bool,
    /// The changes whose revision history is prepared.
    pub revised: Vec<bool>,
    pub stage: Stage,
}

impl View for PushRun {
    type V = RunView;

    open spec fn view(&self) -> RunView {
        RunView {
            locals: self.planned.locals@,
            orphans: self.planned.orphans@,
            revision_history: self.revision_history,
            revised: self.revised@,
            stage: self.stage,
        }
    }
}

proof fn lemma_first_from(flags: Seq<bool>, i: int)
    requires
        0 <= i <= flags.len(),
    ensures
        i <= first_from(flags, i) <= flags.len(),
        first_from(flags, i) < flags.len() ==> flags[first_from(flags, i)],
        forall|j: int| i <= j < first_from(flags, i) ==> !#[trigger] flags[j],
    decreases flags.len() - i,
{
    if i < flags.len() && !flags[i] {
        lemma_first_from(flags, i + 1);
    }
}

fn head_known(p: &PlannedChange) -> (r: bool)
    ensures
        r == typed(*p),
{
    match updated_pull_ref(p) {
        Some(q) => q.head_sha.is_some(),
        None => false,
    }
}

fn has_history(p: &PlannedChange) -> (r: bool)
    ensures
        r == revisable(*p),
{
    match updated_pull_ref(p) {
        Some(q) => q.head_sha.is_some() && q.number.is_some(),
        None => false,
    }
}

fn is_commented(p: &PlannedChange) -> (r: bool)
    ensures
        r == commented(*p),
{
    match &p.change.pull {
        Some(q) => !q.is_merged() && q.number.is_some(),
        None => false,
    }
}

impl PushRun {
    /// The first change from `from` on whose kind can be told.
    fn first_typed(&self, from: usize) -> (r: usize)
        requires
            from <= self.planned.locals.len(),
        ensures
            r == first_from(self@.typed_flags(), from as int),
            from <= r <= self.planned.locals.len(),
    {
        let ghost flags = self@.typed_flags();
        let mut i: usize = from;
        while i < self.planned.locals.len()
            invariant
                from <= i <= self.planned.locals.len(),
                flags == self@.typed_flags(),
                flags.len() == self.planned.locals.len(),
                first_from(flags, from as int) == first_from(flags, i as int),
            decreases self.planned.locals.len() - i,
        {
            if head_known(&self.planned.locals[i]) {
                proof {
                    assert(flags[i as int]);
                }
                return i;
            }
            i += 1;
        }
        i
    }

    /// The first change from `from` on that has a revision history.
    fn first_revisable(&self, from: usize) -> (r: usize)
        requires
            from <= self.planned.locals.len(),
        ensures
            r == first_from(self@.revisable_flags(), from as int),
            from <= r <= self.planned.locals.len(),
    {
        let ghost flags = self@.revisable_flags();
        let mut i: usize = from;
        while i < self.planned.locals.len()
            invariant
                from <= i <= self.planned.locals.len(),
                flags == self@.revisable_flags(),
                flags.len() == self.planned.locals.len(),
                first_from(flags, from as int) == first_from(flags, i as int),
            decreases self.planned.locals.len() - i,
        {
            if has_history(&self.planned.locals[i]) {
                proof {
                    assert(flags[i as int]);
                }
                return i;
            }
            i += 1;
        }
        i
    }

    /// The first change from `from` on that is created or updated.
    fn first_pushed(&self, from: usize) -> (r: usize)
        requires
            from <= self.planned.locals.len(),
        ensures
            r == first_from(self@.pushed_flags(), from as int),
            from <= r <= self.planned.locals.len(),
    {
        let ghost flags = self@.pushed_flags();
        let mut i: usize = from;
        while i < self.planned.locals.len()
            invariant
                from <= i <= self.planned.locals.len(),
                flags == self@.pushed_flags(),
                flags.len() == self.planned.locals.len(),
                first_from(flags, from as int) == first_from(flags, i as int),
            decreases self.planned.locals.len() - i,
        {
            if self.planned.locals[i].change.action.is_push() {
                proof {
                    assert(flags[i as int]);
                }
                return i;
            }
            i += 1;
        }
        i
    }

    /// The first change from `from` on that gets the comment with the stack.
    fn first_commented(&self, from: usize) -> (r: usize)
        requires
            from <= self.planned.locals.len(),
        ensures
            r == first_from(self@.commented_flags(), from as int),
            from <= r <= self.planned.locals.len(),
    {
        let ghost flags = self@.commented_flags();
        let mut i: usize = from;
        while i < self.planned.locals.len()
            invariant
                from <= i <= self.planned.locals.len(),
                flags == self@.commented_flags(),
                flags.len() == self.planned.locals.len(),
                first_from(flags, from as int) == first_from(flags, i as int),
            decreases self.planned.locals.len() - i,
        {
            if is_commented(&self.planned.locals[i]) {
                proof {
                    assert(flags[i as int]);
                }
                return i;
            }
            i += 1;
        }
        i
    }

    /// The first orphan from `from` on whose branch is known.
    fn first_removable(&self, from: usize) -> (r: usize)
        requires
            from <= self.planned.orphans.len(),
        ensures
            r == first_from(self@.removable_flags(), from as int),
            from <= r <= self.planned.orphans.len(),
    {
        let ghost flags = self@.removable_flags();
        let mut i: usize = from;
        while i < self.planned.orphans.len()
            invariant
                from <= i <= self.planned.orphans.len(),
                flags == self@.removable_flags(),
                flags.len() == self.planned.orphans.len(),
                first_from(flags, from as int) == first_from(flags, i as int),
            decreases self.planned.orphans.len() - i,
        {
            if self.planned.orphans[i].head_ref.is_some() {
                proof {
                    assert(flags[i as int]);
                }
                return i;
            }
            i += 1;
        }
        i
    }

    /// The first change from `from` on whose revision history is prepared.
    fn first_revised(&self, from: usize) -> (r: usize)
        requires
            from <= self.revised.len(),
        ensures
            r == first_from(self@.revised, from as int),
            from <= r <= self.revised.len(),
    {
        let ghost flags = self@.revised;
        let mut i: usize = from;
        while i < self.revised.len()
            invariant
                from <= i <= self.revised.len(),
                flags == self@.revised,
                flags.len() == self.revised.len(),
                first_from(flags, from as int) == first_from(flags, i as int),
            decreases self.revised.len() - i,
        {
            if self.revised[i] {
                proof {
                    assert(flags[i as int]);
                }
                return i;
            }
            i += 1;
        }
        i
    }

    fn stage_at_orphans(&self, from: usize) -> (r: Stage)
        requires
            from <= self.planned.orphans.len(),
        ensures
            r == self@.at_orphans(from as int),
    {
        let j = self.first_removable(from);
        if j < self.planned.orphans.len() {
            Stage::Orphans(j)
        } else {
            Stage::Closed
        }
    }

    fn stage_at_revision_comments(&self, from: usize) -> (r: Stage)
        requires
            from <= self.revised.len(),
        ensures
            r == self@.at_revision_comments(from as int),
    {
        let j = self.first_revised(from);
        if j < self.revised.len() {
            Stage::RevisionComments(j)
        } else {
            self.stage_at_orphans(0)
        }
    }

    fn stage_at_stack_comments(&self, from: usize) -> (r: Stage)
        requires
            from <= self.planned.locals.len(),
        ensures
            r == self@.at_stack_comments(from as int),
    {
        let shown = shows_stack(&self.planned.locals);
        let j = self.first_commented(from);
        if shown && j < self.planned.locals.len() {
            Stage::StackComments(j)
        } else {
            self.stage_at_revision_comments(0)
        }
    }

    fn stage_at_upserts(&self, from: usize) -> (r: Stage)
        requires
            from <= self.planned.locals.len(),
        ensures
            r == self@.at_upserts(from as int),
    {
        let j = self.first_pushed(from);
        if j < self.planned.locals.len() {
            Stage::Upserts(j)
        } else {
            self.stage_at_stack_comments(0)
        }
    }

    fn stage_at_revisions(&self, from: usize) -> (r: Stage)
        requires
            from <= self.planned.locals.len(),
        ensures
            r == self@.at_revisions(from as int),
    {
        let j = self.first_revisable(from);
        if self.revision_history && j < self.planned.locals.len() {
            Stage::Revisions(j)
        } else {
            Stage::Bases
        }
    }

    fn stage_at_types(&self, from: usize) -> (r: Stage)
        requires
            from <= self.planned.locals.len(),
        ensures
            r == self@.at_types(from as int),
    {
        let j = self.first_typed(from);
        if self.revision_history && j < self.planned.locals.len() {
            Stage::Types(j)
        } else {
            self.stage_at_revisions(0)
        }
    }

    /// The push of a plan, before it has done anything.
    pub fn start(planned: PlannedChanges, revision_history: bool) -> (r: PushRun)
        ensures
            r@.locals == planned.locals@,
            r@.orphans == planned.orphans@,
            r@.revision_history == revision_history,
            r@.revised == Seq::new(planned.locals@.len(), |i: int| false),
            r@.stage == r@.first_stage(),
            r@.wf(),
    {
        let mut revised: Vec<bool> = Vec::new();
        let mut i: usize = 0;
        while i < planned.locals.len()
            invariant
                i <= planned.locals.len(),
                revised@ == Seq::new(i as nat, |j: int| false),
            decreases planned.locals.len() - i,
        {
            revised.push(false);
            proof {
                assert(revised@ =~= Seq::new((i + 1) as nat, |j: int| false));
            }
            i += 1;
        }
        let mut run = PushRun { planned, revision_history, revised, stage: Stage::Closed };
        let numbers = updated_pr_numbers(&run.planned.locals);
        let stage = if revision_history && numbers.len() > 0 {
            Stage::OldHeads
        } else {
            run.stage_at_types(0)
        };
        run.stage = stage;
        proof {
            assert(run@.locals.len() == run.planned.locals.len());
            assert(run@.orphans.len() == run.planned.orphans.len());
            lemma_stages_wf(run@);
        }
        run
    }

    /// What is to be done next.
    pub fn action(&self) -> (r: PushAction)
        requires
            self@.wf(),
        ensures
            r@ == self@.action(),
    {
        match self.stage {
            Stage::OldHeads => PushAction::FetchOldHeads(
                updated_pr_numbers(&self.planned.locals),
            ),
            Stage::Types(i) => {
                let p = &self.planned.locals[i];
                let old_sha = match updated_head_text(p) {
                    Some(s) => s,
                    None => String::new(),
                };
                PushAction::DetectType {
                    index: i,
                    old_sha,
                    new_sha: p.change.commit_sha.clone(),
                }
            },
            Stage::Revisions(i) => {
                let p = &self.planned.locals[i];
                let old_sha = match updated_head_text(p) {
                    Some(s) => s,
                    None => String::new(),
                };
                let number: u64 = match updated_pull_ref(p) {
                    Some(q) => match q.number {
                        Some(n) => n,
                        None => 0,
                    },
                    None => 0,
                };
                PushAction::Revise {
                    index: i,
                    number,
                    old_sha,
                    new_sha: p.change.commit_sha.clone(),
                }
            },
            Stage::Bases => PushAction::Retarget(stale_bases_of(&self.planned.locals)),
            Stage::Branches => PushAction::Push(push_entries_of(&self.planned.locals)),
            Stage::Upserts(i) => PushAction::Upsert {
                index: i,
                depends_on: number_below(&self.planned.locals, i),
            },
            Stage::StackComments(i) => {
                let number: u64 = match pull_number(&self.planned.locals[i].change.pull) {
                    Some(n) => n,
                    None => 0,
                };
                PushAction::CommentStack { number }
            },
            Stage::RevisionComments(i) => PushAction::CommentRevision { index: i },
            Stage::Orphans(i) => {
                let head_ref = match &self.planned.orphans[i].head_ref {
                    Some(s) => s.clone(),
                    None => String::new(),
                };
                PushAction::DeleteOrphan { index: i, head_ref }
            },
            Stage::Closed => PushAction::Nothing,
        }
    }

    /// What was to be done is done. The revision histories and the pull
    /// requests are told with more.
    pub fn done(&mut self)
        requires
            old(self)@.wf(),
            !(old(self)@.stage is Revisions),
            !(old(self)@.stage is Upserts),
        ensures
            final(self)@ == (RunView { stage: old(self)@.next_stage(), ..old(self)@ }),
            final(self)@.wf(),
    {
        proof {
            assert(self@.locals.len() == self.planned.locals.len());
            assert(self@.orphans.len() == self.planned.orphans.len());
        }
        let stage = match self.stage {
            Stage::OldHeads => self.stage_at_types(0),
            Stage::Types(i) => self.stage_at_types(i + 1),
            Stage::Bases => Stage::Branches,
            Stage::Branches => self.stage_at_upserts(0),
            Stage::StackComments(i) => self.stage_at_stack_comments(i + 1),
            Stage::RevisionComments(i) => self.stage_at_revision_comments(i + 1),
            Stage::Orphans(i) => self.stage_at_orphans(i + 1),
            s => s,
        };
        self.stage = stage;
        proof {
            lemma_stages_wf(old(self)@);
        }
    }

    fn mark_revised(&mut self, i: usize, prepared: bool)
        requires
            old(self)@.wf(),
            i < old(self)@.locals.len(),
        ensures
            final(self)@ == (RunView {
                revised: old(self)@.revised_with(i as int, prepared),
                ..old(self)@
            }),
            final(self).planned == old(self).planned,
    {
        let ghost before = self@;
        proof {
            assert(self@.locals.len() == self.planned.locals.len());
        }
        let mut marks: Vec<bool> = Vec::new();
        let mut k: usize = 0;
        while k < self.planned.locals.len()
            invariant
                k <= self.planned.locals.len(),
                i < self.planned.locals.len(),
                self.revised.len() == self.planned.locals.len(),
                before == self@,
                marks@ == before.revised_with(i as int, prepared).take(k as int),
            decreases self.planned.locals.len() - k,
        {
            let here = self.revised[k] || (prepared && text::same(
                self.planned.locals[k].change.change_id.as_str(),
                self.planned.locals[i].change.change_id.as_str(),
            ));
            marks.push(here);
            proof {
                let all = before.revised_with(i as int, prepared);
                assert(all.take(k + 1) =~= all.take(k as int).push(all[k as int]));
            }
            k += 1;
        }
        self.revised = marks;
        proof {
            let all = before.revised_with(i as int, prepared);
            assert(all.take(k as int) =~= all);
        }
    }

    /// The revision history of a change is prepared, or has to stay as it is.
    pub fn revised(&mut self, prepared: bool)
        requires
            old(self)@.wf(),
            old(self)@.stage is Revisions,
        ensures
            ({
                let i = old(self)@.stage->Revisions_0;
                let run = RunView {
                    revised: old(self)@.revised_with(i as int, prepared),
                    ..old(self)@
                };
                final(self)@ == RunView { stage: run.next_stage(), ..run }
            }),
            final(self)@.wf(),
    {
        proof {
            assert(self@.locals.len() == self.planned.locals.len());
            assert(self@.orphans.len() == self.planned.orphans.len());
        }
        if let Stage::Revisions(i) = self.stage {
            self.mark_revised(i, prepared);
            let ghost run = self@;
            let stage = self.stage_at_revisions(i + 1);
            self.stage = stage;
            proof {
                lemma_stages_wf(run);
            }
        }
    }

    /// A pull request is created or updated, and this is what GitHub says of
    /// it.
    pub fn upserted(&mut self, pull: Pull)
        requires
            old(self)@.wf(),
            old(self)@.stage is Upserts,
        ensures
            ({
                let i = old(self)@.stage->Upserts_0 as int;
                let p = old(self)@.locals[i];
                let run = RunView {
                    locals: old(self)@.locals.update(
                        i,
                        PlannedChange {
                            change: LocalChange { pull: Some(pull), ..p.change },
                            ..p
                        },
                    ),
                    ..old(self)@
                };
                final(self)@ == RunView { stage: run.next_stage(), ..run }
            }),
            final(self)@.wf(),
    {
        proof {
            assert(self@.locals.len() == self.planned.locals.len());
            assert(self@.orphans.len() == self.planned.orphans.len());
        }
        if let Stage::Upserts(i) = self.stage {
            let p = &self.planned.locals[i];
            let c = &p.change;
            let entry = PlannedChange {
                change: LocalChange {
                    commit_sha: c.commit_sha.clone(),
                    title: c.title.clone(),
                    message: c.message.clone(),
                    change_id: c.change_id.clone(),
                    action: c.action,
                    pull: Some(pull),
                    note: c.note.clone(),
                },
                dest_branch: p.dest_branch.clone(),
                base_branch: p.base_branch.clone(),
            };
            self.planned.locals.set(i, entry);
            let ghost run = self@;
            let stage = self.stage_at_upserts(i + 1);
            self.stage = stage;
            proof {
                lemma_stages_wf(run);
            }
        }
    }

    /// The pull request to create or update for change `index`.
    pub fn upsert_input<'a>(
        &'a self,
        index: usize,
        depends_on: Option<u64>,
        create_as_draft: bool,
        keep_pull_request_title_and_body: bool,
    ) -> (r: PrUpsertInput<'a>)
        requires
            index < self@.locals.len(),
        ensures
            ({
                let p = self@.locals[index as int];
                &&& r.action == p.change.action
                &&& r.title@ == p.change.title@
                &&& r.message@ == p.change.message@
                &&& r.dest_branch@ == p.dest_branch@
                &&& r.base_branch@ == p.base_branch@
                &&& match (r.pull, p.change.pull) {
                    (Some(a), Some(b)) => *a == b,
                    (None, None) => true,
                    _ => false,
                }
                &&& r.depends_on_number == depends_on
                &&& r.create_as_draft == create_as_draft
                &&& r.keep_pull_request_title_and_body == keep_pull_request_title_and_body
            }),
    {
        let p = &self.planned.locals[index];
        PrUpsertInput {
            action: p.change.action,
            title: p.change.title.as_str(),
            message: p.change.message.as_str(),
            dest_branch: p.dest_branch.as_str(),
            base_branch: p.base_branch.as_str(),
            pull: match &p.change.pull {
                Some(q) => Some(q),
                None => None,
            },
            depends_on_number: depends_on,
            create_as_draft,
            keep_pull_request_title_and_body,
        }
    }
}

/// A stage that a push comes to has something to do.
proof fn lemma_stages_wf(run: RunView)
    requires
        run.revised.len() == run.locals.len(),
        run.locals.len() <= usize::MAX,
        run.orphans.len() <= usize::MAX,
    ensures
        forall|i: int|
            0 <= i <= run.locals.len() ==> {
                &&& (RunView { stage: #[trigger] run.at_types(i), ..run }).wf()
            },
        forall|i: int|
            0 <= i <= run.locals.len() ==> (RunView {
                stage: #[trigger] run.at_revisions(i),
                ..run
            }).wf(),
        forall|i: int|
            0 <= i <= run.locals.len() ==> (RunView {
                stage: #[trigger] run.at_upserts(i),
                ..run
            }).wf(),
        forall|i: int|
            0 <= i <= run.locals.len() ==> (RunView {
                stage: #[trigger] run.at_stack_comments(i),
                ..run
            }).wf(),
        forall|i: int|
            0 <= i <= run.locals.len() ==> (RunView {
                stage: #[trigger] run.at_revision_comments(i),
                ..run
            }).wf(),
        forall|i: int|
            0 <= i <= run.orphans.len() ==> (RunView {
                stage: #[trigger] run.at_orphans(i),
                ..run
            }).wf(),
{
    assert forall|i: int| 0 <= i <= run.orphans.len() implies (RunView {
        stage: #[trigger] run.at_orphans(i),
        ..run
    }).wf() by {
        lemma_first_from(run.removable_flags(), i);
    }
    assert forall|i: int| 0 <= i <= run.locals.len() implies (RunView {
        stage: #[trigger] run.at_revision_comments(i),
        ..run
    }).wf() by {
        lemma_first_from(run.revised, i);
        assert((RunView { stage: run.at_orphans(0), ..run }).wf());
    }
    assert forall|i: int| 0 <= i <= run.locals.len() implies (RunView {
        stage: #[trigger] run.at_stack_comments(i),
        ..run
    }).wf() by {
        lemma_first_from(run.commented_flags(), i);
        assert((RunView { stage: run.at_revision_comments(0), ..run }).wf());
    }
    assert forall|i: int| 0 <= i <= run.locals.len() implies (RunView {
        stage: #[trigger] run.at_upserts(i),
        ..run
    }).wf() by {
        lemma_first_from(run.pushed_flags(), i);
        assert((RunView { stage: run.at_stack_comments(0), ..run }).wf());
    }
    assert forall|i: int| 0 <= i <= run.locals.len() implies (RunView {
        stage: #[trigger] run.at_revisions(i),
        ..run
    }).wf() by {
        lemma_first_from(run.revisable_flags(), i);
    }
    assert forall|i: int| 0 <= i <= run.locals.len() implies (RunView {
        stage: #[trigger] run.at_types(i),
        ..run
    }).wf() by {
        lemma_first_from(run.typed_flags(), i);
        assert((RunView { stage: run.at_revisions(0), ..run }).wf());
    }
}

// ---------------------------------------------------------------------------
// Revision histories
// ---------------------------------------------------------------------------

/// Whether only the amendment of a change is worth showing: it is a change of
/// the content.
pub fn needs_replay(change_type: ChangeType) -> (r: bool)
    ensures
        r == (change_type == ChangeType::Content),
{
    change_type == ChangeType::Content
}

/// What to do about the history of a change that is pushed again.
pub enum RevisionStep {
    /// Take the history that an earlier push left on the commit.
    Reuse(RevisionHistoryComment),
    /// Add a revision to the history so far, with a replay where it is worth
    /// one.
    Build { replay: bool },
}

/// What to do about the history of a change that is pushed again. `pending` is
/// the history that an earlier push left on the commit, where it records just
/// this revision: it already has its reason and its replay.
pub fn revision_step(pending: Option<RevisionHistoryComment>, change_type: ChangeType) -> (r:
    RevisionStep)
    ensures
        r == (match pending {
            Some(h) => RevisionStep::Reuse(h),
            None => RevisionStep::Build { replay: change_type == ChangeType::Content },
        }),
{
    match pending {
        Some(h) => RevisionStep::Reuse(h),
        None => RevisionStep::Build { replay: needs_replay(change_type) },
    }
}

/// Whether the pull requests of a stack are told about each other: there is
/// more than one.
pub fn shows_stack(locals: &Vec<PlannedChange>) -> (r: bool)
    ensures
        r == (stack_entries(locals@).len() > 1),
{
    let entries = stack_entries_of(locals);
    proof {
        assert(entries@.map_values(|e: StackEntry| e@).len() == entries@.len());
    }
    entries.len() > 1
}

/// Why a change was made, from the note on its commit. A note that carries a
/// marker is the history that an earlier push wrote there, and no reason.
pub fn revision_reason(note: &str, carries_marker: bool) -> (r: String)
    ensures
        r@ == (if carries_marker {
            seq![]
        } else {
            note@
        }),
{
    if carries_marker {
        let r = String::new();
        proof {
            assert(r@ =~= seq![]);
        }
        r
    } else {
        note.to_owned()
    }
}

/// The revision history that a pull request has so far.
pub enum LoadedHistory {
    Found(RevisionHistoryComment),
    Missing,
    /// It could not be loaded, for this reason.
    Failed(String),
}

/// The history of a pull request with a revision added. Where the history so
/// far could not be loaded there is none, and a line that says so: starting
/// anew would lose what is there.
pub fn revised_history(
    loaded: LoadedHistory,
    github_server: &str,
    user: &str,
    repo: &str,
    input: &RevisionInput<'_>,
) -> (r: Result<RevisionHistoryComment, String>)
    ensures
        match loaded {
            LoadedHistory::Found(h) => r matches Ok(next) && next@
                == crate::comment_upsert::next_history(
                Some(h@),
                github_server@,
                user@,
                repo@,
                *input,
            ),
            LoadedHistory::Missing => r matches Ok(next) && next@
                == crate::comment_upsert::next_history(
                None,
                github_server@,
                user@,
                repo@,
                *input,
            ),
            LoadedHistory::Failed(e) => r matches Err(line) && line@
                == "Could not load previous revision history for #"@ + text::decimal(
                input.pull_number as nat,
            ) + "; leaving it untouched this push, will retry next push: "@ + e@,
        },
{
    match loaded {
        LoadedHistory::Found(h) => {
            let mut next = h;
            next.append(
                input.old_sha,
                input.new_sha,
                input.change_type,
                input.timestamp,
                input.reason,
                input.replay_sha,
            );
            Ok(next)
        },
        LoadedHistory::Missing => Ok(
            RevisionHistoryComment::create_initial(
                github_server,
                user,
                repo,
                input.old_sha,
                input.new_sha,
                input.change_type,
                input.timestamp,
                input.reason,
                input.replay_sha,
            ),
        ),
        LoadedHistory::Failed(e) => {
            let mut m = "Could not load previous revision history for #".to_owned();
            m.append(text::decimal_of(input.pull_number).as_str());
            m.append("; leaving it untouched this push, will retry next push: ");
            m.append(e.as_str());
            Err(m)
        },
    }
}

// ---------------------------------------------------------------------------
// What the user sees
// ---------------------------------------------------------------------------

/// The row that the display shows of a change.
#[derive(Debug, Clone, PartialEq, Eq)]
pub enum RowPlan {
    /// It waits for its pull request.
    Queued { title: String, detail: Option<String> },
    /// There is nothing to do.
    Settled { title: String, mark: Mark, word: &'static str, url: Option<String> },
}

/// The row of a change as the contracts see it.
pub enum RowPlanView {
    Queued { title: Seq<char>, detail: Option<Seq<char>> },
    Settled { title: Seq<char>, mark: Mark, word: Seq<char>, url: Option<Seq<char>> },
}

impl View for RowPlan {
    type V = RowPlanView;

    open spec fn view(&self) -> RowPlanView {
        match self {
            RowPlan::Queued { title, detail } => RowPlanView::Queued {
                title: title@,
                detail: text::opt_text(*detail),
            },
            RowPlan::Settled { title, mark, word, url } => RowPlanView::Settled {
                title: title@,
                mark: *mark,
                word: word@,
                url: text::opt_text(*url),
            },
        }
    }
}

/// The address of the pull request of a change.
pub open spec fn url_of(p: PlannedChange) -> Option<Seq<char>> {
    match p.change.pull {
        Some(q) => text::opt_text(q.html_url),
        None => None,
    }
}

/// What a change does to its branch, in short: the commit that it gets and,
/// for an update, the one that it has.
pub open spec fn row_detail(p: PlannedChange) -> Option<Seq<char>> {
    let new7 = text::first_chars(p.change.commit_sha@, 7);
    if p.change.action == Action::Update {
        match updated_head(p) {
            Some(old) => Some(text::first_chars(old, 7) + "→"@ + new7),
            None => None,
        }
    } else {
        Some(new7)
    }
}

/// The row that the display shows of a change.
pub open spec fn row_of(p: PlannedChange) -> RowPlanView {
    let title = p.change.title@;
    match p.change.action {
        Action::Create | Action::Update => RowPlanView::Queued { title, detail: row_detail(p) },
        Action::SkipMerged => RowPlanView::Settled {
            title,
            mark: Mark::Merged,
            word: "merged"@,
            url: url_of(p),
        },
        Action::SkipUpToDate => RowPlanView::Settled {
            title,
            mark: Mark::Noop,
            word: "up-to-date"@,
            url: url_of(p),
        },
        Action::SkipCreate | Action::SkipNextOnly => RowPlanView::Settled {
            title,
            mark: Mark::Noop,
            word: "skipped"@,
            url: url_of(p),
        },
    }
}

fn pull_url(pull: &Option<Pull>) -> (r: Option<String>)
    ensures
        text::opt_text(r) == (match pull {
            Some(q) => text::opt_text(q.html_url),
            None => None,
        }),
{
    match pull {
        Some(q) => text::clone_opt(&q.html_url),
        None => None,
    }
}

/// The row that the display shows of a change.
pub fn row_plan(p: &PlannedChange) -> (r: RowPlan)
    ensures
        r@ == row_of(*p),
{
    let title = p.change.title.clone();
    let url = pull_url(&p.change.pull);
    match p.change.action {
        Action::Create | Action::Update => {
            let new7 = text::first_chars_of(p.change.commit_sha.as_str(), 7);
            let detail: Option<String> = if p.change.action == Action::Update {
                match updated_head_text(p) {
                    Some(old) => {
                        let mut d = text::first_chars_of(old.as_str(), 7);
                        d.append("→");
                        d.append(new7.as_str());
                        Some(d)
                    },
                    None => None,
                }
            } else {
                Some(new7)
            };
            RowPlan::Queued { title, detail }
        },
        Action::SkipMerged => RowPlan::Settled { title, mark: Mark::Merged, word: "merged", url },
        Action::SkipUpToDate => RowPlan::Settled {
            title,
            mark: Mark::Noop,
            word: "up-to-date",
            url,
        },
        Action::SkipCreate | Action::SkipNextOnly => RowPlan::Settled {
            title,
            mark: Mark::Noop,
            word: "skipped",
            url,
        },
    }
}

/// What the display says while a pull request is on its way, and after.
pub fn upsert_words(action: Action) -> (r: (&'static str, &'static str))
    ensures
        r.0@ == (if action == Action::Create {
            "creating"@
        } else {
            "updating"@
        }),
        r.1@ == (if action == Action::Create {
            "created"@
        } else {
            "updated"@
        }),
{
    if action == Action::Create {
        ("creating", "created")
    } else {
        ("updating", "updated")
    }
}

/// What the user is told after the display where the old heads of the pull
/// requests could not be fetched.
pub fn old_heads_warning(error: &CliError) -> (r: String)
    ensures
        r@
            == "Could not fetch old PR heads; revision-history change types will fall back to 'unknown': "@
            + error@.text(),
{
    let mut m =
        "Could not fetch old PR heads; revision-history change types will fall back to 'unknown': ".to_owned();
    m.append(error.message());
    m
}

/// What the user is told after the display where the notes stayed at home:
/// branches were pushed, and the notes of the remote are not known.
pub fn notes_warning(pushed: usize, lease: &NotesLease) -> (r: Option<String>)
    ensures
        text::opt_text(r) == (if pushed > 0 && *lease is Unknown {
            Some(
                "Could not determine the remote notes state; stack notes were not pushed and will catch up on the next push."@,
            )
        } else {
            None
        }),
{
    match lease {
        NotesLease::Unknown => {
            if pushed > 0 {
                Some(
                    "Could not determine the remote notes state; stack notes were not pushed and will catch up on the next push.".to_owned(),
                )
            } else {
                None
            }
        },
        _ => None,
    }
}

/// The last line of a push. Where no branch was pushed and there is no orphan,
/// GitHub already had everything.
pub fn closing_line(pushed: usize, orphans: usize) -> (r: &'static str)
    ensures
        r@ == (if pushed == 0 && orphans == 0 {
            "Already up to date."@
        } else {
            "Finished."@
        }),
{
    if pushed == 0 && orphans == 0 {
        "Already up to date."
    } else {
        "Finished."
    }
}

// ---------------------------------------------------------------------------
// Laws
// ---------------------------------------------------------------------------

/// How far a stage is on the way.
pub open spec fn rank(s: Stage) -> int {
    match s {
        Stage::OldHeads => 0,
        Stage::Types(_) => 1,
        Stage::Revisions(_) => 2,
        Stage::Bases => 3,
        Stage::Branches => 4,
        Stage::Upserts(_) => 5,
        Stage::StackComments(_) => 6,
        Stage::RevisionComments(_) => 7,
        Stage::Orphans(_) => 8,
        Stage::Closed => 9,
    }
}

/// The index of a stage.
pub open spec fn place(s: Stage) -> int {
    match s {
        Stage::Types(i) => i as int,
        Stage::Revisions(i) => i as int,
        Stage::Upserts(i) => i as int,
        Stage::StackComments(i) => i as int,
        Stage::RevisionComments(i) => i as int,
        Stage::Orphans(i) => i as int,
        _ => 0,
    }
}

/// A push only ever moves on, and never skips the push of the branches: what
/// is prepared comes before it, the pull requests and everything else after.
pub proof fn law_push_moves_on(run: RunView)
    requires
        run.wf(),
        run.locals.len() <= usize::MAX,
        run.orphans.len() <= usize::MAX,
        run.stage != Stage::Closed,
    ensures
        rank(run.next_stage()) > rank(run.stage) || (rank(run.next_stage()) == rank(run.stage)
            && place(run.next_stage()) > place(run.stage)),
        rank(run.stage) < 3 ==> rank(run.next_stage()) <= 3,
        run.stage == Stage::Bases ==> run.next_stage() == Stage::Branches,
{
    match run.stage {
        Stage::Types(i) => {
            lemma_first_from(run.typed_flags(), i + 1);
        },
        Stage::Revisions(i) => {
            lemma_first_from(run.revisable_flags(), i + 1);
        },
        Stage::Upserts(i) => {
            lemma_first_from(run.pushed_flags(), i + 1);
        },
        Stage::StackComments(i) => {
            lemma_first_from(run.commented_flags(), i + 1);
        },
        Stage::RevisionComments(i) => {
            lemma_first_from(run.revised, i + 1);
        },
        Stage::Orphans(i) => {
            lemma_first_from(run.removable_flags(), i + 1);
        },
        _ => {},
    }
}

/// No pull request is left out: between one that is created or updated and the
/// next stage there is none, and none is created or updated twice.
pub proof fn law_every_change_is_upserted(run: RunView, from: int)
    requires
        0 <= from <= run.locals.len() <= usize::MAX,
    ensures
        match run.at_upserts(from) {
            Stage::Upserts(i) => from <= i < run.locals.len()
                && run.locals[i as int].change.action.pushes() && forall|j: int|
                from <= j < i ==> !(#[trigger] run.locals[j]).change.action.pushes(),
            _ => forall|j: int|
                from <= j < run.locals.len() ==> !(#[trigger] run.locals[j]).change.action.pushes(),
        },
{
    let flags = run.pushed_flags();
    lemma_first_from(flags, from);
    let k = first_from(flags, from);
    assert forall|j: int| from <= j < k implies !(#[trigger] run.locals[j]).change.action.pushes() by {
        assert(!flags[j]);
    }
}

/// The pull request that a change depends on is the closest one below it: it
/// belongs to a change further down, and no change between has one.
pub proof fn law_depends_on_the_closest(locals: Seq<PlannedChange>)
    ensures
        match nearest_number(locals) {
            Some(n) => exists|j: int|
                0 <= j < locals.len() && number_of(#[trigger] locals[j]) == Some(n) && forall|k: int|
                    j < k < locals.len() ==> number_of(#[trigger] locals[k]) is None,
            None => forall|j: int| 0 <= j < locals.len() ==> number_of(#[trigger] locals[j]) is None,
        },
    decreases locals.len(),
{
    if locals.len() > 0 {
        let t = locals.drop_last();
        law_depends_on_the_closest(t);
        if number_of(locals.last()) is Some {
            assert(number_of(locals[locals.len() - 1]) is Some);
        } else {
            match nearest_number(t) {
                Some(n) => {
                    let j = choose|j: int|
                        0 <= j < t.len() && number_of(#[trigger] t[j]) == Some(n) && forall|k: int|
                            j < k < t.len() ==> number_of(#[trigger] t[k]) is None;
                    assert(number_of(locals[j]) == Some(n));
                    assert forall|k: int| j < k < locals.len() implies number_of(
                        #[trigger] locals[k],
                    ) is None by {
                        if k < t.len() {
                            assert(t[k] == locals[k]);
                        }
                    }
                },
                None => {
                    assert forall|j: int| 0 <= j < locals.len() implies number_of(
                        #[trigger] locals[j],
                    ) is None by {
                        if j < t.len() {
                            assert(t[j] == locals[j]);
                        }
                    }
                },
            }
        }
    }
}

/// The changes that are created or updated.
pub open spec fn upserted() -> spec_fn(PlannedChange) -> bool {
    |p: PlannedChange| p.change.action.pushes()
}

/// The branches that are pushed are those of the changes whose pull requests
/// are created or updated afterwards: one for each of them, in their order, with
/// its commit, its branch and the head that the branch must have.
pub proof fn law_one_branch_per_upsert(locals: Seq<PlannedChange>)
    ensures
        push_entries(locals) == locals.filter(upserted()).map_values(
            |p: PlannedChange| push_entry(p),
        ),
    decreases locals.len(),
{
    reveal(Seq::filter);
    let entries = |l: Seq<PlannedChange>|
        l.filter(upserted()).map_values(|p: PlannedChange| push_entry(p));
    if locals.len() > 0 {
        law_one_branch_per_upsert(locals.drop_last());
        if upserted()(locals.last()) {
            assert(entries(locals) =~= entries(locals.drop_last()).push(push_entry(locals.last())));
        }
    } else {
        assert(entries(locals) =~= seq![]);
    }
}

/// Every change that is created or updated is pushed, in order, and nothing
/// else: its commit goes to the branch of its pull request. An update must find
/// that branch at the head that the pull request was seen with, and a creation
/// must find none.
pub proof fn law_commits_land_on_their_branches(locals: Seq<PlannedChange>)
    ensures
        ({
            let sent = locals.filter(
                |p: PlannedChange|
                    p.change.action == Action::Create || p.change.action == Action::Update,
            );
            let entries = push_entries(locals);
            &&& entries.len() == sent.len()
            &&& forall|i: int|
                0 <= i < sent.len() ==> {
                    &&& (#[trigger] entries[i]).commit_sha == sent[i].change.commit_sha@
                    &&& entries[i].dest_branch == sent[i].dest_branch@
                    &&& sent[i].change.action == Action::Create ==> entries[i].pull_head_sha is None
                    &&& sent[i].change.action == Action::Update ==> entries[i].pull_head_sha == (
                    match sent[i].change.pull {
                        Some(q) => match q.head_sha {
                            Some(h) => Some(h@),
                            None => None,
                        },
                        None => None,
                    })
                }
        }),
    decreases locals.len(),
{
    reveal(Seq::filter);
    if locals.len() > 0 {
        let f = |p: PlannedChange|
            p.change.action == Action::Create || p.change.action == Action::Update;
        let t = locals.drop_last();
        law_commits_land_on_their_branches(t);
        let sent = locals.filter(f);
        let entries = push_entries(locals);
        assert forall|i: int| 0 <= i < sent.len() implies {
            &&& (#[trigger] entries[i]).commit_sha == sent[i].change.commit_sha@
            &&& entries[i].dest_branch == sent[i].dest_branch@
            &&& sent[i].change.action == Action::Create ==> entries[i].pull_head_sha is None
            &&& sent[i].change.action == Action::Update ==> entries[i].pull_head_sha == (
            match sent[i].change.pull {
                Some(q) => match q.head_sha {
                    Some(h) => Some(h@),
                    None => None,
                },
                None => None,
            })
        } by {
            if i < t.filter(f).len() {
                assert(entries[i] == push_entries(t)[i]);
                assert(sent[i] == t.filter(f)[i]);
            } else {
                assert(sent[i] == locals.last());
            }
        }
    }
}

/// The pull requests whose old heads are fetched are those that are updated and
/// have a number, in the order of the stack.
pub proof fn law_old_heads_are_those_of_the_updates(locals: Seq<PlannedChange>)
    ensures
        updated_numbers(locals) == locals.filter(
            |p: PlannedChange|
                p.change.action == Action::Update && p.change.pull is Some
                    && p.change.pull->0.number is Some,
        ).map_values(|p: PlannedChange| p.change.pull->0.number->0),
    decreases locals.len(),
{
    reveal(Seq::filter);
    let f = |p: PlannedChange|
        p.change.action == Action::Update && p.change.pull is Some
            && p.change.pull->0.number is Some;
    let g = |p: PlannedChange| p.change.pull->0.number->0;
    if locals.len() > 0 {
        let t = locals.drop_last();
        law_old_heads_are_those_of_the_updates(t);
        if f(locals.last()) {
            assert(locals.filter(f).map_values(g) =~= t.filter(f).map_values(g).push(
                g(locals.last()),
            ));
        }
    } else {
        assert(locals.filter(f).map_values(g) =~= seq![]);
    }
}

/// The targets that a push looks at are those of the pull requests that are
/// updated, where the number and the target are known: each with the branch that
/// it targets and the one that the plan gives it.
pub proof fn law_targets_are_those_of_the_updates(locals: Seq<PlannedChange>)
    ensures
        stale_bases(locals) == locals.filter(
            |p: PlannedChange|
                p.change.action == Action::Update && p.change.pull is Some
                    && p.change.pull->0.number is Some && p.change.pull->0.base_ref is Some,
        ).map_values(
            |p: PlannedChange|
                crate::pr_upsert::StaleBaseView {
                    pull_number: p.change.pull->0.number->0,
                    current_base_ref: p.change.pull->0.base_ref->0@,
                    new_base_ref: p.base_branch@,
                },
        ),
    decreases locals.len(),
{
    reveal(Seq::filter);
    let f = |p: PlannedChange|
        p.change.action == Action::Update && p.change.pull is Some
            && p.change.pull->0.number is Some && p.change.pull->0.base_ref is Some;
    let g = |p: PlannedChange|
        crate::pr_upsert::StaleBaseView {
            pull_number: p.change.pull->0.number->0,
            current_base_ref: p.change.pull->0.base_ref->0@,
            new_base_ref: p.base_branch@,
        };
    if locals.len() > 0 {
        let t = locals.drop_last();
        law_targets_are_those_of_the_updates(t);
        if f(locals.last()) {
            assert(locals.filter(f).map_values(g) =~= t.filter(f).map_values(g).push(
                g(locals.last()),
            ));
        }
    } else {
        assert(locals.filter(f).map_values(g) =~= seq![]);
    }
}

/// The comment that shows the stack has an entry for every change whose pull
/// request has a number, in the order of the stack, with what the plan and the
/// pull request say of it.
pub proof fn law_stack_is_shown_whole(locals: Seq<PlannedChange>)
    ensures
        stack_entries(locals) == locals.filter(
            |p: PlannedChange| p.change.pull is Some && p.change.pull->0.number is Some,
        ).map_values(
            |p: PlannedChange|
                StackEntryView {
                    number: p.change.pull->0.number->0,
                    change_id: p.change.change_id@,
                    head_sha: match p.change.pull->0.head_sha {
                        Some(h) => h@,
                        None => seq![],
                    },
                    base_branch: p.base_branch@,
                    dest_branch: p.dest_branch@,
                    title: match p.change.pull->0.title {
                        Some(t) => t@,
                        None => p.change.title@,
                    },
                    html_url: match p.change.pull->0.html_url {
                        Some(u) => u@,
                        None => seq![],
                    },
                },
        ),
    decreases locals.len(),
{
    reveal(Seq::filter);
    reveal_strlit("");
    assert(""@ =~= seq![]);
    let f = |p: PlannedChange| p.change.pull is Some && p.change.pull->0.number is Some;
    let g = |p: PlannedChange|
        StackEntryView {
            number: p.change.pull->0.number->0,
            change_id: p.change.change_id@,
            head_sha: match p.change.pull->0.head_sha {
                Some(h) => h@,
                None => seq![],
            },
            base_branch: p.base_branch@,
            dest_branch: p.dest_branch@,
            title: match p.change.pull->0.title {
                Some(t) => t@,
                None => p.change.title@,
            },
            html_url: match p.change.pull->0.html_url {
                Some(u) => u@,
                None => seq![],
            },
        };
    if locals.len() > 0 {
        let t = locals.drop_last();
        law_stack_is_shown_whole(t);
        if f(locals.last()) {
            assert(stack_entry(locals.last()) == Some(g(locals.last())));
            assert(locals.filter(f).map_values(g) =~= t.filter(f).map_values(g).push(
                g(locals.last()),
            ));
        }
    } else {
        assert(locals.filter(f).map_values(g) =~= seq![]);
    }
}

/// A change depends on the pull request of the closest change below it that has
/// one with a number, whatever is done about that one.
pub proof fn law_dependency_is_the_pull_request_below(locals: Seq<PlannedChange>, k: int)
    requires
        -1 <= k < locals.len(),
        k >= 0 ==> locals[k].change.pull is Some && locals[k].change.pull->0.number is Some,
        forall|j: int|
            k < j < locals.len() ==> (#[trigger] locals[j]).change.pull is None
                || locals[j].change.pull->0.number is None,
    ensures
        nearest_number(locals) == (if k >= 0 {
            locals[k].change.pull->0.number
        } else {
            None
        }),
    decreases locals.len(),
{
    if k < locals.len() - 1 {
        let t = locals.drop_last();
        assert(locals[locals.len() - 1].change.pull is None
            || locals[locals.len() - 1].change.pull->0.number is None);
        assert forall|j: int| k < j < t.len() implies (#[trigger] t[j]).change.pull is None
            || t[j].change.pull->0.number is None by {
            assert(t[j] == locals[j]);
        }
        law_dependency_is_the_pull_request_below(t, k);
    }
}

/// What is done at a stage is done with the commit, the pull request and the
/// branch of the very change or orphan that the stage is at.
pub proof fn law_stage_acts_on_its_change(run: RunView)
    requires
        run.wf(),
    ensures
        match run.stage {
            Stage::OldHeads => run.action() == PushActionView::FetchOldHeads(
                updated_numbers(run.locals),
            ),
            Stage::Types(i) => {
                let c = run.locals[i as int].change;
                &&& c.action == Action::Update && c.pull is Some && c.pull->0.head_sha is Some
                &&& run.action() == PushActionView::DetectType {
                    index: i,
                    old_sha: c.pull->0.head_sha->0@,
                    new_sha: c.commit_sha@,
                }
            },
            Stage::Revisions(i) => {
                let c = run.locals[i as int].change;
                &&& c.action == Action::Update && c.pull is Some && c.pull->0.head_sha is Some
                    && c.pull->0.number is Some
                &&& run.action() == PushActionView::Revise {
                    index: i,
                    number: c.pull->0.number->0,
                    old_sha: c.pull->0.head_sha->0@,
                    new_sha: c.commit_sha@,
                }
            },
            Stage::Bases => run.action() == PushActionView::Retarget(stale_bases(run.locals)),
            Stage::Branches => run.action() == PushActionView::Push(push_entries(run.locals)),
            Stage::Upserts(i) => {
                let c = run.locals[i as int].change;
                &&& c.action == Action::Create || c.action == Action::Update
                &&& run.action() == PushActionView::Upsert {
                    index: i,
                    depends_on: nearest_number(run.locals.take(i as int)),
                }
            },
            Stage::StackComments(i) => {
                let c = run.locals[i as int].change;
                &&& c.pull is Some && c.pull->0.number is Some && c.pull->0.merged_at
                    != MergedAt::Time
                &&& run.action() == PushActionView::CommentStack { number: c.pull->0.number->0 }
            },
            Stage::RevisionComments(i) => run.action() == PushActionView::CommentRevision {
                index: i,
            },
            Stage::Orphans(i) => run.orphans[i as int].head_ref is Some && run.action()
                == PushActionView::DeleteOrphan {
                index: i,
                head_ref: run.orphans[i as int].head_ref->0@,
            },
            Stage::Closed => run.action() == PushActionView::Nothing,
        },
{
}

/// A push with revision histories first fetches the old heads where something
/// with a number is updated; without them it goes straight to the targets.
pub proof fn law_push_starts_with_the_old_heads(run: RunView)
    ensures
        run.first_stage() == Stage::OldHeads <==> run.revision_history && exists|i: int|
            0 <= i < run.locals.len() && (#[trigger] run.locals[i]).change.action == Action::Update
                && run.locals[i].change.pull is Some
                && run.locals[i].change.pull->0.number is Some,
        !run.revision_history ==> run.first_stage() == Stage::Bases,
    decreases run.locals.len(),
{
    lemma_some_update(run.locals);
    lemma_types_are_later(run);
}

proof fn lemma_types_are_later(run: RunView)
    ensures
        run.at_types(0) != Stage::OldHeads,
{
}

proof fn lemma_some_update(locals: Seq<PlannedChange>)
    ensures
        updated_numbers(locals).len() > 0 <==> exists|i: int|
            0 <= i < locals.len() && (#[trigger] locals[i]).change.action == Action::Update
                && locals[i].change.pull is Some && locals[i].change.pull->0.number is Some,
    decreases locals.len(),
{
    if locals.len() > 0 {
        let t = locals.drop_last();
        lemma_some_update(t);
        if updated_numbers(t).len() > 0 {
            let i = choose|i: int|
                0 <= i < t.len() && (#[trigger] t[i]).change.action == Action::Update
                    && t[i].change.pull is Some && t[i].change.pull->0.number is Some;
            assert(locals[i].change.action == Action::Update);
        } else if updated_number(locals.last()) is Some {
            assert(locals[locals.len() - 1].change.action == Action::Update);
        } else {
            assert forall|i: int| 0 <= i < locals.len() implies !((
            #[trigger] locals[i]).change.action == Action::Update && locals[i].change.pull is Some
                && locals[i].change.pull->0.number is Some) by {
                if i < t.len() {
                    assert(t[i] == locals[i]);
                }
            }
        }
    }
}

/// With revision histories, the kind of every change that updates a pull request
/// with a known head is told, one after the other; then the histories follow.
pub proof fn law_types_are_told_of_every_update(run: RunView, from: int)
    requires
        0 <= from <= run.locals.len() <= usize::MAX,
        run.locals.len() <= usize::MAX,
        run.orphans.len() <= usize::MAX,
        run.revised.len() == run.locals.len(),
    ensures
        match run.at_types(from) {
            Stage::Types(i) => run.revision_history && from <= i < run.locals.len()
                && (run.locals[i as int].change.action == Action::Update
                && run.locals[i as int].change.pull is Some
                && run.locals[i as int].change.pull->0.head_sha is Some)
                && forall|j: int|
                from <= j < i ==> !((#[trigger] run.locals[j]).change.action == Action::Update
                    && (run.locals[j]).change.pull is Some
                    && (run.locals[j]).change.pull->0.head_sha is Some),
            s => s == run.at_revisions(0) && (!run.revision_history || forall|j: int|
                from <= j < run.locals.len()
                    ==> !((#[trigger] run.locals[j]).change.action == Action::Update
                    && (run.locals[j]).change.pull is Some
                    && (run.locals[j]).change.pull->0.head_sha is Some)),
        },
{
    let flags = run.typed_flags();
    lemma_first_from(flags, from);
    let k = first_from(flags, from);
    assert forall|j: int| from <= j < k
        implies !((#[trigger] run.locals[j]).change.action == Action::Update
        && (run.locals[j]).change.pull is Some
        && (run.locals[j]).change.pull->0.head_sha is Some) by {
        assert(!flags[j]);
    }
    if k < flags.len() {
        assert(flags[k]);
    }
}

/// With revision histories, that of every change that updates a pull request with
/// a known head and a number is prepared; then the targets follow.
pub proof fn law_every_update_is_revised(run: RunView, from: int)
    requires
        0 <= from <= run.locals.len() <= usize::MAX,
        run.locals.len() <= usize::MAX,
        run.orphans.len() <= usize::MAX,
        run.revised.len() == run.locals.len(),
    ensures
        match run.at_revisions(from) {
            Stage::Revisions(i) => run.revision_history && from <= i < run.locals.len()
                && (run.locals[i as int].change.action == Action::Update
                && run.locals[i as int].change.pull is Some
                && run.locals[i as int].change.pull->0.head_sha is Some
                && run.locals[i as int].change.pull->0.number is Some)
                && forall|j: int|
                from <= j < i ==> !((#[trigger] run.locals[j]).change.action == Action::Update
                    && (run.locals[j]).change.pull is Some
                    && (run.locals[j]).change.pull->0.head_sha is Some
                    && (run.locals[j]).change.pull->0.number is Some),
            s => s == Stage::Bases && (!run.revision_history || forall|j: int|
                from <= j < run.locals.len()
                    ==> !((#[trigger] run.locals[j]).change.action == Action::Update
                    && (run.locals[j]).change.pull is Some
                    && (run.locals[j]).change.pull->0.head_sha is Some
                    && (run.locals[j]).change.pull->0.number is Some)),
        },
{
    let flags = run.revisable_flags();
    lemma_first_from(flags, from);
    let k = first_from(flags, from);
    assert forall|j: int| from <= j < k
        implies !((#[trigger] run.locals[j]).change.action == Action::Update
        && (run.locals[j]).change.pull is Some
        && (run.locals[j]).change.pull->0.head_sha is Some
        && (run.locals[j]).change.pull->0.number is Some) by {
        assert(!flags[j]);
    }
    if k < flags.len() {
        assert(flags[k]);
    }
}

/// Every change that is created or updated gets its request, one after the other;
/// then the comments follow.
pub proof fn law_every_push_reaches_its_pull_request(run: RunView, from: int)
    requires
        0 <= from <= run.locals.len() <= usize::MAX,
        run.locals.len() <= usize::MAX,
        run.orphans.len() <= usize::MAX,
        run.revised.len() == run.locals.len(),
    ensures
        match run.at_upserts(from) {
            Stage::Upserts(i) => from <= i < run.locals.len()
                && (run.locals[i as int].change.action == Action::Create
                || run.locals[i as int].change.action == Action::Update)
                && forall|j: int|
                from <= j < i ==> !((#[trigger] run.locals[j]).change.action == Action::Create
                    || (run.locals[j]).change.action == Action::Update),
            s => s == run.at_stack_comments(0) && (forall|j: int|
                from <= j < run.locals.len()
                    ==> !((#[trigger] run.locals[j]).change.action == Action::Create
                    || (run.locals[j]).change.action == Action::Update)),
        },
{
    let flags = run.pushed_flags();
    lemma_first_from(flags, from);
    let k = first_from(flags, from);
    assert forall|j: int| from <= j < k
        implies !((#[trigger] run.locals[j]).change.action == Action::Create
        || (run.locals[j]).change.action == Action::Update) by {
        assert(!flags[j]);
    }
    if k < flags.len() {
        assert(flags[k]);
    }
}

/// Where more than one change has a pull request with a number, each of those that
/// are not merged shows the stack; then the histories follow.
pub proof fn law_every_open_pull_request_shows_the_stack(run: RunView, from: int)
    requires
        0 <= from <= run.locals.len() <= usize::MAX,
        run.locals.len() <= usize::MAX,
        run.orphans.len() <= usize::MAX,
        run.revised.len() == run.locals.len(),
    ensures
        match run.at_stack_comments(from) {
            Stage::StackComments(i) => stack_entries(run.locals).len() > 1
                && from <= i < run.locals.len() && (run.locals[i as int].change.pull is Some
                && run.locals[i as int].change.pull->0.merged_at != MergedAt::Time
                && run.locals[i as int].change.pull->0.number is Some)
                && forall|j: int|
                from <= j < i ==> !((#[trigger] run.locals[j]).change.pull is Some
                    && (run.locals[j]).change.pull->0.merged_at != MergedAt::Time
                    && (run.locals[j]).change.pull->0.number is Some),
            s => s == run.at_revision_comments(0) && (!(stack_entries(run.locals).len() > 1)
                || forall|j: int|
                from <= j < run.locals.len()
                    ==> !((#[trigger] run.locals[j]).change.pull is Some
                    && (run.locals[j]).change.pull->0.merged_at != MergedAt::Time
                    && (run.locals[j]).change.pull->0.number is Some)),
        },
{
    let flags = run.commented_flags();
    lemma_first_from(flags, from);
    let k = first_from(flags, from);
    assert forall|j: int| from <= j < k
        implies !((#[trigger] run.locals[j]).change.pull is Some
        && (run.locals[j]).change.pull->0.merged_at != MergedAt::Time
        && (run.locals[j]).change.pull->0.number is Some) by {
        assert(!flags[j]);
    }
    if k < flags.len() {
        assert(flags[k]);
    }
}

/// Every history that was prepared is written; then the orphans follow.
pub proof fn law_every_prepared_history_is_written(run: RunView, from: int)
    requires
        0 <= from <= run.revised.len() <= usize::MAX,
        run.locals.len() <= usize::MAX,
        run.orphans.len() <= usize::MAX,
        run.revised.len() == run.locals.len(),
    ensures
        match run.at_revision_comments(from) {
            Stage::RevisionComments(i) => from <= i < run.revised.len() && (run.revised[i as int])
                && forall|j: int|
                from <= j < i ==> !((#[trigger] run.revised[j])),
            s => s == run.at_orphans(0) && (forall|j: int|
                from <= j < run.revised.len() ==> !((#[trigger] run.revised[j]))),
        },
{
    let flags = run.revised;
    lemma_first_from(flags, from);
    let k = first_from(flags, from);
    assert forall|j: int| from <= j < k implies !((#[trigger] run.revised[j])) by {
        assert(!flags[j]);
    }
    if k < flags.len() {
        assert(flags[k]);
    }
}

/// The branch of every orphan that names one is removed, and that is the end.
pub proof fn law_every_orphan_is_removed(run: RunView, from: int)
    requires
        0 <= from <= run.orphans.len() <= usize::MAX,
        run.locals.len() <= usize::MAX,
        run.orphans.len() <= usize::MAX,
        run.revised.len() == run.locals.len(),
    ensures
        match run.at_orphans(from) {
            Stage::Orphans(i) => from <= i < run.orphans.len()
                && (run.orphans[i as int].head_ref is Some)
                && forall|j: int|
                from <= j < i ==> !((#[trigger] run.orphans[j]).head_ref is Some),
            s => s == Stage::Closed && (forall|j: int|
                from <= j < run.orphans.len() ==> !((#[trigger] run.orphans[j]).head_ref is Some)),
        },
{
    let flags = run.removable_flags();
    lemma_first_from(flags, from);
    let k = first_from(flags, from);
    assert forall|j: int| from <= j < k implies !((#[trigger] run.orphans[j]).head_ref is Some) by {
        assert(!flags[j]);
    }
    if k < flags.len() {
        assert(flags[k]);
    }
}

/// A history that is prepared belongs to all changes with that Change-Id, and
/// what was prepared before stays so.
pub proof fn law_history_belongs_to_its_change_id(run: RunView, i: int, k: int)
    requires
        run.revised.len() == run.locals.len(),
        0 <= i < run.locals.len(),
        0 <= k < run.locals.len(),
    ensures
        run.revised_with(i, true).len() == run.locals.len(),
        run.revised_with(i, true)[i],
        run.locals[k].change.change_id@ == run.locals[i].change.change_id@ ==> run.revised_with(
            i,
            true,
        )[k],
        run.locals[k].change.change_id@ != run.locals[i].change.change_id@ ==> run.revised_with(
            i,
            true,
        )[k] == run.revised[k],
        run.revised_with(i, false)[k] == run.revised[k],
{
}

/// A dry run shows the plan as it would be after the rebase: where the stack
/// would move, what is up to date would be updated.
pub proof fn law_dry_run_shows_the_plan(
    locals: Seq<PlannedChange>,
    should_rebase: bool,
    behind: u32,
    i: int,
)
    requires
        0 <= i < locals.len(),
    ensures
        ({
            let shown = dry_run_locals(locals, should_rebase, behind);
            let moves = should_rebase && behind > 0;
            &&& shown.len() == locals.len()
            &&& !moves ==> shown == locals
            &&& moves && locals[i].change.action == Action::SkipUpToDate
                ==> shown[i].change.action == Action::Update
            &&& moves && locals[i].change.action != Action::SkipUpToDate ==> shown[i] == locals[i]
            &&& shown[i].change.commit_sha == locals[i].change.commit_sha
            &&& shown[i].change.pull == locals[i].change.pull
            &&& shown[i].dest_branch == locals[i].dest_branch
            &&& shown[i].base_branch == locals[i].base_branch
        }),
{
}

/// A change that is pushed waits for its pull request. Anything else is settled,
/// and its row says why.
pub proof fn law_row_tells_the_action(p: PlannedChange)
    ensures
        ({
            let a = p.change.action;
            let url = match p.change.pull {
                Some(q) => match q.html_url {
                    Some(u) => Some(u@),
                    None => None,
                },
                None => None,
            };
            &&& a == Action::Create && p.change.commit_sha@.len() >= 7 ==> row_of(p)
                == RowPlanView::Queued {
                title: p.change.title@,
                detail: Some(p.change.commit_sha@.take(7)),
            }
            &&& a == Action::Update && p.change.commit_sha@.len() >= 7 && p.change.pull is Some
                && p.change.pull->0.head_sha is Some && p.change.pull->0.head_sha->0@.len() >= 7
                ==> row_of(p) == RowPlanView::Queued {
                title: p.change.title@,
                detail: Some(
                    p.change.pull->0.head_sha->0@.take(7) + "→"@ + p.change.commit_sha@.take(7),
                ),
            }
            &&& a == Action::SkipMerged ==> row_of(p) == RowPlanView::Settled {
                title: p.change.title@,
                mark: Mark::Merged,
                word: "merged"@,
                url,
            }
            &&& a == Action::SkipUpToDate ==> row_of(p) == RowPlanView::Settled {
                title: p.change.title@,
                mark: Mark::Noop,
                word: "up-to-date"@,
                url,
            }
            &&& a == Action::SkipCreate || a == Action::SkipNextOnly ==> row_of(p)
                == RowPlanView::Settled {
                title: p.change.title@,
                mark: Mark::Noop,
                word: "skipped"@,
                url,
            }
        }),
{
}

/// The branches of a stack start with its branch, below the prefix where there
/// is one.
pub proof fn law_stack_lies_below_the_prefix(prefix: Seq<char>, branch: Seq<char>)
    ensures
        prefix.len() == 0 ==> prefix_of_stack(prefix, branch) == branch,
        prefix.len() > 0 ==> prefix_of_stack(prefix, branch) == prefix + "/"@ + branch,
{
}

/// The branches that are handed to git are those of the changes that are created
/// or updated, one for each, in order: the commit of the change, its branch, and
/// for an update the head of its pull request.
pub proof fn law_pushed_branches_are_those_of_the_plan(
    locals: &Vec<PlannedChange>,
    r: Vec<PushEntry>,
)
    requires
        call_ensures(push_entries_of, (locals,), r),
    ensures
        ({
            let sent = locals@.filter(
                |p: PlannedChange|
                    p.change.action == Action::Create || p.change.action == Action::Update,
            );
            &&& r@.len() == sent.len()
            &&& forall|i: int|
                0 <= i < sent.len() ==> {
                    &&& (#[trigger] r@[i]).commit_sha@ == sent[i].change.commit_sha@
                    &&& r@[i].dest_branch@ == sent[i].dest_branch@
                    &&& sent[i].change.action == Action::Create ==> r@[i].pull_head_sha is None
                    &&& sent[i].change.action == Action::Update && sent[i].change.pull is Some
                        && sent[i].change.pull->0.head_sha is Some ==> r@[i].pull_head_sha is Some
                        && r@[i].pull_head_sha->0@ == sent[i].change.pull->0.head_sha->0@
                    &&& sent[i].change.pull is None || sent[i].change.pull->0.head_sha is None
                        ==> r@[i].pull_head_sha is None
                }
        }),
{
    law_commits_land_on_their_branches(locals@);
    let sent = locals@.filter(
        |p: PlannedChange|
            p.change.action == Action::Create || p.change.action == Action::Update,
    );
    let views = r@.map_values(|e: PushEntry| e@);
    assert(views == push_entries(locals@));
    assert(views.len() == r@.len());
    lemma_sent(locals@);
    assert forall|i: int| 0 <= i < sent.len() implies {
        &&& (#[trigger] r@[i]).commit_sha@ == sent[i].change.commit_sha@
        &&& r@[i].dest_branch@ == sent[i].dest_branch@
        &&& sent[i].change.action == Action::Create ==> r@[i].pull_head_sha is None
        &&& sent[i].change.action == Action::Update && sent[i].change.pull is Some
            && sent[i].change.pull->0.head_sha is Some ==> r@[i].pull_head_sha is Some
            && r@[i].pull_head_sha->0@ == sent[i].change.pull->0.head_sha->0@
        &&& sent[i].change.pull is None || sent[i].change.pull->0.head_sha is None
            ==> r@[i].pull_head_sha is None
    } by {
        assert(views[i] == r@[i]@);
        assert(sent[i].change.action == Action::Create || sent[i].change.action
            == Action::Update);
    }
}

proof fn lemma_sent(locals: Seq<PlannedChange>)
    ensures
        ({
            let sent = locals.filter(
                |p: PlannedChange|
                    p.change.action == Action::Create || p.change.action == Action::Update,
            );
            forall|i: int|
                0 <= i < sent.len() ==> (#[trigger] sent[i]).change.action == Action::Create
                    || sent[i].change.action == Action::Update
        }),
    decreases locals.len(),
{
    reveal(Seq::filter);
    if locals.len() > 0 {
        lemma_sent(locals.drop_last());
    }
}

/// Only a change of the content is replayed, and only where no earlier push left
/// a history that records just this revision: that one is taken as it is.
pub proof fn law_only_content_is_replayed(
    pending: Option<RevisionHistoryComment>,
    t: ChangeType,
    replay: bool,
    step: RevisionStep,
)
    requires
        call_ensures(needs_replay, (t,), replay),
        call_ensures(revision_step, (pending, t), step),
    ensures
        replay <==> t == ChangeType::Content,
        pending is Some ==> step == RevisionStep::Reuse(pending->0),
        pending is None ==> step == (RevisionStep::Build { replay }),
{
}

/// The note of a commit is the reason of its revision, unless an earlier push
/// wrote a history there.
pub proof fn law_note_is_the_reason(note: &str, carries_marker: bool, r: String)
    requires
        call_ensures(revision_reason, (note, carries_marker), r),
    ensures
        carries_marker ==> r@.len() == 0,
        !carries_marker ==> r@ == note@,
{
}

/// A revision is added to the history that was loaded, and starts one where there
/// was none. A history that could not be loaded is not started anew.
pub proof fn law_revision_extends_the_history(
    loaded: LoadedHistory,
    server: &str,
    user: &str,
    repo: &str,
    input: &RevisionInput<'_>,
    r: Result<RevisionHistoryComment, String>,
)
    requires
        call_ensures(revised_history, (loaded, server, user, repo, input), r),
    ensures
        loaded is Failed <==> r is Err,
        loaded is Found ==> r->Ok_0@.entries.drop_last() == loaded->Found_0@.entries,
        loaded is Missing ==> r->Ok_0@.entries.len() == 2 && r->Ok_0@.entries[0].new_sha
            == input.old_sha@,
        r is Ok ==> {
            let e = r->Ok_0@.entries.last();
            &&& e.old_sha == Some(input.old_sha@)
            &&& e.new_sha == input.new_sha@
            &&& e.change_type == input.change_type
            &&& e.timestamp == Some(input.timestamp@)
            &&& e.reason == input.reason@
            &&& input.replay_sha is Some ==> e.replay_sha == Some(input.replay_sha->0@)
            &&& input.replay_sha is None ==> e.replay_sha is None
        },
{
    crate::comment_upsert::law_new_history_starts_with_the_old_head(server@, user@, repo@, *input);
    if let LoadedHistory::Found(h) = loaded {
        let next = r->Ok_0@;
        assert(next.entries.drop_last() =~= h@.entries);
    }
}

/// The words for a pull request tell a creation from an update.
pub proof fn law_words_tell_the_action(action: Action, r: (&'static str, &'static str))
    requires
        call_ensures(upsert_words, (action,), r),
    ensures
        action == Action::Create ==> r.0@ == "creating"@ && r.1@ == "created"@,
        action != Action::Create ==> r.0@ == "updating"@ && r.1@ == "updated"@,
{
}

/// The user is told where the notes stayed at home, and only then.
pub proof fn law_missing_notes_are_told(pushed: usize, lease: &NotesLease, r: Option<String>)
    requires
        call_ensures(notes_warning, (pushed, lease), r),
    ensures
        r is Some <==> pushed > 0 && *lease == NotesLease::Unknown,
{
}

/// The last line says that nothing had to be done exactly where nothing was
/// pushed and nothing removed.
pub proof fn law_last_line_reads(pushed: usize, orphans: usize, r: &'static str)
    requires
        call_ensures(closing_line, (pushed, orphans), r),
    ensures
        pushed == 0 && orphans == 0 ==> r@ == "Already up to date."@,
        pushed > 0 || orphans > 0 ==> r@ == "Finished."@,
{
}

/// The pull requests are told about each other where there is more than one.
pub proof fn law_single_pull_request_shows_no_stack(locals: &Vec<PlannedChange>, r: bool)
    requires
        call_ensures(shows_stack, (locals,), r),
    ensures
        r <==> locals@.filter(
            |p: PlannedChange| p.change.pull is Some && p.change.pull->0.number is Some,
        ).len() > 1,
{
    law_stack_is_shown_whole(locals@);
}

/// The request for a change is made from that very change.
pub proof fn law_request_is_made_from_the_change(
    run: &PushRun,
    index: usize,
    depends_on: Option<u64>,
    draft: bool,
    keep: bool,
    r: PrUpsertInput<'_>,
)
    requires
        index < run.planned.locals@.len(),
        call_ensures(PushRun::upsert_input, (run, index, depends_on, draft, keep), r),
    ensures
        ({
            let p = run.planned.locals@[index as int];
            &&& r.action == p.change.action
            &&& r.title@ == p.change.title@
            &&& r.message@ == p.change.message@
            &&& r.dest_branch@ == p.dest_branch@
            &&& r.base_branch@ == p.base_branch@
            &&& r.pull is Some <==> p.change.pull is Some
            &&& r.pull is Some ==> *r.pull->0 == p.change.pull->0
            &&& r.depends_on_number == depends_on
            &&& r.create_as_draft == draft
            &&& r.keep_pull_request_title_and_body == keep
        }),
{
}

/// A push starts with the plan as it is, and with no history prepared.
pub proof fn law_push_starts_with_the_plan(planned: PlannedChanges, histories: bool, r: PushRun)
    requires
        call_ensures(PushRun::start, (planned, histories), r),
    ensures
        r.planned.locals@ == planned.locals@,
        r.planned.orphans@ == planned.orphans@,
        r.revision_history == histories,
        r.revised@.len() == planned.locals@.len(),
        forall|i: int| 0 <= i < r.revised@.len() ==> !(#[trigger] r.revised@[i]),
        r.stage == r@.first_stage(),
{
    assert(r@.locals == r.planned.locals@);
    assert(r@.orphans == r.planned.orphans@);
    assert(r@.revised == r.revised@);
}

/// A preview shows every change and then every orphan as what would be done.
pub proof fn law_preview_shows_what_would_be_done(
    locals: Seq<PlannedChange>,
    orphans: Seq<Pull>,
    draft: bool,
    i: int,
)
    ensures
        change_previews(locals, draft).len() == locals.len(),
        orphan_previews(orphans).len() == orphans.len(),
        0 <= i < locals.len() ==> change_previews(locals, draft)[i] == crate::changes::change_line(
            locals[i].change,
            locals[i].dest_branch@,
            true,
            draft,
        ),
        0 <= i < orphans.len() ==> orphan_previews(orphans)[i] == crate::changes::orphan_line(
            orphans[i],
            true,
        ),
{
}

/// A preview of a push takes the plan as it is, but for what a rebase would bring
/// up to date again, and ends with a line of its own.
pub proof fn law_preview_keeps_the_plan(
    planned: PlannedChanges,
    rebase: RebaseDecision,
    behind: u32,
    branch: &str,
    remote: &str,
    base: &str,
    draft: bool,
    r: Outcome,
)
    requires
        call_ensures(dry_run, (planned, rebase, behind, branch, remote, base, draft), r),
    ensures
        r is DryRun,
        r->DryRun_rebase == rebase,
        r->commits_behind == behind,
        r->DryRun_planned.orphans@ == planned.orphans@,
        r->DryRun_log_lines@.len() >= 2,
        r->DryRun_log_lines@[0]@ == "Stacked pull request plan:"@,
        r->DryRun_log_lines@[r->DryRun_log_lines@.len() - 1]@ == "Finished (dry-run mode)."@,
{
    let lines = text::texts(r->DryRun_log_lines@);
    assert(lines.len() == r->DryRun_log_lines@.len());
    assert(lines[0] == r->DryRun_log_lines@[0]@);
    assert(lines[lines.len() - 1] == r->DryRun_log_lines@[lines.len() - 1]@);
}

/// A pull request that came back is kept with its own change, and nothing else of
/// the plan changes.
pub proof fn law_upsert_keeps_the_rest_of_the_plan()
    ensures
        forall|run: &mut PushRun, pull: Pull| #[trigger]
            call_ensures(PushRun::upserted, (run, pull), ()) && (*run)@.wf()
                && (*run)@.stage is Upserts ==> {
                let i = (*run)@.stage->Upserts_0 as int;
                let was = (*run)@.locals;
                let is = final(run)@.locals;
                &&& is.len() == was.len()
                &&& is[i].change.pull == Some(pull)
                &&& is[i].dest_branch == was[i].dest_branch
                &&& is[i].base_branch == was[i].base_branch
                &&& is[i].change.action == was[i].change.action
                &&& is[i].change.commit_sha == was[i].change.commit_sha
                &&& is[i].change.change_id == was[i].change.change_id
                &&& is[i].change.title == was[i].change.title
                &&& is[i].change.message == was[i].change.message
                &&& is[i].change.note == was[i].change.note
                &&& forall|j: int| 0 <= j < was.len() && j != i ==> #[trigger] is[j] == was[j]
                &&& final(run)@.orphans == (*run)@.orphans
                &&& final(run)@.revised == (*run)@.revised
                &&& final(run)@.revision_history == (*run)@.revision_history
            },
{
}

/// A history that was prepared counts for every change with the same Change-Id, and
/// one that was not counts for none.
pub proof fn law_prepared_history_is_remembered()
    ensures
        forall|run: &mut PushRun, prepared: bool| #[trigger]
            call_ensures(PushRun::revised, (run, prepared), ()) && (*run)@.wf()
                && (*run)@.stage is Revisions ==> {
                let i = (*run)@.stage->Revisions_0 as int;
                let was = (*run)@.revised;
                let is = final(run)@.revised;
                &&& is.len() == (*run)@.locals.len()
                &&& forall|j: int|
                    0 <= j < is.len() ==> (#[trigger] is[j] <==> was[j] || (prepared
                        && (*run)@.locals[j].change.change_id@
                        == (*run)@.locals[i].change.change_id@))
                &&& final(run)@.locals == (*run)@.locals
                &&& final(run)@.orphans == (*run)@.orphans
                &&& final(run)@.revision_history == (*run)@.revision_history
            },
{
}

/// Any other work that is done leaves the plan as it is.
pub proof fn law_work_keeps_the_plan()
    ensures
        forall|run: &mut PushRun| #[trigger]
            call_ensures(PushRun::done, (run,), ()) ==> final(run)@.locals == (*run)@.locals
                && final(run)@.orphans == (*run)@.orphans && final(run)@.revised
                == (*run)@.revised && final(run)@.revision_history == (*run)@.revision_history,
{
}

/// A preview is written behind what is there.
pub proof fn law_preview_is_added_to_the_log()
    ensures
        forall|log: &mut Vec<String>, planned: &PlannedChanges, draft: bool| #[trigger]
            call_ensures(push_plan_preview, (log, planned, draft), ()) ==> {
                &&& text::texts((*log)@).is_prefix_of(text::texts(final(log)@))
                &&& final(log)@.len() == (*log)@.len() + planned.locals@.len()
                    + planned.orphans@.len()
            },
{
    assert forall|log: &mut Vec<String>, planned: &PlannedChanges, draft: bool| #[trigger]
        call_ensures(push_plan_preview, (log, planned, draft), ()) implies {
        &&& text::texts((*log)@).is_prefix_of(text::texts(final(log)@))
        &&& final(log)@.len() == (*log)@.len() + planned.locals@.len() + planned.orphans@.len()
    } by {
        let a = text::texts((*log)@);
        let b = text::texts(final(log)@);
        assert(a.len() == (*log)@.len());
        assert(b.len() == final(log)@.len());
        assert(b.take(a.len() as int) =~= a);
    }
}

/// While the kinds of changes are told, the next update with a head is the next to
/// be looked at.
pub proof fn law_no_update_is_passed_over(run: RunView, i: usize)
    requires
        run.wf(),
        run.locals.len() <= usize::MAX,
        run.orphans.len() <= usize::MAX,
        run.revised.len() <= usize::MAX,
        run.stage == Stage::Types(i) || run.stage == Stage::OldHeads,
    ensures
        ({
            let from = if run.stage == Stage::OldHeads {
                0
            } else {
                i + 1
            };
            forall|j: int|
                from <= j < run.locals.len() && run.revision_history
                    && (#[trigger] run.locals[j]).change.action == Action::Update
                    && run.locals[j].change.pull is Some
                && run.locals[j].change.pull->0.head_sha is Some ==> run.next_stage() is Types
                    && from
                    <= run.next_stage()->Types_0 <= j
        }),
{
    let from = if run.stage == Stage::OldHeads {
        0
    } else {
        i + 1
    };
    law_types_are_told_of_every_update(run, from);
}

/// While histories are prepared, the next update with a head and a number is the
/// next to get its own.
pub proof fn law_no_revision_is_passed_over(run: RunView, i: usize)
    requires
        run.wf(),
        run.locals.len() <= usize::MAX,
        run.orphans.len() <= usize::MAX,
        run.revised.len() <= usize::MAX,
        run.stage == Stage::Revisions(i),
    ensures
        forall|j: int|
            i < j < run.locals.len() && run.revision_history
                && (#[trigger] run.locals[j]).change.action == Action::Update
                && run.locals[j].change.pull is Some
                && run.locals[j].change.pull->0.head_sha is Some
                && run.locals[j].change.pull->0.number is Some
                    ==> run.next_stage() is Revisions && i
                < run.next_stage()->Revisions_0 <= j,
{
    let from = i + 1;
    law_every_update_is_revised(run, from);
}

/// Once the branches are pushed, the next change that is created or updated is the
/// next to get its pull request.
pub proof fn law_no_push_is_passed_over(run: RunView, i: usize)
    requires
        run.wf(),
        run.locals.len() <= usize::MAX,
        run.orphans.len() <= usize::MAX,
        run.revised.len() <= usize::MAX,
        run.stage == Stage::Upserts(i) || run.stage == Stage::Branches,
    ensures
        ({
            let from = if run.stage == Stage::Branches {
                0
            } else {
                i + 1
            };
            forall|j: int|
                from <= j < run.locals.len()
                    && ((#[trigger] run.locals[j]).change.action == Action::Create
                    || run.locals[j].change.action
                == Action::Update) ==> run.next_stage() is Upserts && from
                    <= run.next_stage()->Upserts_0 <= j
        }),
{
    let from = if run.stage == Stage::Branches {
        0
    } else {
        i + 1
    };
    law_every_push_reaches_its_pull_request(run, from);
}

/// While the stack is shown, the next pull request that is not merged is the next
/// to show it.
pub proof fn law_no_pull_request_is_passed_over(run: RunView, i: usize)
    requires
        run.wf(),
        run.locals.len() <= usize::MAX,
        run.orphans.len() <= usize::MAX,
        run.revised.len() <= usize::MAX,
        run.stage == Stage::StackComments(i),
    ensures
        forall|j: int|
            i < j < run.locals.len() && run.locals.filter(
                |p: PlannedChange| p.change.pull is Some && p.change.pull->0.number is Some,
            ).len() > 1 && (#[trigger] run.locals[j]).change.pull is Some
                && run.locals[j].change.pull->0.number is Some
                && run.locals[j].change.pull->0.merged_at != MergedAt::Time
                    ==> run.next_stage() is StackComments && i
                < run.next_stage()->StackComments_0 <= j,
{
    law_stack_is_shown_whole(run.locals);
    let from = i + 1;
    law_every_open_pull_request_shows_the_stack(run, from);
}

/// While histories are written, the next one that was prepared is the next to be
/// written.
pub proof fn law_no_history_is_passed_over(run: RunView, i: usize)
    requires
        run.wf(),
        run.locals.len() <= usize::MAX,
        run.orphans.len() <= usize::MAX,
        run.revised.len() <= usize::MAX,
        run.stage == Stage::RevisionComments(i),
    ensures
        forall|j: int|
            i < j < run.revised.len() && #[trigger] run.revised[j]
                ==> run.next_stage() is RevisionComments && i
                < run.next_stage()->RevisionComments_0 <= j,
{
    let from = i + 1;
    law_every_prepared_history_is_written(run, from);
}

/// While orphans are removed, the next one with a branch is the next to go.
pub proof fn law_no_orphan_is_passed_over(run: RunView, i: usize)
    requires
        run.wf(),
        run.locals.len() <= usize::MAX,
        run.orphans.len() <= usize::MAX,
        run.revised.len() <= usize::MAX,
        run.stage == Stage::Orphans(i),
    ensures
        forall|j: int|
            i < j < run.orphans.len() && (#[trigger] run.orphans[j]).head_ref is Some
                ==> run.next_stage() is Orphans && i
                < run.next_stage()->Orphans_0 <= j,
{
    let from = i + 1;
    law_every_orphan_is_removed(run, from);
}

/// The targets are changed before the branches are pushed, the pull requests come
/// after the branches, and nothing follows the orphans.
pub proof fn law_branches_are_pushed_before_their_pull_requests(run: RunView)
    requires
        run.wf(),
        run.locals.len() <= usize::MAX,
        run.orphans.len() <= usize::MAX,
    ensures
        run.stage == Stage::OldHeads || run.stage is Types || run.stage is Revisions ==> {
            ||| run.next_stage() is Types
            ||| run.next_stage() is Revisions
            ||| run.next_stage() == Stage::Bases
        },
        run.stage == Stage::Bases ==> run.next_stage() == Stage::Branches,
        run.stage == Stage::Branches || run.stage is Upserts ==> {
            ||| run.next_stage() is Upserts
            ||| run.next_stage() is StackComments
            ||| run.next_stage() is RevisionComments
            ||| run.next_stage() is Orphans
            ||| run.next_stage() == Stage::Closed
        },
        run.stage == Stage::Closed ==> run.next_stage() == Stage::Closed,
{
}

} // verus!
