//! `stack drop`: which commits are taken out of the stack.
use crate::error::{CliError, Failure};
use crate::local_commits::LocalCommit;
use crate::match_commit::{Duplicate, resolve_all};
use crate::sequence_editor;
use crate::text;
use vstd::prelude::*;

verus! {

/// A commit that is dropped.
#[derive(Debug, Clone, PartialEq, Eq)]
pub struct DroppedCommit {
    pub sha: String,
    pub subject: String,
}

impl View for DroppedCommit {
    type V = (Seq<char>, Seq<char>);

    open spec fn view(&self) -> (Seq<char>, Seq<char>) {
        (self.sha@, self.subject@)
    }
}

/// How a drop ended.
#[derive(Debug, Clone, PartialEq, Eq)]
pub enum Outcome {
    Dropped { dropped: Vec<DroppedCommit> },
    DryRun { plan: Vec<DroppedCommit> },
    EmptyStack,
}

/// What a drop has to do.
#[derive(Debug, Clone, PartialEq, Eq)]
pub enum Step {
    /// Nothing more.
    Finished(Outcome),
    /// A rebase with this command as its editor.
    Rebase { dropped: Vec<DroppedCommit>, editor: String },
}

/// The SHAs and the subjects of some commits.
pub open spec fn named(commits: Seq<LocalCommit>) -> Seq<(Seq<char>, Seq<char>)> {
    commits.map_values(|c: LocalCommit| (c.commit_sha@, c.title@))
}

fn dropped_at(commits: &Vec<LocalCommit>, ks: &Vec<usize>) -> (r: Vec<DroppedCommit>)
    requires
        forall|i: int| 0 <= i < ks.len() ==> #[trigger] ks@[i] < commits.len(),
    ensures
        r@.map_values(|d: DroppedCommit| d@) == named(
            crate::match_commit::at_indices(commits@, ks@),
        ),
{
    let ghost goal = named(crate::match_commit::at_indices(commits@, ks@));
    let mut out: Vec<DroppedCommit> = Vec::new();
    let mut i: usize = 0;
    while i < ks.len()
        invariant
            i <= ks.len(),
            out.len() == i,
            goal == named(crate::match_commit::at_indices(commits@, ks@)),
            forall|j: int| 0 <= j < ks.len() ==> #[trigger] ks@[j] < commits.len(),
            forall|j: int| 0 <= j < i ==> (#[trigger] out@[j])@ == goal[j],
        decreases ks.len() - i,
    {
        let c = &commits[ks[i]];
        out.push(DroppedCommit { sha: c.commit_sha.clone(), subject: c.title.clone() });
        i += 1;
    }
    proof {
        assert(out@.map_values(|d: DroppedCommit| d@) =~= goal);
    }
    out
}

/// What a drop has to do about the commits that the prefixes mean. No prefix
/// is an error, and so are two that mean the same commit.
pub fn plan_drop(
    commit_prefixes: &Vec<String>,
    commits: &Vec<LocalCommit>,
    dry_run: bool,
    binary: &str,
) -> (r: Result<Step, CliError>)
    requires
        crate::match_commit::all_reportable(text::texts(commit_prefixes@), commits@),
    ensures
        if commit_prefixes.len() == 0 {
            r matches Err(e) && e@ == Failure::InvalidState("no commits to drop"@)
        } else if commits.len() == 0 {
            r matches Ok(Step::Finished(Outcome::EmptyStack))
        } else {
            match crate::match_commit::all_resolved(
                text::texts(commit_prefixes@),
                commits@,
                None,
                Duplicate::Commit,
            ) {
                Err(x) => r matches Err(e) && e@ == x,
                Ok(cs) => if dry_run {
                    r matches Ok(Step::Finished(Outcome::DryRun { plan })) && plan@.map_values(
                        |d: DroppedCommit| d@,
                    ) == named(cs)
                } else {
                    r matches Ok(Step::Rebase { dropped, editor }) && dropped@.map_values(
                        |d: DroppedCommit| d@,
                    ) == named(cs) && editor@ == sequence_editor::shas_command(
                        binary@,
                        "drop"@,
                        sequence_editor::shas_of(cs),
                    )
                },
            }
        },
{
    if commit_prefixes.len() == 0 {
        return Err(CliError::InvalidState("no commits to drop".to_owned()));
    }
    if commits.len() == 0 {
        return Ok(Step::Finished(Outcome::EmptyStack));
    }
    let ks = match resolve_all(commit_prefixes, commits, None, Duplicate::Commit) {
        Ok(ks) => ks,
        Err(e) => {
            return Err(e);
        },
    };
    let dropped = dropped_at(commits, &ks);
    if dry_run {
        return Ok(Step::Finished(Outcome::DryRun { plan: dropped }));
    }
    let shas = sequence_editor::shas_at(commits, &ks);
    let editor = sequence_editor::for_shas(binary, "drop", &shas);
    Ok(Step::Rebase { dropped, editor })
}

/// A commit is shown by its SHA and its title.
pub proof fn law_plan_names_its_commits(commits: Seq<LocalCommit>, i: int)
    requires
        0 <= i < commits.len(),
    ensures
        named(commits).len() == commits.len(),
        named(commits)[i].0 == commits[i].commit_sha@,
        named(commits)[i].1 == commits[i].title@,
{
}

/// A drop takes away the commits that the prefixes name, one for each, in the
/// order of the prefixes. A preview takes nothing away.
pub proof fn law_drop_takes_the_named_commits(
    prefixes: &Vec<String>,
    commits: &Vec<LocalCommit>,
    dry_run: bool,
    binary: &str,
    r: Result<Step, CliError>,
) -> (found: Seq<LocalCommit>)
    requires
        call_ensures(plan_drop, (prefixes, commits, dry_run, binary), r),
        prefixes@.len() > 0,
        commits@.len() > 0,
        r is Ok,
    ensures
        found.len() == prefixes@.len(),
        forall|i: int|
            0 <= i < prefixes@.len() ==> crate::match_commit::resolved(
                (#[trigger] prefixes@[i])@,
                commits@,
            ) == Ok::<LocalCommit, Failure>(found[i]),
        dry_run <==> r->Ok_0 is Finished,
        dry_run ==> r->Ok_0->Finished_0 is DryRun && {
            let plan = r->Ok_0->Finished_0->DryRun_plan@;
            &&& plan.len() == found.len()
            &&& forall|i: int|
                0 <= i < plan.len() ==> (#[trigger] plan[i]).sha@ == found[i].commit_sha@
                    && plan[i].subject@ == found[i].title@
        },
        !dry_run ==> {
            let plan = r->Ok_0->Rebase_dropped@;
            &&& plan.len() == found.len()
            &&& forall|i: int|
                0 <= i < plan.len() ==> (#[trigger] plan[i]).sha@ == found[i].commit_sha@
                    && plan[i].subject@ == found[i].title@
            &&& r->Ok_0->editor@ == crate::git::quoted(binary@)
                + " _internal rebase-todo-rewrite --action "@ + "drop"@ + " --shas "@
                + crate::git::quoted(
                text::join(found.map_values(|c: LocalCommit| c.commit_sha@), ","@),
            )
        },
{
    let words = text::texts(prefixes@);
    crate::match_commit::law_each_prefix_is_resolved(words, commits@, None, Duplicate::Commit);
    let found = crate::match_commit::all_resolved(words, commits@, None, Duplicate::Commit)->Ok_0;
    assert forall|i: int| 0 <= i < prefixes@.len() implies crate::match_commit::resolved(
        (#[trigger] prefixes@[i])@,
        commits@,
    ) == Ok::<LocalCommit, Failure>(found[i]) by {
        assert(words[i] == prefixes@[i]@);
    }
    let plan = if dry_run {
        r->Ok_0->Finished_0->DryRun_plan@
    } else {
        r->Ok_0->Rebase_dropped@
    };
    let views = plan.map_values(|d: DroppedCommit| d@);
    assert(views == named(found));
    assert(views.len() == plan.len());
    assert forall|i: int| 0 <= i < plan.len() implies (#[trigger] plan[i]).sha@
        == found[i].commit_sha@ && plan[i].subject@ == found[i].title@ by {
        assert(views[i] == plan[i]@);
        law_plan_names_its_commits(found, i);
    }
    assert(sequence_editor::shas_of(found) =~= found.map_values(|c: LocalCommit| c.commit_sha@));
    sequence_editor::law_editor_command_reads(
        binary@,
        "drop"@,
        sequence_editor::shas_of(found),
        seq![],
        seq![],
        seq![],
    );
    found
}

} // verus!
