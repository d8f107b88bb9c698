//! `stack fixup`: which commits are folded into the ones below them.
use crate::error::{CliError, Failure};
use crate::local_commits::LocalCommit;
use crate::match_commit::{Duplicate, Refused, has_sha_at, resolve_all};
use crate::plan_display::PlanRow;
use crate::sequence_editor;
use crate::text;
use vstd::prelude::*;

verus! {

/// A commit that is folded.
#[derive(Debug, Clone, PartialEq, Eq)]
pub struct FixedUpCommit {
    pub sha: String,
    pub subject: String,
}

/// How a fixup ended.
#[derive(Debug, Clone, PartialEq, Eq)]
pub enum Outcome {
    Squashed { plan: Vec<PlanRow> },
    DryRun { plan: Vec<PlanRow> },
    EmptyStack,
}

/// What a fixup has to do.
#[derive(Debug, Clone, PartialEq, Eq)]
pub enum Step {
    /// Nothing more.
    Finished(Outcome),
    /// A rebase with this command as its editor.
    Rebase { plan: Vec<PlanRow>, editor: String },
}

/// What is said of a fixup of the commit at the bottom.
pub const NO_PARENT: &'static str =
    "cannot fixup the first commit of the stack — no parent in stack";

/// The row of a commit.
pub open spec fn is_row(row: PlanRow, c: LocalCommit, folded: bool) -> bool {
    &&& row.sha == c.commit_sha
    &&& row.subject == c.title
    &&& row.change_id == c.change_id
    &&& text::opt_text(row.action) == (if folded {
        Some("fixup"@)
    } else {
        None
    })
}

/// Whether a plan shows the whole stack, with the folded commits marked.
pub open spec fn shows(plan: Seq<PlanRow>, commits: Seq<LocalCommit>, folded: Seq<LocalCommit>) -> bool {
    &&& plan.len() == commits.len()
    &&& forall|i: int|
        0 <= i < plan.len() ==> is_row(
            #[trigger] plan[i],
            commits[i],
            crate::match_commit::has_sha(folded, commits[i].commit_sha@),
        )
}

fn plan_rows(commits: &Vec<LocalCommit>, ks: &Vec<usize>) -> (r: Vec<PlanRow>)
    requires
        forall|i: int| 0 <= i < ks.len() ==> #[trigger] ks@[i] < commits.len(),
    ensures
        shows(r@, commits@, crate::match_commit::at_indices(commits@, ks@)),
{
    let ghost folded = crate::match_commit::at_indices(commits@, ks@);
    let mut out: Vec<PlanRow> = Vec::new();
    let mut i: usize = 0;
    while i < commits.len()
        invariant
            i <= commits.len(),
            out.len() == i,
            folded == crate::match_commit::at_indices(commits@, ks@),
            forall|j: int| 0 <= j < ks.len() ==> #[trigger] ks@[j] < commits.len(),
            forall|j: int|
                0 <= j < i ==> is_row(
                    #[trigger] out@[j],
                    commits@[j],
                    crate::match_commit::has_sha(folded, commits@[j].commit_sha@),
                ),
        decreases commits.len() - i,
    {
        let c = &commits[i];
        let action: Option<String> = if has_sha_at(commits, ks, c.commit_sha.as_str()) {
            Some("fixup".to_owned())
        } else {
            None
        };
        out.push(
            PlanRow {
                sha: c.commit_sha.clone(),
                subject: c.title.clone(),
                change_id: c.change_id.clone(),
                action,
            },
        );
        i += 1;
    }
    out
}

/// What a fixup has to do about the commits that the prefixes mean. No prefix
/// is an error, and so are two that mean the same commit, and one that means
/// the commit at the bottom, which has none below it in the stack.
pub fn plan_fixup(
    commit_prefixes: &Vec<String>,
    commits: &Vec<LocalCommit>,
    dry_run: bool,
    binary: &str,
) -> (r: Result<Step, CliError>)
    requires
        crate::match_commit::all_reportable(text::texts(commit_prefixes@), commits@),
    ensures
        if commit_prefixes.len() == 0 {
            r matches Err(e) && e@ == Failure::InvalidState("no commits to fixup"@)
        } else if commits.len() == 0 {
            r matches Ok(Step::Finished(Outcome::EmptyStack))
        } else {
            match crate::match_commit::all_resolved(
                text::texts(commit_prefixes@),
                commits@,
                Some((commits@[0].commit_sha@, NO_PARENT@)),
                Duplicate::Commit,
            ) {
                Err(x) => r matches Err(e) && e@ == x,
                Ok(cs) => if dry_run {
                    r matches Ok(Step::Finished(Outcome::DryRun { plan })) && shows(
                        plan@,
                        commits@,
                        cs,
                    )
                } else {
                    r matches Ok(Step::Rebase { plan, editor }) && shows(plan@, commits@, cs)
                        && editor@ == sequence_editor::shas_command(
                        binary@,
                        "fixup"@,
                        sequence_editor::shas_of(cs),
                    )
                },
            }
        },
{
    if commit_prefixes.len() == 0 {
        return Err(CliError::InvalidState("no commits to fixup".to_owned()));
    }
    if commits.len() == 0 {
        return Ok(Step::Finished(Outcome::EmptyStack));
    }
    let refused = Refused { sha: commits[0].commit_sha.as_str(), reason: NO_PARENT };
    let ks = match resolve_all(commit_prefixes, commits, Some(refused), Duplicate::Commit) {
        Ok(ks) => ks,
        Err(e) => {
            return Err(e);
        },
    };
    let plan = plan_rows(commits, &ks);
    if dry_run {
        return Ok(Step::Finished(Outcome::DryRun { plan }));
    }
    let shas = sequence_editor::shas_at(commits, &ks);
    let editor = sequence_editor::for_shas(binary, "fixup", &shas);
    Ok(Step::Rebase { plan, editor })
}

/// The plan shows the whole stack in its order, and marks exactly the commits
/// that are folded.
pub proof fn law_plan_marks_the_folded(
    plan: Seq<PlanRow>,
    commits: Seq<LocalCommit>,
    folded: Seq<LocalCommit>,
    i: int,
)
    requires
        shows(plan, commits, folded),
        0 <= i < commits.len(),
    ensures
        plan.len() == commits.len(),
        plan[i].sha@ == commits[i].commit_sha@,
        plan[i].subject@ == commits[i].title@,
        plan[i].change_id@ == commits[i].change_id@,
        (exists|k: int|
            0 <= k < folded.len() && (#[trigger] folded[k]).commit_sha@ == commits[i].commit_sha@)
            ==> plan[i].action is Some && plan[i].action->0@ == "fixup"@,
        (forall|k: int|
            0 <= k < folded.len() ==> (#[trigger] folded[k]).commit_sha@ != commits[i].commit_sha@)
            ==> plan[i].action is None,
{
    assert(is_row(
        plan[i],
        commits[i],
        crate::match_commit::has_sha(folded, commits[i].commit_sha@),
    ));
}

/// A fixup folds the commits that the prefixes name into the ones below them, and
/// never the bottom one. A preview folds nothing.
pub proof fn law_fixup_folds_the_named_commits(
    prefixes: &Vec<String>,
    commits: &Vec<LocalCommit>,
    dry_run: bool,
    binary: &str,
    r: Result<Step, CliError>,
) -> (found: Seq<LocalCommit>)
    requires
        call_ensures(plan_fixup, (prefixes, commits, dry_run, binary), r),
        prefixes@.len() > 0,
        commits@.len() > 0,
        r is Ok,
    ensures
        found.len() == prefixes@.len(),
        forall|i: int|
            0 <= i < prefixes@.len() ==> crate::match_commit::resolved(
                (#[trigger] prefixes@[i])@,
                commits@,
            ) == Ok::<LocalCommit, Failure>(found[i]),
        forall|i: int|
            0 <= i < found.len() ==> (#[trigger] found[i]).commit_sha@ != commits@[0].commit_sha@,
        dry_run <==> r->Ok_0 is Finished,
        dry_run ==> r->Ok_0->Finished_0 is DryRun,
        ({
            let plan = if dry_run {
                r->Ok_0->Finished_0->DryRun_plan@
            } else {
                r->Ok_0->Rebase_plan@
            };
            &&& plan.len() == commits@.len()
            &&& forall|i: int|
                0 <= i < plan.len() ==> {
                    &&& (#[trigger] plan[i]).sha@ == commits@[i].commit_sha@
                    &&& plan[i].subject@ == commits@[i].title@
                    &&& plan[i].action is Some <==> exists|k: int|
                        0 <= k < found.len() && (#[trigger] found[k]).commit_sha@
                            == commits@[i].commit_sha@
                }
        }),
        !dry_run ==> r->Ok_0->editor@ == crate::git::quoted(binary@)
            + " _internal rebase-todo-rewrite --action "@ + "fixup"@ + " --shas "@
            + crate::git::quoted(
            text::join(found.map_values(|c: LocalCommit| c.commit_sha@), ","@),
        ),
{
    let words = text::texts(prefixes@);
    let bottom = Some((commits@[0].commit_sha@, NO_PARENT@));
    crate::match_commit::law_each_prefix_is_resolved(words, commits@, bottom, Duplicate::Commit);
    let found = crate::match_commit::all_resolved(words, commits@, bottom, Duplicate::Commit)->Ok_0;
    assert forall|i: int| 0 <= i < prefixes@.len() implies crate::match_commit::resolved(
        (#[trigger] prefixes@[i])@,
        commits@,
    ) == Ok::<LocalCommit, Failure>(found[i]) by {
        assert(words[i] == prefixes@[i]@);
    }
    let plan = if dry_run {
        r->Ok_0->Finished_0->DryRun_plan@
    } else {
        r->Ok_0->Rebase_plan@
    };
    assert forall|i: int| 0 <= i < plan.len() implies {
        &&& (#[trigger] plan[i]).sha@ == commits@[i].commit_sha@
        &&& plan[i].subject@ == commits@[i].title@
        &&& plan[i].action is Some <==> exists|k: int|
            0 <= k < found.len() && (#[trigger] found[k]).commit_sha@ == commits@[i].commit_sha@
    } by {
        law_plan_marks_the_folded(plan, commits@, found, i);
    }
    assert(sequence_editor::shas_of(found) =~= found.map_values(|c: LocalCommit| c.commit_sha@));
    sequence_editor::law_editor_command_reads(
        binary@,
        "fixup"@,
        sequence_editor::shas_of(found),
        seq![],
        seq![],
        seq![],
    );
    found
}

} // verus!
