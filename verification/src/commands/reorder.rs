//! `stack reorder`: another order for the commits of the stack.
use crate::error::{CliError, Failure};
use crate::local_commits::LocalCommit;
use crate::match_commit::{Duplicate, resolve_all};
use crate::plan_display::PlanRow;
use crate::sequence_editor;
use crate::text;
use vstd::prelude::*;

verus! {

/// How a reorder ended.
#[derive(Debug, Clone, PartialEq, Eq)]
pub enum Outcome {
    Reordered { plan: Vec<PlanRow> },
    DryRun { plan: Vec<PlanRow> },
    /// The commits have that order already.
    AlreadyInOrder,
    EmptyStack,
}

/// What a reorder has to do.
#[derive(Debug, Clone, PartialEq, Eq)]
pub enum Step {
    /// Nothing more.
    Finished(Outcome),
    /// A rebase with this command as its editor.
    Rebase { plan: Vec<PlanRow>, editor: String },
}

/// Whether a plan shows some commits, without marks.
pub open spec fn lists(plan: Seq<PlanRow>, commits: Seq<LocalCommit>) -> bool {
    &&& plan.len() == commits.len()
    &&& forall|i: int|
        0 <= i < plan.len() ==> {
            &&& (#[trigger] plan[i]).sha == commits[i].commit_sha
            &&& plan[i].subject == commits[i].title
            &&& plan[i].change_id == commits[i].change_id
            &&& plan[i].action is None
        }
}

fn rows_at(commits: &Vec<LocalCommit>, ks: &Vec<usize>) -> (r: Vec<PlanRow>)
    requires
        forall|i: int| 0 <= i < ks.len() ==> #[trigger] ks@[i] < commits.len(),
    ensures
        lists(r@, crate::match_commit::at_indices(commits@, ks@)),
{
    let ghost all = crate::match_commit::at_indices(commits@, ks@);
    let mut out: Vec<PlanRow> = Vec::new();
    let mut i: usize = 0;
    while i < ks.len()
        invariant
            i <= ks.len(),
            out.len() == i,
            all == crate::match_commit::at_indices(commits@, ks@),
            forall|j: int| 0 <= j < ks.len() ==> #[trigger] ks@[j] < commits.len(),
            forall|j: int|
                0 <= j < i ==> {
                    &&& (#[trigger] out@[j]).sha == all[j].commit_sha
                    &&& out@[j].subject == all[j].title
                    &&& out@[j].change_id == all[j].change_id
                    &&& out@[j].action is None
                },
        decreases ks.len() - i,
    {
        let c = &commits[ks[i]];
        out.push(
            PlanRow {
                sha: c.commit_sha.clone(),
                subject: c.title.clone(),
                change_id: c.change_id.clone(),
                action: None,
            },
        );
        i += 1;
    }
    out
}

/// Whether two lists hold the same texts in the same order.
pub fn same_texts(a: &Vec<String>, b: &Vec<String>) -> (r: bool)
    ensures
        r == (text::texts(a@) == text::texts(b@)),
{
    let ghost x = text::texts(a@);
    let ghost y = text::texts(b@);
    if a.len() != b.len() {
        proof {
            assert(x.len() != y.len());
        }
        return false;
    }
    let mut i: usize = 0;
    while i < a.len()
        invariant
            i <= a.len(),
            a.len() == b.len(),
            x == text::texts(a@),
            y == text::texts(b@),
            forall|j: int| 0 <= j < i ==> #[trigger] x[j] == y[j],
        decreases a.len() - i,
    {
        if !text::same(a[i].as_str(), b[i].as_str()) {
            proof {
                assert(x[i as int] != y[i as int]);
            }
            return false;
        }
        i += 1;
    }
    proof {
        assert(x =~= y);
    }
    true
}

/// The SHAs of all commits of a stack.
pub fn all_shas(commits: &Vec<LocalCommit>) -> (r: Vec<String>)
    ensures
        text::texts(r@) == sequence_editor::shas_of(commits@),
{
    let ghost goal = sequence_editor::shas_of(commits@);
    let mut out: Vec<String> = Vec::new();
    let mut i: usize = 0;
    while i < commits.len()
        invariant
            i <= commits.len(),
            out.len() == i,
            goal == sequence_editor::shas_of(commits@),
            forall|j: int| 0 <= j < i ==> #[trigger] out@[j]@ == goal[j],
        decreases commits.len() - i,
    {
        out.push(commits[i].commit_sha.clone());
        i += 1;
    }
    proof {
        assert(text::texts(out@) =~= goal);
    }
    out
}

/// What a reorder has to do to bring the commits into the order of the
/// prefixes. There has to be one prefix for each commit.
pub fn plan_reorder(
    commit_prefixes: &Vec<String>,
    commits: &Vec<LocalCommit>,
    dry_run: bool,
    binary: &str,
) -> (r: Result<Step, CliError>)
    requires
        crate::match_commit::all_reportable(text::texts(commit_prefixes@), commits@),
    ensures
        if commit_prefixes.len() == 0 {
            r matches Err(e) && e@ == Failure::InvalidState("no commit prefixes given"@)
        } else if commits.len() == 0 {
            r matches Ok(Step::Finished(Outcome::EmptyStack))
        } else if commit_prefixes.len() != commits.len() {
            r matches Err(e) && e@ == Failure::InvalidState(
                "expected "@ + text::decimal(commits.len() as nat) + " commits but got "@ + text::decimal(
                    commit_prefixes.len() as nat,
                ) + " prefixes"@,
            )
        } else {
            match crate::match_commit::all_resolved(
                text::texts(commit_prefixes@),
                commits@,
                None,
                Duplicate::Commit,
            ) {
                Err(x) => r matches Err(e) && e@ == x,
                Ok(cs) => if sequence_editor::shas_of(cs) == sequence_editor::shas_of(commits@) {
                    r matches Ok(Step::Finished(Outcome::AlreadyInOrder))
                } else if dry_run {
                    r matches Ok(Step::Finished(Outcome::DryRun { plan })) && lists(plan@, cs)
                } else {
                    r matches Ok(Step::Rebase { plan, editor }) && lists(plan@, cs) && editor@
                        == sequence_editor::shas_command(
                        binary@,
                        "reorder"@,
                        sequence_editor::shas_of(cs),
                    )
                },
            }
        },
{
    if commit_prefixes.len() == 0 {
        return Err(CliError::InvalidState("no commit prefixes given".to_owned()));
    }
    if commits.len() == 0 {
        return Ok(Step::Finished(Outcome::EmptyStack));
    }
    if commit_prefixes.len() != commits.len() {
        let mut m = "expected ".to_owned();
        m.append(text::decimal_of(commits.len() as u64).as_str());
        m.append(" commits but got ");
        m.append(text::decimal_of(commit_prefixes.len() as u64).as_str());
        m.append(" prefixes");
        return Err(CliError::InvalidState(m));
    }
    let ks = match resolve_all(commit_prefixes, commits, None, Duplicate::Commit) {
        Ok(ks) => ks,
        Err(e) => {
            return Err(e);
        },
    };
    let shas = sequence_editor::shas_at(commits, &ks);
    if same_texts(&shas, &all_shas(commits)) {
        return Ok(Step::Finished(Outcome::AlreadyInOrder));
    }
    let plan = rows_at(commits, &ks);
    if dry_run {
        return Ok(Step::Finished(Outcome::DryRun { plan }));
    }
    let editor = sequence_editor::for_shas(binary, "reorder", &shas);
    Ok(Step::Rebase { plan, editor })
}

/// The plan shows the commits in their new order, without marks.
pub proof fn law_plan_shows_the_order(plan: Seq<PlanRow>, commits: Seq<LocalCommit>, i: int)
    requires
        lists(plan, commits),
        0 <= i < commits.len(),
    ensures
        plan.len() == commits.len(),
        plan[i].sha@ == commits[i].commit_sha@,
        plan[i].subject@ == commits[i].title@,
        plan[i].change_id@ == commits[i].change_id@,
        plan[i].action is None,
{
}

/// A reorder lays the commits out as the prefixes name them, and does nothing
/// exactly where they lie so already.
pub proof fn law_reorder_follows_the_prefixes(
    prefixes: &Vec<String>,
    commits: &Vec<LocalCommit>,
    dry_run: bool,
    binary: &str,
    r: Result<Step, CliError>,
) -> (found: Seq<LocalCommit>)
    requires
        call_ensures(plan_reorder, (prefixes, commits, dry_run, binary), r),
        prefixes@.len() > 0,
        commits@.len() > 0,
        r is Ok,
    ensures
        prefixes@.len() == commits@.len(),
        found.len() == prefixes@.len(),
        forall|i: int|
            0 <= i < prefixes@.len() ==> crate::match_commit::resolved(
                (#[trigger] prefixes@[i])@,
                commits@,
            ) == Ok::<LocalCommit, Failure>(found[i]),
        ({
            let in_order = forall|i: int|
                0 <= i < commits@.len() ==> (#[trigger] found[i]).commit_sha@
                    == commits@[i].commit_sha@;
            let plan = if dry_run {
                r->Ok_0->Finished_0->DryRun_plan@
            } else {
                r->Ok_0->Rebase_plan@
            };
            &&& in_order <==> r->Ok_0 == Step::Finished(Outcome::AlreadyInOrder)
            &&& !in_order && dry_run ==> r->Ok_0 is Finished && r->Ok_0->Finished_0 is DryRun
            &&& !in_order && !dry_run ==> r->Ok_0 is Rebase && r->Ok_0->editor@
                == crate::git::quoted(binary@) + " _internal rebase-todo-rewrite --action "@
                + "reorder"@ + " --shas "@ + crate::git::quoted(
                text::join(found.map_values(|c: LocalCommit| c.commit_sha@), ","@),
            )
            &&& !in_order ==> plan.len() == found.len() && forall|i: int|
                0 <= i < plan.len() ==> (#[trigger] plan[i]).sha@ == found[i].commit_sha@
                    && plan[i].subject@ == found[i].title@ && plan[i].action is None
        }),
{
    let words = text::texts(prefixes@);
    crate::match_commit::law_each_prefix_is_resolved(words, commits@, None, Duplicate::Commit);
    let found = crate::match_commit::all_resolved(words, commits@, None, Duplicate::Commit)->Ok_0;
    assert forall|i: int| 0 <= i < prefixes@.len() implies crate::match_commit::resolved(
        (#[trigger] prefixes@[i])@,
        commits@,
    ) == Ok::<LocalCommit, Failure>(found[i]) by {
        assert(words[i] == prefixes@[i]@);
    }
    let a = sequence_editor::shas_of(found);
    let b = sequence_editor::shas_of(commits@);
    let in_order = forall|i: int|
        0 <= i < commits@.len() ==> (#[trigger] found[i]).commit_sha@ == commits@[i].commit_sha@;
    assert(in_order <==> a == b) by {
        if in_order {
            assert(a =~= b);
        }
        if a == b {
            assert forall|i: int| 0 <= i < commits@.len() implies (#[trigger] found[i]).commit_sha@
                == commits@[i].commit_sha@ by {
                assert(a[i] == b[i]);
            }
        }
    }
    assert(a =~= found.map_values(|c: LocalCommit| c.commit_sha@));
    sequence_editor::law_editor_command_reads(binary@, "reorder"@, a, seq![], seq![], seq![]);
    found
}

} // verus!
