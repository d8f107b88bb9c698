//! `stack edit`: at which commit a rebase of the stack stops.
use crate::error::CliError;
use crate::local_commits::LocalCommit;
use crate::match_commit::resolve_commit;
use crate::sequence_editor;
use vstd::prelude::*;

verus! {

/// The commit that is edited.
#[derive(Debug, Clone, PartialEq, Eq)]
pub struct EditingCommit {
    pub sha: String,
    pub subject: String,
}

/// How an edit ended.
#[derive(Debug, Clone, PartialEq, Eq)]
pub enum Outcome {
    /// The user went through the list of the rebase.
    InteractiveCompleted,
    /// The rebase stopped at a commit.
    PausedAt { commit: EditingCommit },
    EmptyStack,
}

/// What an edit has to do.
#[derive(Debug, Clone, PartialEq, Eq)]
pub enum Step {
    /// Nothing more.
    Finished(Outcome),
    /// A rebase with this command as its editor.
    Rebase { commit: EditingCommit, editor: String },
}

/// What an edit of the commit that a prefix means has to do.
pub fn plan_edit(commit_prefix: &str, commits: &Vec<LocalCommit>, binary: &str) -> (r: Result<
    Step,
    CliError,
>)
    requires
        crate::match_commit::reportable(commit_prefix@, commits@),
    ensures
        if commits.len() == 0 {
            r matches Ok(Step::Finished(Outcome::EmptyStack))
        } else {
            match crate::match_commit::resolved(commit_prefix@, commits@) {
                Err(x) => r matches Err(e) && e@ == x,
                Ok(c) => r matches Ok(Step::Rebase { commit, editor }) && commit.sha == c.commit_sha
                    && commit.subject == c.title && editor@ == sequence_editor::sha_command(
                    binary@,
                    "edit"@,
                    c.commit_sha@,
                ),
            }
        },
{
    if commits.len() == 0 {
        return Ok(Step::Finished(Outcome::EmptyStack));
    }
    match resolve_commit(commit_prefix, commits) {
        Ok(k) => {
            let c = &commits[k];
            let editor = sequence_editor::for_sha(binary, "edit", c.commit_sha.as_str());
            Ok(
                Step::Rebase {
                    commit: EditingCommit {
                        sha: c.commit_sha.clone(),
                        subject: c.title.clone(),
                    },
                    editor,
                },
            )
        },
        Err(e) => Err(e),
    }
}

/// An edit stops at the commit that the prefix names, and fails exactly where the
/// prefix names none in a stack that has commits.
pub proof fn law_edit_stops_at_the_named_commit(
    prefix: &str,
    commits: &Vec<LocalCommit>,
    binary: &str,
    r: Result<Step, CliError>,
)
    requires
        call_ensures(plan_edit, (prefix, commits, binary), r),
    ensures
        commits@.len() == 0 ==> r == Ok::<Step, CliError>(Step::Finished(Outcome::EmptyStack)),
        commits@.len() > 0 ==> {
            let found = crate::match_commit::resolved(prefix@, commits@);
            &&& r is Ok <==> found is Ok
            &&& r is Err ==> r->Err_0@ == found->Err_0
            &&& r is Ok ==> {
                &&& r->Ok_0 is Rebase
                &&& r->Ok_0->commit.sha@ == found->Ok_0.commit_sha@
                &&& r->Ok_0->commit.subject@ == found->Ok_0.title@
                &&& r->Ok_0->editor@ == crate::git::quoted(binary@)
                    + " _internal rebase-todo-rewrite --action "@ + "edit"@ + " --sha "@
                    + crate::git::quoted(found->Ok_0.commit_sha@)
            }
        },
{
    let found = crate::match_commit::resolved(prefix@, commits@);
    if found is Ok {
        sequence_editor::law_editor_command_reads(
            binary@,
            "edit"@,
            seq![],
            found->Ok_0.commit_sha@,
            seq![],
            seq![],
        );
    }
}

} // verus!
