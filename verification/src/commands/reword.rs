//! `stack reword`: another message for a commit of the stack.
use crate::error::CliError;
use crate::local_commits::LocalCommit;
use crate::match_commit::resolve_commit;
use crate::sequence_editor;
use vstd::prelude::*;

verus! {

/// The commit that gets another message.
#[derive(Debug, Clone, PartialEq, Eq)]
pub struct RewordedCommit {
    pub sha: String,
    pub subject: String,
}

/// How a reword ended.
#[derive(Debug, Clone, PartialEq, Eq)]
pub enum Outcome {
    Reworded { commit: RewordedCommit },
    /// Nothing was done. `inline_message` is whether the message was given.
    DryRun { commit: RewordedCommit, inline_message: bool },
    EmptyStack,
}

/// What a reword has to do.
#[derive(Debug, Clone, PartialEq, Eq)]
pub enum Step {
    /// Nothing more.
    Finished(Outcome),
    /// A rebase with [`sequence_editor`] as its editor.
    Rebase { commit: RewordedCommit },
}

/// What a reword of the commit that a prefix means has to do.
pub fn plan_reword(
    commit_prefix: &str,
    commits: &Vec<LocalCommit>,
    inline_message: bool,
    dry_run: bool,
) -> (r: Result<Step, CliError>)
    requires
        crate::match_commit::reportable(commit_prefix@, commits@),
    ensures
        if commits.len() == 0 {
            r matches Ok(Step::Finished(Outcome::EmptyStack))
        } else {
            match crate::match_commit::resolved(commit_prefix@, commits@) {
                Err(x) => r matches Err(e) && e@ == x,
                Ok(c) => if dry_run {
                    r matches Ok(Step::Finished(Outcome::DryRun { commit, inline_message: m }))
                        && commit.sha == c.commit_sha && commit.subject == c.title && m
                        == inline_message
                } else {
                    r matches Ok(Step::Rebase { commit }) && commit.sha == c.commit_sha
                        && commit.subject == c.title
                },
            }
        },
{
    if commits.len() == 0 {
        return Ok(Step::Finished(Outcome::EmptyStack));
    }
    match resolve_commit(commit_prefix, commits) {
        Ok(k) => {
            let c = &commits[k];
            let commit = RewordedCommit { sha: c.commit_sha.clone(), subject: c.title.clone() };
            if dry_run {
                Ok(Step::Finished(Outcome::DryRun { commit, inline_message }))
            } else {
                Ok(Step::Rebase { commit })
            }
        },
        Err(e) => Err(e),
    }
}

/// The editor of the rebase. With a file that holds the message the commit is
/// amended with it; else git asks the user.
pub fn reword_editor(binary: &str, sha: &str, message_path: Option<&str>) -> (r: String)
    ensures
        r@ == (match message_path {
            Some(path) => sequence_editor::exec_command(
                binary@,
                sha@,
                sequence_editor::amend_with(path@),
            ),
            None => sequence_editor::sha_command(binary@, "reword"@, sha@),
        }),
{
    match message_path {
        Some(path) => sequence_editor::for_exec(
            binary,
            sha,
            sequence_editor::amend_command(path).as_str(),
        ),
        None => sequence_editor::for_sha(binary, "reword", sha),
    }
}

/// A reword changes the message of the commit that the prefix names. A preview
/// changes nothing and says whether a message was given.
pub proof fn law_reword_takes_the_named_commit(
    prefix: &str,
    commits: &Vec<LocalCommit>,
    inline_message: bool,
    dry_run: bool,
    r: Result<Step, CliError>,
)
    requires
        call_ensures(plan_reword, (prefix, commits, inline_message, dry_run), r),
    ensures
        commits@.len() == 0 ==> r == Ok::<Step, CliError>(Step::Finished(Outcome::EmptyStack)),
        commits@.len() > 0 ==> {
            let found = crate::match_commit::resolved(prefix@, commits@);
            let commit = if dry_run {
                r->Ok_0->Finished_0->DryRun_commit
            } else {
                r->Ok_0->Rebase_commit
            };
            &&& r is Ok <==> found is Ok
            &&& r is Err ==> r->Err_0@ == found->Err_0
            &&& r is Ok ==> commit.sha@ == found->Ok_0.commit_sha@ && commit.subject@
                == found->Ok_0.title@
            &&& r is Ok && dry_run ==> r->Ok_0 is Finished && r->Ok_0->Finished_0 is DryRun
                && r->Ok_0->Finished_0->DryRun_inline_message == inline_message
            &&& r is Ok && !dry_run ==> r->Ok_0 is Rebase
        },
{
}

/// A message at hand is put on the commit once it has been picked; without one the
/// rebase asks for it.
pub proof fn law_reword_uses_the_message(
    binary: &str,
    sha: &str,
    path: &str,
    asked: String,
    given: String,
)
    requires
        call_ensures(reword_editor, (binary, sha, None), asked),
        call_ensures(reword_editor, (binary, sha, Some(path)), given),
    ensures
        asked@ == crate::git::quoted(binary@) + " _internal rebase-todo-rewrite --action "@
            + "reword"@ + " --sha "@ + crate::git::quoted(sha@),
        given@ == crate::git::quoted(binary@) + " _internal rebase-todo-rewrite --action "@
            + "exec-after"@ + " --sha "@ + crate::git::quoted(sha@) + " --command "@
            + crate::git::quoted("git commit --amend -F "@ + crate::git::quoted(path@)),
{
    sequence_editor::law_editor_command_reads(
        binary@,
        "reword"@,
        seq![],
        sha@,
        sequence_editor::amend_with(path@),
        seq![],
    );
    sequence_editor::law_editor_command_reads(binary@, "exec-after"@, seq![], sha@, seq![], seq![]);
    sequence_editor::law_editor_command_reads(binary@, "reword"@, seq![], path@, seq![], seq![]);
}

} // verus!
