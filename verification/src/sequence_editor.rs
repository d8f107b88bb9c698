//! The command that git runs as its editor for the list of a rebase: this
//! program again, with what it has to do to the list.
use crate::error::{CliError, Failure};
use crate::git::shell_quote;
use crate::local_commits::LocalCommit;
use crate::text;
use vstd::prelude::*;

verus! {

/// The start of the command for `action`.
pub open spec fn rewrite_command(binary: Seq<char>, action: Seq<char>) -> Seq<char> {
    crate::git::quoted(binary) + " _internal rebase-todo-rewrite --action "@ + action
}

/// The command for an action on some commits.
pub open spec fn shas_command(binary: Seq<char>, action: Seq<char>, shas: Seq<Seq<char>>) -> Seq<
    char,
> {
    rewrite_command(binary, action) + " --shas "@ + crate::git::quoted(text::join(shas, ","@))
}

/// The command for an action on one commit.
pub open spec fn sha_command(binary: Seq<char>, action: Seq<char>, sha: Seq<char>) -> Seq<char> {
    rewrite_command(binary, action) + " --sha "@ + crate::git::quoted(sha)
}

/// The command that runs another one after a commit.
pub open spec fn exec_command(binary: Seq<char>, sha: Seq<char>, command: Seq<char>) -> Seq<char> {
    sha_command(binary, "exec-after"@, sha) + " --command "@ + crate::git::quoted(command)
}

/// The command that folds commits into another one, and runs a command after
/// the last of them where there is one.
pub open spec fn squash_command(
    binary: Seq<char>,
    ordered: Seq<Seq<char>>,
    fixups: Seq<Seq<char>>,
    exec: Option<(Seq<char>, Seq<char>)>,
) -> Seq<char> {
    shas_command(binary, "squash"@, ordered) + " --fixup-shas "@ + crate::git::quoted(
        text::join(fixups, ","@),
    ) + (match exec {
        Some((sha, command)) => " --sha "@ + crate::git::quoted(sha) + " --command "@
            + crate::git::quoted(command),
        None => seq![],
    })
}

/// The command that gives a commit the message in a file.
pub open spec fn amend_with(path: Seq<char>) -> Seq<char> {
    "git commit --amend -F "@ + crate::git::quoted(path)
}

fn rewrite_start(binary: &str, action: &str) -> (r: String)
    ensures
        r@ == rewrite_command(binary@, action@),
{
    let mut c = shell_quote(binary);
    c.append(" _internal rebase-todo-rewrite --action ");
    c.append(action);
    c
}

/// The command for an action on some commits.
pub fn for_shas(binary: &str, action: &str, shas: &Vec<String>) -> (r: String)
    ensures
        r@ == shas_command(binary@, action@, text::texts(shas@)),
{
    let mut c = rewrite_start(binary, action);
    c.append(" --shas ");
    c.append(shell_quote(text::join_with(shas, ",").as_str()).as_str());
    c
}

/// The command for an action on one commit.
pub fn for_sha(binary: &str, action: &str, sha: &str) -> (r: String)
    ensures
        r@ == sha_command(binary@, action@, sha@),
{
    let mut c = rewrite_start(binary, action);
    c.append(" --sha ");
    c.append(shell_quote(sha).as_str());
    c
}

/// The command that runs another one after a commit.
pub fn for_exec(binary: &str, sha: &str, command: &str) -> (r: String)
    ensures
        r@ == exec_command(binary@, sha@, command@),
{
    let mut c = for_sha(binary, "exec-after", sha);
    c.append(" --command ");
    c.append(shell_quote(command).as_str());
    c
}

/// The command that folds commits into another one, and runs a command after
/// the last of them where there is one.
pub fn for_squash(
    binary: &str,
    ordered: &Vec<String>,
    fixups: &Vec<String>,
    exec: Option<(&str, &str)>,
) -> (r: String)
    ensures
        r@ == squash_command(
            binary@,
            text::texts(ordered@),
            text::texts(fixups@),
            match exec {
                Some((sha, command)) => Some((sha@, command@)),
                None => None,
            },
        ),
{
    let mut c = for_shas(binary, "squash", ordered);
    c.append(" --fixup-shas ");
    c.append(shell_quote(text::join_with(fixups, ",").as_str()).as_str());
    let mut tail = String::new();
    proof {
        assert(tail@ =~= seq![]);
    }
    if let Some((sha, command)) = exec {
        tail = " --sha ".to_owned();
        tail.append(shell_quote(sha).as_str());
        tail.append(" --command ");
        tail.append(shell_quote(command).as_str());
    }
    c.append(tail.as_str());
    c
}

/// The command that gives a commit the message in a file.
pub fn amend_command(path: &str) -> (r: String)
    ensures
        r@ == amend_with(path@),
{
    let mut c = "git commit --amend -F ".to_owned();
    c.append(shell_quote(path).as_str());
    c
}

/// The SHAs of some commits.
pub open spec fn shas_of(commits: Seq<LocalCommit>) -> Seq<Seq<char>> {
    commits.map_values(|c: LocalCommit| c.commit_sha@)
}

/// The SHAs of the commits at some places.
pub fn shas_at(commits: &Vec<LocalCommit>, ks: &Vec<usize>) -> (r: Vec<String>)
    requires
        forall|i: int| 0 <= i < ks.len() ==> #[trigger] ks@[i] < commits.len(),
    ensures
        text::texts(r@) == shas_of(crate::match_commit::at_indices(commits@, ks@)),
{
    let ghost goal = shas_of(crate::match_commit::at_indices(commits@, ks@));
    let mut out: Vec<String> = Vec::new();
    let mut i: usize = 0;
    while i < ks.len()
        invariant
            i <= ks.len(),
            out.len() == i,
            goal == shas_of(crate::match_commit::at_indices(commits@, ks@)),
            forall|j: int| 0 <= j < ks.len() ==> #[trigger] ks@[j] < commits.len(),
            forall|j: int| 0 <= j < i ==> #[trigger] out@[j]@ == goal[j],
        decreases ks.len() - i,
    {
        let k: usize = ks[i];
        out.push(commits[k].commit_sha.clone());
        i += 1;
    }
    proof {
        assert(text::texts(out@) =~= goal);
    }
    out
}

/// The error where the trunk cannot be told, for this reason.
pub fn no_trunk(reason: &str) -> (r: CliError)
    ensures
        r@ == Failure::StackNotFound(
            "could not determine trunk branch ("@ + reason@
                + "). Please set upstream tracking or set a base manually."@,
        ),
{
    let mut m = "could not determine trunk branch (".to_owned();
    m.append(reason);
    m.append("). Please set upstream tracking or set a base manually.");
    CliError::StackNotFound(m)
}

/// The editor of a rebase is this program, told what to do with which commits:
/// every word that comes from outside is quoted.
pub proof fn law_editor_command_reads(
    binary: Seq<char>,
    action: Seq<char>,
    shas: Seq<Seq<char>>,
    sha: Seq<char>,
    command: Seq<char>,
    fixups: Seq<Seq<char>>,
)
    ensures
        shas_command(binary, action, shas) == crate::git::quoted(binary)
            + " _internal rebase-todo-rewrite --action "@ + action + " --shas "@
            + crate::git::quoted(text::join(shas, ","@)),
        sha_command(binary, action, sha) == crate::git::quoted(binary)
            + " _internal rebase-todo-rewrite --action "@ + action + " --sha "@
            + crate::git::quoted(sha),
        exec_command(binary, sha, command) == sha_command(binary, "exec-after"@, sha)
            + " --command "@ + crate::git::quoted(command),
        squash_command(binary, shas, fixups, None) == shas_command(binary, "squash"@, shas)
            + " --fixup-shas "@ + crate::git::quoted(text::join(fixups, ","@)),
        squash_command(binary, shas, fixups, Some((sha, command))) == squash_command(
            binary,
            shas,
            fixups,
            None,
        ) + (" --sha "@ + crate::git::quoted(sha) + " --command "@ + crate::git::quoted(command)),
        amend_with(sha) == "git commit --amend -F "@ + crate::git::quoted(sha),
{
    assert(squash_command(binary, shas, fixups, None) =~= shas_command(binary, "squash"@, shas)
        + " --fixup-shas "@ + crate::git::quoted(text::join(fixups, ","@)));
}

/// The commits are handed over by their SHAs, in their order.
pub proof fn law_shas_keep_their_order(commits: Seq<LocalCommit>, i: int)
    requires
        0 <= i < commits.len(),
    ensures
        shas_of(commits).len() == commits.len(),
        shas_of(commits)[i] == commits[i].commit_sha@,
{
}

} // verus!
