//! What the stack commands ask of git, and what they make of its answers.
use crate::error::{CliError, Failure};
use crate::local_commits::STACK_NOTES_REF;
use crate::outside;
use crate::text;
use vstd::prelude::*;

verus! {

/// The `-c` overrides that make git carry the notes of a rewritten commit over
/// to its replacement.
pub open spec fn notes_rewrite_args() -> Seq<Seq<char>> {
    seq![
        "-c"@,
        "notes.rewriteRef="@ + STACK_NOTES_REF@,
        "-c"@,
        "notes.rewriteMode=concatenate"@,
        "-c"@,
        "notes.rewrite.rebase=true"@,
    ]
}

/// The `-c` overrides that make git carry the notes of a rewritten commit over
/// to its replacement: a note belongs to a SHA, and would stay behind.
pub fn notes_rewrite_config() -> (r: Vec<String>)
    ensures
        text::texts(r@) == notes_rewrite_args(),
{
    let mut by_ref = "notes.rewriteRef=".to_owned();
    by_ref.append(STACK_NOTES_REF);
    let mut out: Vec<String> = Vec::new();
    out.push("-c".to_owned());
    out.push(by_ref);
    out.push("-c".to_owned());
    out.push("notes.rewriteMode=concatenate".to_owned());
    out.push("-c".to_owned());
    out.push("notes.rewrite.rebase=true".to_owned());
    proof {
        assert(text::texts(out@) =~= notes_rewrite_args());
    }
    out
}

/// The error of a git call that failed.
pub open spec fn git_error(args: Seq<Seq<char>>, stderr: Seq<char>) -> Failure {
    if text::trim(stderr).len() == 0 {
        Failure::Generic("`git "@ + text::join(args, " "@) + "` failed"@)
    } else {
        Failure::Generic(text::trim(stderr))
    }
}

/// The error of a git call that failed: what git said, or the call where git
/// said nothing.
pub fn git_failure(args: &Vec<String>, stderr: &str) -> (r: CliError)
    ensures
        r@ == git_error(text::texts(args@), stderr@),
{
    let err = text::trimmed(stderr);
    if err.as_str().is_empty() {
        let mut msg = "`git ".to_owned();
        msg.append(text::join_with(args, " ").as_str());
        msg.append("` failed");
        CliError::Generic(msg)
    } else {
        CliError::Generic(err)
    }
}

/// A text, or what is wrong with it.
pub open spec fn read_text(r: Result<String, String>) -> Result<Seq<char>, Seq<char>> {
    match r {
        Ok(s) => Ok(s@),
        Err(e) => Err(e@),
    }
}

/// The text that bytes encode, or what is wrong with them.
pub open spec fn decoded(bytes: Seq<u8>) -> Result<Seq<char>, Seq<char>> {
    if vstd::utf8::valid_utf8(bytes) {
        Ok(vstd::utf8::decode_utf8(bytes))
    } else {
        Err(outside::utf8_error(bytes))
    }
}

/// The output of git as text, or what is wrong with it.
pub fn stdout_text(bytes: &[u8]) -> (r: Result<String, String>)
    ensures
        read_text(r) == decoded(bytes@),
{
    outside::utf8_text(bytes)
}

/// What git complains about, as far as it is text.
pub fn stderr_text(bytes: &[u8]) -> (r: String)
    ensures
        r@ == outside::lossy(bytes@),
{
    outside::lossy_text(bytes)
}

/// What a git call gave. `stdout` is its output, or what is wrong with it
/// where it is not UTF-8.
pub open spec fn git_result(
    args: Seq<Seq<char>>,
    succeeded: bool,
    stdout: Result<Seq<char>, Seq<char>>,
    stderr: Seq<char>,
) -> Result<Seq<char>, Failure> {
    if !succeeded {
        Err(git_error(args, stderr))
    } else {
        match stdout {
            Ok(out) => Ok(text::trim_end(out)),
            Err(why) => Err(
                Failure::Generic(
                    "`git "@ + text::join(args, " "@) + "` output is not UTF-8: "@ + why,
                ),
            ),
        }
    }
}

/// What a git call gave: its output without the white space at its end, or the
/// error.
pub fn git_text(args: &Vec<String>, succeeded: bool, stdout: Result<String, String>, stderr: &str)
    -> (r: Result<String, CliError>)
    ensures
        crate::error::text_outcome(r) == git_result(
            text::texts(args@),
            succeeded,
            read_text(stdout),
            stderr@,
        ),
{
    if !succeeded {
        return Err(git_failure(args, stderr));
    }
    match stdout {
        Ok(out) => Ok(text::trimmed_end(out.as_str())),
        Err(why) => {
            let mut msg = "`git ".to_owned();
            msg.append(text::join_with(args, " ").as_str());
            msg.append("` output is not UTF-8: ");
            msg.append(why.as_str());
            Err(CliError::Generic(msg))
        },
    }
}

/// What a git call gave, from the bytes that it wrote.
pub fn git_output(args: &Vec<String>, succeeded: bool, stdout: &[u8], stderr: &[u8]) -> (r: Result<
    String,
    CliError,
>)
    ensures
        crate::error::text_outcome(r) == git_result(
            text::texts(args@),
            succeeded,
            decoded(stdout@),
            outside::lossy(stderr@),
        ),
{
    git_text(args, succeeded, stdout_text(stdout), stderr_text(stderr).as_str())
}

/// Whether a git call whose output does not matter went well.
pub fn git_silent(args: &Vec<String>, succeeded: bool, stderr: &[u8]) -> (r: Result<(), CliError>)
    ensures
        match r {
            Ok(_) => succeeded,
            Err(e) => !succeeded && e@ == git_error(text::texts(args@), outside::lossy(stderr@)),
        },
{
    if succeeded {
        Ok(())
    } else {
        Err(git_failure(args, stderr_text(stderr).as_str()))
    }
}

/// The arguments of the scripted rebase onto `base`.
pub open spec fn rebase_arguments(base: Seq<char>, reapply_cherry_picks: bool) -> Seq<Seq<char>> {
    notes_rewrite_args() + seq!["rebase"@, "-i"@] + (if reapply_cherry_picks {
        seq!["--reapply-cherry-picks"@]
    } else {
        seq![]
    }) + seq![base]
}

/// The arguments of the scripted rebase onto `base`. `reapply_cherry_picks`
/// keeps the commits in the todo list whose change the base already has, so
/// that the list stays the only authority on what the rebase removes.
pub fn rebase_args(base: &str, reapply_cherry_picks: bool) -> (r: Vec<String>)
    ensures
        text::texts(r@) == rebase_arguments(base@, reapply_cherry_picks),
{
    let mut out = notes_rewrite_config();
    out.push("rebase".to_owned());
    out.push("-i".to_owned());
    if reapply_cherry_picks {
        out.push("--reapply-cherry-picks".to_owned());
    }
    out.push(base.to_owned());
    proof {
        assert(text::texts(out@) =~= rebase_arguments(base@, reapply_cherry_picks));
    }
    out
}

/// What a finished rebase means.
pub open spec fn rebase_result(succeeded: bool, in_progress: bool, stderr: Seq<char>) -> Option<Failure> {
    if succeeded {
        None
    } else if in_progress {
        Some(
            Failure::Conflict(
                "rebase failed — there may be conflicts\nResolve conflicts then run: git rebase --continue\nOr abort the rebase with: git rebase --abort"@,
            ),
        )
    } else if text::trim(stderr).len() == 0 {
        Some(Failure::Generic("git rebase failed"@))
    } else {
        Some(Failure::Generic("git rebase failed: "@ + text::trim(stderr)))
    }
}

/// What a finished rebase means. A rebase that stopped half way is a conflict
/// that the user can resolve; one that never started is reported as it is.
pub fn rebase_outcome(succeeded: bool, in_progress: bool, stderr: &str) -> (r: Result<(), CliError>)
    ensures
        match r {
            Ok(_) => rebase_result(succeeded, in_progress, stderr@) is None,
            Err(e) => rebase_result(succeeded, in_progress, stderr@) == Some(e@),
        },
{
    if succeeded {
        return Ok(());
    }
    if in_progress {
        return Err(
            CliError::Conflict(
                "rebase failed — there may be conflicts\nResolve conflicts then run: git rebase --continue\nOr abort the rebase with: git rebase --abort".to_owned(),
            ),
        );
    }
    let err = text::trimmed(stderr);
    if err.as_str().is_empty() {
        return Err(CliError::Generic("git rebase failed".to_owned()));
    }
    let mut msg = "git rebase failed: ".to_owned();
    msg.append(err.as_str());
    Err(CliError::Generic(msg))
}

/// The base of a stack: the fork point where git knows one, else the merge
/// base with the trunk.
pub open spec fn base_commit(
    fork_point: Result<String, CliError>,
    merge_base: Result<String, CliError>,
    trunk_ref: Seq<char>,
    dest_branch: Seq<char>,
) -> Result<Seq<char>, Failure> {
    if fork_point matches Ok(sha) && sha@.len() > 0 {
        Ok(fork_point->Ok_0@)
    } else {
        match merge_base {
            Err(e) => Err(e@),
            Ok(sha) => if sha@.len() == 0 {
                Err(
                    Failure::StackNotFound(
                        "common commit between `"@ + trunk_ref + "` and `"@ + dest_branch
                            + "` branches not found"@,
                    ),
                )
            } else {
                Ok(sha@)
            },
        }
    }
}

/// Whether the merge base has to be asked for: git knows no fork point.
pub fn needs_merge_base(fork_point: &Result<String, CliError>) -> (r: bool)
    ensures
        r == !(fork_point matches Ok(sha) && sha@.len() > 0),
{
    match fork_point {
        Ok(sha) => sha.as_str().is_empty(),
        Err(_) => true,
    }
}

/// The base of a stack, from what `git merge-base` said with and without
/// `--fork-point`. Where the branch shares no history with the trunk there is
/// none.
pub fn compute_base_commit_sha(
    fork_point: Result<String, CliError>,
    merge_base: Result<String, CliError>,
    trunk_ref: &str,
    dest_branch: &str,
) -> (r: Result<String, CliError>)
    ensures
        crate::error::text_outcome(r) == base_commit(
            fork_point,
            merge_base,
            trunk_ref@,
            dest_branch@,
        ),
{
    if let Ok(sha) = fork_point {
        if !sha.as_str().is_empty() {
            return Ok(sha);
        }
    }
    match merge_base {
        Err(e) => Err(e),
        Ok(sha) => {
            if sha.as_str().is_empty() {
                let mut msg = "common commit between `".to_owned();
                msg.append(trunk_ref);
                msg.append("` and `");
                msg.append(dest_branch);
                msg.append("` branches not found");
                Err(CliError::StackNotFound(msg))
            } else {
                Ok(sha)
            }
        },
    }
}

/// A value in single quotes for a POSIX shell.
pub open spec fn quoted(value: Seq<char>) -> Seq<char> {
    "'"@ + text::replace_all(value, "'"@, "'\\''"@) + "'"@
}

/// Quote a value for a POSIX shell.
pub fn shell_quote(value: &str) -> (r: String)
    ensures
        r@ == quoted(value@),
{
    proof {
        reveal_strlit("'");
    }
    let mut out = "'".to_owned();
    out.append(text::replaced(value, "'", "'\\''").as_str());
    out.append("'");
    out
}

/// The characters that a POSIX shell reads from a word made of single-quoted
/// strings and backslash-escaped characters, starting inside or outside
/// quotes. `None` where the word ends inside quotes or holds anything else.
pub open spec fn shell_word(s: Seq<char>, in_quotes: bool) -> Option<Seq<char>>
    decreases s.len(),
{
    if s.len() == 0 {
        if in_quotes {
            None
        } else {
            Some(seq![])
        }
    } else if in_quotes {
        if s[0] == '\'' {
            shell_word(s.skip(1), false)
        } else {
            match shell_word(s.skip(1), true) {
                Some(t) => Some(seq![s[0]] + t),
                None => None,
            }
        }
    } else if s[0] == '\'' {
        shell_word(s.skip(1), true)
    } else if s[0] == '\\' && s.len() > 1 {
        match shell_word(s.skip(2), false) {
            Some(t) => Some(seq![s[1]] + t),
            None => None,
        }
    } else {
        None
    }
}

/// A shell reads a quoted value as the value, whatever it holds.
pub proof fn law_quoted_reads_back(value: Seq<char>)
    ensures
        shell_word(quoted(value), false) == Some(value),
{
    reveal_strlit("'");
    let body = text::replace_all(value, "'"@, "'\\''"@);
    lemma_body_reads_back(value);
    assert(quoted(value).skip(1) =~= body + "'"@);
}

proof fn lemma_body_reads_back(value: Seq<char>)
    ensures
        shell_word(text::replace_all(value, "'"@, "'\\''"@) + "'"@, true) == Some(value),
    decreases value.len(),
{
    reveal_strlit("'");
    reveal_strlit("'\\''");
    let q = "'"@;
    let e = "'\\''"@;
    let body = text::replace_all(value, q, e) + q;
    if value.len() == 0 {
        assert(body =~= q);
        assert(body.skip(1) =~= seq![]);
        assert(value =~= seq![]);
        assert(shell_word(body.skip(1), false) == Some(Seq::<char>::empty()));
    } else {
        let rest = value.skip(1);
        lemma_body_reads_back(rest);
        let tail = text::replace_all(rest, q, e) + q;
        if value[0] == '\'' {
            assert(value.subrange(0, 1) =~= q);
            assert(body =~= e + tail);
            assert(body.skip(1).skip(2).skip(1) =~= tail);
            assert(body[0] == '\'');
            assert(body.skip(1)[0] == '\\');
            assert(body.skip(1)[1] == '\'');
            assert(body.skip(1).skip(2)[0] == '\'');
            reveal_with_fuel(shell_word, 4);
            assert(seq!['\''] + rest =~= value);
        } else {
            assert(!text::occurs_at(value, q, 0)) by {
                assert(value.subrange(0, 1)[0] == value[0]);
            }
            assert(body =~= seq![value[0]] + tail);
            assert(body.skip(1) =~= tail);
            assert(seq![value[0]] + rest =~= value);
        }
    }
}

/// The base of a stack is the fork point where git names one, else the merge
/// base; where neither is there, there is no stack.
pub proof fn law_fork_point_comes_first(
    fork_point: Result<String, CliError>,
    merge_base: Result<String, CliError>,
    trunk_ref: Seq<char>,
    branch: Seq<char>,
)
    ensures
        ({
            let r = base_commit(fork_point, merge_base, trunk_ref, branch);
            let forked = fork_point is Ok && fork_point->Ok_0@.len() > 0;
            &&& forked ==> r == Ok::<Seq<char>, Failure>(fork_point->Ok_0@)
            &&& !forked && merge_base is Ok && merge_base->Ok_0@.len() > 0 ==> r == Ok::<
                Seq<char>,
                Failure,
            >(merge_base->Ok_0@)
            &&& !forked && merge_base is Err ==> r == Err::<Seq<char>, Failure>(merge_base->Err_0@)
            &&& !forked && merge_base is Ok && merge_base->Ok_0@.len() == 0 ==> r == Err::<
                Seq<char>,
                Failure,
            >(
                Failure::StackNotFound(
                    "common commit between `"@ + trunk_ref + "` and `"@ + branch
                        + "` branches not found"@,
                ),
            )
        }),
{
}

/// A rebase that stopped half way is a conflict; any other failure is not, and
/// is reported with what git said.
pub proof fn law_stopped_rebase_is_a_conflict(in_progress: bool, stderr: Seq<char>)
    ensures
        rebase_result(true, in_progress, stderr) is None,
        rebase_result(false, true, stderr) matches Some(Failure::Conflict(_)),
        text::trim(stderr).len() > 0 ==> rebase_result(false, false, stderr) == Some(
            Failure::Generic("git rebase failed: "@ + text::trim(stderr)),
        ),
        text::trim(stderr).len() == 0 ==> rebase_result(false, false, stderr) == Some(
            Failure::Generic("git rebase failed"@),
        ),
{
}

/// A git call that failed gives an error whatever it printed, and one that went
/// well its output without the white space at the end.
pub proof fn law_failed_calls_give_no_output(
    args: Seq<Seq<char>>,
    stdout: Result<Seq<char>, Seq<char>>,
    stderr: Seq<char>,
)
    ensures
        text::trim(stderr).len() > 0 ==> git_result(args, false, stdout, stderr) == Err::<
            Seq<char>,
            Failure,
        >(Failure::Generic(text::trim(stderr))),
        text::trim(stderr).len() == 0 ==> git_result(args, false, stdout, stderr) == Err::<
            Seq<char>,
            Failure,
        >(Failure::Generic("`git "@ + text::join(args, " "@) + "` failed"@)),
        stdout is Ok ==> git_result(args, true, stdout, stderr) == Ok::<Seq<char>, Failure>(
            text::trim_end(stdout->Ok_0),
        ),
        stdout is Err ==> git_result(args, true, stdout, stderr) is Err,
{
}

/// A scripted rebase carries the notes along, is interactive, and keeps what the
/// base already has exactly where that is asked for.
pub proof fn law_rebase_reads(base: Seq<char>)
    ensures
        rebase_arguments(base, false) == seq![
            "-c"@,
            "notes.rewriteRef=refs/notes/mergify/stack"@,
            "-c"@,
            "notes.rewriteMode=concatenate"@,
            "-c"@,
            "notes.rewrite.rebase=true"@,
            "rebase"@,
            "-i"@,
            base,
        ],
        rebase_arguments(base, true) == seq![
            "-c"@,
            "notes.rewriteRef=refs/notes/mergify/stack"@,
            "-c"@,
            "notes.rewriteMode=concatenate"@,
            "-c"@,
            "notes.rewrite.rebase=true"@,
            "rebase"@,
            "-i"@,
            "--reapply-cherry-picks"@,
            base,
        ],
{
    reveal_strlit("notes.rewriteRef=");
    reveal_strlit("refs/notes/mergify/stack");
    reveal_strlit("notes.rewriteRef=refs/notes/mergify/stack");
    assert("notes.rewriteRef="@ + STACK_NOTES_REF@ =~= "notes.rewriteRef=refs/notes/mergify/stack"@);
    assert(rebase_arguments(base, false) =~= seq![
        "-c"@,
        "notes.rewriteRef=refs/notes/mergify/stack"@,
        "-c"@,
        "notes.rewriteMode=concatenate"@,
        "-c"@,
        "notes.rewrite.rebase=true"@,
        "rebase"@,
        "-i"@,
        base,
    ]);
    assert(rebase_arguments(base, true) =~= seq![
        "-c"@,
        "notes.rewriteRef=refs/notes/mergify/stack"@,
        "-c"@,
        "notes.rewriteMode=concatenate"@,
        "-c"@,
        "notes.rewrite.rebase=true"@,
        "rebase"@,
        "-i"@,
        "--reapply-cherry-picks"@,
        base,
    ]);
}

/// The merge base is asked for where no fork point was found.
pub proof fn law_merge_base_is_the_second_choice(fork_point: &Result<String, CliError>, r: bool)
    requires
        call_ensures(needs_merge_base, (fork_point,), r),
    ensures
        fork_point is Err ==> r,
        fork_point is Ok ==> (r <==> fork_point->Ok_0@.len() == 0),
{
}

/// A call without output succeeds exactly where git does.
pub proof fn law_silent_call_succeeds_with_git(
    args: &Vec<String>,
    succeeded: bool,
    stderr: &[u8],
    r: Result<(), CliError>,
)
    requires
        call_ensures(git_silent, (args, succeeded, stderr), r),
    ensures
        r is Ok <==> succeeded,
{
}

} // verus!
