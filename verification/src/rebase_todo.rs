//! Rewrite the todo list that `git rebase -i` would otherwise open in an
//! editor.
//!
//! A line of the list is `<verb> <sha> <subject>`, for example
//! `pick 1a2b3c4d feat: add foo`. Blank lines and comments are kept as they
//! are.
use crate::error::{CliError, Failure};
use crate::text;
use vstd::prelude::*;

verus! {

/// What [`rewrite`] does with the targeted commits. A target matches a line
/// where one of the two SHAs is a prefix of the other.
#[derive(Debug, Clone, PartialEq, Eq)]
pub enum Action {
    /// Mark `sha` as `edit`, so that the rebase pauses there.
    Edit { sha: String },
    /// Remove the `pick` lines of `shas`. Every one must have exactly one
    /// line.
    Drop { shas: Vec<String> },
    /// Turn the `pick` lines of `shas` into `fixup`. Every one must have
    /// exactly one line.
    Fixup { shas: Vec<String> },
    /// Mark `sha` as `reword`, so that git opens an editor on its message.
    Reword { sha: String },
    /// Put a line `exec <command>` right after the `pick` line of `sha`.
    ExecAfter { sha: String, command: String },
    /// Put the `pick` lines into the given order, and the other lines after
    /// them. There must be as many SHAs as `pick` lines, and every one must
    /// have exactly one line.
    Reorder { ordered_shas: Vec<String> },
    /// Reorder, turn the lines of `fixup_shas` into `fixup`, and put a line
    /// `exec <command>` after one entry where both its SHA and the command
    /// are given.
    Squash {
        ordered_shas: Vec<String>,
        fixup_shas: Vec<String>,
        exec_after_sha: Option<String>,
        exec_command: Option<String>,
    },
}

// ---------------------------------------------------------------------------
// Lines
// ---------------------------------------------------------------------------

/// A line without its terminator.
pub open spec fn body(line: Seq<char>) -> Seq<char> {
    line.take(line.len() - text::span_back(line, text::line_end()))
}

/// The terminator of a line.
pub open spec fn terminator(line: Seq<char>) -> Seq<char> {
    line.skip(line.len() - text::span_back(line, text::line_end()))
}

/// What follows `pick ` on a `pick` line.
pub open spec fn pick_rest(line: Seq<char>) -> Option<Seq<char>> {
    if "pick "@.is_prefix_of(body(line)) {
        Some(body(line).skip("pick "@.len() as int))
    } else {
        None
    }
}

/// The `pick` lines.
pub open spec fn is_pick() -> spec_fn(Seq<char>) -> bool {
    |line: Seq<char>| pick_rest(line) is Some
}

/// The lines that are not `pick` lines.
pub open spec fn is_other() -> spec_fn(Seq<char>) -> bool {
    |line: Seq<char>| pick_rest(line) is None
}

/// The SHA of a `pick` line: what stands before the first white space.
pub open spec fn sha_of(line: Seq<char>) -> Seq<char> {
    let rest = pick_rest(line)->0;
    rest.take(text::span(rest, text::not_blank()) as int)
}

/// Whether one of two SHAs is a prefix of the other.
pub open spec fn shas_match(a: Seq<char>, b: Seq<char>) -> bool {
    a.is_prefix_of(b) || b.is_prefix_of(a)
}

/// Whether `line` picks `target`.
pub open spec fn picks(line: Seq<char>, target: Seq<char>) -> bool {
    pick_rest(line) is Some && shas_match(sha_of(line), target)
}

/// A `pick` line with another verb.
pub open spec fn with_verb(line: Seq<char>, verb: Seq<char>) -> Seq<char> {
    verb + seq![' '] + pick_rest(line)->0 + terminator(line)
}

/// The index of the first target that `sha` matches, or the number of targets.
pub open spec fn first_target(sha: Seq<char>, targets: Seq<Seq<char>>) -> nat
    decreases targets.len(),
{
    if targets.len() == 0 || shas_match(sha, targets[0]) {
        0
    } else {
        1 + first_target(sha, targets.drop_first())
    }
}

/// The index of the target that `line` picks, or the number of targets.
pub open spec fn target_of(line: Seq<char>, targets: Seq<Seq<char>>) -> nat {
    if pick_rest(line) is Some {
        first_target(sha_of(line), targets)
    } else {
        targets.len()
    }
}

/// The number of lines that pick target `k`.
pub open spec fn hits(lines: Seq<Seq<char>>, targets: Seq<Seq<char>>, k: int) -> nat
    decreases lines.len(),
{
    if lines.len() == 0 {
        0
    } else {
        hits(lines.drop_last(), targets, k) + (if target_of(lines.last(), targets) == k {
            1nat
        } else {
            0nat
        })
    }
}

/// Those of the first `n` targets that no line picks.
pub open spec fn missing(lines: Seq<Seq<char>>, targets: Seq<Seq<char>>, n: int) -> Seq<Seq<char>>
    decreases n,
{
    if n <= 0 {
        seq![]
    } else if hits(lines, targets, n - 1) == 0 {
        missing(lines, targets, n - 1).push(targets[n - 1])
    } else {
        missing(lines, targets, n - 1)
    }
}

/// The number of lines that pick `target`.
pub open spec fn picked_by(lines: Seq<Seq<char>>, target: Seq<char>) -> nat
    decreases lines.len(),
{
    if lines.len() == 0 {
        0
    } else {
        picked_by(lines.drop_last(), target) + (if picks(lines.last(), target) {
            1nat
        } else {
            0nat
        })
    }
}

/// Those of the first `n` targets that several lines pick.
pub open spec fn repeated(lines: Seq<Seq<char>>, targets: Seq<Seq<char>>, n: int) -> Seq<Seq<char>>
    decreases n,
{
    if n <= 0 {
        seq![]
    } else if picked_by(lines, targets[n - 1]) > 1 {
        repeated(lines, targets, n - 1).push(targets[n - 1])
    } else {
        repeated(lines, targets, n - 1)
    }
}

// ---------------------------------------------------------------------------
// What each action makes of the lines
// ---------------------------------------------------------------------------

/// The lines that target none of `targets`.
pub open spec fn not_targeted(targets: Seq<Seq<char>>) -> spec_fn(Seq<char>) -> bool {
    |line: Seq<char>| target_of(line, targets) >= targets.len()
}

/// A line, with another verb where it picks one of `targets`.
pub open spec fn swap_verb(targets: Seq<Seq<char>>, verb: Seq<char>) -> spec_fn(Seq<char>) -> Seq<
    char,
> {
    |line: Seq<char>|
        if target_of(line, targets) < targets.len() {
            with_verb(line, verb)
        } else {
            line
        }
}

/// A line, marked `edit` where it picks `target`.
pub open spec fn mark_edit(target: Seq<char>) -> spec_fn(Seq<char>) -> Seq<char> {
    |line: Seq<char>|
        if picks(line, target) {
            with_verb(line, "edit"@)
        } else {
            line
        }
}

/// The index of the first line that picks `target`, or the number of lines.
pub open spec fn first_pick(lines: Seq<Seq<char>>, target: Seq<char>) -> nat
    decreases lines.len(),
{
    if lines.len() == 0 || picks(lines[0], target) {
        0
    } else {
        1 + first_pick(lines.drop_first(), target)
    }
}

/// The terminator to write after `line` or after what is added to it: its own,
/// or `\n` where it has none. Where something follows, it ends in `\n`.
pub open spec fn end_of(line: Seq<char>, followed: bool) -> Seq<char> {
    let own = if terminator(line).len() == 0 {
        "\n"@
    } else {
        terminator(line)
    };
    if followed && own.last() != '\n' {
        own.push('\n')
    } else {
        own
    }
}

/// `line`, with a `\n` where something follows and it has none.
pub open spec fn ended(line: Seq<char>, followed: bool) -> Seq<char> {
    if followed {
        body(line) + end_of(line, true)
    } else {
        line
    }
}

/// Whether something follows the line at place `i` of `n` lines, which stand
/// before the text `others`.
pub open spec fn is_followed(i: int, n: nat, others: Seq<char>) -> bool {
    i + 1 < n || others.len() > 0
}

/// Lines that stand before the text `others`, each ended where it has to be.
pub open spec fn ended_lines(lines: Seq<Seq<char>>, others: Seq<char>) -> Seq<Seq<char>> {
    Seq::new(lines.len(), |i: int| ended(lines[i], is_followed(i, lines.len(), others)))
}

/// The error where several lines pick some of the targets.
pub open spec fn repeated_error(verb: Seq<char>, twice: Seq<Seq<char>>) -> Failure {
    Failure::InvalidState(
        "rebase-todo "@ + verb + ": target(s) "@ + text::join(twice, ", "@)
            + " matched multiple `pick` lines; pass a longer SHA prefix"@,
    )
}

/// `exec <command>` with the terminator of `line`.
pub open spec fn exec_line(line: Seq<char>, command: Seq<char>, followed: bool) -> Seq<char> {
    "exec "@ + command + end_of(line, followed)
}

/// `pick` lines in the order of `shas`: for each SHA, the first line left that
/// matches it. The error is the first SHA without one.
pub open spec fn arrange(pick_lines: Seq<Seq<char>>, shas: Seq<Seq<char>>) -> Result<
    Seq<Seq<char>>,
    Seq<char>,
>
    decreases shas.len(),
{
    if shas.len() == 0 {
        Ok(seq![])
    } else {
        let k = first_pick(pick_lines, shas[0]) as int;
        if k >= pick_lines.len() {
            Err(shas[0])
        } else {
            match arrange(pick_lines.remove(k), shas.drop_first()) {
                Ok(tail) => Ok(seq![pick_lines[k]] + tail),
                Err(sha) => Err(sha),
            }
        }
    }
}

/// Whether `sha` is to be folded into the entry before it.
pub open spec fn folds(sha: Seq<char>, fixup_shas: Seq<Seq<char>>) -> bool {
    exists|i: int| 0 <= i < fixup_shas.len() && shas_match(sha, #[trigger] fixup_shas[i])
}

/// One entry of a squash: the line of `sha` with its verb, and the command
/// after it where there is one.
pub open spec fn squash_entry(
    line: Seq<char>,
    sha: Seq<char>,
    fixup_shas: Seq<Seq<char>>,
    exec: Option<(Seq<char>, Seq<char>)>,
    followed: bool,
) -> Seq<char> {
    let verb = if folds(sha, fixup_shas) {
        "fixup"@
    } else {
        "pick"@
    };
    let entry = verb + seq![' '] + pick_rest(line)->0;
    match exec {
        Some((after, command)) if shas_match(sha, after) => entry + end_of(line, true) + exec_line(
            line,
            command,
            followed,
        ),
        _ => entry + end_of(line, followed),
    }
}

pub open spec fn edited(todo: Seq<char>, target: Seq<char>) -> Result<Seq<char>, Failure> {
    let ls = text::split_inclusive(todo);
    if first_pick(ls, target) < ls.len() {
        Ok(text::concat(ls.map_values(mark_edit(target))))
    } else {
        Err(
            Failure::InvalidState(
                "rebase-todo has no `pick` line for "@ + target
                    + "; aborting so the rebase doesn't run unchanged"@,
            ),
        )
    }
}

pub open spec fn dropped(todo: Seq<char>, targets: Seq<Seq<char>>) -> Result<Seq<char>, Failure> {
    let ls = text::split_inclusive(todo);
    let absent = missing(ls, targets, targets.len() as int);
    let twice = repeated(ls, targets, targets.len() as int);
    if targets.len() == 0 {
        Err(Failure::InvalidState("rebase-todo drop: no commits to drop"@))
    } else if absent.len() > 0 {
        Err(
            Failure::InvalidState(
                "rebase-todo has no `pick` line for: "@ + text::join(absent, ", "@)
                    + "; aborting so the rebase doesn't run with a partial drop"@,
            ),
        )
    } else if twice.len() > 0 {
        Err(repeated_error("drop"@, twice))
    } else {
        Ok(text::concat(ls.filter(not_targeted(targets))))
    }
}

pub open spec fn verb_replaced(todo: Seq<char>, targets: Seq<Seq<char>>, verb: Seq<char>) -> Result<
    Seq<char>,
    Failure,
> {
    let ls = text::split_inclusive(todo);
    let twice = repeated(ls, targets, targets.len() as int);
    let absent = missing(ls, targets, targets.len() as int);
    if targets.len() == 0 {
        Err(Failure::InvalidState("rebase-todo "@ + verb + ": no commits to "@ + verb))
    } else if twice.len() > 0 {
        Err(repeated_error(verb, twice))
    } else if absent.len() > 0 {
        Err(
            Failure::InvalidState(
                "rebase-todo has no `pick` line for: "@ + text::join(absent, ", "@)
                    + "; aborting so the rebase doesn't run with a partial "@ + verb,
            ),
        )
    } else {
        Ok(text::concat(ls.map_values(swap_verb(targets, verb))))
    }
}

pub open spec fn exec_added(todo: Seq<char>, target: Seq<char>, command: Seq<char>) -> Result<
    Seq<char>,
    Failure,
> {
    let ls = text::split_inclusive(todo);
    let k = first_pick(ls, target) as int;
    if k < ls.len() {
        Ok(
            text::concat(ls.take(k)) + ended(ls[k], true) + exec_line(
                ls[k],
                command,
                k + 1 < ls.len(),
            ) + text::concat(ls.skip(k + 1)),
        )
    } else {
        Err(
            Failure::InvalidState(
                "rebase-todo has no `pick` line for "@ + target
                    + "; aborting so the exec doesn't run unanchored"@,
            ),
        )
    }
}

/// The error where there are not as many SHAs as `pick` lines.
pub open spec fn count_error(verb: Seq<char>, have: nat, asked: nat) -> Failure {
    Failure::InvalidState(
        "rebase-todo "@ + verb + ": have "@ + text::decimal(have) + " pick lines but caller asked for "@
            + text::decimal(asked) + " ordered SHAs"@,
    )
}

/// The error where no `pick` line is left for `sha`.
pub open spec fn unmatched_error(verb: Seq<char>, sha: Seq<char>) -> Failure {
    Failure::InvalidState(
        "rebase-todo "@ + verb + ": no remaining pick line matches "@ + sha,
    )
}

pub open spec fn reordered(todo: Seq<char>, shas: Seq<Seq<char>>) -> Result<Seq<char>, Failure> {
    let ls = text::split_inclusive(todo);
    let pick_lines = ls.filter(is_pick());
    let others = text::concat(ls.filter(is_other()));
    let twice = repeated(pick_lines, shas, shas.len() as int);
    if shas.len() != pick_lines.len() {
        Err(count_error("reorder"@, pick_lines.len(), shas.len()))
    } else if twice.len() > 0 {
        Err(repeated_error("reorder"@, twice))
    } else {
        match arrange(pick_lines, shas) {
            Err(sha) => Err(unmatched_error("reorder"@, sha)),
            Ok(order) => Ok(text::concat(ended_lines(order, others)) + others),
        }
    }
}

/// The entries of a squash, one for each SHA.
pub open spec fn squash_entries(
    order: Seq<Seq<char>>,
    shas: Seq<Seq<char>>,
    fixup_shas: Seq<Seq<char>>,
    exec: Option<(Seq<char>, Seq<char>)>,
    others: Seq<char>,
) -> Seq<Seq<char>> {
    Seq::new(
        order.len(),
        |i: int|
            squash_entry(
                order[i],
                shas[i],
                fixup_shas,
                exec,
                is_followed(i, order.len(), others),
            ),
    )
}

pub open spec fn squashed(
    todo: Seq<char>,
    shas: Seq<Seq<char>>,
    fixup_shas: Seq<Seq<char>>,
    exec: Option<(Seq<char>, Seq<char>)>,
) -> Result<Seq<char>, Failure> {
    let ls = text::split_inclusive(todo);
    let pick_lines = ls.filter(is_pick());
    let others = text::concat(ls.filter(is_other()));
    let twice = repeated(pick_lines, shas, shas.len() as int);
    if shas.len() != pick_lines.len() {
        Err(count_error("squash"@, pick_lines.len(), shas.len()))
    } else if twice.len() > 0 {
        Err(repeated_error("squash"@, twice))
    } else {
        match arrange(pick_lines, shas) {
            Err(sha) => Err(unmatched_error("squash"@, sha)),
            Ok(order) => Ok(
                text::concat(squash_entries(order, shas, fixup_shas, exec, others)) + others,
            ),
        }
    }
}

/// The SHA and the command of an `exec` line, where both are given.
pub open spec fn exec_pair(after: Option<String>, command: Option<String>) -> Option<
    (Seq<char>, Seq<char>),
> {
    match (after, command) {
        (Some(a), Some(c)) => Some((a@, c@)),
        _ => None,
    }
}

/// The rewritten todo list.
pub open spec fn rewritten(todo: Seq<char>, action: Action) -> Result<Seq<char>, Failure> {
    match action {
        Action::Edit { sha } => edited(todo, sha@),
        Action::Drop { shas } => dropped(todo, text::texts(shas@)),
        Action::Fixup { shas } => verb_replaced(todo, text::texts(shas@), "fixup"@),
        Action::Reword { sha } => verb_replaced(todo, seq![sha@], "reword"@),
        Action::ExecAfter { sha, command } => exec_added(todo, sha@, command@),
        Action::Reorder { ordered_shas } => reordered(todo, text::texts(ordered_shas@)),
        Action::Squash { ordered_shas, fixup_shas, exec_after_sha, exec_command } => squashed(
            todo,
            text::texts(ordered_shas@),
            text::texts(fixup_shas@),
            exec_pair(exec_after_sha, exec_command),
        ),
    }
}

// ---------------------------------------------------------------------------
// Lemmas
// ---------------------------------------------------------------------------

proof fn lemma_first_target_is(sha: Seq<char>, targets: Seq<Seq<char>>, k: int)
    requires
        0 <= k <= targets.len(),
        forall|i: int| 0 <= i < k ==> !shas_match(sha, #[trigger] targets[i]),
        k < targets.len() ==> shas_match(sha, targets[k]),
    ensures
        first_target(sha, targets) == k,
    decreases targets.len(),
{
    if k > 0 {
        assert(!shas_match(sha, targets[0]));
        let t = targets.drop_first();
        assert forall|i: int| 0 <= i < k - 1 implies !shas_match(sha, #[trigger] t[i]) by {
            assert(t[i] == targets[i + 1]);
        }
        lemma_first_target_is(sha, t, k - 1);
    }
}

proof fn lemma_first_pick_is(lines: Seq<Seq<char>>, target: Seq<char>, k: int)
    requires
        0 <= k <= lines.len(),
        forall|i: int| 0 <= i < k ==> !picks(#[trigger] lines[i], target),
        k < lines.len() ==> picks(lines[k], target),
    ensures
        first_pick(lines, target) == k,
    decreases lines.len(),
{
    if k > 0 {
        assert(!picks(lines[0], target));
        let t = lines.drop_first();
        assert forall|i: int| 0 <= i < k - 1 implies !picks(#[trigger] t[i], target) by {
            assert(t[i] == lines[i + 1]);
        }
        lemma_first_pick_is(t, target, k - 1);
    }
}

// ---------------------------------------------------------------------------
// The rewriter
// ---------------------------------------------------------------------------

/// The parts of a `pick` line.
struct PickLine {
    rest: String,
    sha: String,
    terminator: String,
}

impl PickLine {
    spec fn of(&self, line: Seq<char>) -> bool {
        &&& pick_rest(line) == Some(self.rest@)
        &&& self.sha@ == sha_of(line)
        &&& self.terminator@ == terminator(line)
    }
}

fn parse_pick(line: &str) -> (r: Option<PickLine>)
    ensures
        match r {
            Some(p) => p.of(line@),
            None => pick_rest(line@) is None,
        },
{
    let cs = text::chars_of(line);
    let n: usize = text::len_without_line_end(&cs);
    let b = text::piece(&cs, 0, n);
    proof {
        assert(cs@.subrange(0, n as int) =~= body(line@));
    }
    if !text::starts_with(b.as_str(), "pick ") {
        return None;
    }
    proof {
        reveal_strlit("pick ");
        assert(cs@.subrange(5, n as int) =~= body(line@).skip(5));
        assert(cs@.subrange(n as int, cs@.len() as int) =~= terminator(line@));
    }
    let rest = text::piece(&cs, 5, n);
    let rs = text::chars_of(rest.as_str());
    let w: usize = text::leading_word(&rs);
    proof {
        assert(rs@.subrange(0, w as int) =~= rs@.take(w as int));
    }
    let sha = text::piece(&rs, 0, w);
    let terminator = text::piece(&cs, n, cs.len());
    Some(PickLine { rest, sha, terminator })
}

/// Whether one of two SHAs is a prefix of the other.
fn sha_matches(todo_sha: &str, target: &str) -> (r: bool)
    ensures
        r == shas_match(todo_sha@, target@),
{
    text::starts_with(todo_sha, target) || text::starts_with(target, todo_sha)
}

/// The index of the first target that `sha` matches, or the number of targets.
fn find_target(sha: &str, targets: &Vec<String>) -> (r: usize)
    ensures
        r <= targets.len(),
        r == first_target(sha@, text::texts(targets@)),
{
    let mut i: usize = 0;
    while i < targets.len() && !sha_matches(sha, targets[i].as_str())
        invariant
            i <= targets.len(),
            forall|j: int| 0 <= j < i ==> !shas_match(sha@, #[trigger] text::texts(targets@)[j]),
        decreases targets.len() - i,
    {
        i += 1;
    }
    proof {
        lemma_first_target_is(sha@, text::texts(targets@), i as int);
    }
    i
}

/// Mark the `pick` lines of `target` as `edit`.
pub fn rewrite_edit(todo: &str, target: &str) -> (r: Result<String, CliError>)
    ensures
        crate::error::text_outcome(r) == edited(todo@, target@),
{
    let lines = text::split_lines(todo);
    let ghost ls = text::texts(lines@);
    let mut matched = false;
    let mut out = String::new();
    let mut i: usize = 0;
    proof {
        assert(ls.map_values(mark_edit(target@)).take(0) =~= seq![]);
    }
    while i < lines.len()
        invariant
            i <= lines.len(),
            ls == text::texts(lines@),
            out@ == text::concat(ls.map_values(mark_edit(target@)).take(i as int)),
            matched == exists|j: int| 0 <= j < i && picks(#[trigger] ls[j], target@),
        decreases lines.len() - i,
    {
        let line = lines[i].as_str();
        let ghost marked = ls.map_values(mark_edit(target@));
        proof {
            assert(line@ == ls[i as int]);
            assert(marked.take(i + 1).drop_last() =~= marked.take(i as int));
            assert(marked.take(i + 1).last() == marked[i as int]);
        }
        let mut hit = false;
        if let Some(p) = parse_pick(line) {
            if sha_matches(p.sha.as_str(), target) {
                hit = true;
                let ghost before = out@;
                out.append("edit");
                out.push(' ');
                out.append(p.rest.as_str());
                out.append(p.terminator.as_str());
                proof {
                    assert(out@ =~= before + with_verb(line@, "edit"@));
                }
            }
        }
        if hit {
            matched = true;
            proof {
                assert(picks(ls[i as int], target@));
            }
        } else {
            out.append(line);
        }
        i += 1;
    }
    proof {
        assert(ls.map_values(mark_edit(target@)).take(i as int) =~= ls.map_values(
            mark_edit(target@),
        ));
        lemma_first_pick(ls, target@);
    }
    if !matched {
        let mut msg = "rebase-todo has no `pick` line for ".to_owned();
        msg.append(target);
        msg.append("; aborting so the rebase doesn't run unchanged");
        return Err(CliError::InvalidState(msg));
    }
    Ok(out)
}

proof fn lemma_first_pick(lines: Seq<Seq<char>>, target: Seq<char>)
    ensures
        first_pick(lines, target) <= lines.len(),
        first_pick(lines, target) < lines.len() ==> picks(
            lines[first_pick(lines, target) as int],
            target,
        ),
        forall|j: int| 0 <= j < first_pick(lines, target) ==> !picks(#[trigger] lines[j], target),
    decreases lines.len(),
{
    if lines.len() > 0 && !picks(lines[0], target) {
        let t = lines.drop_first();
        lemma_first_pick(t, target);
        assert forall|j: int| 0 <= j < first_pick(lines, target) implies !picks(
            #[trigger] lines[j],
            target,
        ) by {
            if j > 0 {
                assert(t[j - 1] == lines[j]);
            }
        }
    }
}

proof fn lemma_hits_take(lines: Seq<Seq<char>>, targets: Seq<Seq<char>>, i: int, k: int)
    requires
        0 <= i < lines.len(),
    ensures
        hits(lines.take(i + 1), targets, k) == hits(lines.take(i), targets, k) + (if target_of(
            lines[i],
            targets,
        ) == k {
            1nat
        } else {
            0nat
        }),
{
    assert(lines.take(i + 1).drop_last() =~= lines.take(i));
}

/// The targets whose count of lines satisfies a bound, as texts.
fn missing_targets(targets: &Vec<String>, counts: &Vec<usize>, Ghost(lines): Ghost<
    Seq<Seq<char>>,
>) -> (r: Vec<String>)
    requires
        counts.len() == targets.len(),
        forall|k: int|
            0 <= k < targets.len() ==> #[trigger] counts@[k] == hits(lines, text::texts(targets@), k),
    ensures
        text::texts(r@) == missing(lines, text::texts(targets@), targets.len() as int),
{
    let mut out: Vec<String> = Vec::new();
    let mut i: usize = 0;
    while i < targets.len()
        invariant
            i <= targets.len(),
            counts.len() == targets.len(),
            forall|k: int|
                0 <= k < targets.len() ==> #[trigger] counts@[k] == hits(
                    lines,
                    text::texts(targets@),
                    k,
                ),
            text::texts(out@) == missing(lines, text::texts(targets@), i as int),
        decreases targets.len() - i,
    {
        let ghost before = text::texts(out@);
        if counts[i] == 0 {
            out.push(targets[i].clone());
            proof {
                assert(text::texts(out@) =~= before.push(text::texts(targets@)[i as int]));
            }
        }
        i += 1;
    }
    out
}

/// The number of lines that pick `target`.
fn count_picks(lines: &Vec<String>, target: &str) -> (r: usize)
    ensures
        r == picked_by(text::texts(lines@), target@),
{
    let ghost ls = text::texts(lines@);
    let mut n: usize = 0;
    let mut i: usize = 0;
    proof {
        assert(ls.take(0) =~= seq![]);
    }
    while i < lines.len()
        invariant
            i <= lines.len(),
            ls == text::texts(lines@),
            n == picked_by(ls.take(i as int), target@),
            n <= i,
        decreases lines.len() - i,
    {
        let line = lines[i].as_str();
        proof {
            assert(line@ == ls[i as int]);
            assert(ls.take(i + 1).drop_last() =~= ls.take(i as int));
        }
        if let Some(p) = parse_pick(line) {
            if sha_matches(p.sha.as_str(), target) {
                n += 1;
            }
        }
        i += 1;
    }
    proof {
        assert(ls.take(i as int) =~= ls);
    }
    n
}

/// The targets that several lines pick.
fn repeated_targets(targets: &Vec<String>, lines: &Vec<String>) -> (r: Vec<String>)
    ensures
        text::texts(r@) == repeated(
            text::texts(lines@),
            text::texts(targets@),
            targets.len() as int,
        ),
{
    let mut out: Vec<String> = Vec::new();
    let mut i: usize = 0;
    while i < targets.len()
        invariant
            i <= targets.len(),
            text::texts(out@) == repeated(text::texts(lines@), text::texts(targets@), i as int),
        decreases targets.len() - i,
    {
        let ghost before = text::texts(out@);
        proof {
            assert(text::texts(targets@)[i as int] == targets@[i as int]@);
        }
        if count_picks(lines, targets[i].as_str()) > 1 {
            out.push(targets[i].clone());
            proof {
                assert(text::texts(out@) =~= before.push(text::texts(targets@)[i as int]));
            }
        }
        i += 1;
    }
    out
}

fn matched_repeatedly(verb: &str, twice: &Vec<String>) -> (r: CliError)
    ensures
        r@ == repeated_error(verb@, text::texts(twice@)),
{
    let mut msg = "rebase-todo ".to_owned();
    msg.append(verb);
    msg.append(": target(s) ");
    msg.append(text::join_with(twice, ", ").as_str());
    msg.append(" matched multiple `pick` lines; pass a longer SHA prefix");
    CliError::InvalidState(msg)
}

/// One zero for each target.
fn zero_counts(n: usize) -> (r: Vec<usize>)
    ensures
        r.len() == n,
        forall|k: int| 0 <= k < n ==> #[trigger] r@[k] == 0,
{
    let mut out: Vec<usize> = Vec::new();
    let mut i: usize = 0;
    while i < n
        invariant
            i <= n,
            out.len() == i,
            forall|k: int| 0 <= k < i ==> #[trigger] out@[k] == 0,
        decreases n - i,
    {
        out.push(0);
        i += 1;
    }
    out
}

/// Remove the `pick` lines of `targets`.
pub fn rewrite_drop(todo: &str, targets: &Vec<String>) -> (r: Result<String, CliError>)
    ensures
        crate::error::text_outcome(r) == dropped(todo@, text::texts(targets@)),
{
    if targets.len() == 0 {
        return Err(CliError::InvalidState("rebase-todo drop: no commits to drop".to_owned()));
    }
    let lines = text::split_lines(todo);
    let ghost ls = text::texts(lines@);
    let ghost ts = text::texts(targets@);
    let mut counts: Vec<usize> = zero_counts(targets.len());
    let mut out = String::new();
    let mut i: usize = 0;
    proof {
        assert(ls.take(0).filter(not_targeted(ts)) =~= seq![]) by {
            reveal(Seq::filter);
        }
    }
    while i < lines.len()
        invariant
            i <= lines.len(),
            ls == text::texts(lines@),
            ts == text::texts(targets@),
            counts.len() == targets.len(),
            out@ == text::concat(ls.take(i as int).filter(not_targeted(ts))),
            forall|k: int|
                0 <= k < ts.len() ==> #[trigger] counts@[k] == hits(ls.take(i as int), ts, k),
            forall|k: int| 0 <= k < ts.len() ==> #[trigger] counts@[k] <= i,
        decreases lines.len() - i,
    {
        let line = lines[i].as_str();
        proof {
            assert(line@ == ls[i as int]);
            assert forall|k: int| 0 <= k < ts.len() implies #[trigger] hits(ls.take(i + 1), ts, k)
                == hits(ls.take(i as int), ts, k) + (if target_of(ls[i as int], ts) == k {
                1nat
            } else {
                0nat
            }) by {
                lemma_hits_take(ls, ts, i as int, k);
            }
            reveal(Seq::filter);
            assert(ls.take(i + 1).drop_last() =~= ls.take(i as int));
        }
        let mut idx: usize = targets.len();
        if let Some(p) = parse_pick(line) {
            idx = find_target(p.sha.as_str(), targets);
        }
        if idx < targets.len() {
            let c: usize = counts[idx];
            counts.set(idx, c + 1);
        } else {
            out.append(line);
            proof {
                let kept = ls.take(i as int).filter(not_targeted(ts));
                assert(kept.push(line@).drop_last() =~= kept);
            }
        }
        i += 1;
    }
    proof {
        assert(ls.take(i as int) =~= ls);
    }
    let absent = missing_targets(targets, &counts, Ghost(ls));
    if absent.len() > 0 {
        let mut msg = "rebase-todo has no `pick` line for: ".to_owned();
        msg.append(text::join_with(&absent, ", ").as_str());
        msg.append("; aborting so the rebase doesn't run with a partial drop");
        return Err(CliError::InvalidState(msg));
    }
    let twice = repeated_targets(targets, &lines);
    if twice.len() > 0 {
        return Err(matched_repeatedly("drop", &twice));
    }
    Ok(out)
}

/// Swap the verb of the `pick` lines of `targets`. A target without a line, or
/// with several, is an error: rewriting only some of the commits, or more
/// than were meant, would corrupt the rebase.
pub fn rewrite_replace_verb(todo: &str, targets: &Vec<String>, verb: &str) -> (r: Result<
    String,
    CliError,
>)
    ensures
        crate::error::text_outcome(r) == verb_replaced(todo@, text::texts(targets@), verb@),
{
    if targets.len() == 0 {
        let mut msg = "rebase-todo ".to_owned();
        msg.append(verb);
        msg.append(": no commits to ");
        msg.append(verb);
        return Err(CliError::InvalidState(msg));
    }
    let lines = text::split_lines(todo);
    let ghost ls = text::texts(lines@);
    let ghost ts = text::texts(targets@);
    let ghost swapped = ls.map_values(swap_verb(ts, verb@));
    let mut counts: Vec<usize> = zero_counts(targets.len());
    let mut out = String::new();
    let mut i: usize = 0;
    proof {
        assert(swapped.take(0) =~= seq![]);
    }
    while i < lines.len()
        invariant
            i <= lines.len(),
            ls == text::texts(lines@),
            ts == text::texts(targets@),
            swapped == ls.map_values(swap_verb(ts, verb@)),
            counts.len() == targets.len(),
            out@ == text::concat(swapped.take(i as int)),
            forall|k: int|
                0 <= k < ts.len() ==> #[trigger] counts@[k] == hits(ls.take(i as int), ts, k),
            forall|k: int| 0 <= k < ts.len() ==> #[trigger] counts@[k] <= i,
        decreases lines.len() - i,
    {
        let line = lines[i].as_str();
        proof {
            assert(line@ == ls[i as int]);
            assert forall|k: int| 0 <= k < ts.len() implies #[trigger] hits(ls.take(i + 1), ts, k)
                == hits(ls.take(i as int), ts, k) + (if target_of(ls[i as int], ts) == k {
                1nat
            } else {
                0nat
            }) by {
                lemma_hits_take(ls, ts, i as int, k);
            }
            assert(swapped.take(i + 1).drop_last() =~= swapped.take(i as int));
            assert(swapped.take(i + 1).last() == swapped[i as int]);
        }
        let mut idx: usize = targets.len();
        if let Some(p) = parse_pick(line) {
            idx = find_target(p.sha.as_str(), targets);
            if idx < targets.len() {
                let ghost before = out@;
                out.append(verb);
                out.push(' ');
                out.append(p.rest.as_str());
                out.append(p.terminator.as_str());
                proof {
                    assert(out@ =~= before + with_verb(line@, verb@));
                }
            }
        }
        if idx < targets.len() {
            let c: usize = counts[idx];
            counts.set(idx, c + 1);
        } else {
            out.append(line);
        }
        i += 1;
    }
    proof {
        assert(ls.take(i as int) =~= ls);
        assert(swapped.take(i as int) =~= swapped);
    }
    let twice = repeated_targets(targets, &lines);
    if twice.len() > 0 {
        return Err(matched_repeatedly(verb, &twice));
    }
    let absent = missing_targets(targets, &counts, Ghost(ls));
    if absent.len() > 0 {
        let mut msg = "rebase-todo has no `pick` line for: ".to_owned();
        msg.append(text::join_with(&absent, ", ").as_str());
        msg.append("; aborting so the rebase doesn't run with a partial ");
        msg.append(verb);
        return Err(CliError::InvalidState(msg));
    }
    Ok(out)
}

/// The terminator to write after a line: its own, or `\n` where it has none.
/// Where something follows, it ends in `\n`.
fn end_for(p: &PickLine, followed: bool, Ghost(line): Ghost<Seq<char>>) -> (r: String)
    requires
        p.of(line),
    ensures
        r@ == end_of(line, followed),
{
    let cs = text::chars_of(p.terminator.as_str());
    if cs.len() == 0 {
        proof {
            reveal_strlit("\n");
        }
        return "\n".to_owned();
    }
    let mut t = p.terminator.clone();
    if followed && cs[cs.len() - 1] != '\n' {
        t.push('\n');
    }
    t
}

/// A `pick` line is `pick `, what follows it, and its terminator.
proof fn lemma_pick_body(line: Seq<char>)
    requires
        pick_rest(line) is Some,
    ensures
        body(line) == "pick "@ + pick_rest(line)->0,
{
    let b = body(line);
    assert(b.subrange(0, "pick "@.len() as int) == "pick "@);
    assert("pick "@ + b.skip("pick "@.len() as int) =~= b);
}

/// Put a line `exec <command>` right after the first `pick` line of `target`.
pub fn rewrite_exec_after(todo: &str, target: &str, command: &str) -> (r: Result<String, CliError>)
    ensures
        crate::error::text_outcome(r) == exec_added(todo@, target@, command@),
{
    let lines = text::split_lines(todo);
    let ghost ls = text::texts(lines@);
    let mut matched = false;
    let ghost mut k: int = 0;
    let mut out = String::new();
    let mut i: usize = 0;
    proof {
        assert(ls.take(0) =~= seq![]);
    }
    while i < lines.len()
        invariant
            i <= lines.len(),
            ls == text::texts(lines@),
            matched ==> 0 <= k < i && picks(ls[k], target@) && (forall|j: int|
                0 <= j < k ==> !picks(#[trigger] ls[j], target@)) && out@ == text::concat(ls.take(k))
                + ended(ls[k], true) + exec_line(ls[k], command@, k + 1 < ls.len()) + text::concat(
                ls.subrange(k + 1, i as int),
            ),
            !matched ==> out@ == text::concat(ls.take(i as int)) && forall|j: int|
                0 <= j < i ==> !picks(#[trigger] ls[j], target@),
        decreases lines.len() - i,
    {
        let line = lines[i].as_str();
        let ghost before = out@;
        proof {
            assert(line@ == ls[i as int]);
            assert(ls.take(i + 1).drop_last() =~= ls.take(i as int));
        }
        let mut here = false;
        if !matched {
            if let Some(p) = parse_pick(line) {
                if sha_matches(p.sha.as_str(), target) {
                    here = true;
                    out.append("pick ");
                    out.append(p.rest.as_str());
                    out.append(end_for(&p, true, Ghost(line@)).as_str());
                    out.append("exec ");
                    out.append(command);
                    out.append(end_for(&p, i + 1 < lines.len(), Ghost(line@)).as_str());
                    proof {
                        lemma_pick_body(line@);
                        assert(out@ =~= before + ended(line@, true) + exec_line(
                            line@,
                            command@,
                            i + 1 < ls.len(),
                        ));
                    }
                }
            }
        }
        if here {
            matched = true;
            proof {
                k = i as int;
                assert(ls.subrange(k + 1, i + 1) =~= seq![]);
                assert(out@ =~= text::concat(ls.take(k)) + ended(ls[k], true) + exec_line(
                    ls[k],
                    command@,
                    k + 1 < ls.len(),
                ) + text::concat(ls.subrange(k + 1, i + 1)));
            }
        } else {
            out.append(line);
            proof {
                if matched {
                    let part = ls.subrange(k + 1, i + 1);
                    assert(part.drop_last() =~= ls.subrange(k + 1, i as int));
                    assert(out@ =~= text::concat(ls.take(k)) + ended(ls[k], true) + exec_line(
                        ls[k],
                        command@,
                        k + 1 < ls.len(),
                    ) + text::concat(part));
                }
            }
        }
        i += 1;
    }
    if !matched {
        proof {
            lemma_first_pick_is(ls, target@, ls.len() as int);
        }
        let mut msg = "rebase-todo has no `pick` line for ".to_owned();
        msg.append(target);
        msg.append("; aborting so the exec doesn't run unanchored");
        return Err(CliError::InvalidState(msg));
    }
    proof {
        lemma_first_pick_is(ls, target@, k);
        assert(ls.subrange(k + 1, ls.len() as int) =~= ls.skip(k + 1));
    }
    Ok(out)
}

/// The lines of a todo list, the `pick` lines apart from the others.
struct Buckets {
    pick_lines: Vec<String>,
    other_lines: String,
}

fn bucket_lines(todo: &str) -> (r: Buckets)
    ensures
        text::texts(r.pick_lines@) == text::split_inclusive(todo@).filter(is_pick()),
        r.other_lines@ == text::concat(text::split_inclusive(todo@).filter(is_other())),
{
    let lines = text::split_lines(todo);
    let ghost ls = text::texts(lines@);
    let mut pick_lines: Vec<String> = Vec::new();
    let mut other_lines = String::new();
    let mut i: usize = 0;
    proof {
        reveal(Seq::filter);
        assert(ls.take(0) =~= seq![]);
        assert(text::texts(pick_lines@) =~= ls.take(0).filter(is_pick()));
        assert(ls.take(0).filter(is_other()) =~= seq![]);
    }
    while i < lines.len()
        invariant
            i <= lines.len(),
            ls == text::texts(lines@),
            text::texts(pick_lines@) == ls.take(i as int).filter(is_pick()),
            other_lines@ == text::concat(ls.take(i as int).filter(is_other())),
        decreases lines.len() - i,
    {
        let line = lines[i].as_str();
        let ghost before = text::texts(pick_lines@);
        proof {
            assert(line@ == ls[i as int]);
            reveal(Seq::filter);
            assert(ls.take(i + 1).drop_last() =~= ls.take(i as int));
        }
        match parse_pick(line) {
            Some(_) => {
                pick_lines.push(lines[i].clone());
                proof {
                    assert(text::texts(pick_lines@) =~= before.push(line@));
                }
            },
            None => {
                other_lines.append(line);
                proof {
                    let kept = ls.take(i as int).filter(is_other());
                    assert(kept.push(line@).drop_last() =~= kept);
                }
            },
        }
        i += 1;
    }
    proof {
        assert(ls.take(i as int) =~= ls);
    }
    Buckets { pick_lines, other_lines }
}

/// The `pick` lines in the order of `shas`, or the index of the first SHA
/// without a line left.
fn arrange_lines(pick_lines: Vec<String>, shas: &Vec<String>) -> (r: Result<Vec<String>, usize>)
    requires
        forall|i: int|
            0 <= i < pick_lines.len() ==> pick_rest(#[trigger] text::texts(pick_lines@)[i]) is Some,
    ensures
        match r {
            Ok(v) => arrange(text::texts(pick_lines@), text::texts(shas@)) == Ok::<Seq<Seq<char>>, Seq<char>>(
                text::texts(v@),
            ) && v.len() == shas.len() && forall|i: int|
                0 <= i < v.len() ==> pick_rest(#[trigger] text::texts(v@)[i]) is Some,
            Err(k) => k < shas.len() && arrange(text::texts(pick_lines@), text::texts(shas@)) == Err::<
                Seq<Seq<char>>,
                Seq<char>,
            >(shas@[k as int]@),
        },
{
    let ghost all = arrange(text::texts(pick_lines@), text::texts(shas@));
    let mut left: Vec<String> = pick_lines;
    let mut out: Vec<String> = Vec::new();
    let mut i: usize = 0;
    proof {
        assert(text::texts(shas@).skip(0) =~= text::texts(shas@));
        assert(forall|t: Seq<Seq<char>>| text::texts(out@) + t =~= t);
    }
    while i < shas.len()
        invariant
            i <= shas.len(),
            out.len() == i,
            all == arrange(text::texts(pick_lines@), text::texts(shas@)),
            all == (match arrange(text::texts(left@), text::texts(shas@).skip(i as int)) {
                Ok(tail) => Ok::<Seq<Seq<char>>, Seq<char>>(text::texts(out@) + tail),
                Err(sha) => Err::<Seq<Seq<char>>, Seq<char>>(sha),
            }),
            forall|j: int|
                0 <= j < left.len() ==> pick_rest(#[trigger] text::texts(left@)[j]) is Some,
            forall|j: int| 0 <= j < out.len() ==> pick_rest(#[trigger] text::texts(out@)[j]) is Some,
        decreases shas.len() - i,
    {
        let ghost rest = text::texts(shas@).skip(i as int);
        let ghost before = text::texts(out@);
        assert(rest.len() > 0);
        let ghost left_before = text::texts(left@);
        let mut k: usize = 0;
        let mut found = false;
        while k < left.len() && !found
            invariant
                k <= left.len(),
                i < shas.len(),
                rest[0] == shas@[i as int]@,
                left_before == text::texts(left@),
                forall|j: int|
                    0 <= j < left.len() ==> pick_rest(#[trigger] text::texts(left@)[j]) is Some,
                forall|j: int| 0 <= j < k ==> !picks(#[trigger] left_before[j], rest[0]),
                found ==> k < left.len() && picks(left_before[k as int], rest[0]),
            decreases left.len() - k + (if found {
                0int
            } else {
                1int
            }),
        {
            let line = left[k].as_str();
            proof {
                assert(line@ == text::texts(left@)[k as int]);
            }
            if let Some(p) = parse_pick(line) {
                if sha_matches(p.sha.as_str(), shas[i].as_str()) {
                    found = true;
                }
            }
            if !found {
                k += 1;
            }
        }
        proof {
            lemma_first_pick_is(left_before, rest[0], k as int);
            assert(rest.drop_first() =~= text::texts(shas@).skip(i + 1));
        }
        if !found {
            return Err(i);
        }
        let line = left.remove(k);
        proof {
            assert(text::texts(left@) =~= left_before.remove(k as int));
            assert(line@ == left_before[k as int]);
        }
        out.push(line);
        proof {
            assert(text::texts(out@) =~= before.push(left_before[k as int]));
            let tail = arrange(text::texts(left@), text::texts(shas@).skip(i + 1));
            if tail is Ok {
                assert(before + (seq![left_before[k as int]] + tail->Ok_0) =~= text::texts(out@)
                    + tail->Ok_0);
            }
            assert forall|j: int| 0 <= j < left.len() implies pick_rest(
                #[trigger] text::texts(left@)[j],
            ) is Some by {
                if j < k {
                    assert(text::texts(left@)[j] == left_before[j]);
                } else {
                    assert(text::texts(left@)[j] == left_before[j + 1]);
                }
            }
        }
        i += 1;
    }
    proof {
        assert(text::texts(shas@).skip(i as int) =~= seq![]);
        assert(text::texts(out@) + Seq::<Seq<char>>::empty() =~= text::texts(out@));
    }
    Ok(out)
}

proof fn lemma_filter_picks(ls: Seq<Seq<char>>)
    ensures
        forall|i: int|
            0 <= i < ls.filter(is_pick()).len() ==> pick_rest(
                #[trigger] ls.filter(is_pick())[i],
            ) is Some,
{
    assert forall|i: int| 0 <= i < ls.filter(is_pick()).len() implies pick_rest(
        #[trigger] ls.filter(is_pick())[i],
    ) is Some by {
        ls.lemma_filter_pred(is_pick(), i);
    }
}

fn count_mismatch(verb: &str, have: usize, asked: usize) -> (r: CliError)
    ensures
        r@ == count_error(verb@, have as nat, asked as nat),
{
    let mut msg = "rebase-todo ".to_owned();
    msg.append(verb);
    msg.append(": have ");
    msg.append(text::decimal_of(have as u64).as_str());
    msg.append(" pick lines but caller asked for ");
    msg.append(text::decimal_of(asked as u64).as_str());
    msg.append(" ordered SHAs");
    CliError::InvalidState(msg)
}

fn unmatched(verb: &str, sha: &str) -> (r: CliError)
    ensures
        r@ == unmatched_error(verb@, sha@),
{
    let mut msg = "rebase-todo ".to_owned();
    msg.append(verb);
    msg.append(": no remaining pick line matches ");
    msg.append(sha);
    CliError::InvalidState(msg)
}

/// Whether something follows the line at place `i` of `n` lines.
fn followed_at(i: usize, n: usize, others: &str) -> (r: bool)
    requires
        i < n,
    ensures
        r == is_followed(i as int, n as nat, others@),
{
    i + 1 < n || !others.is_empty()
}

/// `pick` lines one after the other, each ended where something follows.
fn concat_ended(order: &Vec<String>, others: &str) -> (r: String)
    requires
        forall|i: int| 0 <= i < order.len() ==> pick_rest(#[trigger] text::texts(order@)[i]) is Some,
    ensures
        r@ == text::concat(ended_lines(text::texts(order@), others@)),
{
    let ghost goal = ended_lines(text::texts(order@), others@);
    let mut out = String::new();
    let mut i: usize = 0;
    proof {
        assert(goal.take(0) =~= seq![]);
    }
    while i < order.len()
        invariant
            i <= order.len(),
            goal == ended_lines(text::texts(order@), others@),
            forall|j: int|
                0 <= j < order.len() ==> pick_rest(#[trigger] text::texts(order@)[j]) is Some,
            out@ == text::concat(goal.take(i as int)),
        decreases order.len() - i,
    {
        let line = order[i].as_str();
        let followed = followed_at(i, order.len(), others);
        let ghost before = out@;
        proof {
            assert(line@ == text::texts(order@)[i as int]);
            assert(goal.take(i + 1).drop_last() =~= goal.take(i as int));
            assert(goal.take(i + 1).last() == ended(line@, followed));
        }
        if !followed {
            out.append(line);
        } else if let Some(p) = parse_pick(line) {
            out.append("pick ");
            out.append(p.rest.as_str());
            out.append(end_for(&p, true, Ghost(line@)).as_str());
            proof {
                lemma_pick_body(line@);
                assert(out@ =~= before + ended(line@, true));
            }
        }
        i += 1;
    }
    proof {
        assert(goal.take(i as int) =~= goal);
    }
    out
}

/// Put the `pick` lines into the order of `ordered_shas`, each at most once,
/// and the other lines after them.
pub fn rewrite_reorder(todo: &str, ordered_shas: &Vec<String>) -> (r: Result<String, CliError>)
    ensures
        crate::error::text_outcome(r) == reordered(todo@, text::texts(ordered_shas@)),
{
    let buckets = bucket_lines(todo);
    let have: usize = buckets.pick_lines.len();
    proof {
        lemma_filter_picks(text::split_inclusive(todo@));
        assert(text::texts(buckets.pick_lines@).len() == have);
        assert(text::texts(ordered_shas@).len() == ordered_shas.len());
    }
    if ordered_shas.len() != have {
        return Err(count_mismatch("reorder", have, ordered_shas.len()));
    }
    let twice = repeated_targets(ordered_shas, &buckets.pick_lines);
    if twice.len() > 0 {
        return Err(matched_repeatedly("reorder", &twice));
    }
    match arrange_lines(buckets.pick_lines, ordered_shas) {
        Err(k) => Err(unmatched("reorder", ordered_shas[k].as_str())),
        Ok(order) => {
            let mut out = concat_ended(&order, buckets.other_lines.as_str());
            out.append(buckets.other_lines.as_str());
            Ok(out)
        },
    }
}

fn is_folded(sha: &str, fixup_shas: &Vec<String>) -> (r: bool)
    ensures
        r == folds(sha@, text::texts(fixup_shas@)),
{
    let k: usize = find_target(sha, fixup_shas);
    proof {
        lemma_first_target(sha@, text::texts(fixup_shas@));
    }
    k < fixup_shas.len()
}

proof fn lemma_first_target(sha: Seq<char>, targets: Seq<Seq<char>>)
    ensures
        first_target(sha, targets) <= targets.len(),
        first_target(sha, targets) < targets.len() ==> shas_match(
            sha,
            targets[first_target(sha, targets) as int],
        ),
        forall|j: int|
            0 <= j < first_target(sha, targets) ==> !shas_match(sha, #[trigger] targets[j]),
    decreases targets.len(),
{
    if targets.len() > 0 && !shas_match(sha, targets[0]) {
        let t = targets.drop_first();
        lemma_first_target(sha, t);
        assert forall|j: int| 0 <= j < first_target(sha, targets) implies !shas_match(
            sha,
            #[trigger] targets[j],
        ) by {
            if j > 0 {
                assert(t[j - 1] == targets[j]);
            }
        }
    }
}

/// One entry of a squash.
fn squash_line(
    line: &str,
    sha: &str,
    fixup_shas: &Vec<String>,
    exec_after_sha: &Option<String>,
    exec_command: &Option<String>,
    followed: bool,
) -> (r: String)
    requires
        pick_rest(line@) is Some,
    ensures
        r@ == squash_entry(
            line@,
            sha@,
            text::texts(fixup_shas@),
            exec_pair(*exec_after_sha, *exec_command),
            followed,
        ),
{
    let mut out = String::new();
    if let Some(p) = parse_pick(line) {
        let fold = is_folded(sha, fixup_shas);
        let verb = if fold {
            "fixup"
        } else {
            "pick"
        };
        out.append(verb);
        out.push(' ');
        out.append(p.rest.as_str());
        let ghost entry = out@;
        proof {
            assert(entry =~= verb@ + seq![' '] + pick_rest(line@)->0);
        }
        let term = end_for(&p, followed, Ghost(line@));
        if let (Some(after), Some(command)) = (exec_after_sha, exec_command) {
            if sha_matches(sha, after.as_str()) {
                out.append(end_for(&p, true, Ghost(line@)).as_str());
                out.append("exec ");
                out.append(command.as_str());
                out.append(term.as_str());
                proof {
                    assert(out@ =~= entry + end_of(line@, true) + exec_line(
                        line@,
                        command@,
                        followed,
                    ));
                }
                return out;
            }
        }
        out.append(term.as_str());
    }
    out
}

/// Reorder, swap verbs, and add the `exec` line.
pub fn rewrite_squash(
    todo: &str,
    ordered_shas: &Vec<String>,
    fixup_shas: &Vec<String>,
    exec_after_sha: &Option<String>,
    exec_command: &Option<String>,
) -> (r: Result<String, CliError>)
    ensures
        crate::error::text_outcome(r) == squashed(
            todo@,
            text::texts(ordered_shas@),
            text::texts(fixup_shas@),
            exec_pair(*exec_after_sha, *exec_command),
        ),
{
    let buckets = bucket_lines(todo);
    let have: usize = buckets.pick_lines.len();
    proof {
        lemma_filter_picks(text::split_inclusive(todo@));
        assert(text::texts(buckets.pick_lines@).len() == have);
        assert(text::texts(ordered_shas@).len() == ordered_shas.len());
    }
    if ordered_shas.len() != have {
        return Err(count_mismatch("squash", have, ordered_shas.len()));
    }
    let twice = repeated_targets(ordered_shas, &buckets.pick_lines);
    if twice.len() > 0 {
        return Err(matched_repeatedly("squash", &twice));
    }
    match arrange_lines(buckets.pick_lines, ordered_shas) {
        Err(k) => Err(unmatched("squash", ordered_shas[k].as_str())),
        Ok(order) => {
            let ghost exec = exec_pair(*exec_after_sha, *exec_command);
            let ghost entries = squash_entries(
                text::texts(order@),
                text::texts(ordered_shas@),
                text::texts(fixup_shas@),
                exec,
                buckets.other_lines@,
            );
            let mut out = String::new();
            let mut i: usize = 0;
            proof {
                assert(entries.take(0) =~= seq![]);
            }
            while i < order.len()
                invariant
                    i <= order.len(),
                    order.len() == ordered_shas.len(),
                    exec == exec_pair(*exec_after_sha, *exec_command),
                    entries == squash_entries(
                        text::texts(order@),
                        text::texts(ordered_shas@),
                        text::texts(fixup_shas@),
                        exec,
                        buckets.other_lines@,
                    ),
                    forall|j: int|
                        0 <= j < order.len() ==> pick_rest(#[trigger] text::texts(order@)[j]) is Some,
                    out@ == text::concat(entries.take(i as int)),
                decreases order.len() - i,
            {
                proof {
                    assert(text::texts(order@)[i as int] == order@[i as int]@);
                    assert(entries.take(i + 1).drop_last() =~= entries.take(i as int));
                    assert(entries.take(i + 1).last() == entries[i as int]);
                }
                let entry = squash_line(
                    order[i].as_str(),
                    ordered_shas[i].as_str(),
                    fixup_shas,
                    exec_after_sha,
                    exec_command,
                    followed_at(i, order.len(), buckets.other_lines.as_str()),
                );
                out.append(entry.as_str());
                i += 1;
            }
            proof {
                assert(entries.take(i as int) =~= entries);
            }
            out.append(buckets.other_lines.as_str());
            Ok(out)
        },
    }
}

/// Apply `action` to a todo list. Where the action does not match the list
/// the result is an error, so that a rebase never runs unchanged or with
/// part of the request.
pub fn rewrite(todo: &str, action: &Action) -> (r: Result<String, CliError>)
    ensures
        crate::error::text_outcome(r) == rewritten(todo@, *action),
{
    match action {
        Action::Edit { sha } => rewrite_edit(todo, sha.as_str()),
        Action::Drop { shas } => rewrite_drop(todo, shas),
        Action::Fixup { shas } => rewrite_replace_verb(todo, shas, "fixup"),
        Action::Reword { sha } => {
            let mut one: Vec<String> = Vec::new();
            one.push(sha.clone());
            proof {
                assert(text::texts(one@) =~= seq![sha@]);
            }
            rewrite_replace_verb(todo, &one, "reword")
        },
        Action::ExecAfter { sha, command } => rewrite_exec_after(
            todo,
            sha.as_str(),
            command.as_str(),
        ),
        Action::Reorder { ordered_shas } => rewrite_reorder(todo, ordered_shas),
        Action::Squash { ordered_shas, fixup_shas, exec_after_sha, exec_command } => {
            rewrite_squash(todo, ordered_shas, fixup_shas, exec_after_sha, exec_command)
        },
    }
}

// ---------------------------------------------------------------------------
// Laws
// ---------------------------------------------------------------------------

/// Swapping a verb keeps the number of lines, and every line that picks none
/// of the targets, as it is.
pub proof fn law_only_targets_change(todo: Seq<char>, targets: Seq<Seq<char>>, verb: Seq<char>)
    ensures
        ({
            let before = text::split_inclusive(todo);
            let after = before.map_values(swap_verb(targets, verb));
            &&& after.len() == before.len()
            &&& forall|i: int|
                0 <= i < before.len() && target_of(before[i], targets) >= targets.len()
                    ==> #[trigger] after[i] == before[i]
        }),
{
}

/// Reordering neither loses nor repeats a `pick` line: what comes out is a
/// permutation of what went in.
pub proof fn law_reorder_permutes(pick_lines: Seq<Seq<char>>, shas: Seq<Seq<char>>)
    requires
        shas.len() == pick_lines.len(),
        arrange(pick_lines, shas) is Ok,
    ensures
        arrange(pick_lines, shas)->Ok_0.to_multiset() == pick_lines.to_multiset(),
        arrange(pick_lines, shas)->Ok_0.len() == shas.len(),
    decreases shas.len(),
{
    broadcast use vstd::seq_lib::group_to_multiset_ensures;

    if shas.len() == 0 {
        assert(pick_lines =~= seq![]);
    } else {
        let k = first_pick(pick_lines, shas[0]) as int;
        lemma_first_pick(pick_lines, shas[0]);
        let left = pick_lines.remove(k);
        law_reorder_permutes(left, shas.drop_first());
        let tail = arrange(left, shas.drop_first())->Ok_0;
        let head = seq![pick_lines[k]];
        vstd::seq_lib::lemma_multiset_commutative(head, tail);
        assert(head =~= Seq::<Seq<char>>::empty().push(pick_lines[k]));
        assert(left.insert(k, pick_lines[k]) =~= pick_lines);
        assert(arrange(pick_lines, shas)->Ok_0.to_multiset() =~= pick_lines.to_multiset());
    }
}

/// Asking for the order that the list already has, by its own SHAs, leaves the
/// `pick` lines as they are, where the SHAs tell them apart. Only a last line
/// without an end gets one, where other lines come to stand after it.
pub proof fn law_current_order_is_kept(todo: Seq<char>, shas: Seq<Seq<char>>)
    requires
        ({
            let pick_lines = text::split_inclusive(todo).filter(is_pick());
            let others = text::concat(text::split_inclusive(todo).filter(is_other()));
            &&& shas.len() == pick_lines.len()
            &&& forall|i: int|
                0 <= i < shas.len() ==> sha_of(#[trigger] pick_lines[i]) == shas[i] && picked_by(
                    pick_lines,
                    shas[i],
                ) == 1
            &&& others.len() > 0 && pick_lines.len() > 0 ==> pick_lines.last().last() == '\n'
        }),
    ensures
        reordered(todo, shas) == Ok::<Seq<char>, Failure>(
            text::concat(text::split_inclusive(todo).filter(is_pick())) + text::concat(
                text::split_inclusive(todo).filter(is_other()),
            ),
        ),
{
    let ls = text::split_inclusive(todo);
    let pick_lines = ls.filter(is_pick());
    let others = text::concat(ls.filter(is_other()));
    lemma_filter_picks(ls);
    lemma_own_order(pick_lines, shas);
    assert forall|i: int| 0 <= i < shas.len() implies picked_by(pick_lines, #[trigger] shas[i])
        <= 1 by {
        assert(sha_of(pick_lines[i]) == shas[i]);
    }
    lemma_none_repeated(pick_lines, shas, shas.len() as int);
    lemma_lines_end(todo);
    lemma_filter_ends(ls, is_pick());
    assert(ended_lines(pick_lines, others) =~= pick_lines) by {
        assert forall|i: int| 0 <= i < pick_lines.len() implies ended_lines(pick_lines, others)[i]
            == #[trigger] pick_lines[i] by {
            if is_followed(i, pick_lines.len(), others) {
                assert(pick_rest(pick_lines[i]) is Some);
                lemma_whole(pick_lines[i]);
            }
        }
    }
}

/// A line that ends in `\n` is not ended again.
proof fn lemma_whole(line: Seq<char>)
    requires
        line.len() > 0,
        line.last() == '\n',
    ensures
        terminator(line).len() > 0,
        end_of(line, true) == terminator(line),
        end_of(line, false) == terminator(line),
        ended(line, true) == line,
{
    text::lemma_span_back(line, text::line_end());
    assert(text::span_back(line, text::line_end()) > 0);
    assert(terminator(line).last() == line.last());
    assert(body(line) + terminator(line) =~= line);
}

/// Every line but the last ends in `\n`.
proof fn lemma_lines_end(s: Seq<char>)
    ensures
        all_but_last_end(text::split_inclusive(s)),
    decreases s.len(),
{
    let ls = text::split_inclusive(s);
    let k = text::span(s, text::is_not('\n')) as int;
    text::lemma_span(s, text::is_not('\n'));
    if s.len() > 0 && k < s.len() {
        let rest = text::split_inclusive(s.skip(k + 1));
        lemma_lines_end(s.skip(k + 1));
        assert(s[k] == '\n');
        assert forall|i: int| 0 <= i < ls.len() - 1 implies (#[trigger] ls[i]).len() > 0
            && ls[i].last() == '\n' by {
            if i > 0 {
                assert(ls[i] == rest[i - 1]);
            } else {
                assert(ls[0] == s.take(k + 1));
            }
        }
    }
}

spec fn all_but_last_end(ls: Seq<Seq<char>>) -> bool {
    forall|i: int|
        0 <= i < ls.len() - 1 ==> (#[trigger] ls[i]).len() > 0 && ls[i].last() == '\n'
}

/// Of some of the lines, too, every one but the last ends in `\n`.
proof fn lemma_filter_ends(ls: Seq<Seq<char>>, p: spec_fn(Seq<char>) -> bool)
    requires
        all_but_last_end(ls),
    ensures
        all_but_last_end(ls.filter(p)),
    decreases ls.len(),
{
    reveal(Seq::filter);
    if ls.len() > 0 {
        let t = ls.drop_last();
        assert forall|i: int| 0 <= i < t.len() implies (#[trigger] t[i]).len() > 0 && t[i].last()
            == '\n' by {
            assert(t[i] == ls[i]);
        }
        lemma_all_end(t, p);
        let f = ls.filter(p);
        let g = t.filter(p);
        assert(f == if p(ls.last()) {
            g.push(ls.last())
        } else {
            g
        });
        assert forall|i: int| 0 <= i < f.len() - 1 implies (#[trigger] f[i]).len() > 0 && f[i].last()
            == '\n' by {
            assert(f[i] == g[i]);
        }
    }
}

proof fn lemma_all_end(t: Seq<Seq<char>>, p: spec_fn(Seq<char>) -> bool)
    requires
        forall|i: int| 0 <= i < t.len() ==> (#[trigger] t[i]).len() > 0 && t[i].last() == '\n',
    ensures
        forall|i: int|
            0 <= i < t.filter(p).len() ==> (#[trigger] t.filter(p)[i]).len() > 0 && t.filter(
                p,
            )[i].last() == '\n',
    decreases t.len(),
{
    reveal(Seq::filter);
    if t.len() > 0 {
        let u = t.drop_last();
        assert forall|i: int| 0 <= i < u.len() implies (#[trigger] u[i]).len() > 0 && u[i].last()
            == '\n' by {
            assert(u[i] == t[i]);
        }
        lemma_all_end(u, p);
        let f = t.filter(p);
        let g = u.filter(p);
        assert(f == if p(t.last()) {
            g.push(t.last())
        } else {
            g
        });
        assert forall|i: int| 0 <= i < f.len() implies (#[trigger] f[i]).len() > 0 && f[i].last()
            == '\n' by {
            if i < g.len() {
                assert(f[i] == g[i]);
            } else {
                assert(f[i] == t[t.len() - 1]);
            }
        }
    }
}

proof fn lemma_none_repeated(lines: Seq<Seq<char>>, targets: Seq<Seq<char>>, n: int)
    requires
        n <= targets.len(),
        forall|i: int| 0 <= i < n ==> picked_by(lines, #[trigger] targets[i]) <= 1,
    ensures
        repeated(lines, targets, n) == Seq::<Seq<char>>::empty(),
    decreases n,
{
    if n > 0 {
        lemma_none_repeated(lines, targets, n - 1);
        assert(picked_by(lines, targets[n - 1]) <= 1);
    }
}

proof fn lemma_own_order(pick_lines: Seq<Seq<char>>, shas: Seq<Seq<char>>)
    requires
        shas.len() == pick_lines.len(),
        forall|i: int|
            0 <= i < shas.len() ==> pick_rest(#[trigger] pick_lines[i]) is Some && sha_of(
                pick_lines[i],
            ) == shas[i],
    ensures
        arrange(pick_lines, shas) == Ok::<Seq<Seq<char>>, Seq<char>>(pick_lines),
    decreases shas.len(),
{
    if shas.len() == 0 {
        assert(pick_lines =~= seq![]);
    } else {
        assert(pick_rest(pick_lines[0]) is Some);
        assert(sha_of(pick_lines[0]) == shas[0]);
        assert(shas[0].is_prefix_of(shas[0])) by {
            assert(shas[0].subrange(0, shas[0].len() as int) =~= shas[0]);
        }
        assert(picks(pick_lines[0], shas[0]));
        let left = pick_lines.remove(0);
        let rest = shas.drop_first();
        assert(left =~= pick_lines.drop_first());
        assert forall|i: int| 0 <= i < rest.len() implies pick_rest(#[trigger] left[i]) is Some
            && sha_of(left[i]) == rest[i] by {
            assert(left[i] == pick_lines[i + 1]);
        }
        lemma_own_order(left, rest);
        assert(seq![pick_lines[0]] + left =~= pick_lines);
    }
}

/// The lines that are no `pick` lines come out of a reorder as they went in,
/// in their order, after the `pick` lines.
pub proof fn law_other_lines_follow(todo: Seq<char>, shas: Seq<Seq<char>>)
    requires
        reordered(todo, shas) is Ok,
    ensures
        text::concat(text::split_inclusive(todo).filter(is_other())).is_suffix_of(reordered(todo, shas)->Ok_0),
{
    let ls = text::split_inclusive(todo);
    let order = arrange(ls.filter(is_pick()), shas)->Ok_0;
    let tail = text::concat(ls.filter(is_other()));
    let out = text::concat(ended_lines(order, tail)) + tail;
    assert(out.subrange(out.len() - tail.len(), out.len() as int) =~= tail);
}

/// Dropping, folding and rewording never guess: where the list is rewritten,
/// every target is picked by exactly one line.
pub proof fn law_targets_are_unambiguous(
    todo: Seq<char>,
    targets: Seq<Seq<char>>,
    verb: Seq<char>,
    k: int,
)
    requires
        0 <= k < targets.len(),
    ensures
        dropped(todo, targets) is Ok ==> picked_by(text::split_inclusive(todo), targets[k]) == 1,
        verb_replaced(todo, targets, verb) is Ok ==> picked_by(
            text::split_inclusive(todo),
            targets[k],
        ) == 1,
{
    let ls = text::split_inclusive(todo);
    if picked_by(ls, targets[k]) > 1 {
        lemma_repeated_has(ls, targets, targets.len() as int, k);
    }
    if picked_by(ls, targets[k]) == 0 {
        lemma_no_hits(ls, targets, k);
        lemma_missing_has(ls, targets, targets.len() as int, k);
    }
}

proof fn lemma_repeated_has(lines: Seq<Seq<char>>, targets: Seq<Seq<char>>, n: int, k: int)
    requires
        0 <= k < n <= targets.len(),
        picked_by(lines, targets[k]) > 1,
    ensures
        repeated(lines, targets, n).len() > 0,
    decreases n,
{
    if k < n - 1 {
        lemma_repeated_has(lines, targets, n - 1, k);
    }
}

proof fn lemma_missing_has(lines: Seq<Seq<char>>, targets: Seq<Seq<char>>, n: int, k: int)
    requires
        0 <= k < n <= targets.len(),
        hits(lines, targets, k) == 0,
    ensures
        missing(lines, targets, n).len() > 0,
    decreases n,
{
    if k < n - 1 {
        lemma_missing_has(lines, targets, n - 1, k);
    }
}

/// A target that no line picks is not the first target of any.
proof fn lemma_no_hits(lines: Seq<Seq<char>>, targets: Seq<Seq<char>>, k: int)
    requires
        0 <= k < targets.len(),
        picked_by(lines, targets[k]) == 0,
    ensures
        hits(lines, targets, k) == 0,
    decreases lines.len(),
{
    if lines.len() > 0 {
        lemma_no_hits(lines.drop_last(), targets, k);
        lemma_first_target(sha_of(lines.last()), targets);
    }
}

/// A reorder never guesses either: every SHA is that of exactly one `pick`
/// line.
pub proof fn law_ordered_shas_are_unambiguous(todo: Seq<char>, shas: Seq<Seq<char>>, k: int)
    requires
        0 <= k < shas.len(),
        reordered(todo, shas) is Ok,
    ensures
        picked_by(text::split_inclusive(todo).filter(is_pick()), shas[k]) == 1,
{
    let pick_lines = text::split_inclusive(todo).filter(is_pick());
    if picked_by(pick_lines, shas[k]) > 1 {
        lemma_repeated_has(pick_lines, shas, shas.len() as int, k);
    }
    lemma_arranged_picks(pick_lines, shas, k);
}

/// The line that an arrangement puts at a place picks the SHA of that place,
/// and is one of the lines.
proof fn lemma_arranged_picks(pick_lines: Seq<Seq<char>>, shas: Seq<Seq<char>>, k: int)
    requires
        0 <= k < shas.len(),
        arrange(pick_lines, shas) is Ok,
    ensures
        arrange(pick_lines, shas)->Ok_0.len() == shas.len(),
        picks(arrange(pick_lines, shas)->Ok_0[k], shas[k]),
        pick_lines.contains(arrange(pick_lines, shas)->Ok_0[k]),
        picked_by(pick_lines, shas[k]) >= 1,
    decreases shas.len(),
{
    let j = first_pick(pick_lines, shas[0]) as int;
    lemma_first_pick(pick_lines, shas[0]);
    let left = pick_lines.remove(j);
    let rest = shas.drop_first();
    if k == 0 {
        lemma_picked(pick_lines, shas[0], j);
    } else {
        assert(rest[k - 1] == shas[k]);
        lemma_arranged_picks(left, rest, k - 1);
        lemma_picked_by_remove(pick_lines, shas[k], j);
        let line = arrange(left, rest)->Ok_0[k - 1];
        let q = choose|q: int| 0 <= q < left.len() && left[q] == line;
        assert(pick_lines[if q < j {
            q
        } else {
            q + 1
        }] == line);
    }
    if rest.len() > 0 {
        lemma_arranged_picks(left, rest, 0);
    }
}

proof fn lemma_picked(lines: Seq<Seq<char>>, target: Seq<char>, j: int)
    requires
        0 <= j < lines.len(),
        picks(lines[j], target),
    ensures
        picked_by(lines, target) >= 1,
    decreases lines.len(),
{
    if j < lines.len() - 1 {
        lemma_picked(lines.drop_last(), target, j);
    }
}

proof fn lemma_picked_by_remove(lines: Seq<Seq<char>>, target: Seq<char>, j: int)
    requires
        0 <= j < lines.len(),
    ensures
        picked_by(lines.remove(j), target) <= picked_by(lines, target),
    decreases lines.len(),
{
    if j < lines.len() - 1 {
        lemma_picked_by_remove(lines.drop_last(), target, j);
        assert(lines.remove(j).drop_last() =~= lines.drop_last().remove(j));
    } else {
        assert(lines.remove(j) =~= lines.drop_last());
    }
}

/// A squash without a command is the reorder with the verbs of the folded
/// lines changed, where every `pick` line ends in `\n`: both succeed on the same
/// lists, line for line they differ in nothing but `fixup` for the SHAs that are
/// folded, and where none is they are the same.
pub proof fn law_squash_is_a_reorder(
    todo: Seq<char>,
    shas: Seq<Seq<char>>,
    fixup_shas: Seq<Seq<char>>,
)
    requires
        forall|i: int|
            0 <= i < text::split_inclusive(todo).filter(is_pick()).len() ==> (
            #[trigger] text::split_inclusive(todo).filter(is_pick())[i]).last() == '\n',
    ensures
        squashed(todo, shas, fixup_shas, None) is Ok <==> reordered(todo, shas) is Ok,
        reordered(todo, shas) is Ok ==> ({
            let ls = text::split_inclusive(todo);
            let order = arrange(ls.filter(is_pick()), shas)->Ok_0;
            let others = text::concat(ls.filter(is_other()));
            let folded = Seq::new(
                order.len(),
                |i: int|
                    if folds(shas[i], fixup_shas) {
                        with_verb(order[i], "fixup"@)
                    } else {
                        order[i]
                    },
            );
            &&& order.len() == shas.len()
            &&& forall|i: int| 0 <= i < order.len() ==> pick_rest(#[trigger] order[i]) is Some
            &&& reordered(todo, shas)->Ok_0 == text::concat(order) + others
            &&& squashed(todo, shas, fixup_shas, None)->Ok_0 == text::concat(folded) + others
        }),
        fixup_shas.len() == 0 && reordered(todo, shas) is Ok ==> squashed(
            todo,
            shas,
            fixup_shas,
            None,
        )->Ok_0 == reordered(todo, shas)->Ok_0,
{
    let ls = text::split_inclusive(todo);
    let pick_lines = ls.filter(is_pick());
    let others = text::concat(ls.filter(is_other()));
    if reordered(todo, shas) is Ok {
        let order = arrange(pick_lines, shas)->Ok_0;
        let folded = Seq::new(
            order.len(),
            |i: int|
                if folds(shas[i], fixup_shas) {
                    with_verb(order[i], "fixup"@)
                } else {
                    order[i]
                },
        );
        law_reorder_permutes(pick_lines, shas);
        assert forall|i: int| 0 <= i < order.len() implies pick_rest(#[trigger] order[i]) is Some
            && order[i].len() > 0 && order[i].last() == '\n' by {
            lemma_arranged_picks(pick_lines, shas, i);
            let q = choose|q: int| 0 <= q < pick_lines.len() && pick_lines[q] == order[i];
            assert(pick_lines[q].last() == '\n');
            reveal_strlit("pick ");
            assert(body(order[i]).len() >= 5);
            text::lemma_span_back(order[i], text::line_end());
        }
        let entries = squash_entries(order, shas, fixup_shas, None, others);
        let placed = ended_lines(order, others);
        assert forall|i: int| 0 <= i < order.len() implies #[trigger] entries[i] == folded[i]
            && placed[i] == order[i] by {
            assert(pick_rest(order[i]) is Some);
            lemma_pick_body(order[i]);
            lemma_whole(order[i]);
            reveal_strlit("pick ");
            reveal_strlit("pick");
            assert("pick "@ =~= "pick"@ + seq![' ']);
            text::lemma_span_back(order[i], text::line_end());
            assert(body(order[i]) + terminator(order[i]) =~= order[i]);
            assert(entries[i] =~= folded[i]);
        }
        assert(entries =~= folded);
        assert forall|i: int| 0 <= i < order.len() implies #[trigger] placed[i] == order[i] by {
            assert(entries[i] == folded[i]);
        }
        assert(placed =~= order);
        if fixup_shas.len() == 0 {
            assert(folded =~= order);
        }
    }
}

/// A SHA without a command, or a command without a SHA, changes nothing about a
/// squash.
pub proof fn law_half_an_exec_is_none(
    todo: Seq<char>,
    ordered_shas: Vec<String>,
    fixup_shas: Vec<String>,
    sha: String,
    command: String,
)
    ensures
        ({
            let with = |a: Option<String>, c: Option<String>|
                rewritten(
                    todo,
                    Action::Squash {
                        ordered_shas,
                        fixup_shas,
                        exec_after_sha: a,
                        exec_command: c,
                    },
                );
            with(Some(sha), None) == with(None, None) && with(None, Some(command)) == with(None, None)
        }),
{
}

/// Taking a todo list apart into lines and writing the lines back gives the
/// list: an action that changes no line changes nothing.
pub proof fn law_lines_round_trip(todo: Seq<char>)
    ensures
        text::concat(text::split_inclusive(todo)) == todo,
{
    text::lemma_lines_concat(todo);
}

// ---------------------------------------------------------------------------
// What the actions are for
// ---------------------------------------------------------------------------

/// Whether `line` is `pick <sha>`, with nothing or white space after the SHA.
pub open spec fn reads_pick(line: Seq<char>, sha: Seq<char>) -> bool {
    &&& "pick "@.is_prefix_of(line)
    &&& sha.is_prefix_of(line.skip(5))
    &&& forall|i: int| 0 <= i < sha.len() ==> !text::white_space(#[trigger] sha[i])
    &&& 5 + sha.len() < line.len() ==> text::white_space(line[5 + sha.len() as int])
}

/// Whether `line` is the `pick` line of a commit that `target` can mean: one of
/// the two SHAs starts with the other.
pub open spec fn means(line: Seq<char>, target: Seq<char>) -> bool {
    exists|sha: Seq<char>| #[trigger]
        reads_pick(line, sha) && (sha.is_prefix_of(target) || target.is_prefix_of(sha))
}

proof fn lemma_prefix(a: Seq<char>, b: Seq<char>)
    ensures
        a.is_prefix_of(b) <==> a.len() <= b.len() && forall|i: int|
            0 <= i < a.len() ==> #[trigger] a[i] == b[i],
{
    if a.len() <= b.len() && forall|i: int| 0 <= i < a.len() ==> #[trigger] a[i] == b[i] {
        assert(b.subrange(0, a.len() as int) =~= a);
    }
    if a.is_prefix_of(b) {
        let c = b.subrange(0, a.len() as int);
        assert forall|i: int| 0 <= i < a.len() implies #[trigger] a[i] == b[i] by {
            assert(c[i] == b[i]);
        }
    }
}

/// A line is a `pick` line where it starts with `pick `.
proof fn lemma_pick_start(line: Seq<char>)
    ensures
        pick_rest(line) is Some <==> "pick "@.is_prefix_of(line),
        pick_rest(line) is Some ==> pick_rest(line)->0 + terminator(line) == line.skip(5),
        pick_rest(line) is Some ==> line.len() >= 5,
{
    reveal_strlit("pick ");
    text::lemma_span_back(line, text::line_end());
    let n = line.len() - text::span_back(line, text::line_end());
    lemma_prefix("pick "@, line);
    lemma_prefix("pick "@, body(line));
    assert forall|i: int| 0 <= i < n implies body(line)[i] == #[trigger] line[i] by {}
    if "pick "@.is_prefix_of(line) {
        if n < 5 {
            assert(text::line_end()(line[4]));
            assert("pick "@[4] == line[4]);
        }
        assert forall|i: int| 0 <= i < 5 implies #[trigger] "pick "@[i] == body(line)[i] by {
            assert(line[i] == body(line)[i]);
        }
    }
    if "pick "@.is_prefix_of(body(line)) {
        assert forall|i: int| 0 <= i < 5 implies #[trigger] "pick "@[i] == line[i] by {
            assert(line[i] == body(line)[i]);
        }
        assert(pick_rest(line)->0 + terminator(line) =~= line.skip(5));
    }
}

/// A `pick` line has one SHA.
proof fn lemma_pick_sha(line: Seq<char>)
    ensures
        pick_rest(line) is Some ==> reads_pick(line, sha_of(line)),
        forall|sha: Seq<char>| #[trigger]
            reads_pick(line, sha) ==> pick_rest(line) is Some && sha == sha_of(line),
{
    lemma_pick_start(line);
    if pick_rest(line) is Some {
        let rest = pick_rest(line)->0;
        let k = text::span(rest, text::not_blank()) as int;
        text::lemma_span(rest, text::not_blank());
        text::lemma_span_back(line, text::line_end());
        let n = line.len() - text::span_back(line, text::line_end());
        reveal_strlit("pick ");
        assert(rest.len() == n - 5);
        assert forall|i: int| 0 <= i < rest.len() implies #[trigger] rest[i] == line[5 + i] by {}
        let sha = sha_of(line);
        lemma_prefix(sha, line.skip(5));
        assert forall|i: int| 0 <= i < sha.len() implies !text::white_space(#[trigger] sha[i]) by {
            assert(text::not_blank()(rest[i]));
        }
        if 5 + sha.len() < line.len() {
            if k == rest.len() {
                assert(text::line_end()(line[n]));
            } else {
                assert(!text::not_blank()(rest[k]));
            }
        }
        assert forall|other: Seq<char>| #[trigger] reads_pick(line, other) implies other == sha by {
            lemma_prefix(other, line.skip(5));
            let m = other.len() as int;
            if m < k {
                assert(line[5 + m] == rest[m]);
                assert(text::not_blank()(rest[m]));
            }
            if m > k {
                assert(other[k] == line.skip(5)[k]);
                assert(!text::white_space(other[k]));
                assert(text::white_space(line[5 + k]));
            }
            assert(other =~= sha);
        }
    }
}

proof fn lemma_means(line: Seq<char>, target: Seq<char>)
    ensures
        means(line, target) == picks(line, target),
{
    lemma_pick_sha(line);
    if picks(line, target) {
        assert(reads_pick(line, sha_of(line)));
    }
}

/// How many lines mean `target`.
pub open spec fn times_meant(lines: Seq<Seq<char>>, target: Seq<char>) -> nat {
    lines.filter(|l: Seq<char>| means(l, target)).len()
}

proof fn lemma_times_meant(lines: Seq<Seq<char>>, target: Seq<char>)
    ensures
        times_meant(lines, target) == picked_by(lines, target),
    decreases lines.len(),
{
    reveal(Seq::filter);
    if lines.len() > 0 {
        lemma_times_meant(lines.drop_last(), target);
        lemma_means(lines.last(), target);
    }
}

/// A line with another verb is the line with that verb in place of `pick`.
proof fn lemma_with_verb(line: Seq<char>, verb: Seq<char>)
    requires
        pick_rest(line) is Some,
    ensures
        with_verb(line, verb) == verb + line.skip(4),
{
    lemma_pick_start(line);
    reveal_strlit("pick ");
    lemma_prefix("pick "@, line);
    assert(line[4] == "pick "@[4]);
    assert(with_verb(line, verb) =~= verb + (seq![' '] + (pick_rest(line)->0 + terminator(line))));
    assert(seq![' '] + line.skip(5) =~= line.skip(4));
}

/// `edit` marks the lines that mean the commit and touches no other: of these
/// the verb alone changes. It fails where no line means the commit.
pub proof fn law_edit_marks_its_commit(todo: Seq<char>, target: Seq<char>) -> (after: Seq<Seq<char>>)
    ensures
        ({
            let before = text::split_inclusive(todo);
            &&& edited(todo, target) is Ok <==> exists|i: int|
                0 <= i < before.len() && means(#[trigger] before[i], target)
            &&& edited(todo, target) is Err ==> edited(todo, target)->Err_0 is InvalidState
            &&& edited(todo, target) is Ok ==> edited(todo, target)->Ok_0 == text::concat(after)
            &&& after.len() == before.len()
            &&& forall|i: int|
                0 <= i < before.len() ==> #[trigger] after[i] == (if means(before[i], target) {
                    "edit"@ + before[i].skip(4)
                } else {
                    before[i]
                })
        }),
{
    let before = text::split_inclusive(todo);
    let after = before.map_values(mark_edit(target));
    lemma_first_pick(before, target);
    assert forall|i: int| 0 <= i < before.len() implies #[trigger] after[i] == (if means(
        before[i],
        target,
    ) {
        "edit"@ + before[i].skip(4)
    } else {
        before[i]
    }) by {
        lemma_means(before[i], target);
        if picks(before[i], target) {
            lemma_with_verb(before[i], "edit"@);
        }
    }
    assert forall|i: int| 0 <= i < before.len() implies means(#[trigger] before[i], target)
        == picks(before[i], target) by {
        lemma_means(before[i], target);
    }
    if first_pick(before, target) < before.len() {
        assert(means(before[first_pick(before, target) as int], target));
    }
    after
}

/// Whether some target means the commit of `line`.
pub open spec fn meant_by_any(line: Seq<char>, targets: Seq<Seq<char>>) -> bool {
    exists|k: int| 0 <= k < targets.len() && means(line, #[trigger] targets[k])
}

proof fn lemma_meant_by_any(line: Seq<char>, targets: Seq<Seq<char>>)
    ensures
        meant_by_any(line, targets) <==> target_of(line, targets) < targets.len(),
        meant_by_any(line, targets) ==> pick_rest(line) is Some,
{
    assert forall|k: int| 0 <= k < targets.len() implies means(line, #[trigger] targets[k])
        == picks(line, targets[k]) by {
        lemma_means(line, targets[k]);
    }
    if pick_rest(line) is Some {
        lemma_first_target(sha_of(line), targets);
        let k = first_target(sha_of(line), targets) as int;
        if k < targets.len() {
            assert(means(line, targets[k]));
        }
        if meant_by_any(line, targets) {
            let j = choose|j: int| 0 <= j < targets.len() && means(line, #[trigger] targets[j]);
            assert(shas_match(sha_of(line), targets[j]));
        }
    } else if meant_by_any(line, targets) {
        let j = choose|j: int| 0 <= j < targets.len() && means(line, #[trigger] targets[j]);
        assert(picks(line, targets[j]));
    }
}

/// `drop` removes the lines that mean one of the commits and keeps every other,
/// in order. It succeeds only where every target means the commit of exactly
/// one line.
pub proof fn law_drop_removes_its_commits(todo: Seq<char>, targets: Seq<Seq<char>>)
    ensures
        ({
            let before = text::split_inclusive(todo);
            &&& dropped(todo, targets) is Err ==> dropped(todo, targets)->Err_0 is InvalidState
            &&& dropped(todo, targets) is Ok ==> {
                &&& targets.len() > 0
                &&& dropped(todo, targets)->Ok_0 == text::concat(
                    before.filter(|l: Seq<char>| !meant_by_any(l, targets)),
                )
                &&& forall|k: int|
                    0 <= k < targets.len() ==> times_meant(before, #[trigger] targets[k]) == 1
            }
        }),
{
    let before = text::split_inclusive(todo);
    if dropped(todo, targets) is Ok {
        assert forall|k: int| 0 <= k < targets.len() implies times_meant(
            before,
            #[trigger] targets[k],
        ) == 1 by {
            law_targets_are_unambiguous(todo, targets, "drop"@, k);
            lemma_times_meant(before, targets[k]);
        }
        lemma_same_filter(before, targets);
    }
}

proof fn lemma_same_filter(lines: Seq<Seq<char>>, targets: Seq<Seq<char>>)
    ensures
        lines.filter(not_targeted(targets)) == lines.filter(
            |l: Seq<char>| !meant_by_any(l, targets),
        ),
    decreases lines.len(),
{
    reveal(Seq::filter);
    if lines.len() > 0 {
        lemma_same_filter(lines.drop_last(), targets);
        lemma_meant_by_any(lines.last(), targets);
    }
}

/// Targets of which each means the commit of one line, and no two of the same
/// line, are all dropped, folded or reworded: these actions do not fail on
/// them.
pub proof fn law_clear_targets_succeed(todo: Seq<char>, targets: Seq<Seq<char>>, verb: Seq<char>)
    requires
        targets.len() > 0,
        forall|k: int|
            0 <= k < targets.len() ==> times_meant(
                text::split_inclusive(todo),
                #[trigger] targets[k],
            ) == 1,
        forall|i: int, k: int, m: int|
            0 <= i < text::split_inclusive(todo).len() && 0 <= k < m < targets.len() ==> !(means(
                text::split_inclusive(todo)[i],
                #[trigger] targets[k],
            ) && means(#[trigger] text::split_inclusive(todo)[i], #[trigger] targets[m])),
    ensures
        dropped(todo, targets) is Ok,
        verb_replaced(todo, targets, verb) is Ok,
{
    let ls = text::split_inclusive(todo);
    assert forall|k: int| 0 <= k < targets.len() implies picked_by(ls, #[trigger] targets[k])
        <= 1 && hits(ls, targets, k) > 0 by {
        lemma_times_meant(ls, targets[k]);
        let i = lemma_picked_at(ls, targets[k]);
        lemma_means(ls[i], targets[k]);
        lemma_first_target(sha_of(ls[i]), targets);
        let j = first_target(sha_of(ls[i]), targets) as int;
        if j < k {
            lemma_means(ls[i], targets[j]);
            assert(means(ls[i], targets[j]) && means(ls[i], targets[k]));
        }
        assert(j == k) by {
            if j > k {
                assert(!shas_match(sha_of(ls[i]), targets[k]));
            }
        }
        lemma_hit(ls, targets, k, i);
    }
    lemma_none_repeated(ls, targets, targets.len() as int);
    assert forall|k: int| 0 <= k < targets.len() implies hits(ls, targets, k) > 0 by {
        assert(picked_by(ls, targets[k]) <= 1);
    }
    lemma_none_missing(ls, targets, targets.len() as int);
}

proof fn lemma_picked_at(lines: Seq<Seq<char>>, target: Seq<char>) -> (i: int)
    requires
        picked_by(lines, target) > 0,
    ensures
        0 <= i < lines.len(),
        picks(lines[i], target),
    decreases lines.len(),
{
    if picks(lines.last(), target) {
        lines.len() - 1
    } else {
        lemma_picked_at(lines.drop_last(), target)
    }
}

proof fn lemma_hit(lines: Seq<Seq<char>>, targets: Seq<Seq<char>>, k: int, i: int)
    requires
        0 <= i < lines.len(),
        target_of(lines[i], targets) == k,
    ensures
        hits(lines, targets, k) > 0,
    decreases lines.len(),
{
    if i < lines.len() - 1 {
        lemma_hit(lines.drop_last(), targets, k, i);
    }
}

proof fn lemma_none_missing(lines: Seq<Seq<char>>, targets: Seq<Seq<char>>, n: int)
    requires
        n <= targets.len(),
        forall|k: int| 0 <= k < n ==> hits(lines, targets, k) > 0,
    ensures
        missing(lines, targets, n) == Seq::<Seq<char>>::empty(),
    decreases n,
{
    if n > 0 {
        lemma_none_missing(lines, targets, n - 1);
        assert(hits(lines, targets, n - 1) > 0);
    }
}

/// `fixup` and `reword` change the verb of the lines that mean one of the
/// commits, and nothing else. They succeed only where every target means the
/// commit of exactly one line.
pub proof fn law_verb_is_replaced(todo: Seq<char>, targets: Seq<Seq<char>>, verb: Seq<char>) -> (after:
    Seq<Seq<char>>)
    ensures
        ({
            let before = text::split_inclusive(todo);
            let r = verb_replaced(todo, targets, verb);
            &&& r is Err ==> r->Err_0 is InvalidState
            &&& r is Ok ==> {
                &&& targets.len() > 0
                &&& r->Ok_0 == text::concat(after)
                &&& forall|k: int|
                    0 <= k < targets.len() ==> times_meant(before, #[trigger] targets[k]) == 1
            }
            &&& after.len() == before.len()
            &&& forall|i: int|
                0 <= i < before.len() ==> #[trigger] after[i] == (if meant_by_any(
                    before[i],
                    targets,
                ) {
                    verb + before[i].skip(4)
                } else {
                    before[i]
                })
        }),
{
    let before = text::split_inclusive(todo);
    let after = before.map_values(swap_verb(targets, verb));
    assert forall|i: int| 0 <= i < before.len() implies #[trigger] after[i] == (if meant_by_any(
        before[i],
        targets,
    ) {
        verb + before[i].skip(4)
    } else {
        before[i]
    }) by {
        lemma_meant_by_any(before[i], targets);
        if meant_by_any(before[i], targets) {
            lemma_with_verb(before[i], verb);
        }
    }
    if verb_replaced(todo, targets, verb) is Ok {
        assert forall|k: int| 0 <= k < targets.len() implies times_meant(
            before,
            #[trigger] targets[k],
        ) == 1 by {
            law_targets_are_unambiguous(todo, targets, verb, k);
            lemma_times_meant(before, targets[k]);
        }
    }
    after
}

/// The command stands on a line of its own right after the first line that
/// means the commit, and every line stays. It fails where no line means the
/// commit.
pub proof fn law_exec_follows_its_commit(todo: Seq<char>, target: Seq<char>, command: Seq<char>) -> (k:
    int)
    ensures
        ({
            let ls = text::split_inclusive(todo);
            let r = exec_added(todo, target, command);
            &&& r is Ok <==> exists|i: int| 0 <= i < ls.len() && means(#[trigger] ls[i], target)
            &&& r is Err ==> r->Err_0 is InvalidState
            &&& r is Ok ==> {
                &&& 0 <= k < ls.len()
                &&& means(ls[k], target)
                &&& forall|i: int| 0 <= i < k ==> !means(#[trigger] ls[i], target)
                &&& (text::concat(ls.take(k)) + ls[k]).is_prefix_of(r->Ok_0)
                &&& ls[k].last() == '\n' ==> (text::concat(ls.take(k)) + ls[k] + "exec "@
                    + command).is_prefix_of(r->Ok_0)
                &&& ls[k].last() != '\n' ==> (text::concat(ls.take(k)) + ls[k] + "\nexec "@
                    + command).is_prefix_of(r->Ok_0)
                &&& text::concat(ls.skip(k + 1)).is_suffix_of(r->Ok_0)
            }
        }),
{
    let ls = text::split_inclusive(todo);
    let k = first_pick(ls, target) as int;
    lemma_first_pick(ls, target);
    assert forall|i: int| 0 <= i < ls.len() implies means(#[trigger] ls[i], target) == picks(
        ls[i],
        target,
    ) by {
        lemma_means(ls[i], target);
    }
    if k < ls.len() {
        assert(means(ls[k], target));
        let line = ls[k];
        let head = text::concat(ls.take(k));
        let tail = text::concat(ls.skip(k + 1));
        let out = exec_added(todo, target, command)->Ok_0;
        text::lemma_span_back(line, text::line_end());
        reveal_strlit("\n");
        reveal_strlit("exec ");
        reveal_strlit("\nexec ");
        lemma_pick_start(line);
        assert(body(line) + terminator(line) =~= line);
        assert("\nexec "@ =~= seq!['\n'] + "exec "@);
        if line.last() == '\n' {
            lemma_whole(line);
            let start = head + line + "exec "@ + command;
            assert(out =~= start + (end_of(line, k + 1 < ls.len()) + tail));
            assert(out.subrange(0, start.len() as int) =~= start);
        } else {
            assert(terminator(line).len() > 0 ==> terminator(line).last() == line.last());
            assert(ended(line, true) =~= line + seq!['\n']) by {
                if terminator(line).len() == 0 {
                    assert("\n"@ =~= seq!['\n']);
                }
            }
            let start = head + line + "\nexec "@ + command;
            assert(out =~= start + (end_of(line, k + 1 < ls.len()) + tail));
            assert(out.subrange(0, start.len() as int) =~= start);
        }
        assert(out.subrange(0, (head + line).len() as int) =~= head + line);
        assert(out.subrange(out.len() - tail.len(), out.len() as int) =~= tail);
    }
    k
}

/// A reorder writes, for each SHA in turn, the one line of the list that means
/// it, and then every other line as it stands. No line is written twice.
pub proof fn law_reorder_writes_the_order(todo: Seq<char>, shas: Seq<Seq<char>>) -> (entries: Seq<
    Seq<char>,
>)
    requires
        reordered(todo, shas) is Ok,
    ensures
        ({
            let ls = text::split_inclusive(todo);
            let others = text::concat(ls.filter(|l: Seq<char>| !"pick "@.is_prefix_of(l)));
            &&& entries.len() == shas.len()
            &&& entries.len() == ls.filter(|l: Seq<char>| "pick "@.is_prefix_of(l)).len()
            &&& reordered(todo, shas)->Ok_0 == text::concat(entries) + others
            &&& forall|i: int|
                0 <= i < entries.len() ==> times_meant(ls, shas[i]) == 1 && exists|line: Seq<char>|
                    #[trigger] ls.contains(line) && means(line, shas[i]) && (entries[i] == line || (
                    line.last() != '\n' && entries[i] == line.push('\n')))
        }),
{
    let ls = text::split_inclusive(todo);
    let pick_lines = ls.filter(is_pick());
    let others = text::concat(ls.filter(is_other()));
    lemma_pick_filters(ls);
    let order = arrange(pick_lines, shas)->Ok_0;
    let entries = ended_lines(order, others);
    law_reorder_permutes(pick_lines, shas);
    assert forall|i: int| 0 <= i < entries.len() implies times_meant(ls, shas[i]) == 1 && exists|
        line: Seq<char>,
    |
        #[trigger] ls.contains(line) && means(line, shas[i]) && (entries[i] == line || (line.last()
            != '\n' && entries[i] == line.push('\n'))) by {
        let line = order[i];
        law_ordered_shas_are_unambiguous(todo, shas, i);
        lemma_picked_by_filter(ls, shas[i]);
        lemma_times_meant(ls, shas[i]);
        lemma_arranged_picks(pick_lines, shas, i);
        lemma_means(line, shas[i]);
        let q = choose|q: int| 0 <= q < pick_lines.len() && pick_lines[q] == line;
        lemma_filtered_is_there(ls, is_pick(), q);
        lemma_ended_is(line, is_followed(i, order.len(), others));
    }
    entries
}

proof fn lemma_ended_is(line: Seq<char>, followed: bool)
    requires
        pick_rest(line) is Some,
    ensures
        ended(line, followed) == line || (line.last() != '\n' && ended(line, followed) == line.push(
            '\n',
        )),
{
    lemma_pick_start(line);
    if line.last() == '\n' {
        lemma_whole(line);
    } else {
        text::lemma_span_back(line, text::line_end());
        reveal_strlit("\n");
        assert(body(line) + terminator(line) =~= line);
        assert(terminator(line).len() > 0 ==> terminator(line).last() == line.last());
        if followed {
            assert(ended(line, true) =~= line.push('\n'));
        }
    }
}

proof fn lemma_filtered_is_there(ls: Seq<Seq<char>>, p: spec_fn(Seq<char>) -> bool, q: int)
    requires
        0 <= q < ls.filter(p).len(),
    ensures
        ls.contains(ls.filter(p)[q]),
    decreases ls.len(),
{
    reveal(Seq::filter);
    if ls.len() > 0 {
        let t = ls.drop_last();
        if q < t.filter(p).len() {
            lemma_filtered_is_there(t, p, q);
            let k = choose|k: int| 0 <= k < t.len() && t[k] == t.filter(p)[q];
            assert(ls[k] == ls.filter(p)[q]);
        } else {
            assert(ls[ls.len() - 1] == ls.filter(p)[q]);
        }
    }
}

proof fn lemma_picked_by_filter(ls: Seq<Seq<char>>, target: Seq<char>)
    ensures
        picked_by(ls.filter(is_pick()), target) == picked_by(ls, target),
    decreases ls.len(),
{
    reveal(Seq::filter);
    if ls.len() > 0 {
        let t = ls.drop_last();
        lemma_picked_by_filter(t, target);
        if is_pick()(ls.last()) {
            assert(ls.filter(is_pick()).drop_last() =~= t.filter(is_pick()));
        }
    }
}

proof fn lemma_pick_filters(ls: Seq<Seq<char>>)
    ensures
        ls.filter(is_pick()) == ls.filter(|l: Seq<char>| "pick "@.is_prefix_of(l)),
        ls.filter(is_other()) == ls.filter(|l: Seq<char>| !"pick "@.is_prefix_of(l)),
    decreases ls.len(),
{
    reveal(Seq::filter);
    if ls.len() > 0 {
        lemma_pick_filters(ls.drop_last());
        lemma_pick_start(ls.last());
    }
}

/// A squash writes, for each SHA in turn, the one line of the list that means
/// it: with `fixup` in place of `pick` where the SHA and one of those to fold
/// start with each other, as it is otherwise. The command follows, on a line of
/// its own, where the SHA and the one it is for start with each other. Every
/// other line comes after that.
pub proof fn law_squash_folds_its_sources(
    todo: Seq<char>,
    shas: Seq<Seq<char>>,
    fixup_shas: Seq<Seq<char>>,
    exec: Option<(Seq<char>, Seq<char>)>,
) -> (entries: Seq<Seq<char>>)
    requires
        squashed(todo, shas, fixup_shas, exec) is Ok,
    ensures
        ({
            let ls = text::split_inclusive(todo);
            let others = text::concat(ls.filter(|l: Seq<char>| !"pick "@.is_prefix_of(l)));
            &&& entries.len() == shas.len()
            &&& entries.len() == ls.filter(|l: Seq<char>| "pick "@.is_prefix_of(l)).len()
            &&& squashed(todo, shas, fixup_shas, exec)->Ok_0 == text::concat(entries) + others
            &&& forall|i: int, k: int|
                #![trigger entries[i], fixup_shas[k]]
                0 <= i < shas.len() && 0 <= k < fixup_shas.len() && (shas[i].is_prefix_of(
                    fixup_shas[k],
                ) || fixup_shas[k].is_prefix_of(shas[i])) ==> "fixup "@.is_prefix_of(entries[i])
            &&& forall|i: int|
                0 <= i < shas.len() && (forall|k: int|
                    0 <= k < fixup_shas.len() ==> !shas[i].is_prefix_of(#[trigger] fixup_shas[k])
                        && !fixup_shas[k].is_prefix_of(shas[i])) ==> "pick "@.is_prefix_of(
                    #[trigger] entries[i],
                )
            &&& forall|i: int|
                0 <= i < shas.len() ==> times_meant(ls, shas[i]) == 1 && exists|
                    line: Seq<char>,
                    verb: Seq<char>,
                |
                    #![trigger ls.contains(line), verb + line.skip(4)]
                    ls.contains(line) && means(line, shas[i]) && (verb == "pick"@ || verb
                        == "fixup"@) && (verb + line.skip(4)).is_prefix_of(entries[i]) && (
                    line.last() == '\n' ==> {
                        &&& exec is None ==> entries[i] == verb + line.skip(4)
                        &&& exec matches Some((after, command)) ==> (if after.is_prefix_of(shas[i])
                            || shas[i].is_prefix_of(after) {
                            (verb + line.skip(4) + "exec "@ + command).is_prefix_of(entries[i])
                        } else {
                            entries[i] == verb + line.skip(4)
                        })
                    })
        }),
{
    let ls = text::split_inclusive(todo);
    let pick_lines = ls.filter(is_pick());
    let others = text::concat(ls.filter(is_other()));
    lemma_pick_filters(ls);
    let order = arrange(pick_lines, shas)->Ok_0;
    let entries = squash_entries(order, shas, fixup_shas, exec, others);
    law_reorder_permutes(pick_lines, shas);
    reveal_strlit("pick");
    reveal_strlit("fixup");
    reveal_strlit("pick ");
    reveal_strlit("fixup ");
    assert forall|i: int| 0 <= i < shas.len() implies ({
        let verb = if folds(shas[i], fixup_shas) {
            "fixup"@
        } else {
            "pick"@
        };
        &&& times_meant(ls, shas[i]) == 1
        &&& (verb + seq![' ']).is_prefix_of(#[trigger] entries[i])
        &&& ls.contains(order[i])
        &&& means(order[i], shas[i])
        &&& (verb + order[i].skip(4)).is_prefix_of(entries[i])
        &&& order[i].last() == '\n' ==> {
            &&& exec is None ==> entries[i] == verb + order[i].skip(4)
            &&& exec matches Some((after, command)) ==> (if after.is_prefix_of(shas[i])
                || shas[i].is_prefix_of(after) {
                (verb + order[i].skip(4) + "exec "@ + command).is_prefix_of(entries[i])
            } else {
                entries[i] == verb + order[i].skip(4)
            })
        }
    }) by {
        let line = order[i];
        let followed = is_followed(i, order.len(), others);
        let verb = if folds(shas[i], fixup_shas) {
            "fixup"@
        } else {
            "pick"@
        };
        if picked_by(pick_lines, shas[i]) > 1 {
            lemma_repeated_has(pick_lines, shas, shas.len() as int, i);
        }
        lemma_picked_by_filter(ls, shas[i]);
        lemma_times_meant(ls, shas[i]);
        lemma_arranged_picks(pick_lines, shas, i);
        lemma_means(line, shas[i]);
        let q = choose|q: int| 0 <= q < pick_lines.len() && pick_lines[q] == line;
        lemma_filtered_is_there(ls, is_pick(), q);
        lemma_squash_entry(line, shas[i], fixup_shas, exec, followed, verb);
        let e = entries[i];
        lemma_prefix_of_prefix(verb + seq![' '], verb + line.skip(4), e);
    }
    assert forall|i: int| 0 <= i < shas.len() && (forall|k: int|
        0 <= k < fixup_shas.len() ==> !shas[i].is_prefix_of(#[trigger] fixup_shas[k])
            && !fixup_shas[k].is_prefix_of(shas[i])) implies "pick "@.is_prefix_of(
        #[trigger] entries[i],
    ) by {
        assert(!folds(shas[i], fixup_shas));
        assert("pick "@ =~= "pick"@ + seq![' ']);
    }
    assert forall|i: int, k: int|
        #![trigger entries[i], fixup_shas[k]]
        0 <= i < shas.len() && 0 <= k < fixup_shas.len() && (shas[i].is_prefix_of(fixup_shas[k])
            || fixup_shas[k].is_prefix_of(shas[i])) implies "fixup "@.is_prefix_of(entries[i]) by {
        assert(shas_match(shas[i], fixup_shas[k]));
        assert(folds(shas[i], fixup_shas));
        assert("fixup "@ =~= "fixup"@ + seq![' ']);
    }
    assert forall|i: int| 0 <= i < shas.len() implies times_meant(ls, shas[i]) == 1 && exists|
        line: Seq<char>,
        verb: Seq<char>,
    |
        #![trigger ls.contains(line), verb + line.skip(4)]
        ls.contains(line) && means(line, shas[i]) && (verb == "pick"@ || verb == "fixup"@) && (verb
            + line.skip(4)).is_prefix_of(entries[i]) && (line.last() == '\n' ==> {
            &&& exec is None ==> entries[i] == verb + line.skip(4)
            &&& exec matches Some((after, command)) ==> (if after.is_prefix_of(shas[i])
                || shas[i].is_prefix_of(after) {
                (verb + line.skip(4) + "exec "@ + command).is_prefix_of(entries[i])
            } else {
                entries[i] == verb + line.skip(4)
            })
        }) by {
        let verb = if folds(shas[i], fixup_shas) {
            "fixup"@
        } else {
            "pick"@
        };
        assert((verb + seq![' ']).is_prefix_of(entries[i]));
        assert(ls.contains(order[i]));
        assert((verb + order[i].skip(4)).is_prefix_of(entries[i]));
    }
    entries
}

proof fn lemma_prefix_of_prefix(a: Seq<char>, b: Seq<char>, c: Seq<char>)
    requires
        b.is_prefix_of(c),
        a.len() <= b.len(),
        b.subrange(0, a.len() as int) == a,
    ensures
        a.is_prefix_of(c),
{
    assert(c.subrange(0, b.len() as int) == b);
    assert(c.subrange(0, a.len() as int) =~= b.subrange(0, a.len() as int));
}

proof fn lemma_squash_entry(
    line: Seq<char>,
    sha: Seq<char>,
    fixup_shas: Seq<Seq<char>>,
    exec: Option<(Seq<char>, Seq<char>)>,
    followed: bool,
    verb: Seq<char>,
)
    requires
        pick_rest(line) is Some,
        verb == (if folds(sha, fixup_shas) {
            "fixup"@
        } else {
            "pick"@
        }),
    ensures
        ({
            let e = squash_entry(line, sha, fixup_shas, exec, followed);
            &&& (verb + line.skip(4)).is_prefix_of(e)
            &&& (verb + line.skip(4)).subrange(0, verb.len() as int + 1) == verb + seq![' ']
            &&& verb.len() + 1 <= (verb + line.skip(4)).len()
            &&& line.last() == '\n' ==> {
                &&& exec is None ==> e == verb + line.skip(4)
                &&& exec matches Some((after, command)) ==> (if after.is_prefix_of(sha)
                    || sha.is_prefix_of(after) {
                    (verb + line.skip(4) + "exec "@ + command).is_prefix_of(e)
                } else {
                    e == verb + line.skip(4)
                })
            }
        }),
{
    let e = squash_entry(line, sha, fixup_shas, exec, followed);
    lemma_pick_start(line);
    lemma_with_verb(line, verb);
    reveal_strlit("\n");
    reveal_strlit("pick ");
    lemma_prefix("pick "@, line);
    assert(line[4] == "pick "@[4]);
    text::lemma_span_back(line, text::line_end());
    let start = verb + line.skip(4);
    let own = terminator(line);
    let head = verb + seq![' '] + pick_rest(line)->0;
    assert(start =~= head + own);
    assert(start.subrange(0, verb.len() as int + 1) =~= verb + seq![' ']);
    assert(own.is_prefix_of(end_of(line, followed)) && own.is_prefix_of(end_of(line, true))) by {
        lemma_prefix(own, end_of(line, followed));
        lemma_prefix(own, end_of(line, true));
    }
    match exec {
        Some((after, command)) if shas_match(sha, after) => {
            let rest = exec_line(line, command, followed);
            assert(e == head + end_of(line, true) + rest);
            lemma_prefix(own, end_of(line, true));
            assert(e.subrange(0, start.len() as int) =~= start);
            if line.last() == '\n' {
                lemma_whole(line);
                let full = start + "exec "@ + command;
                assert(e.subrange(0, full.len() as int) =~= full);
            }
        },
        _ => {
            assert(e == head + end_of(line, followed));
            lemma_prefix(own, end_of(line, followed));
            assert(e.subrange(0, start.len() as int) =~= start);
            if line.last() == '\n' {
                lemma_whole(line);
            }
        },
    }
}

/// Every action is carried out by its own rule: what `rewrite` makes of a list
/// is what the laws of that action speak of.
pub proof fn law_actions_are_told_apart(
    todo: Seq<char>,
    sha: String,
    command: String,
    shas: Vec<String>,
    fixups: Vec<String>,
    after: Option<String>,
    exec: Option<String>,
)
    ensures
        rewritten(todo, Action::Edit { sha }) == edited(todo, sha@),
        rewritten(todo, Action::Drop { shas }) == dropped(todo, text::texts(shas@)),
        rewritten(todo, Action::Fixup { shas }) == verb_replaced(
            todo,
            text::texts(shas@),
            "fixup"@,
        ),
        rewritten(todo, Action::Reword { sha }) == verb_replaced(todo, seq![sha@], "reword"@),
        rewritten(todo, Action::ExecAfter { sha, command }) == exec_added(todo, sha@, command@),
        rewritten(todo, Action::Reorder { ordered_shas: shas }) == reordered(
            todo,
            text::texts(shas@),
        ),
        rewritten(
            todo,
            Action::Squash {
                ordered_shas: shas,
                fixup_shas: fixups,
                exec_after_sha: after,
                exec_command: exec,
            },
        ) == squashed(
            todo,
            text::texts(shas@),
            text::texts(fixups@),
            if after is Some && exec is Some {
                Some((after->0@, exec->0@))
            } else {
                None
            },
        ),
{
}

/// An order in which every SHA means one `pick` line, no two of them the same,
/// and every `pick` line has its SHA, is carried out.
pub proof fn law_clear_order_succeeds(
    todo: Seq<char>,
    shas: Seq<Seq<char>>,
    fixup_shas: Seq<Seq<char>>,
    exec: Option<(Seq<char>, Seq<char>)>,
)
    requires
        shas.len() == text::split_inclusive(todo).filter(
            |l: Seq<char>| "pick "@.is_prefix_of(l),
        ).len(),
        forall|k: int|
            0 <= k < shas.len() ==> times_meant(text::split_inclusive(todo), #[trigger] shas[k])
                == 1,
        forall|line: Seq<char>, k: int, m: int|
            0 <= k < m < shas.len() ==> !(#[trigger] means(line, shas[k]) && #[trigger] means(line, shas[m])),
    ensures
        reordered(todo, shas) is Ok,
        squashed(todo, shas, fixup_shas, exec) is Ok,
{
    let ls = text::split_inclusive(todo);
    let pick_lines = ls.filter(is_pick());
    lemma_pick_filters(ls);
    assert forall|k: int| 0 <= k < shas.len() implies picked_by(pick_lines, #[trigger] shas[k])
        == 1 by {
        lemma_times_meant(ls, shas[k]);
        lemma_picked_by_filter(ls, shas[k]);
    }
    assert forall|line: Seq<char>, k: int, m: int| 0 <= k < m < shas.len() implies !(#[trigger] picks(line, shas[k]) && #[trigger] picks(line, shas[m])) by {
        lemma_means(line, shas[k]);
        lemma_means(line, shas[m]);
    }
    lemma_none_repeated(pick_lines, shas, shas.len() as int);
    lemma_can_arrange(pick_lines, shas);
}

proof fn lemma_can_arrange(lines: Seq<Seq<char>>, shas: Seq<Seq<char>>)
    requires
        forall|k: int| 0 <= k < shas.len() ==> picked_by(lines, #[trigger] shas[k]) >= 1,
        forall|line: Seq<char>, k: int, m: int|
            0 <= k < m < shas.len() ==> !(#[trigger] picks(line, shas[k]) && #[trigger] picks(line, shas[m])),
    ensures
        arrange(lines, shas) is Ok,
    decreases shas.len(),
{
    if shas.len() > 0 {
        let i = lemma_picked_at(lines, shas[0]);
        lemma_first_pick(lines, shas[0]);
        let j = first_pick(lines, shas[0]) as int;
        let left = lines.remove(j);
        let rest = shas.drop_first();
        assert forall|k: int| 0 <= k < rest.len() implies picked_by(left, #[trigger] rest[k])
            >= 1 by {
            assert(rest[k] == shas[k + 1]);
            assert(!(picks(lines[j], shas[0]) && picks(lines[j], shas[k + 1])));
            lemma_picked_without(lines, shas[k + 1], j);
        }
        assert forall|line: Seq<char>, k: int, m: int| 0 <= k < m < rest.len() implies !(#[trigger] picks(line, rest[k]) && #[trigger] picks(line, rest[m])) by {
            assert(!(picks(line, shas[k + 1]) && picks(line, shas[m + 1])));
        }
        lemma_can_arrange(left, rest);
    }
}

proof fn lemma_picked_without(lines: Seq<Seq<char>>, target: Seq<char>, j: int)
    requires
        0 <= j < lines.len(),
        !picks(lines[j], target),
    ensures
        picked_by(lines.remove(j), target) == picked_by(lines, target),
    decreases lines.len(),
{
    if j < lines.len() - 1 {
        lemma_picked_without(lines.drop_last(), target, j);
        assert(lines.remove(j).drop_last() =~= lines.drop_last().remove(j));
    } else {
        assert(lines.remove(j) =~= lines.drop_last());
    }
}

/// What a squash writes back: an entry for each of the commits, in the order that
/// was asked for. Those that one of the folded commits means are fixups, and all
/// others stay picks.
pub proof fn law_written_squash_folds(
    todo: &str,
    ordered_shas: &Vec<String>,
    fixup_shas: &Vec<String>,
    exec_after_sha: &Option<String>,
    exec_command: &Option<String>,
    r: Result<String, CliError>,
) -> (entries: Seq<Seq<char>>)
    requires
        call_ensures(
            rewrite_squash,
            (todo, ordered_shas, fixup_shas, exec_after_sha, exec_command),
            r,
        ),
        r is Ok,
    ensures
        entries.len() == ordered_shas@.len(),
        r->Ok_0@ == text::concat(entries) + text::concat(
            text::split_inclusive(todo@).filter(|l: Seq<char>| !"pick "@.is_prefix_of(l)),
        ),
        forall|i: int, k: int|
            #![trigger entries[i], fixup_shas@[k]]
            0 <= i < ordered_shas@.len() && 0 <= k < fixup_shas@.len() && (
            ordered_shas@[i]@.is_prefix_of(fixup_shas@[k]@) || fixup_shas@[k]@.is_prefix_of(
                ordered_shas@[i]@,
            )) ==> "fixup "@.is_prefix_of(entries[i]),
        forall|i: int|
            0 <= i < ordered_shas@.len() && (forall|k: int|
                0 <= k < fixup_shas@.len() ==> !ordered_shas@[i]@.is_prefix_of(
                    (#[trigger] fixup_shas@[k])@,
                ) && !fixup_shas@[k]@.is_prefix_of(ordered_shas@[i]@)) ==> "pick "@.is_prefix_of(
                #[trigger] entries[i],
            ),
{
    let shas = text::texts(ordered_shas@);
    let folded = text::texts(fixup_shas@);
    let pair = exec_pair(*exec_after_sha, *exec_command);
    let entries = law_squash_folds_its_sources(todo@, shas, folded, pair);
    assert forall|i: int, k: int|
        #![trigger entries[i], fixup_shas@[k]]
        0 <= i < ordered_shas@.len() && 0 <= k < fixup_shas@.len() && (
        ordered_shas@[i]@.is_prefix_of(fixup_shas@[k]@) || fixup_shas@[k]@.is_prefix_of(
            ordered_shas@[i]@,
        )) implies "fixup "@.is_prefix_of(entries[i]) by {
        assert(shas[i] == ordered_shas@[i]@);
        assert(folded[k] == fixup_shas@[k]@);
    }
    assert forall|i: int|
        0 <= i < ordered_shas@.len() && (forall|k: int|
            0 <= k < fixup_shas@.len() ==> !ordered_shas@[i]@.is_prefix_of(
                (#[trigger] fixup_shas@[k])@,
            ) && !fixup_shas@[k]@.is_prefix_of(ordered_shas@[i]@)) implies "pick "@.is_prefix_of(
        #[trigger] entries[i],
    ) by {
        assert(shas[i] == ordered_shas@[i]@);
        assert forall|k: int| 0 <= k < folded.len() implies !shas[i].is_prefix_of(
            #[trigger] folded[k],
        ) && !folded[k].is_prefix_of(shas[i]) by {
            assert(folded[k] == fixup_shas@[k]@);
        }
    }
    entries
}

} // verus!
