//! `stack note`: why a commit was amended, as a git note on it.
use crate::change_id;
use crate::error::{CliError, Failure};
use crate::local_commits::{LocalCommit, STACK_NOTES_REF};
use crate::match_commit;
use crate::match_commit::resolve_by;
use crate::text;
use vstd::prelude::*;

verus! {

/// What the editor starts with.
pub const EDITOR_TEMPLATE: &'static str =
    "\n# Why was this commit amended? Lines starting with # are ignored.\n";

/// What to do with the note of a commit.
#[derive(Debug, Clone, PartialEq, Eq)]
pub enum Action {
    /// Attach this note, in place of the one that is there.
    Replace(String),
    /// Add this to the note that is there.
    Append(String),
    /// Attach what the user writes in their editor.
    FromEditor,
    /// Remove the note.
    Remove,
}

/// What happened to the note of a commit.
#[derive(Debug, Clone, PartialEq, Eq)]
pub enum Outcome {
    Attached { sha: String, subject: String },
    Removed { sha: String, subject: String },
    /// There was no note to remove.
    NoNoteToRemove { sha: String, subject: String },
}

/// What happened to the note of a commit, as the contracts see it.
pub enum OutcomeView {
    Attached { sha: Seq<char>, subject: Seq<char> },
    Removed { sha: Seq<char>, subject: Seq<char> },
    NoNoteToRemove { sha: Seq<char>, subject: Seq<char> },
}

impl View for Outcome {
    type V = OutcomeView;

    open spec fn view(&self) -> OutcomeView {
        match self {
            Outcome::Attached { sha, subject } => OutcomeView::Attached {
                sha: sha@,
                subject: subject@,
            },
            Outcome::Removed { sha, subject } => OutcomeView::Removed {
                sha: sha@,
                subject: subject@,
            },
            Outcome::NoNoteToRemove { sha, subject } => OutcomeView::NoNoteToRemove {
                sha: sha@,
                subject: subject@,
            },
        }
    }
}

// ---------------------------------------------------------------------------
// The text of a note
// ---------------------------------------------------------------------------

/// A note that is not empty, without the white space around it.
pub open spec fn note_text(raw: Seq<char>) -> Result<Seq<char>, Failure> {
    if text::trim(raw).len() == 0 {
        Err(Failure::InvalidState("note is empty, nothing attached."@))
    } else {
        Ok(text::trim(raw))
    }
}

/// A note that is not empty, without the white space around it.
pub fn sanitize_message(raw: &str) -> (r: Result<String, CliError>)
    ensures
        crate::error::text_outcome(r) == note_text(raw@),
{
    let t = text::trimmed(raw);
    if t.as_str().is_empty() {
        return Err(CliError::InvalidState("note is empty, nothing attached.".to_owned()));
    }
    Ok(t)
}

/// Whether a line is no comment.
pub open spec fn is_text_line(l: Seq<char>) -> bool {
    !(text::trim_start(l).len() > 0 && text::trim_start(l)[0] == '#')
}

/// The lines that are no comments.
pub open spec fn text_lines(ls: Seq<Seq<char>>) -> Seq<Seq<char>> {
    ls.filter(|l: Seq<char>| is_text_line(l))
}

/// What an editor left, without its comments.
pub fn strip_comments(buf: &str) -> (r: String)
    ensures
        r@ == text::join(text_lines(text::lines(buf@)), "\n"@),
{
    let ls = text::lines_of(buf);
    let ghost all = text::texts(ls@);
    let ghost pred = |l: Seq<char>| is_text_line(l);
    let mut kept: Vec<String> = Vec::new();
    let mut i: usize = 0;
    proof {
        reveal(Seq::filter);
        assert(all.take(0).filter(pred) =~= seq![]);
        assert(text::texts(kept@) =~= seq![]);
    }
    while i < ls.len()
        invariant
            i <= ls.len(),
            all == text::texts(ls@),
            pred == (|l: Seq<char>| is_text_line(l)),
            text::texts(kept@) == all.take(i as int).filter(pred),
        decreases ls.len() - i,
    {
        let ghost before = text::texts(kept@);
        let start = text::chars_of(text::trimmed_start(ls[i].as_str()).as_str());
        proof {
            reveal(Seq::filter);
            assert(all.take(i + 1).drop_last() =~= all.take(i as int));
            assert(all.take(i + 1).last() == ls@[i as int]@);
        }
        if !(start.len() > 0 && start[0] == '#') {
            kept.push(ls[i].clone());
            proof {
                assert(text::texts(kept@) =~= before.push(ls@[i as int]@));
            }
        }
        i += 1;
    }
    proof {
        assert(all.take(i as int) =~= all);
    }
    text::join_with(&kept, "\n")
}

/// The note that an editor left: its lines that are no comments, and not
/// empty.
pub fn edited_note(buf: &str) -> (r: Result<String, CliError>)
    ensures
        crate::error::text_outcome(r) == note_text(text::join(text_lines(text::lines(buf@)), "\n"@)),
{
    sanitize_message(strip_comments(buf).as_str())
}

/// The first of some optional texts that is there and not empty.
pub open spec fn first_set(o: Option<Seq<char>>, otherwise: Seq<char>) -> Seq<char> {
    match o {
        Some(s) if s.len() > 0 => s,
        _ => otherwise,
    }
}

fn set_or<'a>(o: Option<&'a str>, otherwise: &'a str) -> (r: &'a str)
    ensures
        r@ == first_set(text::opt_str(o), otherwise@),
{
    match o {
        Some(s) => {
            if s.is_empty() {
                otherwise
            } else {
                s
            }
        },
        None => otherwise,
    }
}

/// The editor of the user: the first of three settings that is not empty.
pub fn pick_editor<'a>(
    git_editor: Option<&'a str>,
    visual: Option<&'a str>,
    editor: Option<&'a str>,
) -> (r: &'a str)
    ensures
        r@ == first_set(
            text::opt_str(git_editor),
            first_set(text::opt_str(visual), first_set(text::opt_str(editor), "vi"@)),
        ),
{
    set_or(git_editor, set_or(visual, set_or(editor, "vi")))
}

// ---------------------------------------------------------------------------
// The commit
// ---------------------------------------------------------------------------

/// How the commit of a note is found.
#[derive(Debug, Clone, PartialEq, Eq)]
pub enum CommitTarget {
    /// Git is asked with these arguments.
    AskGit(Vec<String>),
    /// It is the commit of the stack with this prefix of a Change-Id.
    InStack(String),
}

/// What git is asked for a revision.
pub open spec fn verify_args(revision: Seq<char>) -> Seq<Seq<char>> {
    seq!["rev-parse"@, "--verify"@, revision + "^{commit}"@]
}

/// How the commit of a note is found: by a prefix of its Change-Id in the
/// stack, or as a revision of git. Without one it is the head.
pub fn commit_target(commit: Option<&str>) -> (r: CommitTarget)
    ensures
        match commit {
            Some(value) => if change_id::id_prefix(value@) {
                r matches CommitTarget::InStack(p) && p@ == value@
            } else {
                r matches CommitTarget::AskGit(args) && text::texts(args@) == verify_args(value@)
            },
            None => r matches CommitTarget::AskGit(args) && text::texts(args@) == verify_args("HEAD"@),
        },
{
    let revision: &str = match commit {
        Some(value) => {
            if change_id::is_prefix(value) {
                return CommitTarget::InStack(value.to_owned());
            }
            value
        },
        None => "HEAD",
    };
    let mut spec = revision.to_owned();
    spec.append("^{commit}");
    let mut args: Vec<String> = Vec::new();
    args.push("rev-parse".to_owned());
    args.push("--verify".to_owned());
    args.push(spec);
    proof {
        assert(text::texts(args@) =~= verify_args(revision@));
    }
    CommitTarget::AskGit(args)
}

/// The SHA of the commit of a stack that a prefix of a Change-Id means.
pub open spec fn sha_of_prefix(prefix: Seq<char>, commits: Seq<LocalCommit>) -> Result<
    Seq<char>,
    Failure,
> {
    match match_commit::resolved_by(true, prefix, commits) {
        Ok(c) => Ok(c.commit_sha@),
        Err(Failure::StackNotFound(m)) => Err(Failure::InvalidState(m)),
        Err(e) => Err(e),
    }
}

/// The SHA of the commit of a stack that a prefix of a Change-Id means.
pub fn resolve_change_id_prefix(prefix: &str, commits: &Vec<LocalCommit>) -> (r: Result<
    String,
    CliError,
>)
    requires
        match_commit::reportable_by(true, prefix@, commits@),
    ensures
        crate::error::text_outcome(r) == sha_of_prefix(prefix@, commits@),
{
    match resolve_by(true, prefix, commits) {
        Ok(k) => Ok(commits[k].commit_sha.clone()),
        Err(CliError::StackNotFound(m)) => Err(CliError::InvalidState(m)),
        Err(e) => Err(e),
    }
}

// ---------------------------------------------------------------------------
// The call of git
// ---------------------------------------------------------------------------

/// The argument that names the notes.
pub open spec fn notes_ref() -> Seq<char> {
    "--ref="@ + STACK_NOTES_REF@
}

fn notes_ref_arg() -> (r: String)
    ensures
        r@ == notes_ref(),
{
    let mut s = "--ref=".to_owned();
    s.append(STACK_NOTES_REF);
    s
}

/// The arguments that attach a note, or add to the one that is there.
pub open spec fn attach_args(sha: Seq<char>, message: Seq<char>, append: bool) -> Seq<Seq<char>> {
    if append {
        seq!["notes"@, notes_ref(), "append"@, "-m"@, message, sha]
    } else {
        seq!["notes"@, notes_ref(), "add"@, "-f"@, "-m"@, message, sha]
    }
}

/// The arguments that attach a note, or add to the one that is there.
pub fn attach_note(sha: &str, message: &str, append: bool) -> (r: Vec<String>)
    ensures
        text::texts(r@) == attach_args(sha@, message@, append),
{
    let mut v: Vec<String> = Vec::new();
    v.push("notes".to_owned());
    v.push(notes_ref_arg());
    if append {
        v.push("append".to_owned());
    } else {
        v.push("add".to_owned());
        v.push("-f".to_owned());
    }
    v.push("-m".to_owned());
    v.push(message.to_owned());
    v.push(sha.to_owned());
    proof {
        assert(text::texts(v@) =~= attach_args(sha@, message@, append));
    }
    v
}

/// The arguments that tell whether a commit has a note.
pub fn show_note(sha: &str) -> (r: Vec<String>)
    ensures
        text::texts(r@) == seq!["notes"@, notes_ref(), "show"@, sha@],
{
    let mut v: Vec<String> = Vec::new();
    v.push("notes".to_owned());
    v.push(notes_ref_arg());
    v.push("show".to_owned());
    v.push(sha.to_owned());
    proof {
        assert(text::texts(v@) =~= seq!["notes"@, notes_ref(), "show"@, sha@]);
    }
    v
}

/// The call of git that a command takes, where it takes one, and what it then
/// did.
pub open spec fn noted(
    action: Action,
    edited: Seq<char>,
    note_exists: bool,
    sha: Seq<char>,
    subject: Seq<char>,
) -> Result<(Option<Seq<Seq<char>>>, OutcomeView), Failure> {
    match action {
        Action::Remove => if note_exists {
            Ok(
                (
                    Some(seq!["notes"@, notes_ref(), "remove"@, sha]),
                    OutcomeView::Removed { sha, subject },
                ),
            )
        } else {
            Ok((None, OutcomeView::NoNoteToRemove { sha, subject }))
        },
        Action::FromEditor => match note_text(text::join(text_lines(text::lines(edited)), "\n"@)) {
            Ok(m) => Ok(
                (Some(attach_args(sha, m, false)), OutcomeView::Attached { sha, subject }),
            ),
            Err(e) => Err(e),
        },
        Action::Replace(message) => match note_text(message@) {
            Ok(m) => Ok(
                (Some(attach_args(sha, m, false)), OutcomeView::Attached { sha, subject }),
            ),
            Err(e) => Err(e),
        },
        Action::Append(message) => match note_text(message@) {
            Ok(m) => Ok(
                (Some(attach_args(sha, m, true)), OutcomeView::Attached { sha, subject }),
            ),
            Err(e) => Err(e),
        },
    }
}

/// The contents of an outcome.
pub open spec fn note_outcome(r: Result<(Option<Vec<String>>, Outcome), CliError>) -> Result<
    (Option<Seq<Seq<char>>>, OutcomeView),
    Failure,
> {
    match r {
        Ok((Some(args), o)) => Ok((Some(text::texts(args@)), o@)),
        Ok((None, o)) => Ok((None, o@)),
        Err(e) => Err(e@),
    }
}

fn attached(message: Result<String, CliError>, sha: &str, subject: &str, append: bool) -> (r: Result<
    (Option<Vec<String>>, Outcome),
    CliError,
>)
    ensures
        note_outcome(r) == (match crate::error::text_outcome(message) {
            Ok(m) => Ok(
                (
                    Some(attach_args(sha@, m, append)),
                    OutcomeView::Attached { sha: sha@, subject: subject@ },
                ),
            ),
            Err(e) => Err(e),
        }),
{
    match message {
        Ok(m) => Ok(
            (
                Some(attach_note(sha, m.as_str(), append)),
                Outcome::Attached { sha: sha.to_owned(), subject: subject.to_owned() },
            ),
        ),
        Err(e) => Err(e),
    }
}

/// The call of git that a command takes, where it takes one, and what it then
/// did. `edited` is what the editor left, and `note_exists` is whether the
/// commit has a note.
pub fn plan_note(action: &Action, edited: &str, note_exists: bool, sha: &str, subject: &str) -> (r:
    Result<(Option<Vec<String>>, Outcome), CliError>)
    ensures
        note_outcome(r) == noted(*action, edited@, note_exists, sha@, subject@),
{
    match action {
        Action::Remove => {
            if !note_exists {
                return Ok(
                    (
                        None,
                        Outcome::NoNoteToRemove {
                            sha: sha.to_owned(),
                            subject: subject.to_owned(),
                        },
                    ),
                );
            }
            let mut v: Vec<String> = Vec::new();
            v.push("notes".to_owned());
            v.push(notes_ref_arg());
            v.push("remove".to_owned());
            v.push(sha.to_owned());
            proof {
                assert(text::texts(v@) =~= seq!["notes"@, notes_ref(), "remove"@, sha@]);
            }
            Ok((Some(v), Outcome::Removed { sha: sha.to_owned(), subject: subject.to_owned() }))
        },
        Action::FromEditor => attached(edited_note(edited), sha, subject, false),
        Action::Replace(m) => attached(sanitize_message(m.as_str()), sha, subject, false),
        Action::Append(m) => attached(sanitize_message(m.as_str()), sha, subject, true),
    }
}

/// A note that is attached is never empty, and only one that is nothing but white
/// space is refused.
pub proof fn law_no_empty_note(raw: Seq<char>)
    ensures
        note_text(raw) matches Ok(m) ==> m.len() > 0,
        note_text(raw) is Err <==> text::trim(raw).len() == 0,
{
}

/// A line is a comment exactly where a `#` is the first of its characters that
/// is no white space.
pub proof fn law_comment_lines_start_with_a_hash(l: Seq<char>)
    ensures
        !is_text_line(l) <==> exists|i: int|
            0 <= i < l.len() && #[trigger] l[i] == '#' && forall|j: int|
                0 <= j < i ==> text::white_space(#[trigger] l[j]),
{
    let n = text::span(l, text::blank()) as int;
    text::lemma_span(l, text::blank());
    let t = text::trim_start(l);
    assert(t =~= l.skip(n));
    if t.len() > 0 && t[0] == '#' {
        assert(l[n] == '#');
        assert forall|j: int| 0 <= j < n implies text::white_space(#[trigger] l[j]) by {
            assert(text::blank()(l[j]));
        }
    }
    if exists|i: int|
        0 <= i < l.len() && #[trigger] l[i] == '#' && forall|j: int|
            0 <= j < i ==> text::white_space(#[trigger] l[j]) {
        let i = choose|i: int|
            0 <= i < l.len() && #[trigger] l[i] == '#' && forall|j: int|
                0 <= j < i ==> text::white_space(#[trigger] l[j]);
        assert forall|j: int| 0 <= j < i implies text::blank()(#[trigger] l[j]) by {
            assert(text::white_space(l[j]));
        }
        assert(!text::blank()(l[i]));
        text::lemma_span_is(l, text::blank(), i);
        assert(t[0] == l[i]);
    }
}

/// What is done with a note is what was asked for: a removal only where there is
/// one, and otherwise the text that was given or written, without the white
/// space around it, in place of the note or added to it.
pub proof fn law_note_does_what_was_asked(
    message: String,
    edited: Seq<char>,
    note_exists: bool,
    sha: Seq<char>,
    subject: Seq<char>,
)
    ensures
        noted(Action::Remove, edited, true, sha, subject) == Ok::<
            (Option<Seq<Seq<char>>>, OutcomeView),
            Failure,
        >(
            (
                Some(seq!["notes"@, "--ref=refs/notes/mergify/stack"@, "remove"@, sha]),
                OutcomeView::Removed { sha, subject },
            ),
        ),
        noted(Action::Remove, edited, false, sha, subject) == Ok::<
            (Option<Seq<Seq<char>>>, OutcomeView),
            Failure,
        >((None, OutcomeView::NoNoteToRemove { sha, subject })),
        text::trim(message@).len() > 0 ==> noted(
            Action::Replace(message),
            edited,
            note_exists,
            sha,
            subject,
        ) == Ok::<(Option<Seq<Seq<char>>>, OutcomeView), Failure>(
            (
                Some(
                    seq![
                        "notes"@,
                        "--ref=refs/notes/mergify/stack"@,
                        "add"@,
                        "-f"@,
                        "-m"@,
                        text::trim(message@),
                        sha,
                    ],
                ),
                OutcomeView::Attached { sha, subject },
            ),
        ),
        text::trim(message@).len() > 0 ==> noted(
            Action::Append(message),
            edited,
            note_exists,
            sha,
            subject,
        ) == Ok::<(Option<Seq<Seq<char>>>, OutcomeView), Failure>(
            (
                Some(
                    seq![
                        "notes"@,
                        "--ref=refs/notes/mergify/stack"@,
                        "append"@,
                        "-m"@,
                        text::trim(message@),
                        sha,
                    ],
                ),
                OutcomeView::Attached { sha, subject },
            ),
        ),
        text::trim(message@).len() == 0 ==> noted(
            Action::Append(message),
            edited,
            note_exists,
            sha,
            subject,
        ) is Err && noted(Action::Replace(message), edited, note_exists, sha, subject) is Err,
        ({
            let written = text::trim(text::join(text_lines(text::lines(edited)), "\n"@));
            let r = noted(Action::FromEditor, edited, note_exists, sha, subject);
            &&& written.len() == 0 ==> r is Err
            &&& written.len() > 0 ==> r == Ok::<(Option<Seq<Seq<char>>>, OutcomeView), Failure>(
                (
                    Some(
                        seq![
                            "notes"@,
                            "--ref=refs/notes/mergify/stack"@,
                            "add"@,
                            "-f"@,
                            "-m"@,
                            written,
                            sha,
                        ],
                    ),
                    OutcomeView::Attached { sha, subject },
                ),
            )
        }),
{
    reveal_strlit("--ref=");
    reveal_strlit("refs/notes/mergify/stack");
    reveal_strlit("--ref=refs/notes/mergify/stack");
    assert(notes_ref() =~= "--ref=refs/notes/mergify/stack"@);
}

/// A note by Change-Id goes to the only commit whose Change-Id starts so.
pub proof fn law_note_finds_its_commit(prefix: Seq<char>, commits: Seq<LocalCommit>, k: int)
    requires
        0 <= k < commits.len(),
        prefix.is_prefix_of(commits[k].change_id@),
        forall|j: int|
            0 <= j < commits.len() && j != k ==> !prefix.is_prefix_of(
                (#[trigger] commits[j]).change_id@,
            ),
    ensures
        sha_of_prefix(prefix, commits) == Ok::<Seq<char>, Failure>(commits[k].commit_sha@),
{
    let p = match_commit::field_matches(true, prefix);
    assert(p(commits[k]));
    assert forall|j: int| 0 <= j < commits.len() && j != k implies !p(#[trigger] commits[j]) by {}
    match_commit::lemma_filter_one(commits, p, k);
}

/// A Change-Id that no commit of the stack has, or several have, is an invalid
/// state in either case.
pub proof fn law_missing_note_target_is_invalid(prefix: Seq<char>, commits: Seq<LocalCommit>)
    ensures
        sha_of_prefix(prefix, commits) is Err ==> sha_of_prefix(prefix, commits) matches Err(
            Failure::InvalidState(_),
        ),
{
}

/// The editor is the first setting that is not empty, in the order in which they
/// are given, and `vi` where there is none.
pub proof fn law_first_editor_counts(
    a: Option<Seq<char>>,
    b: Option<Seq<char>>,
    c: Option<Seq<char>>,
)
    ensures
        ({
            let picked = first_set(a, first_set(b, first_set(c, "vi"@)));
            let empty = |o: Option<Seq<char>>| o is None || o->0.len() == 0;
            &&& !empty(a) ==> picked == a->0
            &&& empty(a) && !empty(b) ==> picked == b->0
            &&& empty(a) && empty(b) && !empty(c) ==> picked == c->0
            &&& empty(a) && empty(b) && empty(c) ==> picked == "vi"@
        }),
{
}

/// Git is asked for the commit that a revision means.
pub proof fn law_revision_is_verified(revision: Seq<char>)
    ensures
        verify_args(revision) == seq!["rev-parse"@, "--verify"@, revision + "^{commit}"@],
{
}

/// What looks like a Change-Id is looked up in the stack; git is asked for
/// everything else, and for `HEAD` where nothing was named.
pub proof fn law_change_ids_are_looked_up(commit: Option<&str>, r: CommitTarget)
    requires
        call_ensures(commit_target, (commit,), r),
    ensures
        commit is Some && commit->0@.len() >= 2 && commit->0@[0] == 'I' && (forall|i: int|
            1 <= i < commit->0@.len() ==> '0' <= #[trigger] commit->0@[i] <= '9' || 'a'
                <= commit->0@[i] <= 'f') ==> r is InStack && r->InStack_0@ == commit->0@,
        commit is Some && (commit->0@.len() == 0 || commit->0@[0] != 'I') ==> r is AskGit,
        commit is None ==> r is AskGit,
{
}

} // verus!
