//! The notes of a stack and the push of its branches.
//!
//! Before a push the state of the notes on the remote is fetched, and the
//! local notes are merged with it. The push leases every ref on the state
//! that was seen, so that what someone else pushed meanwhile is never
//! overwritten; the notes go along with the branches in one atomic push.
use crate::error::{CliError, Failure};
use crate::local_commits::STACK_NOTES_REF;
use crate::text;
use vstd::prelude::*;

verus! {

/// The environment variable that tells the hooks of a push of a stack.
pub const PUSH_ENV_MARKER: &'static str = "MERGIFY_STACK_PUSH";

/// The ref that the notes of the remote are fetched into.
pub const NOTES_INCOMING_REF: &'static str = "refs/notes/mergify/stack-incoming";

/// A branch to push.
#[derive(Debug, Clone, PartialEq, Eq)]
pub struct PushEntry {
    /// The commit.
    pub commit_sha: String,
    /// The branch on the remote.
    pub dest_branch: String,
    /// The head that the branch has to have for the push; nothing where it
    /// must not exist.
    pub pull_head_sha: Option<String>,
}

/// A branch to push as the contracts see it.
pub struct PushEntryView {
    pub commit_sha: Seq<char>,
    pub dest_branch: Seq<char>,
    pub pull_head_sha: Option<Seq<char>>,
}

impl View for PushEntry {
    type V = PushEntryView;

    open spec fn view(&self) -> PushEntryView {
        PushEntryView {
            commit_sha: self.commit_sha@,
            dest_branch: self.dest_branch@,
            pull_head_sha: text::opt_text(self.pull_head_sha),
        }
    }
}

/// What is known about the notes on the remote.
#[derive(Debug, Clone, PartialEq, Eq)]
pub enum NotesLease {
    /// They are at this SHA.
    RemoteAt(String),
    /// There are none.
    RemoteAbsent,
    /// It could not be learned. The notes are left out of the push.
    Unknown,
}

// ---------------------------------------------------------------------------
// Fetching the notes
// ---------------------------------------------------------------------------

/// The refspec of the fetch: straight into the local notes where there are
/// none yet, else beside them.
pub open spec fn notes_refspec(have_local: bool) -> Seq<char> {
    if have_local {
        "+"@ + STACK_NOTES_REF@ + ":"@ + NOTES_INCOMING_REF@
    } else {
        STACK_NOTES_REF@ + ":"@ + STACK_NOTES_REF@
    }
}

fn notes_refspec_text(have_local: bool) -> (r: String)
    ensures
        r@ == notes_refspec(have_local),
{
    if have_local {
        let mut s = "+".to_owned();
        s.append(STACK_NOTES_REF);
        s.append(":");
        s.append(NOTES_INCOMING_REF);
        s
    } else {
        let mut s = STACK_NOTES_REF.to_owned();
        s.append(":");
        s.append(STACK_NOTES_REF);
        s
    }
}

/// The arguments of the fetch of the notes.
pub fn notes_fetch_args(have_local: bool, remote: &str) -> (r: Vec<String>)
    ensures
        text::texts(r@) == seq![
            "fetch"@,
            remote@,
            "--no-write-fetch-head"@,
            notes_refspec(have_local),
        ],
{
    let mut out: Vec<String> = Vec::new();
    out.push("fetch".to_owned());
    out.push(remote.to_owned());
    out.push("--no-write-fetch-head".to_owned());
    out.push(notes_refspec_text(have_local));
    proof {
        assert(text::texts(out@) =~= seq![
            "fetch"@,
            remote@,
            "--no-write-fetch-head"@,
            notes_refspec(have_local),
        ]);
    }
    out
}

/// How a fetch of the notes ended.
#[derive(Debug)]
pub enum NotesFetch {
    /// Git could not be started, for this reason.
    NotStarted(String),
    /// Git failed and said this.
    Failed(String),
    /// The notes are there. This is where, or why that cannot be told.
    Fetched(Result<String, CliError>),
}

/// Whether git says that the remote has no such ref.
pub open spec fn ref_is_absent(stderr: Seq<char>) -> bool {
    text::contains_text(stderr, "couldn't find remote ref"@)
}

/// What a fetch beside the local notes says about the remote. It never fails
/// the push: where the fetch did not work the state is unknown.
pub fn lease_beside_local(fetch: NotesFetch) -> (r: NotesLease)
    ensures
        match fetch {
            NotesFetch::NotStarted(_) => r == NotesLease::Unknown,
            NotesFetch::Failed(stderr) => r == (if ref_is_absent(stderr@) {
                NotesLease::RemoteAbsent
            } else {
                NotesLease::Unknown
            }),
            NotesFetch::Fetched(sha) => r == (match sha {
                Ok(s) => NotesLease::RemoteAt(s),
                Err(_) => NotesLease::Unknown,
            }),
        },
{
    match fetch {
        NotesFetch::NotStarted(_) => NotesLease::Unknown,
        NotesFetch::Failed(stderr) => if text::contains(stderr.as_str(), "couldn't find remote ref") {
            NotesLease::RemoteAbsent
        } else {
            NotesLease::Unknown
        },
        NotesFetch::Fetched(sha) => match sha {
            Ok(s) => NotesLease::RemoteAt(s),
            Err(_) => NotesLease::Unknown,
        },
    }
}

/// The error where the notes cannot be fetched into a repository without any.
pub open spec fn notes_fetch_error(remote: Seq<char>, stderr: Seq<char>) -> Failure {
    Failure::Generic(
        "`git fetch "@ + remote + " "@ + notes_refspec(false) + "` failed: "@ + text::trim(stderr),
    )
}

/// What a fetch into a repository without notes says about the remote. A
/// remote without notes is the first push of a stack; any other failure is
/// the user's to see.
pub fn lease_without_local(fetch: NotesFetch, remote: &str) -> (r: Result<NotesLease, CliError>)
    ensures
        match fetch {
            NotesFetch::NotStarted(why) => r matches Err(e) && e@ == Failure::Generic(
                "failed to spawn `git fetch`: "@ + why@,
            ),
            NotesFetch::Failed(stderr) => if ref_is_absent(stderr@) {
                r == Ok::<NotesLease, CliError>(NotesLease::RemoteAbsent)
            } else {
                r matches Err(e) && e@ == notes_fetch_error(remote@, stderr@)
            },
            NotesFetch::Fetched(sha) => match sha {
                Ok(s) => r == Ok::<NotesLease, CliError>(NotesLease::RemoteAt(s)),
                Err(why) => r == Err::<NotesLease, CliError>(why),
            },
        },
{
    match fetch {
        NotesFetch::NotStarted(why) => {
            let mut msg = "failed to spawn `git fetch`: ".to_owned();
            msg.append(why.as_str());
            Err(CliError::Generic(msg))
        },
        NotesFetch::Failed(stderr) => {
            if text::contains(stderr.as_str(), "couldn't find remote ref") {
                return Ok(NotesLease::RemoteAbsent);
            }
            let mut msg = "`git fetch ".to_owned();
            msg.append(remote);
            msg.append(" ");
            msg.append(notes_refspec_text(false).as_str());
            msg.append("` failed: ");
            msg.append(text::trimmed(stderr.as_str()).as_str());
            Err(CliError::Generic(msg))
        },
        NotesFetch::Fetched(sha) => match sha {
            Ok(s) => Ok(NotesLease::RemoteAt(s)),
            Err(why) => Err(why),
        },
    }
}

/// The arguments of the merge of the fetched notes into the local ones, which
/// keeps both sides where they differ.
pub fn notes_merge_args() -> (r: Vec<String>)
    ensures
        text::texts(r@) == seq![
            "notes"@,
            "--ref="@ + STACK_NOTES_REF@,
            "merge"@,
            "--strategy=union"@,
            NOTES_INCOMING_REF@,
        ],
{
    let mut by_ref = "--ref=".to_owned();
    by_ref.append(STACK_NOTES_REF);
    let mut out: Vec<String> = Vec::new();
    out.push("notes".to_owned());
    out.push(by_ref);
    out.push("merge".to_owned());
    out.push("--strategy=union".to_owned());
    out.push(NOTES_INCOMING_REF.to_owned());
    proof {
        assert(text::texts(out@) =~= seq![
            "notes"@,
            "--ref="@ + STACK_NOTES_REF@,
            "merge"@,
            "--strategy=union"@,
            NOTES_INCOMING_REF@,
        ]);
    }
    out
}

// ---------------------------------------------------------------------------
// Pushing
// ---------------------------------------------------------------------------

/// The lease of a branch: the head it must have, or none at all.
pub open spec fn branch_lease(e: PushEntry) -> Seq<char> {
    "--force-with-lease=refs/heads/"@ + e.dest_branch@ + ":"@ + (match e.pull_head_sha {
        Some(sha) => sha@,
        None => seq![],
    })
}

/// The refspec of a branch.
pub open spec fn branch_refspec(e: PushEntry) -> Seq<char> {
    e.commit_sha@ + ":refs/heads/"@ + e.dest_branch@
}

/// The lease of the notes, where they are pushed: there are local ones, and
/// the state of the remote is known.
pub open spec fn notes_lease_arg(lease: NotesLease, have_local: bool) -> Option<Seq<char>> {
    if !have_local {
        None
    } else {
        match lease {
            NotesLease::RemoteAt(sha) => Some(
                "--force-with-lease="@ + STACK_NOTES_REF@ + ":"@ + sha@,
            ),
            NotesLease::RemoteAbsent => Some("--force-with-lease="@ + STACK_NOTES_REF@ + ":"@),
            NotesLease::Unknown => None,
        }
    }
}

/// The arguments of the push.
pub open spec fn push_arguments(
    remote: Seq<char>,
    entries: Seq<PushEntry>,
    skip_hooks: bool,
    lease: NotesLease,
    have_local: bool,
) -> Seq<Seq<char>> {
    let notes = notes_lease_arg(lease, have_local);
    seq!["push"@, "--atomic"@] + (if skip_hooks {
        seq!["--no-verify"@]
    } else {
        seq![]
    }) + entries.map_values(|e: PushEntry| branch_lease(e)) + (match notes {
        Some(a) => seq![a],
        None => seq![],
    }) + seq![remote] + entries.map_values(|e: PushEntry| branch_refspec(e)) + (match notes {
        Some(_) => seq![STACK_NOTES_REF@ + ":"@ + STACK_NOTES_REF@],
        None => seq![],
    })
}

fn format_lease(e: &PushEntry) -> (r: String)
    ensures
        r@ == branch_lease(*e),
{
    let mut s = "--force-with-lease=refs/heads/".to_owned();
    s.append(e.dest_branch.as_str());
    s.append(":");
    match &e.pull_head_sha {
        Some(sha) => s.append(sha.as_str()),
        None => s.append(""),
    }
    proof {
        reveal_strlit("");
        assert(s@ =~= branch_lease(*e));
    }
    s
}

fn format_refspec(e: &PushEntry) -> (r: String)
    ensures
        r@ == branch_refspec(*e),
{
    let mut s = e.commit_sha.clone();
    s.append(":refs/heads/");
    s.append(e.dest_branch.as_str());
    s
}

fn format_notes_lease(lease: &NotesLease, have_local: bool) -> (r: Option<String>)
    ensures
        text::opt_text(r) == notes_lease_arg(*lease, have_local),
{
    if !have_local {
        return None;
    }
    match lease {
        NotesLease::Unknown => None,
        NotesLease::RemoteAbsent => {
            let mut s = "--force-with-lease=".to_owned();
            s.append(STACK_NOTES_REF);
            s.append(":");
            Some(s)
        },
        NotesLease::RemoteAt(sha) => {
            let mut s = "--force-with-lease=".to_owned();
            s.append(STACK_NOTES_REF);
            s.append(":");
            s.append(sha.as_str());
            Some(s)
        },
    }
}

/// The arguments of the push that lands every entry, and the notes where that
/// is safe, in one atomic step. There is no push without entries. `have_local`
/// is whether there are local notes.
pub fn push_branches(
    remote: &str,
    entries: &Vec<PushEntry>,
    skip_hooks: bool,
    notes_lease: &NotesLease,
    have_local: bool,
) -> (r: Option<Vec<String>>)
    ensures
        match r {
            None => entries.len() == 0,
            Some(args) => entries.len() > 0 && text::texts(args@) == push_arguments(
                remote@,
                entries@,
                skip_hooks,
                *notes_lease,
                have_local,
            ),
        },
{
    if entries.len() == 0 {
        return None;
    }
    let ghost leases = entries@.map_values(|e: PushEntry| branch_lease(e));
    let ghost refspecs = entries@.map_values(|e: PushEntry| branch_refspec(e));
    let mut args: Vec<String> = Vec::new();
    args.push("push".to_owned());
    args.push("--atomic".to_owned());
    if skip_hooks {
        args.push("--no-verify".to_owned());
    }
    let ghost head = seq!["push"@, "--atomic"@] + (if skip_hooks {
        seq!["--no-verify"@]
    } else {
        seq![]
    });
    let mut i: usize = 0;
    proof {
        assert(text::texts(args@) =~= head + leases.take(0));
    }
    while i < entries.len()
        invariant
            i <= entries.len(),
            leases == entries@.map_values(|e: PushEntry| branch_lease(e)),
            text::texts(args@) == head + leases.take(i as int),
        decreases entries.len() - i,
    {
        let ghost before = text::texts(args@);
        args.push(format_lease(&entries[i]));
        proof {
            assert(text::texts(args@) =~= before.push(leases[i as int]));
            assert(before.push(leases[i as int]) =~= head + leases.take(i + 1));
        }
        i += 1;
    }
    proof {
        assert(leases.take(i as int) =~= leases);
    }
    let notes = format_notes_lease(notes_lease, have_local);
    let push_notes = notes.is_some();
    let ghost notes_view = text::opt_text(notes);
    let ghost before_notes = text::texts(args@);
    if let Some(a) = notes {
        args.push(a);
    }
    let ghost with_notes = head + leases + (match notes_view {
        Some(a) => seq![a],
        None => seq![],
    });
    proof {
        assert(text::texts(args@) =~= with_notes);
    }
    args.push(remote.to_owned());
    let ghost with_remote = with_notes + seq![remote@];
    let mut k: usize = 0;
    proof {
        assert(text::texts(args@) =~= with_remote + refspecs.take(0));
    }
    while k < entries.len()
        invariant
            k <= entries.len(),
            refspecs == entries@.map_values(|e: PushEntry| branch_refspec(e)),
            text::texts(args@) == with_remote + refspecs.take(k as int),
        decreases entries.len() - k,
    {
        let ghost before = text::texts(args@);
        args.push(format_refspec(&entries[k]));
        proof {
            assert(text::texts(args@) =~= before.push(refspecs[k as int]));
            assert(before.push(refspecs[k as int]) =~= with_remote + refspecs.take(k + 1));
        }
        k += 1;
    }
    proof {
        assert(refspecs.take(k as int) =~= refspecs);
    }
    let ghost before_refspec = text::texts(args@);
    if push_notes {
        args.push(notes_refspec_text(false));
        proof {
            assert(text::texts(args@) =~= before_refspec.push(STACK_NOTES_REF@ + ":"@ + STACK_NOTES_REF@));
        }
    }
    proof {
        assert(text::texts(args@) =~= push_arguments(
            remote@,
            entries@,
            skip_hooks,
            *notes_lease,
            have_local,
        ));
    }
    Some(args)
}

/// The error of a push that failed. `status` is how git ended.
pub fn push_failure(status: &str, stderr: &str) -> (r: CliError)
    ensures
        r@ == Failure::Generic(
            if text::trim(stderr@).len() == 0 {
                "`git push` exited "@ + status@
            } else {
                "`git push` exited "@ + status@ + ":\n"@ + text::trim(stderr@)
            },
        ),
{
    let err = text::trimmed(stderr);
    let mut msg = "`git push` exited ".to_owned();
    msg.append(status);
    if !err.as_str().is_empty() {
        msg.append(":\n");
        msg.append(err.as_str());
    }
    CliError::Generic(msg)
}

// ---------------------------------------------------------------------------
// Laws
// ---------------------------------------------------------------------------

/// Nothing is pushed without a lease: the push names as many leases as it
/// pushes refs, the lease of each branch says which head it must have, and the
/// notes are pushed only together with theirs.
pub proof fn law_every_ref_is_leased(
    remote: Seq<char>,
    entries: Seq<PushEntry>,
    skip_hooks: bool,
    lease: NotesLease,
    have_local: bool,
)
    ensures
        ({
            let args = push_arguments(remote, entries, skip_hooks, lease, have_local);
            let start: int = if skip_hooks {
                3
            } else {
                2
            };
            let extra: int = if notes_lease_arg(lease, have_local) is Some {
                1
            } else {
                0
            };
            let n = entries.len() as int;
            &&& args.len() == start + 2 * (n + extra) + 1
            &&& args[start + n + extra] == remote
            &&& forall|i: int|
                0 <= i < n ==> #[trigger] args[start + i] == branch_lease(entries[i])
            &&& forall|i: int|
                0 <= i < n ==> #[trigger] args[start + n + extra + 1 + i] == branch_refspec(
                    entries[i],
                )
            &&& extra == 1 ==> args[start + n] == notes_lease_arg(lease, have_local)->0
            &&& extra == 1 ==> args[start + 2 * n + 2] == STACK_NOTES_REF@ + ":"@
                + STACK_NOTES_REF@
        }),
{
}

/// Where the state of the remote notes is unknown they are not pushed, but the
/// branches are.
pub proof fn law_unknown_notes_stay_home(
    remote: Seq<char>,
    entries: Seq<PushEntry>,
    skip_hooks: bool,
    have_local: bool,
)
    ensures
        push_arguments(remote, entries, skip_hooks, NotesLease::Unknown, have_local)
            == push_arguments(remote, entries, skip_hooks, NotesLease::Unknown, false),
{
}

/// The push is one atomic step, with hooks unless they are skipped. Each branch
/// is leased on the head that was seen, or on its absence, and gets its own
/// commit. The notes go along, leased on what was seen of them, exactly where
/// there are local ones and the remote's state is known.
pub proof fn law_push_reads(
    remote: Seq<char>,
    entries: Seq<PushEntry>,
    skip_hooks: bool,
    lease: NotesLease,
    have_local: bool,
)
    ensures
        ({
            let args = push_arguments(remote, entries, skip_hooks, lease, have_local);
            let start: int = if skip_hooks {
                3
            } else {
                2
            };
            let notes = have_local && lease != NotesLease::Unknown;
            let extra: int = if notes {
                1
            } else {
                0
            };
            let n = entries.len() as int;
            &&& args.len() == start + 2 * (n + extra) + 1
            &&& args[0] == "push"@
            &&& args[1] == "--atomic"@
            &&& skip_hooks ==> args[2] == "--no-verify"@
            &&& forall|i: int|
                0 <= i < n ==> (#[trigger] entries[i]).pull_head_sha is Some ==> args[start + i]
                    == "--force-with-lease=refs/heads/"@ + entries[i].dest_branch@ + ":"@
                    + entries[i].pull_head_sha->0@
            &&& forall|i: int|
                0 <= i < n ==> (#[trigger] entries[i]).pull_head_sha is None ==> args[start + i]
                    == "--force-with-lease=refs/heads/"@ + entries[i].dest_branch@ + ":"@
            &&& args[start + n + extra] == remote
            &&& forall|i: int|
                0 <= i < n ==> args[start + n + extra + 1 + i] == (
                #[trigger] entries[i]).commit_sha@ + ":refs/heads/"@ + entries[i].dest_branch@
            &&& notes && lease is RemoteAt ==> args[start + n]
                == "--force-with-lease=refs/notes/mergify/stack:"@ + lease->RemoteAt_0@
            &&& notes && lease is RemoteAbsent ==> args[start + n]
                == "--force-with-lease=refs/notes/mergify/stack:"@
            &&& notes ==> args.last() == "refs/notes/mergify/stack:refs/notes/mergify/stack"@
        }),
{
    let args = push_arguments(remote, entries, skip_hooks, lease, have_local);
    let start: int = if skip_hooks {
        3
    } else {
        2
    };
    law_every_ref_is_leased(remote, entries, skip_hooks, lease, have_local);
    let extra: int = if notes_lease_arg(lease, have_local) is Some {
        1
    } else {
        0
    };
    let n = entries.len() as int;
    assert forall|i: int| 0 <= i < n implies (#[trigger] entries[i]).pull_head_sha is None
        ==> args[start + i] == "--force-with-lease=refs/heads/"@ + entries[i].dest_branch@
        + ":"@ by {
        assert(args[start + i] == branch_lease(entries[i]));
        if entries[i].pull_head_sha is None {
            assert(branch_lease(entries[i]) =~= "--force-with-lease=refs/heads/"@
                + entries[i].dest_branch@ + ":"@);
        }
    }
    assert forall|i: int| 0 <= i < n implies (#[trigger] entries[i]).pull_head_sha is Some
        ==> args[start + i] == "--force-with-lease=refs/heads/"@ + entries[i].dest_branch@ + ":"@
        + entries[i].pull_head_sha->0@ by {
        assert(args[start + i] == branch_lease(entries[i]));
    }
    assert forall|i: int| 0 <= i < n implies args[start + n + extra + 1 + i] == (
    #[trigger] entries[i]).commit_sha@ + ":refs/heads/"@ + entries[i].dest_branch@ by {
        assert(args[start + n + extra + 1 + i] == branch_refspec(entries[i]));
    }
    reveal_strlit("refs/notes/mergify/stack");
    reveal_strlit(":");
    reveal_strlit("--force-with-lease=");
    reveal_strlit("--force-with-lease=refs/notes/mergify/stack:");
    reveal_strlit("refs/notes/mergify/stack:refs/notes/mergify/stack");
    assert("--force-with-lease="@ + STACK_NOTES_REF@ + ":"@
        =~= "--force-with-lease=refs/notes/mergify/stack:"@);
    assert(STACK_NOTES_REF@ + ":"@ + STACK_NOTES_REF@
        =~= "refs/notes/mergify/stack:refs/notes/mergify/stack"@);
}

/// A fetch never overwrites local notes: where there are some it goes beside
/// them.
pub proof fn law_fetch_spares_local_notes()
    ensures
        notes_refspec(true)
            == "+refs/notes/mergify/stack:refs/notes/mergify/stack-incoming"@,
        notes_refspec(false) == "refs/notes/mergify/stack:refs/notes/mergify/stack"@,
{
    reveal_strlit("+");
    reveal_strlit(":");
    reveal_strlit("refs/notes/mergify/stack");
    reveal_strlit("refs/notes/mergify/stack-incoming");
    reveal_strlit("+refs/notes/mergify/stack:refs/notes/mergify/stack-incoming");
    reveal_strlit("refs/notes/mergify/stack:refs/notes/mergify/stack");
    assert(notes_refspec(true) =~= "+refs/notes/mergify/stack:refs/notes/mergify/stack-incoming"@);
    assert(notes_refspec(false) =~= "refs/notes/mergify/stack:refs/notes/mergify/stack"@);
}

/// A push knows of the notes of the remote what the fetch said: their commit, that
/// there are none, or nothing. Where there are no local notes, not to know is an
/// error.
pub proof fn law_lease_is_what_the_fetch_said(
    fetch: NotesFetch,
    remote: &str,
    beside: NotesLease,
    alone: Result<NotesLease, CliError>,
)
    requires
        call_ensures(lease_beside_local, (fetch,), beside),
        call_ensures(lease_without_local, (fetch, remote), alone),
    ensures
        fetch is Fetched && fetch->Fetched_0 is Ok ==> beside == NotesLease::RemoteAt(
            fetch->Fetched_0->Ok_0,
        ) && alone == Ok::<NotesLease, CliError>(beside),
        fetch is Failed && text::contains_text(fetch->Failed_0@, "couldn't find remote ref"@)
            ==> beside == NotesLease::RemoteAbsent && alone == Ok::<NotesLease, CliError>(beside),
        fetch is NotStarted ==> beside == NotesLease::Unknown && alone is Err,
        fetch is Failed && !text::contains_text(fetch->Failed_0@, "couldn't find remote ref"@)
            ==> beside == NotesLease::Unknown && alone is Err && alone->Err_0@ == Failure::Generic(
            "`git fetch "@ + remote@ + " "@ + notes_refspec(false) + "` failed: "@ + text::trim(
                fetch->Failed_0@,
            ),
        ),
        fetch is Fetched && fetch->Fetched_0 is Err ==> beside == NotesLease::Unknown && alone
            == Err::<NotesLease, CliError>(fetch->Fetched_0->Err_0),
{
}

/// A push without branches makes no call.
pub proof fn law_nothing_to_push_is_not_pushed(
    remote: &str,
    entries: &Vec<PushEntry>,
    skip_hooks: bool,
    lease: &NotesLease,
    have_local: bool,
    r: Option<Vec<String>>,
)
    requires
        call_ensures(push_branches, (remote, entries, skip_hooks, lease, have_local), r),
    ensures
        r is None <==> entries@.len() == 0,
        r is Some ==> text::texts(r->0@) == push_arguments(
            remote@,
            entries@,
            skip_hooks,
            *lease,
            have_local,
        ),
{
}

} // verus!
