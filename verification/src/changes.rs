//! What has to be done about each commit of a stack.
//!
//! Every local commit is matched to a pull request by its Change-Id. The pull
//! requests that no commit matches are orphans, listed in the order in which
//! the search gave them.
use crate::error::CliError;
use crate::local_commits::LocalCommit;
use crate::pull::{MergedAt, Pull, copy_opt, field_or};
use crate::remote_changes::{RemoteChange, RemoteEntry};
use crate::text;
use vstd::prelude::*;

verus! {

/// What is to be done about a commit.
#[derive(Debug, Clone, Copy, PartialEq, Eq, Structural)]
pub enum Action {
    /// The commit was merged through its pull request.
    SkipMerged,
    /// The pull request already shows the commit.
    SkipUpToDate,
    /// The commit has no pull request yet.
    Create,
    /// The pull request shows another version of the commit.
    Update,
    /// A `Create` that `--only-update-existing-pulls` holds back.
    SkipCreate,
    /// A change above the bottom that `--next-only` holds back.
    SkipNextOnly,
}

impl Action {
    /// The name of the variant.
    pub open spec fn name(self) -> Seq<char> {
        match self {
            Action::SkipMerged => "SkipMerged"@,
            Action::SkipUpToDate => "SkipUpToDate"@,
            Action::Create => "Create"@,
            Action::Update => "Update"@,
            Action::SkipCreate => "SkipCreate"@,
            Action::SkipNextOnly => "SkipNextOnly"@,
        }
    }

    /// The name of the variant.
    pub fn label(self) -> (r: &'static str)
        ensures
            r@ == self.name(),
    {
        match self {
            Action::SkipMerged => "SkipMerged",
            Action::SkipUpToDate => "SkipUpToDate",
            Action::Create => "Create",
            Action::Update => "Update",
            Action::SkipCreate => "SkipCreate",
            Action::SkipNextOnly => "SkipNextOnly",
        }
    }

    /// Whether a push touches the pull request.
    pub open spec fn pushes(self) -> bool {
        self == Action::Create || self == Action::Update
    }

    /// Whether a push touches the pull request.
    pub fn is_push(self) -> (r: bool)
        ensures
            r == self.pushes(),
    {
        self == Action::Create || self == Action::Update
    }
}

/// A commit with what is to be done about it.
#[derive(Debug, Clone, PartialEq, Eq)]
pub struct LocalChange {
    pub commit_sha: String,
    pub title: String,
    pub message: String,
    pub change_id: String,
    pub action: Action,
    /// The pull request of the commit, where it has one.
    pub pull: Option<Pull>,
    pub note: String,
}

impl LocalChange {
    /// A copy of the change.
    pub fn copy(&self) -> (r: LocalChange)
        ensures
            r == *self,
    {
        LocalChange {
            commit_sha: self.commit_sha.clone(),
            title: self.title.clone(),
            message: self.message.clone(),
            change_id: self.change_id.clone(),
            action: self.action,
            pull: copy_opt(&self.pull),
            note: self.note.clone(),
        }
    }
}

/// The classified commits of a stack, and the open pull requests that belong
/// to none of them.
#[derive(Debug, Clone, PartialEq, Eq)]
pub struct Changes {
    pub locals: Vec<LocalChange>,
    pub orphans: Vec<Pull>,
}

// ---------------------------------------------------------------------------
// Matching
// ---------------------------------------------------------------------------

/// A Change-Id without its leading `I`.
pub open spec fn id_hex(id: Seq<char>) -> Seq<char> {
    if id.len() > 0 && id[0] == 'I' {
        id.skip(1)
    } else {
        id
    }
}

/// Whether one of two Change-Ids, full or short, is a prefix of the other.
pub open spec fn ids_cross(a: Seq<char>, b: Seq<char>) -> bool {
    id_hex(a).is_prefix_of(id_hex(b)) || id_hex(b).is_prefix_of(id_hex(a))
}

/// The index of the first entry whose Change-Id crosses `id`, or the number of
/// entries.
pub open spec fn first_crossing(remotes: Seq<RemoteEntry>, id: Seq<char>) -> nat
    decreases remotes.len(),
{
    if remotes.len() == 0 || ids_cross(remotes[0].change_id, id) {
        0
    } else {
        1 + first_crossing(remotes.drop_first(), id)
    }
}

/// The index of the entry that matches `id`, or the number of entries: the
/// same Change-Id wins over one that is only a prefix.
pub open spec fn match_index(remotes: Seq<RemoteEntry>, id: Seq<char>) -> nat {
    if crate::remote_changes::entry_of(remotes, id) < remotes.len() {
        crate::remote_changes::entry_of(remotes, id)
    } else {
        first_crossing(remotes, id)
    }
}

/// The pull request that matches `id`.
pub open spec fn matched_pull(remotes: Seq<RemoteEntry>, id: Seq<char>) -> Option<Pull> {
    let k = match_index(remotes, id) as int;
    if k < remotes.len() {
        Some(remotes[k].pull)
    } else {
        None
    }
}

/// The entries that are left once the one that matches `id` is taken.
pub open spec fn without_match(remotes: Seq<RemoteEntry>, id: Seq<char>) -> Seq<RemoteEntry> {
    let k = match_index(remotes, id) as int;
    if k < remotes.len() {
        remotes.remove(k)
    } else {
        remotes
    }
}

/// What is to be done about the commit `sha` with the pull request `pull`.
pub open spec fn action_for(sha: Seq<char>, pull: Option<Pull>) -> Action {
    match pull {
        None => Action::Create,
        Some(p) => {
            let same_head = text::opt_text(p.head_sha) == Some(sha);
            if p.merged() {
                if same_head {
                    Action::SkipMerged
                } else {
                    Action::Create
                }
            } else if same_head {
                Action::SkipUpToDate
            } else {
                Action::Update
            }
        },
    }
}

/// The commit `c` with what is to be done about it. A merged pull request of a
/// commit that was amended since counts as none.
pub open spec fn change_for(c: LocalCommit, pull: Option<Pull>) -> LocalChange {
    let action = action_for(c.commit_sha@, pull);
    LocalChange {
        commit_sha: c.commit_sha,
        title: c.title,
        message: c.message,
        change_id: c.change_id,
        action,
        pull: if action == Action::Create {
            None
        } else {
            pull
        },
        note: c.note,
    }
}

/// The entries that are left once every commit has taken its own.
pub open spec fn left_after(commits: Seq<LocalCommit>, remotes: Seq<RemoteEntry>) -> Seq<RemoteEntry>
    decreases commits.len(),
{
    if commits.len() == 0 {
        remotes
    } else {
        without_match(left_after(commits.drop_last(), remotes), commits.last().change_id@)
    }
}

/// The commits with what is to be done about each.
pub open spec fn classified(commits: Seq<LocalCommit>, remotes: Seq<RemoteEntry>) -> Seq<LocalChange>
    decreases commits.len(),
{
    if commits.len() == 0 {
        seq![]
    } else {
        let left = left_after(commits.drop_last(), remotes);
        classified(commits.drop_last(), remotes).push(
            change_for(commits.last(), matched_pull(left, commits.last().change_id@)),
        )
    }
}

/// The open pull requests among some entries, in their order.
pub open spec fn open_pulls(remotes: Seq<RemoteEntry>) -> Seq<Pull>
    decreases remotes.len(),
{
    if remotes.len() == 0 {
        seq![]
    } else if remotes.last().pull.in_state("open"@) {
        open_pulls(remotes.drop_last()).push(remotes.last().pull)
    } else {
        open_pulls(remotes.drop_last())
    }
}

proof fn lemma_first_crossing_is(remotes: Seq<RemoteEntry>, id: Seq<char>, k: int)
    requires
        0 <= k <= remotes.len(),
        forall|i: int| 0 <= i < k ==> !ids_cross((#[trigger] remotes[i]).change_id, id),
        k < remotes.len() ==> ids_cross(remotes[k].change_id, id),
    ensures
        first_crossing(remotes, id) == k,
    decreases remotes.len(),
{
    if k > 0 {
        assert(!ids_cross(remotes[0].change_id, id));
        let t = remotes.drop_first();
        assert forall|i: int| 0 <= i < k - 1 implies !ids_cross((#[trigger] t[i]).change_id, id) by {
            assert(t[i] == remotes[i + 1]);
        }
        lemma_first_crossing_is(t, id, k - 1);
    }
}

/// A Change-Id without its leading `I`.
fn hex_of(id: &str) -> (r: String)
    ensures
        r@ == id_hex(id@),
{
    let cs = text::chars_of(id);
    if cs.len() > 0 && cs[0] == 'I' {
        proof {
            assert(cs@.subrange(1, cs@.len() as int) =~= cs@.skip(1));
        }
        text::piece(&cs, 1, cs.len())
    } else {
        id.to_owned()
    }
}

/// Take the entry that matches `id` out of `remotes`.
fn pop_matching(remotes: &mut Vec<RemoteChange>, id: &str) -> (r: Option<Pull>)
    ensures
        r == matched_pull(crate::remote_changes::entries(old(remotes)@), id@),
        crate::remote_changes::entries(final(remotes)@) == without_match(
            crate::remote_changes::entries(old(remotes)@),
            id@,
        ),
{
    let ghost before = crate::remote_changes::entries(remotes@);
    let exact: usize = crate::remote_changes::find_entry(remotes, id);
    let mut k: usize = exact;
    if exact >= remotes.len() {
        let local_hex = hex_of(id);
        k = 0;
        while k < remotes.len() && !crosses(remotes[k].change_id.as_str(), local_hex.as_str())
            invariant
                k <= remotes.len(),
                before == crate::remote_changes::entries(remotes@),
                remotes@ == old(remotes)@,
                local_hex@ == id_hex(id@),
                forall|i: int| 0 <= i < k ==> !ids_cross((#[trigger] before[i]).change_id, id@),
            decreases remotes.len() - k,
        {
            proof {
                assert(before[k as int] == remotes@[k as int]@);
            }
            k += 1;
        }
        proof {
            if k < remotes.len() {
                assert(before[k as int] == remotes@[k as int]@);
            }
            lemma_first_crossing_is(before, id@, k as int);
        }
    }
    if k < remotes.len() {
        proof {
            assert(before[k as int] == remotes@[k as int]@);
        }
        let taken = remotes.remove(k);
        proof {
            assert(crate::remote_changes::entries(remotes@) =~= before.remove(k as int));
        }
        Some(taken.pull)
    } else {
        None
    }
}

fn crosses(remote_id: &str, local_hex: &str) -> (r: bool)
    ensures
        r == (id_hex(remote_id@).is_prefix_of(local_hex@) || local_hex@.is_prefix_of(
            id_hex(remote_id@),
        )),
{
    let remote_hex = hex_of(remote_id);
    text::starts_with(remote_hex.as_str(), local_hex) || text::starts_with(local_hex, remote_hex.as_str())
}

/// Classify every local commit. The pull requests that are left belong to no
/// commit, and the open ones among them are the orphans.
pub fn classify(local_commits: &Vec<LocalCommit>, remote_changes: Vec<RemoteChange>) -> (r: Result<
    Changes,
    CliError,
>)
    ensures
        r is Ok,
        r->Ok_0.locals@ == classified(
            local_commits@,
            crate::remote_changes::entries(remote_changes@),
        ),
        r->Ok_0.orphans@ == open_pulls(
            left_after(local_commits@, crate::remote_changes::entries(remote_changes@)),
        ),
{
    let ghost all = crate::remote_changes::entries(remote_changes@);
    let mut remotes = remote_changes;
    let mut locals: Vec<LocalChange> = Vec::new();
    let mut i: usize = 0;
    proof {
        assert(local_commits@.take(0) =~= seq![]);
    }
    while i < local_commits.len()
        invariant
            i <= local_commits.len(),
            all == crate::remote_changes::entries(remote_changes@),
            crate::remote_changes::entries(remotes@) == left_after(
                local_commits@.take(i as int),
                all,
            ),
            locals@ == classified(local_commits@.take(i as int), all),
        decreases local_commits.len() - i,
    {
        let local = &local_commits[i];
        proof {
            assert(local_commits@.take(i + 1).drop_last() =~= local_commits@.take(i as int));
        }
        let pull = pop_matching(&mut remotes, local.change_id.as_str());
        let ghost found = pull;
        let action = match &pull {
            None => Action::Create,
            Some(p) => {
                let same_head = text::same_opt(&p.head_sha, local.commit_sha.as_str());
                if p.is_merged() {
                    if same_head {
                        Action::SkipMerged
                    } else {
                        Action::Create
                    }
                } else if same_head {
                    Action::SkipUpToDate
                } else {
                    Action::Update
                }
            },
        };
        let kept = if action == Action::Create {
            None
        } else {
            pull
        };
        locals.push(
            LocalChange {
                commit_sha: local.commit_sha.clone(),
                title: local.title.clone(),
                message: local.message.clone(),
                change_id: local.change_id.clone(),
                action,
                pull: kept,
                note: local.note.clone(),
            },
        );
        i += 1;
    }
    proof {
        assert(local_commits@.take(i as int) =~= local_commits@);
    }
    let ghost left = crate::remote_changes::entries(remotes@);
    let mut orphans: Vec<Pull> = Vec::new();
    let mut j: usize = 0;
    proof {
        assert(left.take(0) =~= seq![]);
    }
    while j < remotes.len()
        invariant
            j <= remotes.len(),
            left == crate::remote_changes::entries(remotes@),
            orphans@ == open_pulls(left.take(j as int)),
        decreases remotes.len() - j,
    {
        proof {
            assert(left.take(j + 1).drop_last() =~= left.take(j as int));
            assert(left.take(j + 1).last() == remotes@[j as int]@);
        }
        if remotes[j].pull.has_state("open") {
            orphans.push(remotes[j].pull.copy());
        }
        j += 1;
    }
    proof {
        assert(left.take(j as int) =~= left);
    }
    Ok(Changes { locals, orphans })
}

// ---------------------------------------------------------------------------
// Log lines
// ---------------------------------------------------------------------------

/// The short form of a SHA.
pub open spec fn short(sha: Seq<char>) -> Seq<char> {
    text::first_chars(sha, 7)
}

/// The short form of a SHA: its first 7 characters.
pub fn short_sha(sha: &str) -> (r: String)
    ensures
        r@ == short(sha@),
{
    text::first_chars_of(sha, 7)
}

/// Where the change can be seen, or will be.
pub open spec fn change_url(change: LocalChange, dest_branch: Seq<char>) -> Seq<char> {
    match change.pull {
        Some(p) => crate::pull::text_or(p.html_url, "<unknown>"@),
        None => "<"@ + dest_branch + ">"@,
    }
}

/// Whether the pull request is a draft, or will be opened as one.
pub open spec fn shows_draft(change: LocalChange, create_as_draft: bool) -> bool {
    (change.pull matches Some(p) && p.draft == Some(true)) || (change.action == Action::Create
        && create_as_draft)
}

/// What is done, in words.
pub open spec fn action_words(action: Action, dry_run: bool) -> Seq<char> {
    match action {
        Action::Create => if dry_run {
            "to create"@
        } else {
            "created"@
        },
        Action::Update => if dry_run {
            "to update"@
        } else {
            "updated"@
        },
        Action::SkipCreate => "skip, --only-update-existing-pulls"@,
        Action::SkipMerged => "merged"@,
        Action::SkipNextOnly => "skip, --next-only"@,
        Action::SkipUpToDate => "up-to-date"@,
    }
}

/// The commit that a log line shows.
pub open spec fn commit_info(change: LocalChange) -> Seq<char> {
    match change.action {
        Action::Update => {
            let head = match change.pull {
                Some(p) => match p.head_sha {
                    Some(h) => short(h@),
                    None => seq![],
                },
                None => seq![],
            };
            head + " -> "@ + short(change.commit_sha@)
        },
        Action::SkipMerged => match change.pull {
            Some(p) => match p.merge_commit_sha {
                Some(m) => if p.merged() {
                    short(m@)
                } else {
                    short(change.commit_sha@)
                },
                None => short(change.commit_sha@),
            },
            None => short(change.commit_sha@),
        },
        _ => short(change.commit_sha@),
    }
}

/// The marks after the title in a log line.
pub open spec fn flag_text(change: LocalChange, create_as_draft: bool) -> Seq<char> {
    (if shows_draft(change, create_as_draft) {
        " (draft)"@
    } else {
        seq![]
    }) + (if change.action == Action::SkipMerged {
        " (merged)"@
    } else {
        seq![]
    })
}

/// The log line of a change.
pub open spec fn change_line(
    change: LocalChange,
    dest_branch: Seq<char>,
    dry_run: bool,
    create_as_draft: bool,
) -> Seq<char> {
    "* ["@ + action_words(change.action, dry_run) + "] '"@ + commit_info(change) + " - "@
        + change.title@ + flag_text(change, create_as_draft) + " "@ + change_url(
        change,
        dest_branch,
    )
}

fn info_of(change: &LocalChange) -> (r: String)
    ensures
        r@ == commit_info(*change),
{
    match change.action {
        Action::Update => {
            let mut head = String::new();
            if let Some(p) = &change.pull {
                if let Some(h) = &p.head_sha {
                    head = short_sha(h.as_str());
                }
            }
            head.append(" -> ");
            head.append(short_sha(change.commit_sha.as_str()).as_str());
            head
        },
        Action::SkipMerged => {
            if let Some(p) = &change.pull {
                if p.is_merged() {
                    if let Some(m) = &p.merge_commit_sha {
                        return short_sha(m.as_str());
                    }
                }
            }
            short_sha(change.commit_sha.as_str())
        },
        _ => short_sha(change.commit_sha.as_str()),
    }
}

fn flags_of(change: &LocalChange, create_as_draft: bool) -> (r: String)
    ensures
        r@ == flag_text(*change, create_as_draft),
{
    let mut draft = false;
    if let Some(p) = &change.pull {
        if let Some(d) = p.draft {
            draft = d;
        }
    }
    let mut flags = String::new();
    if draft || (change.action == Action::Create && create_as_draft) {
        flags.append(" (draft)");
    }
    if change.action == Action::SkipMerged {
        flags.append(" (merged)");
    }
    proof {
        assert(flags@ =~= flag_text(*change, create_as_draft));
    }
    flags
}

/// The log line of a change. With `dry_run` it says what would be done, else
/// what was done. `dest_branch` stands for the pull request as long as there
/// is none.
pub fn format_local_change_log(
    change: &LocalChange,
    dest_branch: &str,
    dry_run: bool,
    create_as_draft: bool,
) -> (r: String)
    ensures
        r@ == change_line(*change, dest_branch@, dry_run, create_as_draft),
{
    let url: String = match &change.pull {
        Some(p) => field_or(&p.html_url, "<unknown>"),
        None => {
            let mut u = "<".to_owned();
            u.append(dest_branch);
            u.append(">");
            u
        },
    };
    let words = match change.action {
        Action::Create => if dry_run {
            "to create"
        } else {
            "created"
        },
        Action::Update => if dry_run {
            "to update"
        } else {
            "updated"
        },
        Action::SkipCreate => "skip, --only-update-existing-pulls",
        Action::SkipMerged => "merged",
        Action::SkipNextOnly => "skip, --next-only",
        Action::SkipUpToDate => "up-to-date",
    };
    let mut line = "* [".to_owned();
    line.append(words);
    line.append("] '");
    line.append(info_of(change).as_str());
    line.append(" - ");
    line.append(change.title.as_str());
    line.append(flags_of(change, create_as_draft).as_str());
    line.append(" ");
    line.append(url.as_str());
    line
}

/// The log line of an orphan.
pub open spec fn orphan_line(pull: Pull, dry_run: bool) -> Seq<char> {
    "* ["@ + (if dry_run {
        "to delete"@
    } else {
        "deleted"@
    }) + "] '"@ + (match pull.head_sha {
        Some(h) => short(h@),
        None => "<unknown>"@,
    }) + " - "@ + crate::pull::text_or(pull.title, "<unknown>"@) + " "@ + crate::pull::text_or(
        pull.html_url,
        "<unknown>"@,
    )
}

/// The log line of a pull request whose commit left the stack.
pub fn format_orphan_change_log(pull: &Pull, dry_run: bool) -> (r: String)
    ensures
        r@ == orphan_line(*pull, dry_run),
{
    let sha: String = match &pull.head_sha {
        Some(h) => short_sha(h.as_str()),
        None => "<unknown>".to_owned(),
    };
    let words = if dry_run {
        "to delete"
    } else {
        "deleted"
    };
    let mut line = "* [".to_owned();
    line.append(words);
    line.append("] '");
    line.append(sha.as_str());
    line.append(" - ");
    line.append(field_or(&pull.title, "<unknown>").as_str());
    line.append(" ");
    line.append(field_or(&pull.html_url, "<unknown>").as_str());
    line
}

// ---------------------------------------------------------------------------
// Laws
// ---------------------------------------------------------------------------

/// There is one classified change for each commit, in the order of the
/// commits, with its SHA, Change-Id, title, message and note, and never one of the
/// two actions that only flags can ask for.
pub proof fn law_one_change_per_commit(commits: Seq<LocalCommit>, remotes: Seq<RemoteEntry>)
    ensures
        classified(commits, remotes).len() == commits.len(),
        forall|i: int|
            0 <= i < commits.len() ==> {
                let c = #[trigger] classified(commits, remotes)[i];
                &&& c.commit_sha == commits[i].commit_sha
                &&& c.change_id == commits[i].change_id
                &&& c.title == commits[i].title
                &&& c.message == commits[i].message
                &&& c.note == commits[i].note
                &&& c.action != Action::SkipCreate
                &&& c.action != Action::SkipNextOnly
                &&& c.action == Action::Create <==> c.pull is None
            },
    decreases commits.len(),
{
    if commits.len() > 0 {
        law_one_change_per_commit(commits.drop_last(), remotes);
    }
}

/// The entries that the commits took, in the order in which they took them.
pub open spec fn taken_by(commits: Seq<LocalCommit>, remotes: Seq<RemoteEntry>) -> Seq<RemoteEntry>
    decreases commits.len(),
{
    if commits.len() == 0 {
        seq![]
    } else {
        let before = taken_by(commits.drop_last(), remotes);
        let left = left_after(commits.drop_last(), remotes);
        let k = match_index(left, commits.last().change_id@) as int;
        if k < left.len() {
            before.push(left[k])
        } else {
            before
        }
    }
}

/// No pull request is used twice and none is lost: those that the commits took
/// and those that are left are together those that the search gave.
pub proof fn law_pulls_are_shared_out(commits: Seq<LocalCommit>, remotes: Seq<RemoteEntry>)
    ensures
        taken_by(commits, remotes).to_multiset().add(left_after(commits, remotes).to_multiset())
            == remotes.to_multiset(),
    decreases commits.len(),
{
    broadcast use vstd::seq_lib::group_to_multiset_ensures;

    if commits.len() == 0 {
        assert(taken_by(commits, remotes).to_multiset().add(
            left_after(commits, remotes).to_multiset(),
        ) =~= remotes.to_multiset());
    } else {
        law_pulls_are_shared_out(commits.drop_last(), remotes);
        let before = taken_by(commits.drop_last(), remotes);
        let left = left_after(commits.drop_last(), remotes);
        let k = match_index(left, commits.last().change_id@) as int;
        if k < left.len() {
            assert(left.remove(k).insert(k, left[k]) =~= left);
            assert(before.push(left[k]).to_multiset().add(left.remove(k).to_multiset())
                =~= before.to_multiset().add(left.to_multiset()));
        }
    }
}

/// What is done about a commit follows from its pull request alone: without one
/// it is created, a merged one with this very head is left alone and with another
/// head counts as none, and an open one is updated unless it shows this very
/// head. Nothing of the commit is lost.
pub proof fn law_action_follows_the_pull_request(c: LocalCommit, pull: Option<Pull>)
    ensures
        ({
            let r = change_for(c, pull);
            let same_head = pull is Some && pull->0.head_sha is Some && pull->0.head_sha->0@
                == c.commit_sha@;
            let merged = pull is Some && pull->0.merged_at == MergedAt::Time;
            &&& r.commit_sha == c.commit_sha && r.title == c.title && r.message == c.message
                && r.change_id == c.change_id && r.note == c.note
            &&& pull is None ==> r.action == Action::Create && r.pull is None
            &&& merged && same_head ==> r.action == Action::SkipMerged && r.pull == pull
            &&& merged && !same_head ==> r.action == Action::Create && r.pull is None
            &&& pull is Some && !merged && same_head ==> r.action == Action::SkipUpToDate && r.pull
                == pull
            &&& pull is Some && !merged && !same_head ==> r.action == Action::Update && r.pull
                == pull
        }),
{
}

/// A commit takes the first pull request with its own Change-Id, even where
/// another one before it has a Change-Id that is a prefix.
pub proof fn law_same_id_wins(remotes: Seq<RemoteEntry>, id: Seq<char>, k: int)
    requires
        0 <= k < remotes.len(),
        remotes[k].change_id == id,
        forall|i: int| 0 <= i < k ==> (#[trigger] remotes[i]).change_id != id,
    ensures
        matched_pull(remotes, id) == Some(remotes[k].pull),
        without_match(remotes, id) == remotes.remove(k),
    decreases remotes.len(),
{
    crate::remote_changes::lemma_entry_of_is(remotes, id, k);
}

/// Without the very Change-Id, a commit takes the first pull request whose
/// Change-Id is the start of its own or the other way round, the leading `I`
/// left aside.
pub proof fn law_crossing_id_is_next(remotes: Seq<RemoteEntry>, id: Seq<char>, k: int)
    requires
        0 <= k < remotes.len(),
        forall|i: int| 0 <= i < remotes.len() ==> (#[trigger] remotes[i]).change_id != id,
        ({
            let hex = |s: Seq<char>|
                if s.len() > 0 && s[0] == 'I' {
                    s.skip(1)
                } else {
                    s
                };
            &&& hex(id).is_prefix_of(hex(remotes[k].change_id)) || hex(
                remotes[k].change_id,
            ).is_prefix_of(hex(id))
            &&& forall|i: int|
                0 <= i < k ==> !hex(id).is_prefix_of(hex((#[trigger] remotes[i]).change_id))
                    && !hex(remotes[i].change_id).is_prefix_of(hex(id))
        }),
    ensures
        matched_pull(remotes, id) == Some(remotes[k].pull),
        without_match(remotes, id) == remotes.remove(k),
{
    crate::remote_changes::lemma_entry_of_is(remotes, id, remotes.len() as int);
    lemma_first_crossing_is(remotes, id, k);
}

/// Where no Change-Id is the start of the other, nothing is taken.
pub proof fn law_foreign_ids_match_nothing(remotes: Seq<RemoteEntry>, id: Seq<char>)
    requires
        ({
            let hex = |s: Seq<char>|
                if s.len() > 0 && s[0] == 'I' {
                    s.skip(1)
                } else {
                    s
                };
            forall|i: int|
                0 <= i < remotes.len() ==> !hex(id).is_prefix_of(
                    hex((#[trigger] remotes[i]).change_id),
                ) && !hex(remotes[i].change_id).is_prefix_of(hex(id))
        }),
    ensures
        matched_pull(remotes, id) is None,
        without_match(remotes, id) == remotes,
{
    assert forall|i: int| 0 <= i < remotes.len() implies (#[trigger] remotes[i]).change_id
        != id by {
        if remotes[i].change_id == id {
            assert(id_hex(id).is_prefix_of(id_hex(id)));
        }
    }
    crate::remote_changes::lemma_entry_of_is(remotes, id, remotes.len() as int);
    lemma_first_crossing_is(remotes, id, remotes.len() as int);
}

/// A commit finds its pull request among those that the commits below it left,
/// and the commits above it change nothing about it.
pub proof fn law_commits_choose_from_below(
    commits: Seq<LocalCommit>,
    remotes: Seq<RemoteEntry>,
    c: LocalCommit,
)
    ensures
        ({
            let left = left_after(commits, remotes);
            let all = classified(commits.push(c), remotes);
            let taken = matched_pull(left, c.change_id@);
            let merged_elsewhere = taken is Some && taken->0.merged_at == MergedAt::Time && (
            taken->0.head_sha is None || taken->0.head_sha->0@ != c.commit_sha@);
            &&& all.len() == commits.len() + 1
            &&& all.drop_last() == classified(commits, remotes)
            &&& all.last().commit_sha == c.commit_sha
            &&& all.last().pull == (if merged_elsewhere {
                None
            } else {
                taken
            })
            &&& left_after(commits.push(c), remotes) == without_match(left, c.change_id@)
        }),
{
    assert(commits.push(c).drop_last() =~= commits);
    law_one_change_per_commit(commits, remotes);
    assert(classified(commits.push(c), remotes).drop_last() =~= classified(commits, remotes));
}

/// No two commits share a pull request, none of theirs is left for the orphans,
/// and whatever they have came from the search.
pub proof fn law_no_pull_request_serves_twice(commits: Seq<LocalCommit>, remotes: Seq<RemoteEntry>)
    requires
        forall|i: int, j: int|
            0 <= i < j < remotes.len() ==> (#[trigger] remotes[i]).pull != (
            #[trigger] remotes[j]).pull,
    ensures
        ({
            let cs = classified(commits, remotes);
            let left = left_after(commits, remotes);
            &&& forall|i: int, j: int|
                0 <= i < j < cs.len() && (#[trigger] cs[i]).pull is Some && (
                #[trigger] cs[j]).pull is Some ==> cs[i].pull != cs[j].pull
            &&& forall|i: int, k: int|
                0 <= i < cs.len() && 0 <= k < left.len() && (#[trigger] cs[i]).pull is Some
                    ==> cs[i].pull->0 != (#[trigger] left[k]).pull
            &&& forall|i: int|
                0 <= i < cs.len() && (#[trigger] cs[i]).pull is Some ==> exists|k: int|
                    0 <= k < remotes.len() && (#[trigger] remotes[k]).pull == cs[i].pull->0
            &&& forall|k: int| 0 <= k < left.len() ==> remotes.contains(#[trigger] left[k])
            &&& forall|i: int, j: int|
                0 <= i < j < left.len() ==> (#[trigger] left[i]).pull != (#[trigger] left[j]).pull
        }),
    decreases commits.len(),
{
    if commits.len() > 0 {
        let t = commits.drop_last();
        law_no_pull_request_serves_twice(t, remotes);
        law_one_change_per_commit(t, remotes);
        let before = classified(t, remotes);
        let was = left_after(t, remotes);
        let cs = classified(commits, remotes);
        let left = left_after(commits, remotes);
        let id = commits.last().change_id@;
        let k = match_index(was, id) as int;
        let new = cs.last();
        assert forall|m: int| 0 <= m < left.len() implies exists|q: int|
            0 <= q < was.len() && #[trigger] was[q] == #[trigger] left[m] && (new.pull is Some ==> q
                != k) by {
            if k < was.len() {
                if m < k {
                    assert(was[m] == left[m]);
                } else {
                    assert(was[m + 1] == left[m]);
                }
            } else {
                assert(was[m] == left[m]);
            }
        }
        if new.pull is Some {
            assert(k < was.len() && new.pull->0 == was[k].pull);
        }
        assert forall|i: int, j: int| 0 <= i < j < cs.len() && (#[trigger] cs[i]).pull is Some && (
        #[trigger] cs[j]).pull is Some implies cs[i].pull != cs[j].pull by {
            assert(cs[i] == before[i]);
            if j < before.len() {
                assert(cs[j] == before[j]);
            } else {
                assert(before[i].pull->0 != was[k].pull);
            }
        }
        assert forall|i: int, m: int| 0 <= i < cs.len() && 0 <= m < left.len() && (
        #[trigger] cs[i]).pull is Some implies cs[i].pull->0 != (#[trigger] left[m]).pull by {
            let q = choose|q: int|
                0 <= q < was.len() && #[trigger] was[q] == left[m] && (new.pull is Some ==> q != k);
            if i < before.len() {
                assert(cs[i] == before[i]);
            } else {
                assert(was[q].pull != was[k].pull);
            }
        }
        assert forall|i: int| 0 <= i < cs.len() && (#[trigger] cs[i]).pull is Some implies exists|
            m: int,
        |
            0 <= m < remotes.len() && (#[trigger] remotes[m]).pull == cs[i].pull->0 by {
            if i < before.len() {
                assert(cs[i] == before[i]);
            } else {
                assert(remotes.contains(was[k]));
                let m = choose|m: int| 0 <= m < remotes.len() && #[trigger] remotes[m] == was[k];
                assert(remotes[m].pull == cs[i].pull->0);
            }
        }
        assert forall|m: int| 0 <= m < left.len() implies remotes.contains(#[trigger] left[m]) by {
            let q = choose|q: int| 0 <= q < was.len() && #[trigger] was[q] == left[m];
            assert(remotes.contains(was[q]));
        }
        assert forall|i: int, j: int| 0 <= i < j < left.len() implies (#[trigger] left[i]).pull != (
        #[trigger] left[j]).pull by {
            let a: int = if k < was.len() && i >= k {
                i + 1
            } else {
                i
            };
            let b: int = if k < was.len() && j >= k {
                j + 1
            } else {
                j
            };
            assert(left[i] == was[a] && left[j] == was[b]);
        }
    } else {
        assert(left_after(commits, remotes) == remotes);
    }
}

/// The orphans are all open pull requests that no commit took, in the order of
/// the search.
pub proof fn law_orphans_are_the_open_rest(remotes: Seq<RemoteEntry>)
    ensures
        open_pulls(remotes) == remotes.filter(
            |e: RemoteEntry| e.pull.state is Some && e.pull.state->0@ == "open"@,
        ).map_values(|e: RemoteEntry| e.pull),
    decreases remotes.len(),
{
    reveal(Seq::filter);
    let f = |e: RemoteEntry| e.pull.state is Some && e.pull.state->0@ == "open"@;
    let g = |e: RemoteEntry| e.pull;
    if remotes.len() > 0 {
        let t = remotes.drop_last();
        law_orphans_are_the_open_rest(t);
        if f(remotes.last()) {
            assert(remotes.filter(f).map_values(g) =~= t.filter(f).map_values(g).push(
                remotes.last().pull,
            ));
        }
    } else {
        assert(remotes.filter(f).map_values(g) =~= seq![]);
    }
}

/// The log line of a change names what was done, or with a dry run what would
/// be, the commit in seven characters, and where to look.
pub proof fn law_log_line_reads(
    change: LocalChange,
    dest_branch: Seq<char>,
    dry_run: bool,
    create_as_draft: bool,
)
    requires
        change.commit_sha@.len() >= 7,
    ensures
        ({
            let line = change_line(change, dest_branch, dry_run, create_as_draft);
            let sha = change.commit_sha@.take(7);
            let draft = if (change.pull is Some && change.pull->0.draft == Some(true)) || (
            change.action == Action::Create && create_as_draft) {
                " (draft)"@
            } else {
                seq![]
            };
            let url = match change.pull {
                Some(p) => match p.html_url {
                    Some(u) => u@,
                    None => "<unknown>"@,
                },
                None => "<"@ + dest_branch + ">"@,
            };
            let rest = " - "@ + change.title@ + draft + " "@ + url;
            &&& change.action == Action::Create ==> line == (if dry_run {
                "* [to create] '"@
            } else {
                "* [created] '"@
            }) + sha + rest
            &&& change.action == Action::SkipUpToDate ==> line == "* [up-to-date] '"@ + sha + rest
            &&& change.action == Action::SkipCreate ==> line
                == "* [skip, --only-update-existing-pulls] '"@ + sha + rest
            &&& change.action == Action::SkipNextOnly ==> line == "* [skip, --next-only] '"@ + sha
                + rest
            &&& change.action == Action::Update && change.pull is Some
                && change.pull->0.head_sha is Some && change.pull->0.head_sha->0@.len() >= 7
                ==> line == (if dry_run {
                "* [to update] '"@
            } else {
                "* [updated] '"@
            }) + change.pull->0.head_sha->0@.take(7) + " -> "@ + sha + rest
            &&& change.action == Action::SkipMerged && change.pull is Some
                && change.pull->0.merged_at == MergedAt::Time
                && change.pull->0.merge_commit_sha is Some
                && change.pull->0.merge_commit_sha->0@.len() >= 7 ==> line == "* [merged] '"@
                + change.pull->0.merge_commit_sha->0@.take(7) + " - "@ + change.title@ + draft
                + " (merged) "@ + url
        }),
{
    reveal_strlit("* [");
    reveal_strlit("] '");
    reveal_strlit("to create");
    reveal_strlit("created");
    reveal_strlit("to update");
    reveal_strlit("updated");
    reveal_strlit("merged");
    reveal_strlit("up-to-date");
    reveal_strlit("skip, --next-only");
    reveal_strlit("skip, --only-update-existing-pulls");
    reveal_strlit("* [to create] '");
    reveal_strlit("* [created] '");
    reveal_strlit("* [to update] '");
    reveal_strlit("* [updated] '");
    reveal_strlit("* [merged] '");
    reveal_strlit("* [up-to-date] '");
    reveal_strlit("* [skip, --next-only] '");
    reveal_strlit("* [skip, --only-update-existing-pulls] '");
    reveal_strlit(" (merged)");
    reveal_strlit(" (merged) ");
    reveal_strlit(" ");
    let line = change_line(change, dest_branch, dry_run, create_as_draft);
    let sha = change.commit_sha@.take(7);
    assert("* ["@ + "created"@ + "] '"@ =~= "* [created] '"@);
    assert("* ["@ + "to create"@ + "] '"@ =~= "* [to create] '"@);
    assert("* ["@ + "updated"@ + "] '"@ =~= "* [updated] '"@);
    assert("* ["@ + "to update"@ + "] '"@ =~= "* [to update] '"@);
    assert("* ["@ + "merged"@ + "] '"@ =~= "* [merged] '"@);
    assert("* ["@ + "up-to-date"@ + "] '"@ =~= "* [up-to-date] '"@);
    assert("* ["@ + "skip, --next-only"@ + "] '"@ =~= "* [skip, --next-only] '"@);
    assert("* ["@ + "skip, --only-update-existing-pulls"@ + "] '"@
        =~= "* [skip, --only-update-existing-pulls] '"@);
    assert(" (merged)"@ + " "@ =~= " (merged) "@);
    let words = action_words(change.action, dry_run);
    let flags = flag_text(change, create_as_draft);
    let url = change_url(change, dest_branch);
    assert(line =~= ("* ["@ + words + "] '"@) + commit_info(change) + (" - "@ + change.title@
        + flags + " "@ + url));
    if change.action == Action::SkipMerged {
        let draft = if shows_draft(change, create_as_draft) {
            " (draft)"@
        } else {
            seq![]
        };
        assert(" - "@ + change.title@ + flags + " "@ + url =~= " - "@ + change.title@ + draft
            + " (merged) "@ + url);
        assert(line =~= "* [merged] '"@ + commit_info(change) + " - "@ + change.title@ + draft
            + " (merged) "@ + url);
    } else {
        let draft = if shows_draft(change, create_as_draft) {
            " (draft)"@
        } else {
            seq![]
        };
        assert(flags =~= draft);
        if change.action == Action::Update && change.pull is Some
            && change.pull->0.head_sha is Some && change.pull->0.head_sha->0@.len() >= 7 {
            let was = change.pull->0.head_sha->0@.take(7);
            assert(line =~= ("* ["@ + words + "] '"@) + was + " -> "@ + sha + (" - "@
                + change.title@ + flags + " "@ + url));
        }
    }
}

/// The log line of an orphan.
pub proof fn law_orphan_line_reads(pull: Pull, dry_run: bool)
    requires
        pull.head_sha is Some,
        pull.head_sha->0@.len() >= 7,
        pull.title is Some,
        pull.html_url is Some,
    ensures
        orphan_line(pull, dry_run) == (if dry_run {
            "* [to delete] '"@
        } else {
            "* [deleted] '"@
        }) + pull.head_sha->0@.take(7) + " - "@ + pull.title->0@ + " "@ + pull.html_url->0@,
{
    reveal_strlit("* [");
    reveal_strlit("] '");
    reveal_strlit("to delete");
    reveal_strlit("deleted");
    reveal_strlit("* [to delete] '");
    reveal_strlit("* [deleted] '");
    assert("* ["@ + "to delete"@ + "] '"@ =~= "* [to delete] '"@);
    assert("* ["@ + "deleted"@ + "] '"@ =~= "* [deleted] '"@);
}

/// Every commit is classified, in order, and of the pull requests that serve none
/// of them the open ones are the orphans.
pub proof fn law_every_commit_is_classified(
    commits: &Vec<LocalCommit>,
    remotes: Vec<RemoteChange>,
    r: Result<Changes, CliError>,
    i: int,
)
    requires
        call_ensures(classify, (commits, remotes), r),
        0 <= i < commits@.len(),
    ensures
        r is Ok,
        r->Ok_0.locals@.len() == commits@.len(),
        r->Ok_0.locals@[i].commit_sha@ == commits@[i].commit_sha@,
        r->Ok_0.locals@[i].change_id@ == commits@[i].change_id@,
        r->Ok_0.locals@[i].title@ == commits@[i].title@,
        r->Ok_0.locals@[i].message@ == commits@[i].message@,
        r->Ok_0.locals@[i].note@ == commits@[i].note@,
{
    law_one_change_per_commit(commits@, crate::remote_changes::entries(remotes@));
}

/// A label is the name of its action.
pub proof fn law_label_names_the_action(action: Action, r: &'static str)
    requires
        call_ensures(Action::label, (action,), r),
    ensures
        action == Action::SkipMerged ==> r@ == "SkipMerged"@,
        action == Action::SkipUpToDate ==> r@ == "SkipUpToDate"@,
        action == Action::Create ==> r@ == "Create"@,
        action == Action::Update ==> r@ == "Update"@,
        action == Action::SkipCreate ==> r@ == "SkipCreate"@,
        action == Action::SkipNextOnly ==> r@ == "SkipNextOnly"@,
{
}

/// Creating and updating push, and nothing else does.
pub proof fn law_creating_and_updating_push(action: Action, r: bool)
    requires
        call_ensures(Action::is_push, (action,), r),
    ensures
        r <==> action == Action::Create || action == Action::Update,
{
}

} // verus!
