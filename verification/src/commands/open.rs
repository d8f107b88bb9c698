//! `stack open`: the pull request of a commit of the stack, in a browser.
use crate::commands::list::StackListEntry;
use crate::error::{CliError, Failure};
use crate::text;
use vstd::prelude::*;

verus! {

/// What was opened.
#[derive(Debug, Clone, PartialEq, Eq)]
pub enum Outcome {
    Opened { pull_number: u64, title: String, pull_url: String },
    /// The stack has no commits.
    EmptyStack,
    /// The user picked none.
    Cancelled,
}

/// Whether the SHAs of some entries can be cut to 7 bytes.
pub open spec fn labelled(entries: Seq<StackListEntry>) -> bool {
    forall|i: int| 0 <= i < entries.len() ==> text::cuts_at((#[trigger] entries[i]).commit_sha@, 7)
}

/// What the picker shows of an entry.
pub open spec fn label(e: StackListEntry) -> Seq<char> {
    match e.pull_number {
        Some(n) => "#"@ + text::decimal(n as nat) + " "@ + e.title@ + " ("@ + text::cut(e.commit_sha@, 7)
            + ")"@,
        None => "(no PR) "@ + e.title@ + " ("@ + text::cut(e.commit_sha@, 7) + ")"@,
    }
}

/// What the picker shows of some entries.
pub open spec fn labels_of(entries: Seq<StackListEntry>) -> Seq<Seq<char>> {
    entries.map_values(|e: StackListEntry| label(e))
}

/// What the picker shows: the number of the pull request, where there is one,
/// the title and the start of the SHA.
pub fn build_labels(entries: &Vec<StackListEntry>) -> (r: Vec<String>)
    requires
        labelled(entries@),
    ensures
        text::texts(r@) == labels_of(entries@),
{
    let ghost goal = labels_of(entries@);
    let mut out: Vec<String> = Vec::new();
    let mut i: usize = 0;
    while i < entries.len()
        invariant
            i <= entries.len(),
            labelled(entries@),
            out.len() == i,
            goal == labels_of(entries@),
            forall|j: int| 0 <= j < i ==> #[trigger] out@[j]@ == goal[j],
        decreases entries.len() - i,
    {
        let e = &entries[i];
        proof {
            assert(text::cuts_at(entries@[i as int].commit_sha@, 7));
        }
        let short = text::cut_to(e.commit_sha.as_str(), 7);
        let mut l = String::new();
        match e.pull_number {
            Some(n) => {
                l = "#".to_owned();
                l.append(text::decimal_of(n).as_str());
                l.append(" ");
            },
            None => {
                l = "(no PR) ".to_owned();
            },
        }
        l.append(e.title.as_str());
        l.append(" (");
        l.append(short.as_str());
        l.append(")");
        out.push(l);
        i += 1;
    }
    proof {
        assert(text::texts(out@) =~= goal);
    }
    out
}

/// Whether a picker answered, and with what.
pub open spec fn answered<F: Fn(&Vec<String>, usize) -> Result<Option<usize>, String>>(
    selector: F,
    entries: Seq<StackListEntry>,
    answer: Result<Option<usize>, String>,
) -> bool {
    exists|labels: Vec<String>|
        text::texts(labels@) == labels_of(entries) && call_ensures(
            selector,
            (&labels, (entries.len() - 1) as usize),
            answer,
        )
}

/// The entry that the user picks. The last one is picked beforehand.
pub fn pick_interactive<'a, F: Fn(&Vec<String>, usize) -> Result<Option<usize>, String>>(
    entries: &'a Vec<StackListEntry>,
    selector: F,
) -> (r: Result<Option<&'a StackListEntry>, CliError>)
    requires
        entries.len() > 0,
        labelled(entries@),
        forall|labels: &Vec<String>, i: usize| call_requires(selector, (labels, i)),
        forall|labels: &Vec<String>, i: usize, k: usize|
            labels.len() == entries.len() && call_ensures(selector, (labels, i), Ok(Some(k))) ==> k
                < entries.len(),
    ensures
        exists|answer: Result<Option<usize>, String>| #[trigger]
            answered(selector, entries@, answer) && match answer {
                Ok(Some(k)) => k < entries.len() && (r matches Ok(Some(e)) && *e
                    == entries@[k as int]),
                Ok(None) => r matches Ok(None),
                Err(e) => r matches Err(x) && x@ == Failure::Generic(
                    "interactive selection failed: "@ + e@,
                ),
            },
{
    let labels = build_labels(entries);
    proof {
        assert(text::texts(labels@).len() == labels.len());
    }
    let answer = selector(&labels, entries.len() - 1);
    proof {
        assert(answered(selector, entries@, answer));
    }
    match answer {
        Ok(Some(k)) => Ok(Some(&entries[k])),
        Ok(None) => Ok(None),
        Err(e) => {
            let mut m = "interactive selection failed: ".to_owned();
            m.append(e.as_str());
            Err(CliError::Generic(m))
        },
    }
}

/// The SHA that git gave for a commit.
pub open spec fn found_sha(commit: Seq<char>, succeeded: bool, stdout: Seq<char>) -> Result<
    Seq<char>,
    Failure,
> {
    if !succeeded {
        Err(Failure::StackNotFound("commit `"@ + commit + "` not found"@))
    } else if text::trim(stdout).len() == 0 {
        Err(Failure::StackNotFound("commit `"@ + commit + "` resolves to empty SHA"@))
    } else {
        Ok(text::trim(stdout))
    }
}

/// The SHA that git gave for a commit.
pub fn resolve_ref_to_sha(commit: &str, succeeded: bool, stdout: &str) -> (r: Result<
    String,
    CliError,
>)
    ensures
        crate::error::text_outcome(r) == found_sha(commit@, succeeded, stdout@),
{
    let mut m = "commit `".to_owned();
    m.append(commit);
    if !succeeded {
        m.append("` not found");
        return Err(CliError::StackNotFound(m));
    }
    let sha = text::trimmed(stdout);
    if sha.as_str().is_empty() {
        m.append("` resolves to empty SHA");
        return Err(CliError::StackNotFound(m));
    }
    Ok(sha)
}

/// Whether one of the entries is that of the commit `sha`.
pub open spec fn has_commit(entries: Seq<StackListEntry>, sha: Seq<char>) -> bool {
    exists|i: int| 0 <= i < entries.len() && (#[trigger] entries[i]).commit_sha@ == sha
}

/// The entry of the stack with the SHA that git gave for `commit`.
pub fn resolve_entry<'a>(entries: &'a Vec<StackListEntry>, commit: &str, sha: &str) -> (r: Result<
    &'a StackListEntry,
    CliError,
>)
    requires
        has_commit(entries@, sha@) || text::cuts_at(sha@, 7),
    ensures
        match r {
            Ok(e) => exists|k: int|
                0 <= k < entries.len() && *e == #[trigger] entries@[k] && e.commit_sha@ == sha@
                    && forall|j: int| 0 <= j < k ==> (#[trigger] entries@[j]).commit_sha@ != sha@,
            Err(x) => (forall|j: int|
                0 <= j < entries.len() ==> (#[trigger] entries@[j]).commit_sha@ != sha@) && x@
                == Failure::StackNotFound(
                "commit `"@ + commit@ + "` ("@ + text::cut(sha@, 7) + ") not found in stack"@,
            ),
        },
{
    let mut i: usize = 0;
    while i < entries.len()
        invariant
            i <= entries.len(),
            forall|j: int| 0 <= j < i ==> (#[trigger] entries@[j]).commit_sha@ != sha@,
        decreases entries.len() - i,
    {
        if text::same(entries[i].commit_sha.as_str(), sha) {
            return Ok(&entries[i]);
        }
        i += 1;
    }
    let mut m = "commit `".to_owned();
    m.append(commit);
    m.append("` (");
    m.append(text::cut_to(sha, 7).as_str());
    m.append(") not found in stack");
    Err(CliError::StackNotFound(m))
}

/// What is opened for an entry. It needs a pull request.
pub fn opened(entry: &StackListEntry) -> (r: Result<Outcome, CliError>)
    requires
        entry.pull_url is None ==> text::cuts_at(entry.commit_sha@, 7),
    ensures
        match (entry.pull_url, entry.pull_number) {
            (None, _) => r matches Err(e) && e@ == Failure::StackNotFound(
                "No PR for: "@ + entry.title@ + " ("@ + text::cut(entry.commit_sha@, 7)
                    + ") — run `mergify stack push` first."@,
            ),
            (Some(_), None) => r matches Err(e) && e@ == Failure::Generic(
                "entry has pull_url but no pull_number"@,
            ),
            (Some(u), Some(n)) => r matches Ok(o) && o == (Outcome::Opened {
                pull_number: n,
                title: entry.title,
                pull_url: u,
            }),
        },
{
    let url = match &entry.pull_url {
        Some(u) => u.clone(),
        None => {
            let mut m = "No PR for: ".to_owned();
            m.append(entry.title.as_str());
            m.append(" (");
            m.append(text::cut_to(entry.commit_sha.as_str(), 7).as_str());
            m.append(") — run `mergify stack push` first.");
            return Err(CliError::StackNotFound(m));
        },
    };
    match entry.pull_number {
        Some(n) => Ok(
            Outcome::Opened { pull_number: n, title: entry.title.clone(), pull_url: url },
        ),
        None => Err(CliError::Generic("entry has pull_url but no pull_number".to_owned())),
    }
}

/// An entry is shown by the number of its pull request, or by the lack of one,
/// its title and seven characters of its SHA.
pub proof fn law_label_reads(entries: Seq<StackListEntry>, i: int)
    requires
        0 <= i < entries.len(),
        entries[i].commit_sha@.len() >= 7,
        text::all_ascii(entries[i].commit_sha@),
    ensures
        labels_of(entries).len() == entries.len(),
        entries[i].pull_number is Some ==> labels_of(entries)[i] == "#"@ + text::decimal(
            entries[i].pull_number->0 as nat,
        ) + " "@ + entries[i].title@ + " ("@ + entries[i].commit_sha@.take(7) + ")"@,
        entries[i].pull_number is None ==> labels_of(entries)[i] == "(no PR) "@
            + entries[i].title@ + " ("@ + entries[i].commit_sha@.take(7) + ")"@,
{
    let sha = entries[i].commit_sha@;
    text::law_ascii_cuts_anywhere(sha, 7);
    assert(sha.len() == 7 ==> sha.take(7) =~= sha);
}

/// A commit is found where git knows it and names it.
pub proof fn law_found_commit_is_gits(commit: Seq<char>, stdout: Seq<char>)
    ensures
        found_sha(commit, false, stdout) is Err,
        text::trim(stdout).len() == 0 ==> found_sha(commit, true, stdout) is Err,
        text::trim(stdout).len() > 0 ==> found_sha(commit, true, stdout) == Ok::<
            Seq<char>,
            Failure,
        >(text::trim(stdout)),
{
}

/// The pull request of an entry is opened where it has an address and a number.
pub proof fn law_entry_with_an_address_is_opened(entry: &StackListEntry, r: Result<Outcome, CliError>)
    requires
        call_ensures(opened, (entry,), r),
    ensures
        r is Ok <==> entry.pull_url is Some && entry.pull_number is Some,
        r is Ok ==> r->Ok_0 == (Outcome::Opened {
            pull_number: entry.pull_number->0,
            title: entry.title,
            pull_url: entry.pull_url->0,
        }),
        entry.pull_url is None ==> r->Err_0@ is StackNotFound,
{
}

/// The entry of a commit is the first with its SHA.
pub proof fn law_first_entry_of_the_commit_counts(
    entries: &Vec<StackListEntry>,
    commit: &str,
    sha: &str,
    r: Result<&StackListEntry, CliError>,
    k: int,
)
    requires
        call_ensures(resolve_entry, (entries, commit, sha), r),
        0 <= k < entries@.len(),
        entries@[k].commit_sha@ == sha@,
        forall|j: int| 0 <= j < k ==> (#[trigger] entries@[j]).commit_sha@ != sha@,
    ensures
        r is Ok,
        *r->Ok_0 == entries@[k],
{
}

/// A picker is shown a label for each entry, with the last one picked beforehand,
/// and the entry at the place that it answers is taken.
pub proof fn law_picked_entry_is_taken<F: Fn(&Vec<String>, usize) -> Result<Option<usize>, String>>(
    entries: &Vec<StackListEntry>,
    selector: F,
    r: Result<Option<&StackListEntry>, CliError>,
) -> (shown: (Vec<String>, Result<Option<usize>, String>))
    requires
        entries@.len() > 0,
        call_ensures(pick_interactive, (entries, selector), r),
    ensures
        call_ensures(selector, (&shown.0, (entries@.len() - 1) as usize), shown.1),
        shown.0@.len() == entries@.len(),
        forall|i: int|
            0 <= i < entries@.len() ==> (#[trigger] shown.0@[i])@ == label(entries@[i]),
        shown.1 matches Ok(Some(k)) ==> k < entries@.len() && r is Ok && r->Ok_0 is Some
            && *(r->Ok_0->0) == entries@[k as int],
        shown.1 is Ok && shown.1->Ok_0 is None ==> r is Ok && r->Ok_0 is None,
        shown.1 is Err ==> r is Err && r->Err_0@ == Failure::Generic(
            "interactive selection failed: "@ + shown.1->Err_0@,
        ),
{
    let answer = choose|answer: Result<Option<usize>, String>| #[trigger]
        answered(selector, entries@, answer) && match answer {
            Ok(Some(k)) => k < entries.len() && (r matches Ok(Some(e)) && *e == entries@[k as int]),
            Ok(None) => r matches Ok(None),
            Err(e) => r matches Err(x) && x@ == Failure::Generic(
                "interactive selection failed: "@ + e@,
            ),
        };
    let labels = choose|labels: Vec<String>|
        text::texts(labels@) == labels_of(entries@) && call_ensures(
            selector,
            (&labels, (entries@.len() - 1) as usize),
            answer,
        );
    let all = text::texts(labels@);
    assert(all.len() == labels@.len());
    assert forall|i: int| 0 <= i < entries@.len() implies (#[trigger] labels@[i])@ == label(
        entries@[i],
    ) by {
        assert(all[i] == labels@[i]@);
        assert(labels_of(entries@)[i] == label(entries@[i]));
    }
    (labels, answer)
}

} // verus!
