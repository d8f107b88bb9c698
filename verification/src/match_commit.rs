//! Finding the commit that a user names by a prefix of its SHA or of its
//! Change-Id, and the errors where there is none or more than one. Every
//! command that takes a commit uses the same rule and the same wording.
use crate::change_id;
use crate::error::{CliError, Failure};
use crate::local_commits::LocalCommit;
use crate::text;
use vstd::prelude::*;

verus! {

/// A commit that a prefix could mean. `change_id` is empty where the commit
/// has none.
pub struct Candidate<'a> {
    pub commit_sha: &'a str,
    pub title: &'a str,
    pub change_id: &'a str,
}

/// The error where nothing matches.
pub open spec fn not_found_text(field: Seq<char>, prefix: Seq<char>) -> Seq<char> {
    "no commit found matching "@ + field + " prefix '"@ + prefix + "'"@
}

/// The error where nothing matches `prefix`. `field` is what it was compared
/// with, `SHA` or `Change-Id`.
pub fn not_found(field: &str, prefix: &str) -> (r: CliError)
    ensures
        r@ == Failure::StackNotFound(not_found_text(field@, prefix@)),
{
    let mut msg = "no commit found matching ".to_owned();
    msg.append(field);
    msg.append(" prefix '");
    msg.append(prefix);
    msg.append("'");
    CliError::StackNotFound(msg)
}

/// The line of a candidate.
pub open spec fn candidate_line(sha: Seq<char>, title: Seq<char>, id: Seq<char>) -> Seq<char> {
    if id.len() == 0 {
        text::cut(sha, 12) + " "@ + title
    } else {
        text::cut(sha, 12) + " "@ + title + " ("@ + text::cut(id, 12) + ")"@
    }
}

/// Whether the SHA and the Change-Id can be cut to 12 bytes.
pub open spec fn candidate_cuts(sha: Seq<char>, id: Seq<char>) -> bool {
    text::cuts_at(sha, 12) && text::cuts_at(id, 12)
}

/// The lines of a list of candidates.
pub open spec fn candidate_lines(candidates: Seq<Candidate<'_>>) -> Seq<Seq<char>> {
    candidates.map_values(|c: Candidate<'_>| candidate_line(c.commit_sha@, c.title@, c.change_id@))
}

/// The error where several commits match.
pub open spec fn ambiguous_text(field: Seq<char>, prefix: Seq<char>, lines: Seq<Seq<char>>) -> Seq<
    char,
> {
    "ambiguous "@ + field + " prefix '"@ + prefix + "' matches "@ + text::decimal(lines.len())
        + " commits:\n  "@ + text::join(lines, "\n  "@)
}

fn format_candidate(c: &Candidate<'_>) -> (r: String)
    requires
        candidate_cuts(c.commit_sha@, c.change_id@),
    ensures
        r@ == candidate_line(c.commit_sha@, c.title@, c.change_id@),
{
    let mut line = text::cut_to(c.commit_sha, 12);
    line.append(" ");
    line.append(c.title);
    if !c.change_id.is_empty() {
        line.append(" (");
        line.append(text::cut_to(c.change_id, 12).as_str());
        line.append(")");
    }
    line
}

/// The error where `prefix` matches several commits: their number and one line
/// for each.
pub fn ambiguous(field: &str, prefix: &str, candidates: &Vec<Candidate<'_>>) -> (r: CliError)
    requires
        forall|i: int|
            0 <= i < candidates.len() ==> candidate_cuts(
                (#[trigger] candidates@[i]).commit_sha@,
                candidates@[i].change_id@,
            ),
    ensures
        r@ == Failure::InvalidState(ambiguous_text(field@, prefix@, candidate_lines(candidates@))),
{
    let mut lines: Vec<String> = Vec::new();
    let mut i: usize = 0;
    while i < candidates.len()
        invariant
            i <= candidates.len(),
            lines.len() == i,
            forall|j: int|
                0 <= j < candidates.len() ==> candidate_cuts(
                    (#[trigger] candidates@[j]).commit_sha@,
                    candidates@[j].change_id@,
                ),
            forall|j: int|
                0 <= j < i ==> #[trigger] lines@[j]@ == candidate_lines(candidates@)[j],
        decreases candidates.len() - i,
    {
        lines.push(format_candidate(&candidates[i]));
        i += 1;
    }
    proof {
        assert(text::texts(lines@) =~= candidate_lines(candidates@));
    }
    let mut msg = "ambiguous ".to_owned();
    msg.append(field);
    msg.append(" prefix '");
    msg.append(prefix);
    msg.append("' matches ");
    msg.append(text::decimal_of(candidates.len() as u64).as_str());
    msg.append(" commits:\n  ");
    msg.append(text::join_with(&lines, "\n  ").as_str());
    CliError::InvalidState(msg)
}

// ---------------------------------------------------------------------------
// Matching
// ---------------------------------------------------------------------------

/// The name of what a prefix is compared with.
pub open spec fn field_name(by_id: bool) -> Seq<char> {
    if by_id {
        "Change-Id"@
    } else {
        "SHA"@
    }
}

/// Whether `prefix` could mean the commit, as a prefix of its Change-Id or of
/// its SHA.
pub open spec fn field_matches(by_id: bool, prefix: Seq<char>) -> spec_fn(LocalCommit) -> bool {
    |c: LocalCommit|
        if by_id {
            prefix.is_prefix_of(c.change_id@)
        } else {
            prefix.is_prefix_of(c.commit_sha@)
        }
}

/// Whether `prefix` could mean the commit. One that can be the start of a
/// Change-Id is compared with those.
pub open spec fn commit_matches(prefix: Seq<char>) -> spec_fn(LocalCommit) -> bool {
    field_matches(change_id::id_prefix(prefix), prefix)
}

/// The commits that `prefix` could mean.
pub open spec fn matching(prefix: Seq<char>, commits: Seq<LocalCommit>) -> Seq<LocalCommit> {
    commits.filter(commit_matches(prefix))
}

/// The lines of a list of commits.
pub open spec fn commit_lines(commits: Seq<LocalCommit>) -> Seq<Seq<char>> {
    commits.map_values(|c: LocalCommit| candidate_line(c.commit_sha@, c.title@, c.change_id@))
}

/// The commit that `prefix` means as a prefix of a Change-Id or of a SHA, or why
/// there is none.
pub open spec fn resolved_by(by_id: bool, prefix: Seq<char>, commits: Seq<LocalCommit>) -> Result<
    LocalCommit,
    Failure,
> {
    let found = commits.filter(field_matches(by_id, prefix));
    if found.len() == 1 {
        Ok(found[0])
    } else if found.len() == 0 {
        Err(Failure::StackNotFound(not_found_text(field_name(by_id), prefix)))
    } else {
        Err(
            Failure::InvalidState(
                ambiguous_text(field_name(by_id), prefix, commit_lines(found)),
            ),
        )
    }
}

/// The commit that `prefix` means, or why there is none.
pub open spec fn resolved(prefix: Seq<char>, commits: Seq<LocalCommit>) -> Result<
    LocalCommit,
    Failure,
> {
    resolved_by(change_id::id_prefix(prefix), prefix, commits)
}

/// Whether the SHAs and Change-Ids of some commits can be cut to 12 bytes.
pub open spec fn listable(commits: Seq<LocalCommit>) -> bool {
    forall|i: int|
        0 <= i < commits.len() ==> candidate_cuts(
            (#[trigger] commits[i]).commit_sha@,
            commits[i].change_id@,
        )
}

/// Whether the error can be written where several commits match: they can be
/// listed.
pub open spec fn reportable_by(by_id: bool, prefix: Seq<char>, commits: Seq<LocalCommit>) -> bool {
    let found = commits.filter(field_matches(by_id, prefix));
    found.len() > 1 ==> listable(found)
}

/// Whether the error can be written where `prefix` matches several commits.
pub open spec fn reportable(prefix: Seq<char>, commits: Seq<LocalCommit>) -> bool {
    reportable_by(change_id::id_prefix(prefix), prefix, commits)
}

/// Whether that holds of every one of some prefixes.
pub open spec fn all_reportable(prefixes: Seq<Seq<char>>, commits: Seq<LocalCommit>) -> bool {
    forall|i: int| 0 <= i < prefixes.len() ==> reportable(#[trigger] prefixes[i], commits)
}

/// The index of the commit that `prefix` means.
pub fn resolve_commit(prefix: &str, commits: &Vec<LocalCommit>) -> (r: Result<usize, CliError>)
    requires
        reportable(prefix@, commits@),
    ensures
        match r {
            Ok(k) => k < commits.len() && resolved(prefix@, commits@) == Ok::<LocalCommit, Failure>(
                commits@[k as int],
            ) && commit_matches(prefix@)(commits@[k as int]) && forall|j: int|
                0 <= j < commits.len() && commit_matches(prefix@)(#[trigger] commits@[j]) ==> j
                    == k,
            Err(e) => resolved(prefix@, commits@) == Err::<LocalCommit, Failure>(e@),
        },
{
    resolve_by(change_id::is_prefix(prefix), prefix, commits)
}

/// The index of the commit that `prefix` means as a prefix of a Change-Id or of
/// a SHA.
pub fn resolve_by(by_id: bool, prefix: &str, commits: &Vec<LocalCommit>) -> (r: Result<
    usize,
    CliError,
>)
    requires
        reportable_by(by_id, prefix@, commits@),
    ensures
        match r {
            Ok(k) => k < commits.len() && resolved_by(by_id, prefix@, commits@) == Ok::<
                LocalCommit,
                Failure,
            >(commits@[k as int]) && field_matches(by_id, prefix@)(commits@[k as int]) && forall|
                j: int,
            |
                0 <= j < commits.len() && field_matches(by_id, prefix@)(#[trigger] commits@[j])
                    ==> j == k,
            Err(e) => resolved_by(by_id, prefix@, commits@) == Err::<LocalCommit, Failure>(e@),
        },
{
    let mut found: Vec<usize> = Vec::new();
    let mut candidates: Vec<Candidate<'_>> = Vec::new();
    let ghost pred = field_matches(by_id, prefix@);
    let mut i: usize = 0;
    proof {
        reveal(Seq::filter);
        assert(commits@.take(0).filter(pred) =~= seq![]);
        assert(candidate_lines(candidates@) =~= commit_lines(seq![]));
    }
    while i < commits.len()
        invariant
            i <= commits.len(),
            pred == field_matches(by_id, prefix@),
            found.len() == candidates.len(),
            found.len() == commits@.take(i as int).filter(pred).len(),
            forall|j: int|
                0 <= j < found.len() ==> (#[trigger] found@[j]) < i && commits@.take(i as int).filter(
                    pred,
                )[j] == commits@[found@[j] as int] && pred(commits@[found@[j] as int]),
            forall|j: int|
                0 <= j < i && pred(#[trigger] commits@[j]) ==> exists|k: int|
                    0 <= k < found.len() && #[trigger] found@[k] == j,
            candidate_lines(candidates@) == commit_lines(commits@.take(i as int).filter(pred)),
            forall|j: int|
                0 <= j < candidates.len() ==> (#[trigger] candidates@[j]).commit_sha@
                    == commits@.take(i as int).filter(pred)[j].commit_sha@
                    && candidates@[j].change_id@ == commits@.take(i as int).filter(
                    pred,
                )[j].change_id@,
        decreases commits.len() - i,
    {
        let c = &commits[i];
        let ghost before = commits@.take(i as int).filter(pred);
        let ghost lines_before = candidate_lines(candidates@);
        let ghost found_before = found@;
        proof {
            reveal(Seq::filter);
            assert(commits@.take(i + 1).drop_last() =~= commits@.take(i as int));
        }
        let hit = if by_id {
            text::starts_with(c.change_id.as_str(), prefix)
        } else {
            text::starts_with(c.commit_sha.as_str(), prefix)
        };
        if hit {
            found.push(i);
            candidates.push(
                Candidate {
                    commit_sha: c.commit_sha.as_str(),
                    title: c.title.as_str(),
                    change_id: c.change_id.as_str(),
                },
            );
            proof {
                let line = candidate_line(c.commit_sha@, c.title@, c.change_id@);
                assert(candidate_lines(candidates@) =~= lines_before.push(line));
                assert(commit_lines(before.push(*c)) =~= commit_lines(before).push(line));
                assert forall|j: int| 0 <= j < i + 1 && pred(
                    #[trigger] commits@[j],
                ) implies exists|k: int| 0 <= k < found.len() && #[trigger] found@[k] == j by {
                    if j < i {
                        let k = choose|k: int|
                            0 <= k < found_before.len() && #[trigger] found_before[k] == j;
                        assert(found@[k] == j);
                    } else {
                        assert(found@[found@.len() - 1] == j);
                    }
                }
            }
        }
        i += 1;
    }
    proof {
        assert(commits@.take(i as int) =~= commits@);
    }
    if found.len() == 1 {
        let k: usize = found[0];
        proof {
            assert forall|j: int| 0 <= j < commits.len() && pred(
                #[trigger] commits@[j],
            ) implies j == k by {
                let q = choose|q: int| 0 <= q < found.len() && #[trigger] found@[q] == j;
                assert(q == 0);
            }
        }
        return Ok(k);
    }
    let field = if by_id {
        "Change-Id"
    } else {
        "SHA"
    };
    if found.len() == 0 {
        Err(not_found(field, prefix))
    } else {
        proof {
            let all = commits@.filter(pred);
            assert forall|j: int| 0 <= j < candidates.len() implies candidate_cuts(
                (#[trigger] candidates@[j]).commit_sha@,
                candidates@[j].change_id@,
            ) by {
                assert(candidate_cuts(all[j].commit_sha@, all[j].change_id@));
            }
        }
        Err(ambiguous(field, prefix, &candidates))
    }
}

// ---------------------------------------------------------------------------
// Several prefixes
// ---------------------------------------------------------------------------

/// The commits that a list of prefixes means, one each, or the first error.
/// Two prefixes may not mean the same commit, and none may mean a commit that
/// `refused` rules out.
pub open spec fn all_resolved(
    prefixes: Seq<Seq<char>>,
    commits: Seq<LocalCommit>,
    refused: Option<(Seq<char>, Seq<char>)>,
    twice: Duplicate,
) -> Result<Seq<LocalCommit>, Failure>
    decreases prefixes.len(),
{
    if prefixes.len() == 0 {
        Ok(seq![])
    } else {
        match all_resolved(prefixes.drop_last(), commits, refused, twice) {
            Err(e) => Err(e),
            Ok(before) => match resolved(prefixes.last(), commits) {
                Err(e) => Err(e),
                Ok(c) => if refuses(refused, c.commit_sha@) is Some {
                    Err(Failure::InvalidState(refuses(refused, c.commit_sha@)->0))
                } else if has_sha(before, c.commit_sha@) {
                    Err(Failure::InvalidState(twice.wording(prefixes.last())))
                } else {
                    Ok(before.push(c))
                },
            },
        }
    }
}

/// Why `sha` may not be named, where it may not.
pub open spec fn refuses(refused: Option<(Seq<char>, Seq<char>)>, sha: Seq<char>) -> Option<
    Seq<char>,
> {
    match refused {
        Some((no, why)) => if no == sha {
            Some(why)
        } else {
            None
        },
        None => None,
    }
}

/// Whether one of the commits has `sha`.
pub open spec fn has_sha(commits: Seq<LocalCommit>, sha: Seq<char>) -> bool {
    exists|i: int| 0 <= i < commits.len() && (#[trigger] commits[i]).commit_sha@ == sha
}

/// How a commit that is named twice is reported.
pub enum Duplicate {
    /// As any commit.
    Commit,
    /// As the source of a squash.
    Source,
}

impl Duplicate {
    pub open spec fn wording(self, prefix: Seq<char>) -> Seq<char> {
        match self {
            Duplicate::Commit => "duplicate — prefix '"@ + prefix
                + "' resolves to the same commit as another prefix"@,
            Duplicate::Source => "duplicate — source prefix '"@ + prefix
                + "' resolves to the same commit as another"@,
        }
    }

    fn message(&self, prefix: &str) -> (r: String)
        ensures
            r@ == self.wording(prefix@),
    {
        match self {
            Duplicate::Commit => {
                let mut m = "duplicate — prefix '".to_owned();
                m.append(prefix);
                m.append("' resolves to the same commit as another prefix");
                m
            },
            Duplicate::Source => {
                let mut m = "duplicate — source prefix '".to_owned();
                m.append(prefix);
                m.append("' resolves to the same commit as another");
                m
            },
        }
    }
}

/// The commits at the indices `ks`.
pub open spec fn at_indices(commits: Seq<LocalCommit>, ks: Seq<usize>) -> Seq<LocalCommit> {
    ks.map_values(|k: usize| commits[k as int])
}

/// Whether one of the commits at some places has a SHA.
pub fn has_sha_at(commits: &Vec<LocalCommit>, ks: &Vec<usize>, sha: &str) -> (r: bool)
    requires
        forall|i: int| 0 <= i < ks.len() ==> #[trigger] ks@[i] < commits.len(),
    ensures
        r == has_sha(at_indices(commits@, ks@), sha@),
{
    let ghost all = at_indices(commits@, ks@);
    let mut i: usize = 0;
    while i < ks.len()
        invariant
            i <= ks.len(),
            all == at_indices(commits@, ks@),
            forall|j: int| 0 <= j < ks.len() ==> #[trigger] ks@[j] < commits.len(),
            forall|j: int| 0 <= j < i ==> (#[trigger] all[j]).commit_sha@ != sha@,
        decreases ks.len() - i,
    {
        if text::same(commits[ks[i]].commit_sha.as_str(), sha) {
            proof {
                assert(all[i as int].commit_sha@ == sha@);
            }
            return true;
        }
        i += 1;
    }
    false
}

proof fn lemma_all_resolved_error(
    prefixes: Seq<Seq<char>>,
    commits: Seq<LocalCommit>,
    refused: Option<(Seq<char>, Seq<char>)>,
    twice: Duplicate,
    n: int,
)
    requires
        0 <= n <= prefixes.len(),
        all_resolved(prefixes.take(n), commits, refused, twice) is Err,
    ensures
        all_resolved(prefixes, commits, refused, twice) == all_resolved(
            prefixes.take(n),
            commits,
            refused,
            twice,
        ),
    decreases prefixes.len() - n,
{
    if n < prefixes.len() {
        assert(prefixes.take(n + 1).drop_last() =~= prefixes.take(n));
        lemma_all_resolved_error(prefixes, commits, refused, twice, n + 1);
    } else {
        assert(prefixes.take(n) =~= prefixes);
    }
}

/// A commit that no prefix may mean, with the reason.
pub struct Refused<'a> {
    pub sha: &'a str,
    pub reason: &'a str,
}

/// The SHA and the reason of a refusal.
pub open spec fn refusal(r: Option<Refused<'_>>) -> Option<(Seq<char>, Seq<char>)> {
    match r {
        Some(x) => Some((x.sha@, x.reason@)),
        None => None,
    }
}

/// The indices of the commits that a list of prefixes means.
pub fn resolve_all(
    prefixes: &Vec<String>,
    commits: &Vec<LocalCommit>,
    refused: Option<Refused<'_>>,
    twice: Duplicate,
) -> (r: Result<Vec<usize>, CliError>)
    requires
        all_reportable(text::texts(prefixes@), commits@),
    ensures
        match r {
            Ok(ks) => ks.len() == prefixes.len() && (forall|i: int|
                0 <= i < ks.len() ==> (#[trigger] ks@[i]) < commits.len()) && all_resolved(
                text::texts(prefixes@),
                commits@,
                refusal(refused),
                twice,
            ) == Ok::<Seq<LocalCommit>, Failure>(at_indices(commits@, ks@)),
            Err(e) => all_resolved(text::texts(prefixes@), commits@, refusal(refused), twice) == Err::<
                Seq<LocalCommit>,
                Failure,
            >(e@),
        },
{
    let ghost ps = text::texts(prefixes@);
    let ghost no = refusal(refused);
    let mut out: Vec<usize> = Vec::new();
    let mut i: usize = 0;
    proof {
        assert(ps.take(0) =~= seq![]);
        assert(at_indices(commits@, out@) =~= seq![]);
    }
    while i < prefixes.len()
        invariant
            i <= prefixes.len(),
            out.len() == i,
            ps == text::texts(prefixes@),
            no == refusal(refused),
            all_reportable(ps, commits@),
            forall|j: int| 0 <= j < out.len() ==> (#[trigger] out@[j]) < commits.len(),
            all_resolved(ps.take(i as int), commits@, no, twice) == Ok::<Seq<LocalCommit>, Failure>(
                at_indices(commits@, out@),
            ),
        decreases prefixes.len() - i,
    {
        let prefix = prefixes[i].as_str();
        let ghost before = at_indices(commits@, out@);
        proof {
            assert(ps.take(i + 1).drop_last() =~= ps.take(i as int));
            assert(ps.take(i + 1).last() == prefix@);
            assert(reportable(ps[i as int], commits@));
        }
        i += 1;
        let k: usize = match resolve_commit(prefix, commits) {
            Ok(k) => k,
            Err(e) => {
                proof {
                    lemma_all_resolved_error(ps, commits@, no, twice, i as int);
                }
                return Err(e);
            },
        };
        let sha = commits[k].commit_sha.as_str();
        if let Some(x) = &refused {
            if text::same(x.sha, sha) {
                proof {
                    lemma_all_resolved_error(ps, commits@, no, twice, i as int);
                }
                return Err(CliError::InvalidState(x.reason.to_owned()));
            }
        }
        let mut seen = false;
        let mut j: usize = 0;
        while j < out.len()
            invariant
                j <= out.len(),
                before == at_indices(commits@, out@),
                forall|q: int| 0 <= q < out.len() ==> (#[trigger] out@[q]) < commits.len(),
                seen == exists|q: int| 0 <= q < j && (#[trigger] before[q]).commit_sha@ == sha@,
            decreases out.len() - j,
        {
            proof {
                assert(before[j as int] == commits@[out@[j as int] as int]);
            }
            if text::same(commits[out[j]].commit_sha.as_str(), sha) {
                seen = true;
            }
            j += 1;
        }
        if seen {
            proof {
                assert(has_sha(before, sha@));
                lemma_all_resolved_error(ps, commits@, no, twice, i as int);
            }
            return Err(CliError::InvalidState(twice.message(prefix)));
        }
        out.push(k);
        proof {
            assert(!has_sha(before, sha@));
            assert(at_indices(commits@, out@) =~= before.push(commits@[k as int]));
        }
    }
    proof {
        assert(ps.take(i as int) =~= ps);
    }
    Ok(out)
}

// ---------------------------------------------------------------------------
// Laws
// ---------------------------------------------------------------------------

/// A prefix means a commit only where it is a prefix of that commit's SHA or
/// Change-Id and of no other's.
pub proof fn law_resolved_is_the_only_match(prefix: Seq<char>, commits: Seq<LocalCommit>)
    requires
        resolved(prefix, commits) is Ok,
    ensures
        commits.contains(resolved(prefix, commits)->Ok_0),
        commit_matches(prefix)(resolved(prefix, commits)->Ok_0),
        forall|c: LocalCommit|
            commits.contains(c) && #[trigger] commit_matches(prefix)(c) ==> c == resolved(
                prefix,
                commits,
            )->Ok_0,
{
    let p = commit_matches(prefix);
    let found = matching(prefix, commits);
    commits.lemma_filter_pred(p, 0);
    lemma_filter_from(commits, p, 0);
    assert forall|c: LocalCommit| commits.contains(c) && #[trigger] p(c) implies c == found[0] by {
        let i = choose|i: int| 0 <= i < commits.len() && commits[i] == c;
        commits.lemma_filter_contains(p, i);
    }
}

proof fn lemma_filter_from(s: Seq<LocalCommit>, p: spec_fn(LocalCommit) -> bool, i: int)
    requires
        0 <= i < s.filter(p).len(),
    ensures
        s.contains(s.filter(p)[i]),
    decreases s.len(),
{
    reveal(Seq::filter);
    let t = s.drop_last();
    if s.len() > 0 {
        if i < t.filter(p).len() {
            lemma_filter_from(t, p, i);
            let k = choose|k: int| 0 <= k < t.len() && t[k] == t.filter(p)[i];
            assert(s[k] == s.filter(p)[i]);
        } else {
            assert(s[s.len() - 1] == s.filter(p)[i]);
        }
    }
}

/// In a stack whose SHAs and Change-Ids are ASCII, every error can be written.
pub proof fn law_ascii_is_reportable(by_id: bool, prefix: Seq<char>, commits: Seq<LocalCommit>)
    requires
        forall|i: int|
            0 <= i < commits.len() ==> text::all_ascii((#[trigger] commits[i]).commit_sha@)
                && text::all_ascii(commits[i].change_id@),
    ensures
        reportable_by(by_id, prefix, commits),
        reportable(prefix, commits),
{
    lemma_ascii_is_reportable(by_id, prefix, commits);
    lemma_ascii_is_reportable(change_id::id_prefix(prefix), prefix, commits);
}

proof fn lemma_ascii_is_reportable(by_id: bool, prefix: Seq<char>, commits: Seq<LocalCommit>)
    requires
        forall|i: int|
            0 <= i < commits.len() ==> text::all_ascii((#[trigger] commits[i]).commit_sha@)
                && text::all_ascii(commits[i].change_id@),
    ensures
        reportable_by(by_id, prefix, commits),
{
    let p = field_matches(by_id, prefix);
    let found = commits.filter(p);
    assert forall|i: int| 0 <= i < found.len() implies candidate_cuts(
        (#[trigger] found[i]).commit_sha@,
        found[i].change_id@,
    ) by {
        lemma_filter_from(commits, p, i);
        let k = choose|k: int| 0 <= k < commits.len() && commits[k] == found[i];
        assert(text::all_ascii(commits[k].commit_sha@));
        text::law_ascii_cuts_anywhere(commits[k].commit_sha@, 12);
        text::law_ascii_cuts_anywhere(commits[k].change_id@, 12);
    }
}

/// Prefixes that all resolve mean as many different commits as there are
/// prefixes.
pub proof fn law_resolved_commits_differ(
    prefixes: Seq<Seq<char>>,
    commits: Seq<LocalCommit>,
    refused: Option<(Seq<char>, Seq<char>)>,
    twice: Duplicate,
)
    requires
        all_resolved(prefixes, commits, refused, twice) is Ok,
    ensures
        ({
            let found = all_resolved(prefixes, commits, refused, twice)->Ok_0;
            &&& found.len() == prefixes.len()
            &&& forall|i: int, j: int|
                0 <= i < j < found.len() ==> (#[trigger] found[i]).commit_sha@ != (
                #[trigger] found[j]).commit_sha@
        }),
    decreases prefixes.len(),
{
    if prefixes.len() > 0 {
        law_resolved_commits_differ(prefixes.drop_last(), commits, refused, twice);
        let before = all_resolved(prefixes.drop_last(), commits, refused, twice)->Ok_0;
        let found = all_resolved(prefixes, commits, refused, twice)->Ok_0;
        assert forall|i: int, j: int| 0 <= i < j < found.len() implies (
        #[trigger] found[i]).commit_sha@ != (#[trigger] found[j]).commit_sha@ by {
            if j == before.len() {
                assert(before[i] == found[i]);
                if found[i].commit_sha@ == found[j].commit_sha@ {
                    assert(has_sha(before, found[j].commit_sha@));
                }
            }
        }
    }
}

/// A prefix of an `I` and hexadecimal digits names a commit by its Change-Id,
/// and any other one by its SHA: the only commit that starts so is found.
pub proof fn law_prefix_finds_its_commit(prefix: Seq<char>, commits: Seq<LocalCommit>, k: int)
    requires
        0 <= k < commits.len(),
        ({
            let by_id = prefix.len() >= 2 && prefix[0] == 'I' && forall|i: int|
                1 <= i < prefix.len() ==> '0' <= #[trigger] prefix[i] <= '9' || 'a' <= prefix[i]
                    <= 'f';
            &&& by_id ==> prefix.is_prefix_of(commits[k].change_id@) && forall|j: int|
                0 <= j < commits.len() && j != k ==> !prefix.is_prefix_of(
                    (#[trigger] commits[j]).change_id@,
                )
            &&& !by_id ==> prefix.is_prefix_of(commits[k].commit_sha@) && forall|j: int|
                0 <= j < commits.len() && j != k ==> !prefix.is_prefix_of(
                    (#[trigger] commits[j]).commit_sha@,
                )
        }),
    ensures
        resolved(prefix, commits) == Ok::<LocalCommit, Failure>(commits[k]),
{
    change_id::law_prefix_is_marked(prefix);
    let p = commit_matches(prefix);
    assert(p(commits[k]));
    assert forall|j: int| 0 <= j < commits.len() && j != k implies !p(#[trigger] commits[j]) by {}
    lemma_filter_one(commits, p, k);
}

pub proof fn lemma_filter_one(s: Seq<LocalCommit>, p: spec_fn(LocalCommit) -> bool, k: int)
    requires
        0 <= k < s.len(),
        p(s[k]),
        forall|j: int| 0 <= j < s.len() && j != k ==> !p(#[trigger] s[j]),
    ensures
        s.filter(p) == seq![s[k]],
    decreases s.len(),
{
    reveal(Seq::filter);
    let t = s.drop_last();
    if k == s.len() - 1 {
        assert forall|j: int| 0 <= j < t.len() implies !p(#[trigger] t[j]) by {
            assert(t[j] == s[j]);
        }
        lemma_filter_none(t, p);
        assert(s.filter(p) =~= seq![s[k]]);
    } else {
        assert(!p(s[s.len() - 1]));
        assert forall|j: int| 0 <= j < t.len() && j != k implies !p(#[trigger] t[j]) by {
            assert(t[j] == s[j]);
        }
        lemma_filter_one(t, p, k);
    }
}

proof fn lemma_filter_none(s: Seq<LocalCommit>, p: spec_fn(LocalCommit) -> bool)
    requires
        forall|j: int| 0 <= j < s.len() ==> !p(#[trigger] s[j]),
    ensures
        s.filter(p).len() == 0,
    decreases s.len(),
{
    reveal(Seq::filter);
    if s.len() > 0 {
        let t = s.drop_last();
        assert(!p(s[s.len() - 1]));
        assert forall|j: int| 0 <= j < t.len() implies !p(#[trigger] t[j]) by {
            assert(t[j] == s[j]);
        }
        lemma_filter_none(t, p);
    }
}

/// Whether a prefix can be meant to name a commit: one of an `I` and hexadecimal
/// digits its Change-Id, any other one its SHA.
pub open spec fn can_name(prefix: Seq<char>, c: LocalCommit) -> bool {
    if prefix.len() >= 2 && prefix[0] == 'I' && (forall|i: int|
        1 <= i < prefix.len() ==> '0' <= #[trigger] prefix[i] <= '9' || 'a' <= prefix[i] <= 'f') {
        prefix.is_prefix_of(c.change_id@)
    } else {
        prefix.is_prefix_of(c.commit_sha@)
    }
}

/// Where the prefix names no commit, or more than one, none is found, and the
/// two are told apart.
pub proof fn law_missing_and_ambiguous_differ(prefix: Seq<char>, commits: Seq<LocalCommit>)
    ensures
        (forall|j: int| 0 <= j < commits.len() ==> !can_name(prefix, #[trigger] commits[j]))
            ==> resolved(prefix, commits) matches Err(Failure::StackNotFound(_)),
        (exists|i: int, j: int|
            0 <= i < j < commits.len() && can_name(prefix, #[trigger] commits[i]) && can_name(
                prefix,
                #[trigger] commits[j],
            )) ==> resolved(prefix, commits) matches Err(Failure::InvalidState(_)),
{
    change_id::law_prefix_is_marked(prefix);
    let p = commit_matches(prefix);
    assert forall|j: int| 0 <= j < commits.len() implies p(#[trigger] commits[j]) == can_name(
        prefix,
        commits[j],
    ) by {}
    if forall|j: int| 0 <= j < commits.len() ==> !can_name(prefix, #[trigger] commits[j]) {
        assert forall|j: int| 0 <= j < commits.len() implies !p(#[trigger] commits[j]) by {
            assert(!can_name(prefix, commits[j]));
        }
        lemma_filter_none(commits, p);
    }
    if exists|i: int, j: int|
        0 <= i < j < commits.len() && can_name(prefix, #[trigger] commits[i]) && can_name(
            prefix,
            #[trigger] commits[j],
        ) {
        let (i, j) = choose|i: int, j: int|
            0 <= i < j < commits.len() && can_name(prefix, #[trigger] commits[i]) && can_name(
                prefix,
                #[trigger] commits[j],
            );
        assert(p(commits[i]) && p(commits[j]));
        lemma_filter_two(commits, p, i, j);
    }
}

/// The message where nothing is found names what was looked for.
pub proof fn law_missing_commit_is_named(by_id: bool, prefix: Seq<char>, commits: Seq<LocalCommit>)
    requires
        resolved_by(by_id, prefix, commits) matches Err(Failure::StackNotFound(_)),
    ensures
        resolved_by(by_id, prefix, commits) == Err::<LocalCommit, Failure>(
            Failure::StackNotFound(
                "no commit found matching "@ + (if by_id {
                    "Change-Id"@
                } else {
                    "SHA"@
                }) + " prefix '"@ + prefix + "'"@,
            ),
        ),
{
}

proof fn lemma_filter_two(s: Seq<LocalCommit>, p: spec_fn(LocalCommit) -> bool, i: int, j: int)
    requires
        0 <= i < s.len(),
        0 <= j < s.len(),
        i != j,
        p(s[i]),
        p(s[j]),
    ensures
        s.filter(p).len() >= 2,
    decreases s.len(),
{
    reveal(Seq::filter);
    let t = s.drop_last();
    if i == s.len() - 1 {
        lemma_filter_some(t, p, j);
    } else if j == s.len() - 1 {
        lemma_filter_some(t, p, i);
    } else {
        lemma_filter_two(t, p, i, j);
    }
}

proof fn lemma_filter_some(s: Seq<LocalCommit>, p: spec_fn(LocalCommit) -> bool, i: int)
    requires
        0 <= i < s.len(),
        p(s[i]),
    ensures
        s.filter(p).len() >= 1,
    decreases s.len(),
{
    reveal(Seq::filter);
    if i < s.len() - 1 {
        lemma_filter_some(s.drop_last(), p, i);
    }
}

/// Several prefixes are resolved one by one, in their order, and none to a
/// commit that is refused.
pub proof fn law_each_prefix_is_resolved(
    prefixes: Seq<Seq<char>>,
    commits: Seq<LocalCommit>,
    refused: Option<(Seq<char>, Seq<char>)>,
    twice: Duplicate,
)
    requires
        all_resolved(prefixes, commits, refused, twice) is Ok,
    ensures
        ({
            let found = all_resolved(prefixes, commits, refused, twice)->Ok_0;
            &&& found.len() == prefixes.len()
            &&& forall|i: int|
                0 <= i < prefixes.len() ==> resolved(#[trigger] prefixes[i], commits) == Ok::<
                    LocalCommit,
                    Failure,
                >(found[i])
            &&& forall|i: int|
                0 <= i < found.len() && refused is Some ==> (#[trigger] found[i]).commit_sha@
                    != (refused->0).0
        }),
    decreases prefixes.len(),
{
    if prefixes.len() > 0 {
        let t = prefixes.drop_last();
        law_each_prefix_is_resolved(t, commits, refused, twice);
        let before = all_resolved(t, commits, refused, twice)->Ok_0;
        let found = all_resolved(prefixes, commits, refused, twice)->Ok_0;
        assert forall|i: int| 0 <= i < prefixes.len() implies resolved(
            #[trigger] prefixes[i],
            commits,
        ) == Ok::<LocalCommit, Failure>(found[i]) by {
            if i < t.len() {
                assert(t[i] == prefixes[i]);
                assert(found[i] == before[i]);
            } else {
                assert(prefixes[i] == prefixes.last());
            }
        }
        assert forall|i: int| 0 <= i < found.len() && refused is Some implies (
        #[trigger] found[i]).commit_sha@ != (refused->0).0 by {
            if i < t.len() {
                assert(found[i] == before[i]);
            }
        }
    }
}

/// Prefixes that each mean a commit, all different and none refused, are
/// resolved.
pub proof fn law_distinct_prefixes_are_resolved(
    prefixes: Seq<Seq<char>>,
    commits: Seq<LocalCommit>,
    refused: Option<(Seq<char>, Seq<char>)>,
    twice: Duplicate,
)
    requires
        forall|i: int| 0 <= i < prefixes.len() ==> resolved(#[trigger] prefixes[i], commits) is Ok,
        forall|i: int|
            0 <= i < prefixes.len() && refused is Some ==> resolved(
                #[trigger] prefixes[i],
                commits,
            )->Ok_0.commit_sha@ != (refused->0).0,
        forall|i: int, j: int|
            0 <= i < j < prefixes.len() ==> resolved(
                #[trigger] prefixes[i],
                commits,
            )->Ok_0.commit_sha@ != resolved(#[trigger] prefixes[j], commits)->Ok_0.commit_sha@,
    ensures
        all_resolved(prefixes, commits, refused, twice) is Ok,
    decreases prefixes.len(),
{
    if prefixes.len() > 0 {
        let t = prefixes.drop_last();
        assert forall|i: int| 0 <= i < t.len() implies #[trigger] t[i] == prefixes[i] by {}
        law_distinct_prefixes_are_resolved(t, commits, refused, twice);
        law_each_prefix_is_resolved(t, commits, refused, twice);
        let before = all_resolved(t, commits, refused, twice)->Ok_0;
        let n = t.len() as int;
        assert(prefixes[n] == prefixes.last());
        let sha = resolved(prefixes[n], commits)->Ok_0.commit_sha@;
        assert forall|i: int| 0 <= i < before.len() implies (#[trigger] before[i]).commit_sha@
            != sha by {
            assert(resolved(t[i], commits) == Ok::<LocalCommit, Failure>(before[i]));
            assert(t[i] == prefixes[i]);
        }
        assert(!has_sha(before, sha));
    }
}

/// A candidate is shown with twelve characters of its SHA, its title and, where
/// it has a Change-Id, twelve characters of that.
pub proof fn law_candidate_reads(sha: Seq<char>, title: Seq<char>, id: Seq<char>)
    requires
        sha.len() >= 12,
        text::all_ascii(sha),
        text::all_ascii(id),
    ensures
        id.len() == 0 ==> candidate_line(sha, title, id) == sha.take(12) + " "@ + title,
        id.len() >= 12 ==> candidate_line(sha, title, id) == sha.take(12) + " "@ + title + " ("@
            + id.take(12) + ")"@,
{
    text::law_ascii_cuts_anywhere(sha, 12);
    text::law_ascii_cuts_anywhere(id, 12);
    assert(sha.len() == 12 ==> sha.take(12) =~= sha);
    assert(id.len() == 12 ==> id.take(12) =~= id);
}

/// Two prefixes of the same commit are refused, and the second one is named.
pub proof fn law_commit_is_named_once(
    prefixes: Seq<Seq<char>>,
    commits: Seq<LocalCommit>,
    i: int,
)
    requires
        prefixes.len() > 0,
        0 <= i < prefixes.len() - 1,
        resolved(prefixes.last(), commits) is Ok,
        resolved(prefixes[i], commits) is Ok,
        resolved(prefixes[i], commits)->Ok_0.commit_sha@ == resolved(
            prefixes.last(),
            commits,
        )->Ok_0.commit_sha@,
        all_resolved(prefixes.drop_last(), commits, None, Duplicate::Commit) is Ok,
        all_resolved(prefixes.drop_last(), commits, None, Duplicate::Source) is Ok,
    ensures
        all_resolved(prefixes, commits, None, Duplicate::Commit) == Err::<Seq<LocalCommit>, Failure>(
            Failure::InvalidState(
                "duplicate — prefix '"@ + prefixes.last()
                    + "' resolves to the same commit as another prefix"@,
            ),
        ),
        all_resolved(prefixes, commits, None, Duplicate::Source) == Err::<Seq<LocalCommit>, Failure>(
            Failure::InvalidState(
                "duplicate — source prefix '"@ + prefixes.last()
                    + "' resolves to the same commit as another"@,
            ),
        ),
{
    let t = prefixes.drop_last();
    let sha = resolved(prefixes.last(), commits)->Ok_0.commit_sha@;
    law_each_prefix_is_resolved(t, commits, None, Duplicate::Commit);
    law_each_prefix_is_resolved(t, commits, None, Duplicate::Source);
    let a = all_resolved(t, commits, None, Duplicate::Commit)->Ok_0;
    let b = all_resolved(t, commits, None, Duplicate::Source)->Ok_0;
    assert(t[i] == prefixes[i]);
    assert(a[i].commit_sha@ == sha);
    assert(b[i].commit_sha@ == sha);
    assert(has_sha(a, sha));
    assert(has_sha(b, sha));
}

/// The error of a prefix that several commits have lists them.
pub proof fn law_ambiguous_prefix_lists_its_commits(
    by_id: bool,
    prefix: Seq<char>,
    commits: Seq<LocalCommit>,
)
    requires
        resolved_by(by_id, prefix, commits) matches Err(Failure::InvalidState(_)),
    ensures
        ({
            let found = commits.filter(
                |c: LocalCommit|
                    prefix.is_prefix_of(
                        if by_id {
                            c.change_id@
                        } else {
                            c.commit_sha@
                        },
                    ),
            );
            let lines = found.map_values(
                |c: LocalCommit| candidate_line(c.commit_sha@, c.title@, c.change_id@),
            );
            resolved_by(by_id, prefix, commits) == Err::<LocalCommit, Failure>(
                Failure::InvalidState(
                    "ambiguous "@ + (if by_id {
                        "Change-Id"@
                    } else {
                        "SHA"@
                    }) + " prefix '"@ + prefix + "' matches "@ + text::decimal(found.len())
                        + " commits:\n  "@ + text::join(lines, "\n  "@),
                ),
            )
        }),
{
    let found = commits.filter(
        |c: LocalCommit|
            prefix.is_prefix_of(
                if by_id {
                    c.change_id@
                } else {
                    c.commit_sha@
                },
            ),
    );
    assert(field_matches(by_id, prefix) =~= |c: LocalCommit|
        prefix.is_prefix_of(
            if by_id {
                c.change_id@
            } else {
                c.commit_sha@
            },
        ));
    assert(commit_lines(found) =~= found.map_values(
        |c: LocalCommit| candidate_line(c.commit_sha@, c.title@, c.change_id@),
    ));
}

} // verus!
