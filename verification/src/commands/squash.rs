//! `stack squash`: which commits are folded into which other one.
//!
//! The sources move directly behind the target, in the order in which they
//! were named, and are folded into it there.
use crate::error::{CliError, Failure};
use crate::local_commits::LocalCommit;
use crate::match_commit::{Duplicate, Refused, has_sha_at, resolve_all, resolve_commit};
use crate::sequence_editor;
use crate::text;
use vstd::prelude::*;

verus! {

/// A commit in its new order.
#[derive(Debug, Clone, PartialEq, Eq)]
pub struct OrderedCommit {
    pub sha: String,
    pub subject: String,
}

impl View for OrderedCommit {
    type V = (Seq<char>, Seq<char>);

    open spec fn view(&self) -> (Seq<char>, Seq<char>) {
        (self.sha@, self.subject@)
    }
}

/// How a squash ended.
#[derive(Debug, Clone, PartialEq, Eq)]
pub enum Outcome {
    Squashed { plan: Vec<OrderedCommit> },
    DryRun { plan: Vec<OrderedCommit> },
    EmptyStack,
}

/// What a squash has to do.
#[derive(Debug, Clone, PartialEq, Eq)]
pub enum Step {
    /// Nothing more.
    Finished(Outcome),
    /// A rebase with [`squash_editor`] as its editor.
    Rebase { plan: Vec<OrderedCommit>, ordered: Vec<String>, fixups: Vec<String> },
}

/// What is said of a source that is the target.
pub const SAME_AS_TARGET: &'static str = "a source commit cannot be the same as the target";

/// The commits of a stack with the sources behind the target.
pub open spec fn squashed(
    commits: Seq<LocalCommit>,
    target: Seq<char>,
    sources: Seq<LocalCommit>,
) -> Seq<LocalCommit>
    decreases commits.len(),
{
    if commits.len() == 0 {
        seq![]
    } else {
        let before = squashed(commits.drop_last(), target, sources);
        let c = commits.last();
        if crate::match_commit::has_sha(sources, c.commit_sha@) {
            before
        } else if c.commit_sha@ == target {
            before.push(c) + sources
        } else {
            before.push(c)
        }
    }
}

/// The SHAs and the subjects of some commits.
pub open spec fn named(commits: Seq<LocalCommit>) -> Seq<(Seq<char>, Seq<char>)> {
    commits.map_values(|c: LocalCommit| (c.commit_sha@, c.title@))
}

/// The indices of the commits in their new order.
fn new_order(commits: &Vec<LocalCommit>, target: &str, sources: &Vec<usize>) -> (r: Vec<usize>)
    requires
        forall|i: int| 0 <= i < sources.len() ==> #[trigger] sources@[i] < commits.len(),
    ensures
        forall|i: int| 0 <= i < r.len() ==> #[trigger] r@[i] < commits.len(),
        crate::match_commit::at_indices(commits@, r@) == squashed(
            commits@,
            target@,
            crate::match_commit::at_indices(commits@, sources@),
        ),
{
    let ghost srcs = crate::match_commit::at_indices(commits@, sources@);
    let mut out: Vec<usize> = Vec::new();
    let mut i: usize = 0;
    proof {
        assert(commits@.take(0) =~= seq![]);
        assert(crate::match_commit::at_indices(commits@, out@) =~= seq![]);
    }
    while i < commits.len()
        invariant
            i <= commits.len(),
            srcs == crate::match_commit::at_indices(commits@, sources@),
            forall|j: int| 0 <= j < sources.len() ==> #[trigger] sources@[j] < commits.len(),
            forall|j: int| 0 <= j < out.len() ==> #[trigger] out@[j] < commits.len(),
            crate::match_commit::at_indices(commits@, out@) == squashed(
                commits@.take(i as int),
                target@,
                srcs,
            ),
        decreases commits.len() - i,
    {
        proof {
            assert(commits@.take(i + 1).drop_last() =~= commits@.take(i as int));
        }
        let sha = commits[i].commit_sha.as_str();
        if !has_sha_at(commits, sources, sha) {
            let ghost before = out@;
            out.push(i);
            let ghost pushed = crate::match_commit::at_indices(commits@, before).push(
                commits@[i as int],
            );
            proof {
                assert(crate::match_commit::at_indices(commits@, out@) =~= pushed);
            }
            if text::same(sha, target) {
                let mut j: usize = 0;
                proof {
                    assert(pushed + srcs.take(0) =~= pushed);
                }
                while j < sources.len()
                    invariant
                        i < commits.len(),
                        j <= sources.len(),
                        srcs == crate::match_commit::at_indices(commits@, sources@),
                        forall|k: int|
                            0 <= k < sources.len() ==> #[trigger] sources@[k] < commits.len(),
                        forall|k: int| 0 <= k < out.len() ==> #[trigger] out@[k] < commits.len(),
                        crate::match_commit::at_indices(commits@, out@) == pushed + srcs.take(
                            j as int,
                        ),
                    decreases sources.len() - j,
                {
                    let ghost now = out@;
                    out.push(sources[j]);
                    proof {
                        assert(crate::match_commit::at_indices(commits@, out@)
                            =~= crate::match_commit::at_indices(commits@, now).push(
                            srcs[j as int],
                        ));
                        assert(pushed + srcs.take(j + 1) =~= (pushed + srcs.take(j as int)).push(
                            srcs[j as int],
                        ));
                    }
                    j += 1;
                }
                proof {
                    assert(srcs.take(j as int) =~= srcs);
                }
            }
        }
        i += 1;
    }
    proof {
        assert(commits@.take(i as int) =~= commits@);
    }
    out
}

fn ordered_at(commits: &Vec<LocalCommit>, ks: &Vec<usize>) -> (r: Vec<OrderedCommit>)
    requires
        forall|i: int| 0 <= i < ks.len() ==> #[trigger] ks@[i] < commits.len(),
    ensures
        r@.map_values(|d: OrderedCommit| d@) == named(
            crate::match_commit::at_indices(commits@, ks@),
        ),
{
    let ghost goal = named(crate::match_commit::at_indices(commits@, ks@));
    let mut out: Vec<OrderedCommit> = Vec::new();
    let mut i: usize = 0;
    while i < ks.len()
        invariant
            i <= ks.len(),
            out.len() == i,
            goal == named(crate::match_commit::at_indices(commits@, ks@)),
            forall|j: int| 0 <= j < ks.len() ==> #[trigger] ks@[j] < commits.len(),
            forall|j: int| 0 <= j < i ==> (#[trigger] out@[j])@ == goal[j],
        decreases ks.len() - i,
    {
        let c = &commits[ks[i]];
        out.push(OrderedCommit { sha: c.commit_sha.clone(), subject: c.title.clone() });
        i += 1;
    }
    proof {
        assert(out@.map_values(|d: OrderedCommit| d@) =~= goal);
    }
    out
}

/// What a squash of the commits that the prefixes mean into another one has to
/// do. No source is an error, and so are two that mean the same commit, and
/// one that means the target.
pub fn plan_squash(
    src_prefixes: &Vec<String>,
    target_prefix: &str,
    commits: &Vec<LocalCommit>,
    dry_run: bool,
) -> (r: Result<Step, CliError>)
    requires
        crate::match_commit::reportable(target_prefix@, commits@),
        crate::match_commit::all_reportable(text::texts(src_prefixes@), commits@),
    ensures
        if src_prefixes.len() == 0 {
            r matches Err(e) && e@ == Failure::InvalidState("at least one source commit required"@)
        } else if commits.len() == 0 {
            r matches Ok(Step::Finished(Outcome::EmptyStack))
        } else {
            match crate::match_commit::resolved(target_prefix@, commits@) {
                Err(x) => r matches Err(e) && e@ == x,
                Ok(t) => match crate::match_commit::all_resolved(
                    text::texts(src_prefixes@),
                    commits@,
                    Some((t.commit_sha@, SAME_AS_TARGET@)),
                    Duplicate::Source,
                ) {
                    Err(x) => r matches Err(e) && e@ == x,
                    Ok(sources) => {
                        let order = squashed(commits@, t.commit_sha@, sources);
                        if dry_run {
                            r matches Ok(Step::Finished(Outcome::DryRun { plan }))
                                && plan@.map_values(|d: OrderedCommit| d@) == named(order)
                        } else {
                            r matches Ok(Step::Rebase { plan, ordered, fixups })
                                && plan@.map_values(|d: OrderedCommit| d@) == named(order)
                                && text::texts(ordered@) == sequence_editor::shas_of(order) && text::texts(
                                fixups@,
                            ) == sequence_editor::shas_of(sources) && fixups.len()
                                == src_prefixes.len()
                        }
                    },
                },
            }
        },
{
    if src_prefixes.len() == 0 {
        return Err(CliError::InvalidState("at least one source commit required".to_owned()));
    }
    if commits.len() == 0 {
        return Ok(Step::Finished(Outcome::EmptyStack));
    }
    let t = match resolve_commit(target_prefix, commits) {
        Ok(t) => t,
        Err(e) => {
            return Err(e);
        },
    };
    let target = commits[t].commit_sha.as_str();
    let refused = Refused { sha: target, reason: SAME_AS_TARGET };
    let sources = match resolve_all(src_prefixes, commits, Some(refused), Duplicate::Source) {
        Ok(ks) => ks,
        Err(e) => {
            return Err(e);
        },
    };
    let order = new_order(commits, target, &sources);
    let plan = ordered_at(commits, &order);
    if dry_run {
        return Ok(Step::Finished(Outcome::DryRun { plan }));
    }
    let ordered = sequence_editor::shas_at(commits, &order);
    let fixups = sequence_editor::shas_at(commits, &sources);
    proof {
        assert(text::texts(fixups@).len() == fixups.len());
    }
    Ok(Step::Rebase { plan, ordered, fixups })
}

/// The editor of the rebase. With a file that holds the message, the commit is
/// amended with it after the last source.
pub fn squash_editor(
    binary: &str,
    ordered: &Vec<String>,
    fixups: &Vec<String>,
    message_path: Option<&str>,
) -> (r: String)
    requires
        fixups.len() > 0,
    ensures
        r@ == sequence_editor::squash_command(
            binary@,
            text::texts(ordered@),
            text::texts(fixups@),
            match message_path {
                Some(path) => Some((fixups@.last()@, sequence_editor::amend_with(path@))),
                None => None,
            },
        ),
{
    match message_path {
        Some(path) => {
            let command = sequence_editor::amend_command(path);
            sequence_editor::for_squash(
                binary,
                ordered,
                fixups,
                Some((fixups[fixups.len() - 1].as_str(), command.as_str())),
            )
        },
        None => sequence_editor::for_squash(binary, ordered, fixups, None),
    }
}

// ---------------------------------------------------------------------------
// Laws
// ---------------------------------------------------------------------------

/// The commits that are no sources.
pub open spec fn kept(commits: Seq<LocalCommit>, sources: Seq<LocalCommit>) -> Seq<LocalCommit>
    decreases commits.len(),
{
    if commits.len() == 0 {
        seq![]
    } else {
        let before = kept(commits.drop_last(), sources);
        if crate::match_commit::has_sha(sources, commits.last().commit_sha@) {
            before
        } else {
            before.push(commits.last())
        }
    }
}

proof fn lemma_without_target(
    commits: Seq<LocalCommit>,
    target: Seq<char>,
    sources: Seq<LocalCommit>,
)
    requires
        forall|i: int| 0 <= i < commits.len() ==> (#[trigger] commits[i]).commit_sha@ != target,
    ensures
        squashed(commits, target, sources) == kept(commits, sources),
    decreases commits.len(),
{
    if commits.len() > 0 {
        let t = commits.drop_last();
        assert forall|i: int| 0 <= i < t.len() implies (#[trigger] t[i]).commit_sha@ != target by {
            assert(t[i] == commits[i]);
        }
        assert(commits[commits.len() - 1].commit_sha@ != target);
        lemma_without_target(t, target, sources);
    }
}

/// The sources come directly behind the target, and every other commit stays
/// where it was.
pub proof fn law_sources_follow_the_target(
    commits: Seq<LocalCommit>,
    at: int,
    sources: Seq<LocalCommit>,
)
    requires
        0 <= at < commits.len(),
        !crate::match_commit::has_sha(sources, commits[at].commit_sha@),
        forall|i: int, j: int|
            0 <= i < j < commits.len() ==> (#[trigger] commits[i]).commit_sha@ != (
            #[trigger] commits[j]).commit_sha@,
    ensures
        squashed(commits, commits[at].commit_sha@, sources) == kept(commits.take(at), sources)
            + seq![commits[at]] + sources + kept(commits.skip(at + 1), sources),
    decreases commits.len(),
{
    let target = commits[at].commit_sha@;
    let t = commits.drop_last();
    if at == commits.len() - 1 {
        assert(commits.take(at) =~= t);
        assert forall|i: int| 0 <= i < t.len() implies (#[trigger] t[i]).commit_sha@ != target by {
            assert(t[i] == commits[i]);
        }
        lemma_without_target(t, target, sources);
        assert(commits.skip(at + 1) =~= seq![]);
        assert(squashed(commits, target, sources) =~= kept(commits.take(at), sources)
            + seq![commits[at]] + sources + kept(commits.skip(at + 1), sources));
    } else {
        assert forall|i: int, j: int| 0 <= i < j < t.len() implies (#[trigger] t[i]).commit_sha@
            != (#[trigger] t[j]).commit_sha@ by {
            assert(t[i] == commits[i] && t[j] == commits[j]);
        }
        assert(t[at] == commits[at]);
        law_sources_follow_the_target(t, at, sources);
        assert(t.take(at) =~= commits.take(at));
        let rest = commits.skip(at + 1);
        assert(rest.drop_last() =~= t.skip(at + 1));
        assert(rest.last() == commits.last());
        assert(commits[commits.len() - 1].commit_sha@ != target);
        assert(squashed(commits, target, sources) =~= kept(commits.take(at), sources)
            + seq![commits[at]] + sources + kept(rest, sources));
    }
}

proof fn lemma_kept(commits: Seq<LocalCommit>, sources: Seq<LocalCommit>)
    ensures
        kept(commits, sources) == commits.filter(
            |c: LocalCommit|
                forall|k: int|
                    0 <= k < sources.len() ==> (#[trigger] sources[k]).commit_sha@ != c.commit_sha@,
        ),
    decreases commits.len(),
{
    reveal(Seq::filter);
    if commits.len() > 0 {
        lemma_kept(commits.drop_last(), sources);
    }
}

/// A squash takes the sources out of their places and puts them, as they were
/// named, directly behind the target. Nothing else moves, and nothing is lost.
pub proof fn law_squash_moves_only_the_sources(
    commits: Seq<LocalCommit>,
    at: int,
    sources: Seq<LocalCommit>,
)
    requires
        0 <= at < commits.len(),
        forall|k: int|
            0 <= k < sources.len() ==> (#[trigger] sources[k]).commit_sha@ != commits[at].commit_sha@,
        forall|i: int, j: int|
            0 <= i < j < commits.len() ==> (#[trigger] commits[i]).commit_sha@ != (
            #[trigger] commits[j]).commit_sha@,
    ensures
        ({
            let stays = |c: LocalCommit|
                forall|k: int|
                    0 <= k < sources.len() ==> (#[trigger] sources[k]).commit_sha@ != c.commit_sha@;
            squashed(commits, commits[at].commit_sha@, sources) == commits.take(at).filter(stays)
                + seq![commits[at]] + sources + commits.skip(at + 1).filter(stays)
        }),
{
    law_sources_follow_the_target(commits, at, sources);
    lemma_kept(commits.take(at), sources);
    lemma_kept(commits.skip(at + 1), sources);
}

/// A commit is shown by its SHA and its title.
pub proof fn law_plan_names_its_commits(commits: Seq<LocalCommit>, i: int)
    requires
        0 <= i < commits.len(),
    ensures
        named(commits).len() == commits.len(),
        named(commits)[i].0 == commits[i].commit_sha@,
        named(commits)[i].1 == commits[i].title@,
{
}

/// A squash puts the commits that the source prefixes name right behind the one
/// that the target prefix names, and folds these and no others.
pub proof fn law_squash_folds_the_named_commits(
    prefixes: &Vec<String>,
    target: &str,
    commits: &Vec<LocalCommit>,
    dry_run: bool,
    r: Result<Step, CliError>,
    at: int,
) -> (found: Seq<LocalCommit>)
    requires
        call_ensures(plan_squash, (prefixes, target, commits, dry_run), r),
        prefixes@.len() > 0,
        r is Ok,
        0 <= at < commits@.len(),
        crate::match_commit::resolved(target@, commits@) == Ok::<LocalCommit, Failure>(
            commits@[at],
        ),
        forall|i: int, j: int|
            0 <= i < j < commits@.len() ==> (#[trigger] commits@[i]).commit_sha@ != (
            #[trigger] commits@[j]).commit_sha@,
    ensures
        found.len() == prefixes@.len(),
        forall|i: int|
            0 <= i < prefixes@.len() ==> crate::match_commit::resolved(
                (#[trigger] prefixes@[i])@,
                commits@,
            ) == Ok::<LocalCommit, Failure>(found[i]),
        dry_run <==> r->Ok_0 is Finished,
        dry_run ==> r->Ok_0->Finished_0 is DryRun,
        ({
            let stays = |c: LocalCommit|
                forall|k: int|
                    0 <= k < found.len() ==> (#[trigger] found[k]).commit_sha@ != c.commit_sha@;
            let order = commits@.take(at).filter(stays) + seq![commits@[at]] + found + commits@.skip(
                at + 1,
            ).filter(stays);
            let plan = if dry_run {
                r->Ok_0->Finished_0->DryRun_plan@
            } else {
                r->Ok_0->Rebase_plan@
            };
            &&& plan.len() == order.len()
            &&& forall|i: int|
                0 <= i < plan.len() ==> (#[trigger] plan[i]).sha@ == order[i].commit_sha@
                    && plan[i].subject@ == order[i].title@
            &&& !dry_run ==> text::texts(r->Ok_0->ordered@) == order.map_values(
                |c: LocalCommit| c.commit_sha@,
            )
            &&& !dry_run ==> text::texts(r->Ok_0->fixups@) == found.map_values(
                |c: LocalCommit| c.commit_sha@,
            )
        }),
{
    let words = text::texts(prefixes@);
    let t = commits@[at].commit_sha@;
    let refused = Some((t, SAME_AS_TARGET@));
    crate::match_commit::law_each_prefix_is_resolved(words, commits@, refused, Duplicate::Source);
    let found = crate::match_commit::all_resolved(
        words,
        commits@,
        refused,
        Duplicate::Source,
    )->Ok_0;
    assert forall|i: int| 0 <= i < prefixes@.len() implies crate::match_commit::resolved(
        (#[trigger] prefixes@[i])@,
        commits@,
    ) == Ok::<LocalCommit, Failure>(found[i]) by {
        assert(words[i] == prefixes@[i]@);
    }
    law_squash_moves_only_the_sources(commits@, at, found);
    let order = squashed(commits@, t, found);
    let plan = if dry_run {
        r->Ok_0->Finished_0->DryRun_plan@
    } else {
        r->Ok_0->Rebase_plan@
    };
    let views = plan.map_values(|d: OrderedCommit| d@);
    assert(views == named(order));
    assert(views.len() == plan.len());
    assert forall|i: int| 0 <= i < plan.len() implies (#[trigger] plan[i]).sha@
        == order[i].commit_sha@ && plan[i].subject@ == order[i].title@ by {
        assert(views[i] == plan[i]@);
        law_plan_names_its_commits(order, i);
    }
    assert(sequence_editor::shas_of(found) =~= found.map_values(|c: LocalCommit| c.commit_sha@));
    assert(sequence_editor::shas_of(order) =~= order.map_values(|c: LocalCommit| c.commit_sha@));
    found
}

/// The message of a squash is put on the target once its last source has been
/// folded.
pub proof fn law_message_follows_the_last_source(
    binary: &str,
    ordered: &Vec<String>,
    fixups: &Vec<String>,
    path: &str,
    r: String,
)
    requires
        fixups@.len() > 0,
        call_ensures(squash_editor, (binary, ordered, fixups, Some(path)), r),
    ensures
        r@ == crate::git::quoted(binary@) + " _internal rebase-todo-rewrite --action "@
            + "squash"@ + " --shas "@ + crate::git::quoted(text::join(text::texts(ordered@), ","@))
            + " --fixup-shas "@ + crate::git::quoted(text::join(text::texts(fixups@), ","@)) + (
        " --sha "@ + crate::git::quoted(fixups@[fixups@.len() - 1]@) + " --command "@
            + crate::git::quoted("git commit --amend -F "@ + crate::git::quoted(path@))),
{
    let last = fixups@.last()@;
    let command = sequence_editor::amend_with(path@);
    let a = text::texts(ordered@);
    let b = text::texts(fixups@);
    sequence_editor::law_editor_command_reads(binary@, "squash"@, a, last, command, b);
    sequence_editor::law_editor_command_reads(binary@, "squash"@, a, path@, command, b);
}

} // verus!
