//! The pull requests of a stack, found by a search on GitHub.
//!
//! The search gives pull requests, the most recently updated first. They are
//! grouped by the Change-Id in the last segment of their head branch, and
//! their order is kept. Closed pull requests that were not merged are dropped.
//! Where two share a Change-Id, an open one beats a closed one, and two open
//! ones are an error that the user has to resolve.
use crate::change_id;
use crate::error::{CliError, Failure};
use crate::pull::{MergedAt, Pull};
use crate::text;
use vstd::prelude::*;

verus! {

/// A pull request with the Change-Id of its branch.
#[derive(Debug, Clone, PartialEq, Eq)]
pub struct RemoteChange {
    pub change_id: String,
    pub pull: Pull,
}

/// A remote change as the contracts see it.
pub struct RemoteEntry {
    pub change_id: Seq<char>,
    pub pull: Pull,
}

impl View for RemoteChange {
    type V = RemoteEntry;

    open spec fn view(&self) -> RemoteEntry {
        RemoteEntry { change_id: self.change_id@, pull: self.pull }
    }
}

/// The contents of a list of remote changes.
pub open spec fn entries(v: Seq<RemoteChange>) -> Seq<RemoteEntry> {
    v.map_values(|c: RemoteChange| c@)
}

/// The search for the pull requests whose head branch lies under
/// `stack_prefix`, of one author or of any.
pub open spec fn query_text(
    user: Seq<char>,
    repo: Seq<char>,
    stack_prefix: Seq<char>,
    author: Option<Seq<char>>,
) -> Seq<char> {
    "repo:"@ + user + "/"@ + repo + (match author {
        Some(a) => " author:"@ + a,
        None => seq![],
    }) + " is:pull-request head:"@ + stack_prefix + "/"@
}

/// The search for the pull requests whose head branch lies under
/// `stack_prefix`, of one author or of any.
pub fn search_query(user: &str, repo: &str, stack_prefix: &str, author: Option<&str>) -> (r: String)
    ensures
        r@ == query_text(user@, repo@, stack_prefix@, text::opt_str(author)),
{
    let mut q = "repo:".to_owned();
    q.append(user);
    q.append("/");
    q.append(repo);
    let mut by = String::new();
    if let Some(a) = author {
        by.append(" author:");
        by.append(a);
        proof {
            assert(by@ =~= " author:"@ + a@);
        }
    }
    q.append(by.as_str());
    q.append(" is:pull-request head:");
    q.append(stack_prefix);
    q.append("/");
    q
}

/// The path of a pull request in the API.
pub fn pull_path(user: &str, repo: &str, number: u64) -> (r: String)
    ensures
        r@ == "/repos/"@ + user@ + "/"@ + repo@ + "/pulls/"@ + text::decimal(number as nat),
{
    let mut p = "/repos/".to_owned();
    p.append(user);
    p.append("/");
    p.append(repo);
    p.append("/pulls/");
    p.append(text::decimal_of(number).as_str());
    p
}

/// Whether a pull request was closed without a merge.
pub open spec fn abandoned(pull: Pull) -> bool {
    pull.in_state("closed"@) && pull.merged_at == MergedAt::Null
}

/// The index of the first entry with `id`, or the number of entries.
pub open spec fn entry_of(out: Seq<RemoteEntry>, id: Seq<char>) -> nat
    decreases out.len(),
{
    if out.len() == 0 || out[0].change_id == id {
        0
    } else {
        1 + entry_of(out.drop_first(), id)
    }
}

/// What one more pull request makes of the entries so far.
pub open spec fn add_pull(out: Seq<RemoteEntry>, pull: Pull) -> Result<Seq<RemoteEntry>, Failure> {
    if abandoned(pull) {
        Ok(out)
    } else if pull.head_ref is None {
        Err(Failure::GitHubApi("PR payload missing required `head.ref` field"@))
    } else {
        match change_id::segment_id(change_id::last_segment(pull.head_ref->0@)) {
            None => Ok(out),
            Some(id) => {
                let k = entry_of(out, id) as int;
                if k >= out.len() {
                    Ok(out.push(RemoteEntry { change_id: id, pull }))
                } else if out[k].pull.in_state("closed"@) && pull.in_state("open"@) {
                    Ok(out.update(k, RemoteEntry { change_id: id, pull }))
                } else if out[k].pull.in_state("open"@) && pull.in_state("open"@) {
                    Err(
                        Failure::InvalidState(
                            "More than 1 pull found with this head: "@ + pull.head_ref->0@,
                        ),
                    )
                } else {
                    Ok(out)
                }
            },
        }
    }
}

/// The entries that a list of pull requests makes, or the first error.
pub open spec fn grouped(pulls: Seq<Pull>) -> Result<Seq<RemoteEntry>, Failure>
    decreases pulls.len(),
{
    if pulls.len() == 0 {
        Ok(seq![])
    } else {
        match grouped(pulls.drop_last()) {
            Ok(out) => add_pull(out, pulls.last()),
            Err(e) => Err(e),
        }
    }
}

pub proof fn lemma_entry_of_is(out: Seq<RemoteEntry>, id: Seq<char>, k: int)
    requires
        0 <= k <= out.len(),
        forall|i: int| 0 <= i < k ==> (#[trigger] out[i]).change_id != id,
        k < out.len() ==> out[k].change_id == id,
    ensures
        entry_of(out, id) == k,
    decreases out.len(),
{
    if k > 0 {
        assert(out[0].change_id != id);
        let t = out.drop_first();
        assert forall|i: int| 0 <= i < k - 1 implies (#[trigger] t[i]).change_id != id by {
            assert(t[i] == out[i + 1]);
        }
        lemma_entry_of_is(t, id, k - 1);
    }
}

/// The index of the first entry with `id`, or the number of entries.
pub fn find_entry(out: &Vec<RemoteChange>, id: &str) -> (r: usize)
    ensures
        r <= out.len(),
        r == entry_of(entries(out@), id@),
{
    let mut i: usize = 0;
    while i < out.len() && !text::same(out[i].change_id.as_str(), id)
        invariant
            i <= out.len(),
            forall|j: int| 0 <= j < i ==> (#[trigger] entries(out@)[j]).change_id != id@,
        decreases out.len() - i,
    {
        i += 1;
    }
    proof {
        lemma_entry_of_is(entries(out@), id@, i as int);
    }
    i
}

/// The contents of a grouping.
pub open spec fn outcome(r: Result<Vec<RemoteChange>, CliError>) -> Result<Seq<RemoteEntry>, Failure> {
    match r {
        Ok(v) => Ok(entries(v@)),
        Err(e) => Err(e@),
    }
}

proof fn lemma_grouped_error(pulls: Seq<Pull>, n: int)
    requires
        0 <= n <= pulls.len(),
        grouped(pulls.take(n)) is Err,
    ensures
        grouped(pulls) == grouped(pulls.take(n)),
    decreases pulls.len() - n,
{
    if n < pulls.len() {
        assert(pulls.take(n + 1).drop_last() =~= pulls.take(n));
        lemma_grouped_error(pulls, n + 1);
    } else {
        assert(pulls.take(n) =~= pulls);
    }
}

/// Group pull requests by the Change-Id of their head branch.
pub fn group_by_change_id(pulls: Vec<Pull>) -> (r: Result<Vec<RemoteChange>, CliError>)
    ensures
        outcome(r) == grouped(pulls@),
{
    let mut out: Vec<RemoteChange> = Vec::new();
    let mut i: usize = 0;
    proof {
        assert(pulls@.take(0) =~= seq![]);
        assert(entries(out@) =~= seq![]);
    }
    while i < pulls.len()
        invariant
            i <= pulls.len(),
            grouped(pulls@.take(i as int)) == Ok::<Seq<RemoteEntry>, Failure>(entries(out@)),
        decreases pulls.len() - i,
    {
        let pull = pulls[i].copy();
        let ghost before = entries(out@);
        proof {
            assert(pulls@.take(i + 1).drop_last() =~= pulls@.take(i as int));
            assert(pulls@.take(i + 1).last() == pull);
        }
        i += 1;
        if pull.has_state("closed") && pull.merged_at == MergedAt::Null {
            continue ;
        }
        let head_ref: String = match &pull.head_ref {
            Some(h) => h.clone(),
            None => {
                proof {
                    lemma_grouped_error(pulls@, i as int);
                }
                return Err(
                    CliError::GitHubApi(
                        "PR payload missing required `head.ref` field".to_owned(),
                    ),
                );
            },
        };
        let cs = text::chars_of(head_ref.as_str());
        let k: usize = text::after_last(&cs, '/');
        let segment = text::piece(&cs, k, cs.len());
        proof {
            assert(segment@ =~= change_id::last_segment(head_ref@));
        }
        let id = match change_id::extract_from_branch_segment(segment.as_str()) {
            Some(id) => id.to_owned(),
            None => continue ,
        };
        let at: usize = find_entry(&out, id.as_str());
        if at < out.len() {
            proof {
                assert(entries(out@)[at as int] == out@[at as int]@);
            }
            let open = pull.has_state("open");
            if out[at].pull.has_state("closed") && open {
                let entry = RemoteChange { change_id: id, pull };
                out.set(at, entry);
                proof {
                    assert(entries(out@) =~= before.update(at as int, entry@));
                }
            } else if out[at].pull.has_state("open") && open {
                proof {
                    lemma_grouped_error(pulls@, i as int);
                }
                let mut msg = "More than 1 pull found with this head: ".to_owned();
                msg.append(head_ref.as_str());
                return Err(CliError::InvalidState(msg));
            }
        } else {
            let entry = RemoteChange { change_id: id, pull };
            out.push(entry);
            proof {
                assert(entries(out@) =~= before.push(entry@));
            }
        }
    }
    proof {
        assert(pulls@.take(i as int) =~= pulls@);
    }
    Ok(out)
}

/// No Change-Id comes twice out of a grouping, and every entry is a pull
/// request of the search that was not abandoned.
pub proof fn law_grouped_ids_are_unique(pulls: Seq<Pull>)
    requires
        grouped(pulls) is Ok,
    ensures
        ({
            let out = grouped(pulls)->Ok_0;
            &&& forall|i: int, j: int|
                0 <= i < j < out.len() ==> (#[trigger] out[i]).change_id != (
                #[trigger] out[j]).change_id
            &&& forall|i: int|
                0 <= i < out.len() ==> pulls.contains((#[trigger] out[i]).pull) && !abandoned(
                    out[i].pull,
                )
        }),
    decreases pulls.len(),
{
    if pulls.len() > 0 {
        let rest = pulls.drop_last();
        law_grouped_ids_are_unique(rest);
        let before = grouped(rest)->Ok_0;
        let out = grouped(pulls)->Ok_0;
        let pull = pulls.last();
        assert(pulls.contains(pull)) by {
            assert(pulls[pulls.len() - 1] == pull);
        }
        assert forall|p: Pull| rest.contains(p) implies #[trigger] pulls.contains(p) by {
            let i = choose|i: int| 0 <= i < rest.len() && rest[i] == p;
            assert(pulls[i] == p);
        }
        if !abandoned(pull) && pull.head_ref is Some {
            let seg = change_id::segment_id(change_id::last_segment(pull.head_ref->0@));
            if seg is Some {
                lemma_entry_of(before, seg->0);
            }
        }
        assert forall|i: int| 0 <= i < out.len() implies pulls.contains((#[trigger] out[i]).pull)
            && !abandoned(out[i].pull) by {
            if i < before.len() && out[i] == before[i] {
                assert(rest.contains(before[i].pull));
            }
        }
    }
}

proof fn lemma_entry_of(out: Seq<RemoteEntry>, id: Seq<char>)
    ensures
        entry_of(out, id) <= out.len(),
        entry_of(out, id) < out.len() ==> out[entry_of(out, id) as int].change_id == id,
        forall|j: int| 0 <= j < entry_of(out, id) ==> (#[trigger] out[j]).change_id != id,
    decreases out.len(),
{
    if out.len() > 0 && out[0].change_id != id {
        let t = out.drop_first();
        lemma_entry_of(t, id);
        assert forall|j: int| 0 <= j < entry_of(out, id) implies (#[trigger] out[j]).change_id
            != id by {
            if j > 0 {
                assert(t[j - 1] == out[j]);
            }
        }
    }
}

/// The Change-Id that the head branch of a pull request names.
pub open spec fn branch_id(pull: Pull) -> Option<Seq<char>> {
    match pull.head_ref {
        Some(h) => change_id::segment_id(change_id::last_segment(h@)),
        None => None,
    }
}

/// The pull request that stands under a Change-Id.
pub open spec fn holder(out: Seq<RemoteEntry>, id: Seq<char>) -> Option<Pull> {
    if entry_of(out, id) < out.len() {
        Some(out[entry_of(out, id) as int].pull)
    } else {
        None
    }
}

/// What one more pull request does to the one under a Change-Id.
proof fn lemma_holder(out: Seq<RemoteEntry>, pull: Pull, id: Seq<char>)
    requires
        add_pull(out, pull) is Ok,
    ensures
        ({
            let now = holder(add_pull(out, pull)->Ok_0, id);
            let was = holder(out, id);
            if branch_id(pull) == Some(id) && !abandoned(pull) {
                match was {
                    None => now == Some(pull),
                    Some(q) => !(q.in_state("open"@) && pull.in_state("open"@)) && now == (
                    if q.in_state("closed"@) && pull.in_state("open"@) {
                        Some(pull)
                    } else {
                        was
                    }),
                }
            } else {
                now == was
            }
        }),
{
    let next = add_pull(out, pull)->Ok_0;
    let k = entry_of(out, id) as int;
    lemma_entry_of(out, id);
    reveal_strlit("open");
    reveal_strlit("closed");
    assert("open"@.len() == 4 && "closed"@.len() == 6);
    if branch_id(pull) is Some && !abandoned(pull) {
        lemma_entry_of(out, branch_id(pull)->0);
    }
    if next != out {
        assert forall|i: int| 0 <= i < k implies (#[trigger] next[i]).change_id != id by {
            assert(out[i].change_id != id);
        }
        if k < out.len() {
            assert(next[k].change_id == id);
            lemma_entry_of_is(next, id, k);
        } else if branch_id(pull) == Some(id) {
            assert(next[k].change_id == id);
            lemma_entry_of_is(next, id, k);
        } else {
            assert forall|i: int| 0 <= i < next.len() implies (#[trigger] next[i]).change_id
                != id by {}
            lemma_entry_of_is(next, id, next.len() as int);
        }
    }
}

/// Whether pull request `i` of a search counts for a Change-Id: it was not
/// closed without a merge.
pub open spec fn counts_for(pulls: Seq<Pull>, id: Seq<char>, i: int) -> bool {
    &&& 0 <= i < pulls.len()
    &&& branch_id(pulls[i]) == Some(id)
    &&& !(pulls[i].state->0@ == "closed"@ && pulls[i].merged_at == MergedAt::Null)
}

/// What stands under a Change-Id: an open pull request where the search gave
/// one, else the first that counts.
proof fn lemma_grouped(pulls: Seq<Pull>, id: Seq<char>)
    requires
        grouped(pulls) is Ok,
        forall|i: int|
            0 <= i < pulls.len() ==> (#[trigger] pulls[i]).state is Some && (pulls[i].state->0@
                == "open"@ || pulls[i].state->0@ == "closed"@),
    ensures
        ({
            let h = holder(grouped(pulls)->Ok_0, id);
            &&& h is None ==> forall|i: int| !#[trigger] counts_for(pulls, id, i)
            &&& h is Some ==> exists|i: int|
                #[trigger] counts_for(pulls, id, i) && pulls[i] == h->0 && (pulls[i].state->0@
                    == "open"@ || forall|j: int| j < i ==> !#[trigger] counts_for(pulls, id, j))
            &&& forall|i: int|
                #[trigger] counts_for(pulls, id, i) && pulls[i].state->0@ == "open"@ ==> h == Some(
                    pulls[i],
                )
        }),
    decreases pulls.len(),
{
    reveal_strlit("open");
    reveal_strlit("closed");
    assert("open"@.len() == 4 && "closed"@.len() == 6);
    if pulls.len() > 0 {
        let t = pulls.drop_last();
        let n = t.len() as int;
        let p = pulls[n];
        assert forall|i: int| 0 <= i < t.len() implies #[trigger] t[i] == pulls[i] by {}
        lemma_grouped(t, id);
        lemma_holder(grouped(t)->Ok_0, p, id);
        assert forall|i: int| i != n implies #[trigger] counts_for(pulls, id, i) == counts_for(
            t,
            id,
            i,
        ) by {}
        assert(counts_for(pulls, id, n) == (branch_id(p) == Some(id) && !abandoned(p)));
        let was = holder(grouped(t)->Ok_0, id);
        let h = holder(grouped(pulls)->Ok_0, id);
        if was is Some {
            let i = choose|i: int|
                #[trigger] counts_for(t, id, i) && t[i] == was->0 && (t[i].state->0@ == "open"@
                    || forall|j: int| j < i ==> !#[trigger] counts_for(t, id, j));
            assert(counts_for(pulls, id, i) && pulls[i] == was->0);
            if pulls[i].state->0@ != "open"@ {
                assert forall|j: int| j < i implies !#[trigger] counts_for(pulls, id, j) by {
                    assert(!counts_for(t, id, j));
                }
            }
        } else if counts_for(pulls, id, n) {
            assert forall|j: int| j < n implies !#[trigger] counts_for(pulls, id, j) by {
                assert(!counts_for(t, id, j));
            }
        } else {
            assert forall|i: int| !#[trigger] counts_for(pulls, id, i) by {
                if i != n {
                    assert(!counts_for(t, id, i));
                }
            }
        }
    }
}

/// Of the pull requests with one Change-Id an open one is kept wherever the
/// search puts it, and two open ones are refused.
pub proof fn law_open_pull_request_is_kept(pulls: Seq<Pull>, i: int, id: Seq<char>)
    requires
        forall|j: int|
            0 <= j < pulls.len() ==> (#[trigger] pulls[j]).state is Some && (pulls[j].state->0@
                == "open"@ || pulls[j].state->0@ == "closed"@),
        0 <= i < pulls.len(),
        pulls[i].state->0@ == "open"@,
        branch_id(pulls[i]) == Some(id),
    ensures
        grouped(pulls) is Ok ==> exists|k: int|
            0 <= k < grouped(pulls)->Ok_0.len() && (
            #[trigger] grouped(pulls)->Ok_0[k]).change_id == id && grouped(pulls)->Ok_0[k].pull
                == pulls[i],
        grouped(pulls) is Ok ==> forall|j: int|
            0 <= j < pulls.len() && branch_id(#[trigger] pulls[j]) == Some(id)
                && pulls[j].state->0@ == "open"@ ==> pulls[j] == pulls[i],
{
    reveal_strlit("open");
    reveal_strlit("closed");
    assert("open"@.len() == 4 && "closed"@.len() == 6);
    if grouped(pulls) is Ok {
        lemma_grouped(pulls, id);
        let out = grouped(pulls)->Ok_0;
        assert(counts_for(pulls, id, i));
        lemma_entry_of(out, id);
        assert(out[entry_of(out, id) as int].change_id == id);
        assert forall|j: int| 0 <= j < pulls.len() && branch_id(#[trigger] pulls[j]) == Some(id)
            && pulls[j].state->0@ == "open"@ implies pulls[j] == pulls[i] by {
            assert(counts_for(pulls, id, j));
        }
    }
}

/// Without an open pull request, the first merged one of the search stands for
/// its Change-Id: those that were closed without a merge do not count.
pub proof fn law_first_merged_pull_request_is_kept(pulls: Seq<Pull>, i: int, id: Seq<char>)
    requires
        grouped(pulls) is Ok,
        forall|j: int|
            0 <= j < pulls.len() ==> (#[trigger] pulls[j]).state is Some && (pulls[j].state->0@
                == "open"@ || pulls[j].state->0@ == "closed"@),
        0 <= i < pulls.len(),
        branch_id(pulls[i]) == Some(id),
        pulls[i].merged_at != MergedAt::Null,
        forall|j: int|
            0 <= j < pulls.len() && branch_id(#[trigger] pulls[j]) == Some(id)
                ==> pulls[j].state->0@ == "closed"@,
        forall|j: int|
            0 <= j < i && branch_id(#[trigger] pulls[j]) == Some(id) ==> pulls[j].merged_at
                == MergedAt::Null,
    ensures
        exists|k: int|
            0 <= k < grouped(pulls)->Ok_0.len() && (
            #[trigger] grouped(pulls)->Ok_0[k]).change_id == id && grouped(pulls)->Ok_0[k].pull
                == pulls[i],
{
    reveal_strlit("open");
    reveal_strlit("closed");
    assert("open"@.len() == 4 && "closed"@.len() == 6);
    lemma_grouped(pulls, id);
    let out = grouped(pulls)->Ok_0;
    assert(counts_for(pulls, id, i));
    assert forall|j: int| j < i implies !#[trigger] counts_for(pulls, id, j) by {}
    lemma_entry_of(out, id);
    assert(out[entry_of(out, id) as int].change_id == id);
}

/// A Change-Id whose pull requests were all closed without a merge is not there.
pub proof fn law_abandoned_pull_requests_do_not_count(pulls: Seq<Pull>, id: Seq<char>)
    requires
        grouped(pulls) is Ok,
        forall|j: int|
            0 <= j < pulls.len() ==> (#[trigger] pulls[j]).state is Some && (pulls[j].state->0@
                == "open"@ || pulls[j].state->0@ == "closed"@),
        forall|j: int|
            0 <= j < pulls.len() && branch_id(#[trigger] pulls[j]) == Some(id)
                ==> pulls[j].state->0@ == "closed"@ && pulls[j].merged_at == MergedAt::Null,
    ensures
        forall|k: int|
            0 <= k < grouped(pulls)->Ok_0.len() ==> (
            #[trigger] grouped(pulls)->Ok_0[k]).change_id != id,
{
    lemma_grouped(pulls, id);
    let out = grouped(pulls)->Ok_0;
    lemma_entry_of(out, id);
}

/// The grouping fails only where a pull request that counts has no head branch,
/// or where two open ones share a Change-Id.
pub proof fn law_grouping_succeeds_without_a_clash(pulls: Seq<Pull>)
    requires
        forall|j: int|
            0 <= j < pulls.len() ==> (#[trigger] pulls[j]).state is Some && (pulls[j].state->0@
                == "open"@ || pulls[j].state->0@ == "closed"@),
        forall|j: int|
            0 <= j < pulls.len() && !((#[trigger] pulls[j]).state->0@ == "closed"@
                && pulls[j].merged_at == MergedAt::Null) ==> pulls[j].head_ref is Some,
        forall|i: int, j: int|
            0 <= i < j < pulls.len() && (#[trigger] pulls[i]).state->0@ == "open"@ && (
            #[trigger] pulls[j]).state->0@ == "open"@ && branch_id(pulls[i]) is Some ==> branch_id(
                pulls[i],
            ) != branch_id(pulls[j]),
    ensures
        grouped(pulls) is Ok,
    decreases pulls.len(),
{
    reveal_strlit("open");
    reveal_strlit("closed");
    assert("open"@.len() == 4 && "closed"@.len() == 6);
    if pulls.len() > 0 {
        let t = pulls.drop_last();
        let n = t.len() as int;
        assert forall|j: int| 0 <= j < t.len() implies #[trigger] t[j] == pulls[j] by {}
        law_grouping_succeeds_without_a_clash(t);
        let p = pulls[n];
        if branch_id(p) is Some && p.state->0@ == "open"@ {
            let id = branch_id(p)->0;
            lemma_grouped(t, id);
            let out = grouped(t)->Ok_0;
            let k = entry_of(out, id) as int;
            if k < out.len() && out[k].pull.state->0@ == "open"@ {
                let i = choose|i: int|
                    #[trigger] counts_for(t, id, i) && t[i] == holder(out, id)->0;
                assert(counts_for(t, id, i));
                assert(pulls[i].state->0@ == "open"@);
                assert(false);
            }
        }
    }
}

/// The search is restricted to the repository, to pull requests, and to head
/// branches below the prefix of the stack; to an author where one is given.
pub proof fn law_search_reads(user: Seq<char>, repo: Seq<char>, prefix: Seq<char>, author: Seq<char>)
    ensures
        query_text(user, repo, prefix, None) == "repo:"@ + user + "/"@ + repo
            + " is:pull-request head:"@ + prefix + "/"@,
        query_text(user, repo, prefix, Some(author)) == "repo:"@ + user + "/"@ + repo + " author:"@
            + author + " is:pull-request head:"@ + prefix + "/"@,
{
    assert(query_text(user, repo, prefix, None) =~= "repo:"@ + user + "/"@ + repo
        + " is:pull-request head:"@ + prefix + "/"@);
    assert(query_text(user, repo, prefix, Some(author)) =~= "repo:"@ + user + "/"@ + repo
        + " author:"@ + author + " is:pull-request head:"@ + prefix + "/"@);
}

/// A pull request is read by its number.
pub proof fn law_pull_path_reads(user: &str, repo: &str, number: u64, r: String)
    requires
        call_ensures(pull_path, (user, repo, number), r),
    ensures
        r@ == "/repos/"@ + user@ + "/"@ + repo@ + "/pulls/"@ + text::decimal(number as nat),
{
}

/// A pull request without a branch is refused, and so is a second open one for the
/// same change, which is named by its branch.
pub proof fn law_clashing_pull_requests_are_refused(pulls: Seq<Pull>, pull: Pull)
    requires
        grouped(pulls) is Ok,
        !(pull.state is Some && pull.state->0@ == "closed"@ && pull.merged_at
            != crate::pull::MergedAt::Time),
    ensures
        pull.head_ref is None ==> grouped(pulls.push(pull)) == Err::<Seq<RemoteEntry>, Failure>(
            Failure::GitHubApi("PR payload missing required `head.ref` field"@),
        ),
        pull.head_ref is Some && pull.state is Some && pull.state->0@ == "open"@ && (exists|k: int|
            0 <= k < grouped(pulls)->Ok_0.len() && change_id::segment_id(
                change_id::last_segment(pull.head_ref->0@),
            ) == Some((#[trigger] grouped(pulls)->Ok_0[k]).change_id) && grouped(
                pulls,
            )->Ok_0[k].pull.state is Some && grouped(pulls)->Ok_0[k].pull.state->0@ == "open"@ && (
            forall|j: int|
                0 <= j < k ==> (#[trigger] grouped(pulls)->Ok_0[j]).change_id != grouped(
                    pulls,
                )->Ok_0[k].change_id)) ==> grouped(pulls.push(pull)) == Err::<
            Seq<RemoteEntry>,
            Failure,
        >(
            Failure::InvalidState(
                "More than 1 pull found with this head: "@ + pull.head_ref->0@,
            ),
        ),
{
    assert(pulls.push(pull).drop_last() =~= pulls);
    assert(!abandoned(pull)) by {
        crate::pull::law_state_is_what_github_says(pull, "closed"@);
    }
    let out = grouped(pulls)->Ok_0;
    if pull.head_ref is Some && pull.state is Some && pull.state->0@ == "open"@ {
        let id = change_id::segment_id(change_id::last_segment(pull.head_ref->0@));
        if exists|k: int|
            0 <= k < out.len() && id == Some((#[trigger] out[k]).change_id)
                && out[k].pull.state is Some && out[k].pull.state->0@ == "open"@ && (forall|j: int|
                0 <= j < k ==> (#[trigger] out[j]).change_id != out[k].change_id) {
            let k = choose|k: int|
                0 <= k < out.len() && id == Some((#[trigger] out[k]).change_id)
                    && out[k].pull.state is Some && out[k].pull.state->0@ == "open"@ && (forall|
                    j: int,
                |
                    0 <= j < k ==> (#[trigger] out[j]).change_id != out[k].change_id);
            lemma_entry_of_is(out, id->0, k);
            reveal_strlit("open");
            reveal_strlit("closed");
            assert("open"@.len() == 4 && "closed"@.len() == 6);
            crate::pull::law_state_is_what_github_says(out[k].pull, "open"@);
            crate::pull::law_state_is_what_github_says(out[k].pull, "closed"@);
            crate::pull::law_state_is_what_github_says(pull, "open"@);
        }
    }
}

} // verus!
