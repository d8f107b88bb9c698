//! `stack list`: the commits of a stack, their pull requests, and how these
//! are doing.
use crate::changes::{Action, LocalChange};
use crate::error::{CliError, Failure};
use crate::pull::MergedAt;
use crate::text;
use vstd::prelude::*;

verus! {

/// A commit of the stack.
#[derive(Debug, Clone, PartialEq, Eq)]
pub struct StackListEntry {
    pub commit_sha: String,
    pub title: String,
    pub change_id: String,
    /// `open`, `draft`, `merged` or `no_pr`.
    pub status: String,
    pub pull_number: Option<u64>,
    pub pull_url: Option<String>,
    pub ci_status: String,
    pub ci_checks: Vec<CiCheck>,
    pub review_status: String,
    pub reviews: Vec<Review>,
    pub mergeable: Option<bool>,
}

/// A check of a pull request.
#[derive(Debug, Clone, PartialEq, Eq)]
pub struct CiCheck {
    pub name: String,
    pub status: String,
}

/// The last word of a user.
#[derive(Debug, Clone, PartialEq, Eq)]
pub struct Review {
    pub user: String,
    pub state: String,
}

/// The stack.
#[derive(Debug, Clone, PartialEq, Eq)]
pub struct StackListOutput {
    pub branch: String,
    pub trunk: String,
    pub entries: Vec<StackListEntry>,
}

/// A check of a pull request as the contracts see it.
pub struct CheckView {
    pub name: Seq<char>,
    pub status: Seq<char>,
}

impl View for CiCheck {
    type V = CheckView;

    open spec fn view(&self) -> CheckView {
        CheckView { name: self.name@, status: self.status@ }
    }
}

/// The last word of a user as the contracts see it.
pub struct ReviewView {
    pub user: Seq<char>,
    pub state: Seq<char>,
}

impl View for Review {
    type V = ReviewView;

    open spec fn view(&self) -> ReviewView {
        ReviewView { user: self.user@, state: self.state@ }
    }
}

/// The contents of some reviews.
pub open spec fn review_views(v: Seq<Review>) -> Seq<ReviewView> {
    v.map_values(|r: Review| r@)
}

// ---------------------------------------------------------------------------
// The entries
// ---------------------------------------------------------------------------

/// Whether the branch of a stack can be one: it must not be its own target.
pub fn check_target(dest_branch: &str, remote: &str, base_branch: &str) -> (r: Result<(), CliError>)
    ensures
        match r {
            Ok(_) => dest_branch@ != base_branch@,
            Err(e) => dest_branch@ == base_branch@ && e@ == Failure::InvalidState(
                "your local branch `"@ + dest_branch@ + "` targets itself: `"@ + remote@ + "/"@
                    + base_branch@ + "`. Either fix the target branch (`git branch "@ + dest_branch@
                    + " --set-upstream-to=<remote>/<target>`) or rename it."@,
            ),
        },
{
    if !text::same(dest_branch, base_branch) {
        return Ok(());
    }
    let mut m = "your local branch `".to_owned();
    m.append(dest_branch);
    m.append("` targets itself: `");
    m.append(remote);
    m.append("/");
    m.append(base_branch);
    m.append("`. Either fix the target branch (`git branch ");
    m.append(dest_branch);
    m.append(" --set-upstream-to=<remote>/<target>`) or rename it.");
    Err(CliError::InvalidState(m))
}

/// How a change stands.
pub open spec fn entry_status(change: LocalChange) -> Seq<char> {
    match change.pull {
        None => "no_pr"@,
        Some(p) => if change.action == Action::SkipMerged || p.merged() {
            "merged"@
        } else if p.draft == Some(true) {
            "draft"@
        } else {
            "open"@
        },
    }
}

/// Whether an entry shows a change, with nothing known of its checks and
/// reviews.
pub open spec fn entry_shows(e: StackListEntry, change: LocalChange) -> bool {
    &&& e.commit_sha == change.commit_sha
    &&& e.title == change.title
    &&& e.change_id == change.change_id
    &&& e.status@ == entry_status(change)
    &&& e.ci_status@ == "unknown"@
    &&& e.ci_checks@ == Seq::<CiCheck>::empty()
    &&& e.review_status@ == "unknown"@
    &&& e.reviews@ == Seq::<Review>::empty()
    &&& match change.pull {
        None => e.pull_number is None && e.pull_url is None && e.mergeable is None,
        Some(p) => e.pull_number == p.number && e.pull_url == p.html_url && e.mergeable
            == p.mergeable,
    }
}

/// The entry of a change, before its checks and reviews are known.
pub fn list_entry(change: &LocalChange) -> (r: StackListEntry)
    ensures
        entry_shows(r, *change),
{
    let (status, pull_number, pull_url, mergeable): (
        &str,
        Option<u64>,
        Option<String>,
        Option<bool>,
    ) = match &change.pull {
        None => ("no_pr", None, None, None),
        Some(p) => {
            let draft: bool = match p.draft {
                Some(d) => d,
                None => false,
            };
            let status: &str = if change.action == Action::SkipMerged || p.is_merged() {
                "merged"
            } else if draft {
                "draft"
            } else {
                "open"
            };
            (status, p.number, text::clone_opt(&p.html_url), p.mergeable)
        },
    };
    StackListEntry {
        commit_sha: change.commit_sha.clone(),
        title: change.title.clone(),
        change_id: change.change_id.clone(),
        status: status.to_owned(),
        pull_number,
        pull_url,
        ci_status: "unknown".to_owned(),
        ci_checks: Vec::new(),
        review_status: "unknown".to_owned(),
        reviews: Vec::new(),
        mergeable,
    }
}

/// The entries of a stack, from the bottom.
pub fn list_entries(changes: &Vec<LocalChange>) -> (r: Vec<StackListEntry>)
    ensures
        r.len() == changes.len(),
        forall|i: int| 0 <= i < r.len() ==> entry_shows(#[trigger] r@[i], changes@[i]),
{
    let mut out: Vec<StackListEntry> = Vec::new();
    let mut i: usize = 0;
    while i < changes.len()
        invariant
            i <= changes.len(),
            out.len() == i,
            forall|j: int| 0 <= j < i ==> entry_shows(#[trigger] out@[j], changes@[j]),
        decreases changes.len() - i,
    {
        out.push(list_entry(&changes[i]));
        i += 1;
    }
    out
}

/// Where the checks and the reviews of a change can be read, where it has a
/// pull request with a head and a number.
pub fn detail_paths(user: &str, repo: &str, change: &LocalChange) -> (r: Option<(String, String)>)
    ensures
        match change.pull {
            Some(p) => match (p.head_sha, p.number) {
                (Some(sha), Some(n)) => r matches Some((checks, reviews)) && checks@ == "/repos/"@
                    + user@ + "/"@ + repo@ + "/commits/"@ + sha@ + "/check-runs"@ && reviews@
                    == "/repos/"@ + user@ + "/"@ + repo@ + "/pulls/"@ + text::decimal(n as nat)
                    + "/reviews"@,
                _ => r is None,
            },
            None => r is None,
        },
{
    match &change.pull {
        Some(p) => match (&p.head_sha, p.number) {
            (Some(sha), Some(n)) => {
                let mut checks = "/repos/".to_owned();
                checks.append(user);
                checks.append("/");
                checks.append(repo);
                checks.append("/commits/");
                checks.append(sha.as_str());
                checks.append("/check-runs");
                let mut reviews = "/repos/".to_owned();
                reviews.append(user);
                reviews.append("/");
                reviews.append(repo);
                reviews.append("/pulls/");
                reviews.append(text::decimal_of(n).as_str());
                reviews.append("/reviews");
                Some((checks, reviews))
            },
            _ => None,
        },
        None => None,
    }
}

// ---------------------------------------------------------------------------
// Checks
// ---------------------------------------------------------------------------

/// A run of a check. A field is `None` where GitHub gave none.
#[derive(Debug, Clone, PartialEq, Eq)]
pub struct CheckRun {
    pub name: Option<String>,
    pub status: Option<String>,
    pub conclusion: Option<String>,
}

/// How a run of a check stands.
pub open spec fn run_kind(run: CheckRun) -> Seq<char> {
    let conclusion = text::opt_text(run.conclusion);
    if text::opt_text(run.status) != Some("completed"@) {
        "pending"@
    } else if conclusion == Some("success"@) || conclusion == Some("skipped"@) {
        "success"@
    } else {
        "failure"@
    }
}

/// A run of a check as it is shown.
pub open spec fn check_of(run: CheckRun) -> CheckView {
    CheckView { name: crate::pull::text_or(run.name, ""@), status: run_kind(run) }
}

/// How all checks stand: a failure counts more than a run that is not done.
pub open spec fn overall_ci(runs: Seq<CheckRun>) -> Seq<char> {
    if runs.len() == 0 {
        "unknown"@
    } else if exists|i: int| 0 <= i < runs.len() && run_kind(#[trigger] runs[i]) == "failure"@ {
        "failing"@
    } else if exists|i: int| 0 <= i < runs.len() && run_kind(#[trigger] runs[i]) == "pending"@ {
        "pending"@
    } else {
        "passing"@
    }
}

/// How the checks of a pull request stand.
pub fn compute_ci_status(runs: &Vec<CheckRun>) -> (r: (&'static str, Vec<CiCheck>))
    ensures
        r.0@ == overall_ci(runs@),
        r.1@.map_values(|c: CiCheck| c@) == runs@.map_values(|x: CheckRun| check_of(x)),
{
    let ghost goal = runs@.map_values(|x: CheckRun| check_of(x));
    let mut checks: Vec<CiCheck> = Vec::new();
    let mut has_pending: bool = false;
    let mut has_failure: bool = false;
    let mut i: usize = 0;
    proof {
        reveal_strlit("pending");
        reveal_strlit("success");
        reveal_strlit("failure");
    }
    while i < runs.len()
        invariant
            i <= runs.len(),
            checks.len() == i,
            goal == runs@.map_values(|x: CheckRun| check_of(x)),
            forall|j: int| 0 <= j < i ==> (#[trigger] checks@[j])@ == goal[j],
            "pending"@[0] == 'p',
            "success"@[0] == 's',
            "failure"@[0] == 'f',
            has_failure == exists|j: int|
                0 <= j < i && run_kind(#[trigger] runs@[j]) == "failure"@,
            has_pending == exists|j: int|
                0 <= j < i && run_kind(#[trigger] runs@[j]) == "pending"@,
        decreases runs.len() - i,
    {
        let run = &runs[i];
        let ghost before_failure = has_failure;
        let ghost before_pending = has_pending;
        let kind: &str = if !text::same_opt(&run.status, "completed") {
            has_pending = true;
            "pending"
        } else if text::same_opt(&run.conclusion, "success") || text::same_opt(&run.conclusion, "skipped") {
            "success"
        } else {
            has_failure = true;
            "failure"
        };
        checks.push(
            CiCheck { name: crate::pull::field_or(&run.name, ""), status: kind.to_owned() },
        );
        proof {
            assert(run_kind(runs@[i as int]) == kind@);
            if before_failure {
                let j = choose|j: int|
                    0 <= j < i && run_kind(#[trigger] runs@[j]) == "failure"@;
                assert(run_kind(runs@[j]) == "failure"@);
            }
            if before_pending {
                let j = choose|j: int|
                    0 <= j < i && run_kind(#[trigger] runs@[j]) == "pending"@;
                assert(run_kind(runs@[j]) == "pending"@);
            }
        }
        i += 1;
    }
    proof {
        assert(checks@.map_values(|c: CiCheck| c@) =~= goal);
    }
    let overall: &'static str = if runs.len() == 0 {
        "unknown"
    } else if has_failure {
        "failing"
    } else if has_pending {
        "pending"
    } else {
        "passing"
    };
    (overall, checks)
}

// ---------------------------------------------------------------------------
// Reviews
// ---------------------------------------------------------------------------

/// A review as GitHub gives it. A field is `None` where GitHub gave none.
#[derive(Debug, Clone, PartialEq, Eq)]
pub struct GivenReview {
    pub login: Option<String>,
    pub state: Option<String>,
}

/// Whether a text comes before another one, character by character.
pub open spec fn text_before(a: Seq<char>, b: Seq<char>) -> bool
    decreases a.len(),
{
    if b.len() == 0 {
        false
    } else if a.len() == 0 {
        true
    } else if a[0] == b[0] {
        text_before(a.drop_first(), b.drop_first())
    } else {
        a[0] < b[0]
    }
}

/// Whether a text comes before another one, character by character.
fn is_before(a: &str, b: &str) -> (r: bool)
    ensures
        r == text_before(a@, b@),
{
    let x = text::chars_of(a);
    let y = text::chars_of(b);
    let mut i: usize = 0;
    proof {
        assert(x@.skip(0) =~= x@);
        assert(y@.skip(0) =~= y@);
    }
    loop
        invariant
            i <= x.len(),
            i <= y.len(),
            x@ == a@,
            y@ == b@,
            text_before(a@, b@) == text_before(x@.skip(i as int), y@.skip(i as int)),
        decreases x.len() - i,
    {
        if i == y.len() {
            return false;
        }
        if i == x.len() {
            return true;
        }
        proof {
            assert(x@.skip(i as int)[0] == x@[i as int]);
            assert(y@.skip(i as int)[0] == y@[i as int]);
            assert(x@.skip(i as int).drop_first() =~= x@.skip(i + 1));
            assert(y@.skip(i as int).drop_first() =~= y@.skip(i + 1));
        }
        if x[i] != y[i] {
            return x[i] < y[i];
        }
        i += 1;
    }
}

/// Whether a review replaces an earlier one of the same user.
pub open spec fn is_verdict(state: Seq<char>) -> bool {
    state == "APPROVED"@ || state == "CHANGES_REQUESTED"@ || state == "DISMISSED"@
}

/// The place of a user among reviews that are sorted by user.
pub open spec fn place_of(list: Seq<ReviewView>, user: Seq<char>) -> nat
    decreases list.len(),
{
    if list.len() == 0 || !text_before(list[0].user, user) {
        0
    } else {
        1 + place_of(list.drop_first(), user)
    }
}

/// The reviews with one more.
pub open spec fn with_review(list: Seq<ReviewView>, r: ReviewView) -> Seq<ReviewView> {
    let k = place_of(list, r.user) as int;
    if r.user.len() == 0 {
        list
    } else if k < list.len() && list[k].user == r.user {
        if is_verdict(r.state) {
            list.update(k, r)
        } else {
            list
        }
    } else {
        list.insert(k, r)
    }
}

/// A review, with nothing for what GitHub did not give.
pub open spec fn given(r: GivenReview) -> ReviewView {
    ReviewView {
        user: crate::pull::text_or(r.login, ""@),
        state: crate::pull::text_or(r.state, ""@),
    }
}

/// The last word of every user, sorted by user.
pub open spec fn last_words(reviews: Seq<GivenReview>) -> Seq<ReviewView>
    decreases reviews.len(),
{
    if reviews.len() == 0 {
        seq![]
    } else {
        with_review(last_words(reviews.drop_last()), given(reviews.last()))
    }
}

/// Whether a user's last word is `state`.
pub open spec fn has_word(list: Seq<ReviewView>, state: Seq<char>) -> bool {
    exists|i: int| 0 <= i < list.len() && (#[trigger] list[i]).state == state
}

/// What the reviews come to: a request for changes counts more than an
/// approval.
pub open spec fn overall_review(reviews: Seq<GivenReview>) -> Seq<char> {
    if reviews.len() == 0 {
        "unknown"@
    } else if has_word(last_words(reviews), "CHANGES_REQUESTED"@) {
        "changes_requested"@
    } else if has_word(last_words(reviews), "APPROVED"@) {
        "approved"@
    } else {
        "pending"@
    }
}

proof fn lemma_place_of(list: Seq<ReviewView>, user: Seq<char>)
    ensures
        place_of(list, user) <= list.len(),
        forall|j: int| 0 <= j < place_of(list, user) ==> text_before((#[trigger] list[j]).user, user),
        place_of(list, user) < list.len() ==> !text_before(
            list[place_of(list, user) as int].user,
            user,
        ),
    decreases list.len(),
{
    if list.len() > 0 && text_before(list[0].user, user) {
        let t = list.drop_first();
        lemma_place_of(t, user);
        assert forall|j: int| 0 <= j < place_of(list, user) implies text_before(
            (#[trigger] list[j]).user,
            user,
        ) by {
            if j > 0 {
                assert(t[j - 1] == list[j]);
            }
        }
    }
}

fn find_place(list: &Vec<Review>, user: &str) -> (r: usize)
    ensures
        r == place_of(review_views(list@), user@),
        r <= list.len(),
{
    let ghost all = review_views(list@);
    let mut i: usize = 0;
    proof {
        assert(all.skip(0) =~= all);
    }
    while i < list.len()
        invariant
            i <= list.len(),
            all == review_views(list@),
            place_of(all, user@) == i + place_of(all.skip(i as int), user@),
        decreases list.len() - i,
    {
        proof {
            assert(all.skip(i as int).drop_first() =~= all.skip(i + 1));
            assert(all.skip(i as int)[0] == list@[i as int]@);
        }
        if !is_before(list[i].user.as_str(), user) {
            return i;
        }
        i += 1;
    }
    i
}

fn has_state(list: &Vec<Review>, state: &str) -> (r: bool)
    ensures
        r == has_word(review_views(list@), state@),
{
    let ghost all = review_views(list@);
    let mut i: usize = 0;
    while i < list.len()
        invariant
            i <= list.len(),
            all == review_views(list@),
            forall|j: int| 0 <= j < i ==> (#[trigger] all[j]).state != state@,
        decreases list.len() - i,
    {
        if text::same(list[i].state.as_str(), state) {
            proof {
                assert(all[i as int].state == state@);
            }
            return true;
        }
        i += 1;
    }
    false
}

/// What the reviews of a pull request come to, and the last word of every
/// user, sorted by user. A verdict replaces what a user said
/// before; anything else counts only where they said nothing yet.
pub fn compute_review_status(reviews: &Vec<GivenReview>) -> (r: (&'static str, Vec<Review>))
    ensures
        r.0@ == overall_review(reviews@),
        review_views(r.1@) == last_words(reviews@),
{
    let mut list: Vec<Review> = Vec::new();
    let mut i: usize = 0;
    proof {
        assert(reviews@.take(0) =~= seq![]);
        assert(review_views(list@) =~= seq![]);
    }
    while i < reviews.len()
        invariant
            i <= reviews.len(),
            review_views(list@) == last_words(reviews@.take(i as int)),
        decreases reviews.len() - i,
    {
        let ghost before = review_views(list@);
        let user = crate::pull::field_or(&reviews[i].login, "");
        let state = crate::pull::field_or(&reviews[i].state, "");
        proof {
            assert(reviews@.take(i + 1).drop_last() =~= reviews@.take(i as int));
        }
        if !user.as_str().is_empty() {
            let k = find_place(&list, user.as_str());
            let known: bool = k < list.len() && text::same(list[k].user.as_str(), user.as_str());
            let verdict: bool = text::same(state.as_str(), "APPROVED") || text::same(
                state.as_str(),
                "CHANGES_REQUESTED",
            ) || text::same(state.as_str(), "DISMISSED");
            let review = Review { user, state };
            if known {
                if verdict {
                    list.set(k, review);
                    proof {
                        assert(review_views(list@) =~= before.update(k as int, review@));
                    }
                }
            } else {
                list.insert(k, review);
                proof {
                    assert(review_views(list@) =~= before.insert(k as int, review@));
                }
            }
        }
        i += 1;
    }
    proof {
        assert(reviews@.take(i as int) =~= reviews@);
    }
    let overall: &'static str = if reviews.len() == 0 {
        "unknown"
    } else if has_state(&list, "CHANGES_REQUESTED") {
        "changes_requested"
    } else if has_state(&list, "APPROVED") {
        "approved"
    } else {
        "pending"
    };
    (overall, list)
}

// ---------------------------------------------------------------------------
// Laws
// ---------------------------------------------------------------------------

proof fn lemma_before_is_total(a: Seq<char>, b: Seq<char>)
    ensures
        a == b || text_before(a, b) || text_before(b, a),
        text_before(a, b) ==> a != b && !text_before(b, a),
    decreases a.len(),
{
    if a.len() == 0 || b.len() == 0 {
        if a.len() == 0 && b.len() == 0 {
            assert(a =~= b);
        }
    } else if a[0] == b[0] {
        lemma_before_is_total(a.drop_first(), b.drop_first());
        if a.drop_first() == b.drop_first() {
            assert(a =~= seq![a[0]] + a.drop_first());
            assert(b =~= seq![b[0]] + b.drop_first());
        }
    }
}

proof fn lemma_before_is_transitive(a: Seq<char>, b: Seq<char>, c: Seq<char>)
    requires
        text_before(a, b),
        text_before(b, c),
    ensures
        text_before(a, c),
    decreases a.len(),
{
    if a.len() > 0 && b.len() > 0 && c.len() > 0 && a[0] == b[0] && b[0] == c[0] {
        lemma_before_is_transitive(a.drop_first(), b.drop_first(), c.drop_first());
    }
}

/// Whether reviews are sorted by user, with one for each.
pub open spec fn sorted_by_user(list: Seq<ReviewView>) -> bool {
    forall|i: int, j: int|
        0 <= i < j < list.len() ==> text_before((#[trigger] list[i]).user, (#[trigger] list[j]).user)
}

proof fn lemma_with_review_sorted(list: Seq<ReviewView>, r: ReviewView)
    requires
        sorted_by_user(list),
    ensures
        sorted_by_user(with_review(list, r)),
{
    let k = place_of(list, r.user) as int;
    lemma_place_of(list, r.user);
    let next = with_review(list, r);
    if r.user.len() > 0 && !(k < list.len() && list[k].user == r.user) {
        assert forall|i: int, j: int| 0 <= i < j < next.len() implies text_before(
            (#[trigger] next[i]).user,
            (#[trigger] next[j]).user,
        ) by {
            if k < list.len() {
                lemma_before_is_total(list[k].user, r.user);
            }
            if i < k && j == k {
                assert(next[i] == list[i]);
            } else if i == k {
                assert(next[j] == list[j - 1]);
                if j - 1 > k {
                    lemma_before_is_transitive(r.user, list[k].user, list[j - 1].user);
                }
            } else if j < k {
                assert(next[i] == list[i] && next[j] == list[j]);
            } else if i < k {
                assert(next[i] == list[i] && next[j] == list[j - 1]);
            } else {
                assert(next[i] == list[i - 1] && next[j] == list[j - 1]);
            }
        }
    }
}

/// Every user has one last word, and the users are in order.
pub proof fn law_one_word_per_user(reviews: Seq<GivenReview>)
    ensures
        sorted_by_user(last_words(reviews)),
    decreases reviews.len(),
{
    if reviews.len() > 0 {
        law_one_word_per_user(reviews.drop_last());
        lemma_with_review_sorted(last_words(reviews.drop_last()), given(reviews.last()));
    }
}

/// A verdict is the last word of its user until another verdict comes.
pub proof fn law_verdict_counts(reviews: Seq<GivenReview>, r: GivenReview)
    requires
        given(r).user.len() > 0,
        is_verdict(given(r).state),
    ensures
        last_words(reviews.push(r)).contains(given(r)),
{
    let list = last_words(reviews);
    let x = given(r);
    let k = place_of(list, x.user) as int;
    lemma_place_of(list, x.user);
    assert(reviews.push(r).drop_last() =~= reviews);
    assert(with_review(list, x)[k] == x);
}

/// The last review in state `APPROVED`, `CHANGES_REQUESTED` or `DISMISSED` is
/// what counts of a user, whatever else they say after it.
pub proof fn law_last_verdict_is_listed(reviews: Seq<GivenReview>, i: int)
    requires
        0 <= i < reviews.len(),
        reviews[i].login is Some,
        reviews[i].login->0@.len() > 0,
        reviews[i].state is Some,
        reviews[i].state->0@ == "APPROVED"@ || reviews[i].state->0@ == "CHANGES_REQUESTED"@
            || reviews[i].state->0@ == "DISMISSED"@,
        forall|j: int|
            i < j < reviews.len() && (#[trigger] reviews[j]).login is Some
                && reviews[j].login->0@ == reviews[i].login->0@ ==> reviews[j].state is None || (
            reviews[j].state->0@ != "APPROVED"@ && reviews[j].state->0@ != "CHANGES_REQUESTED"@
                && reviews[j].state->0@ != "DISMISSED"@),
    ensures
        exists|k: int|
            0 <= k < last_words(reviews).len() && (#[trigger] last_words(reviews)[k]).user
                == reviews[i].login->0@ && last_words(reviews)[k].state == reviews[i].state->0@,
    decreases reviews.len(),
{
    let user = reviews[i].login->0@;
    let t = reviews.drop_last();
    let list = last_words(t);
    let r = given(reviews.last());
    law_one_word_per_user(t);
    lemma_place_of(list, r.user);
    let k = place_of(list, r.user) as int;
    let next = last_words(reviews);
    reveal_strlit("");
    reveal_strlit("APPROVED");
    reveal_strlit("CHANGES_REQUESTED");
    reveal_strlit("DISMISSED");
    if i == reviews.len() - 1 {
        assert(next[k].user == user && next[k].state == reviews[i].state->0@);
    } else {
        assert forall|j: int| i < j < t.len() && (#[trigger] t[j]).login is Some
            && t[j].login->0@ == t[i].login->0@ implies t[j].state is None || (t[j].state->0@
            != "APPROVED"@ && t[j].state->0@ != "CHANGES_REQUESTED"@ && t[j].state->0@
            != "DISMISSED"@) by {
            assert(t[j] == reviews[j]);
        }
        law_last_verdict_is_listed(t, i);
        let m = choose|m: int|
            0 <= m < list.len() && (#[trigger] list[m]).user == user && list[m].state
                == reviews[i].state->0@;
        lemma_stays(list, r, m);
        let last = reviews[reviews.len() - 1];
        if r.user == user {
            assert(last.login is Some);
            assert(""@.len() == 0 && "APPROVED"@.len() == 8 && "CHANGES_REQUESTED"@.len() == 17
                && "DISMISSED"@.len() == 9);
            assert(!is_verdict(r.state));
        }
        let q = choose|q: int| 0 <= q < next.len() && (#[trigger] next[q]) == list[m];
        assert(next[q].user == user);
    }
}

/// A user's word stays where another user speaks, or where they say nothing that
/// counts.
proof fn lemma_stays(list: Seq<ReviewView>, r: ReviewView, m: int)
    requires
        0 <= m < list.len(),
        sorted_by_user(list),
    ensures
        r.user != list[m].user || !is_verdict(r.state) ==> exists|q: int|
            0 <= q < with_review(list, r).len() && (#[trigger] with_review(list, r)[q]) == list[m],
{
    let k = place_of(list, r.user) as int;
    lemma_place_of(list, r.user);
    let next = with_review(list, r);
    if r.user != list[m].user || !is_verdict(r.state) {
        if r.user.len() == 0 {
            assert(next[m] == list[m]);
        } else if k < list.len() && list[k].user == r.user {
            assert(next[m] == list[m]) by {
                if is_verdict(r.state) {
                    assert(m != k);
                }
            }
        } else if m < k {
            assert(next[m] == list[m]);
        } else {
            assert(next[m + 1] == list[m]);
        }
    }
}

/// Where a user gave none of these verdicts, their first review is listed.
pub proof fn law_first_word_is_listed_without_a_verdict(reviews: Seq<GivenReview>, i: int)
    requires
        0 <= i < reviews.len(),
        reviews[i].login is Some,
        reviews[i].login->0@.len() > 0,
        forall|j: int|
            0 <= j < i ==> (#[trigger] reviews[j]).login is None || reviews[j].login->0@
                != reviews[i].login->0@,
        forall|j: int|
            i < j < reviews.len() && (#[trigger] reviews[j]).login is Some
                && reviews[j].login->0@ == reviews[i].login->0@ ==> reviews[j].state is None || (
            reviews[j].state->0@ != "APPROVED"@ && reviews[j].state->0@ != "CHANGES_REQUESTED"@
                && reviews[j].state->0@ != "DISMISSED"@),
    ensures
        exists|k: int|
            0 <= k < last_words(reviews).len() && (#[trigger] last_words(reviews)[k]).user
                == reviews[i].login->0@ && last_words(reviews)[k].state == (
            match reviews[i].state {
                Some(s) => s@,
                None => seq![],
            }),
    decreases reviews.len(),
{
    let user = reviews[i].login->0@;
    let t = reviews.drop_last();
    let list = last_words(t);
    let r = given(reviews.last());
    law_one_word_per_user(t);
    lemma_place_of(list, r.user);
    let k = place_of(list, r.user) as int;
    let next = last_words(reviews);
    reveal_strlit("");
    assert(""@ =~= seq![]);
    reveal_strlit("APPROVED");
    reveal_strlit("CHANGES_REQUESTED");
    reveal_strlit("DISMISSED");
    if i == reviews.len() - 1 {
        assert forall|j: int| 0 <= j < t.len() implies (#[trigger] t[j]).login is None
            || t[j].login->0@ != user by {
            assert(t[j] == reviews[j]);
        }
        lemma_unheard(t, user);
        assert(next[k] == r);
        assert(next[k].user == user);
    } else {
        assert forall|j: int| 0 <= j < i implies (#[trigger] t[j]).login is None || t[j].login->0@
            != t[i].login->0@ by {
            assert(t[j] == reviews[j]);
        }
        assert forall|j: int| i < j < t.len() && (#[trigger] t[j]).login is Some
            && t[j].login->0@ == t[i].login->0@ implies t[j].state is None || (t[j].state->0@
            != "APPROVED"@ && t[j].state->0@ != "CHANGES_REQUESTED"@ && t[j].state->0@
            != "DISMISSED"@) by {
            assert(t[j] == reviews[j]);
        }
        law_first_word_is_listed_without_a_verdict(t, i);
        let state = match reviews[i].state {
            Some(s) => s@,
            None => seq![],
        };
        let m = choose|m: int|
            0 <= m < list.len() && (#[trigger] list[m]).user == user && list[m].state == state;
        lemma_stays(list, r, m);
        let last = reviews[reviews.len() - 1];
        if r.user == user {
            assert(last.login is Some);
            assert("APPROVED"@.len() == 8 && "CHANGES_REQUESTED"@.len() == 17
                && "DISMISSED"@.len() == 9);
            assert(!is_verdict(r.state));
        }
        let q = choose|q: int| 0 <= q < next.len() && (#[trigger] next[q]) == list[m];
        assert(next[q].user == user);
    }
}

/// Only those who gave a review are listed.
proof fn lemma_unheard(reviews: Seq<GivenReview>, user: Seq<char>)
    requires
        user.len() > 0,
        forall|j: int|
            0 <= j < reviews.len() ==> (#[trigger] reviews[j]).login is None
                || reviews[j].login->0@ != user,
    ensures
        forall|k: int|
            0 <= k < last_words(reviews).len() ==> (#[trigger] last_words(reviews)[k]).user != user,
    decreases reviews.len(),
{
    if reviews.len() > 0 {
        let t = reviews.drop_last();
        assert forall|j: int| 0 <= j < t.len() implies (#[trigger] t[j]).login is None
            || t[j].login->0@ != user by {
            assert(t[j] == reviews[j]);
        }
        lemma_unheard(t, user);
        let list = last_words(t);
        let r = given(reviews.last());
        let k = place_of(list, r.user) as int;
        lemma_place_of(list, r.user);
        reveal_strlit("");
        assert(reviews[reviews.len() - 1].login is None || reviews[reviews.len() - 1].login->0@
            != user);
        let next = last_words(reviews);
        assert forall|q: int| 0 <= q < next.len() implies (#[trigger] next[q]).user != user by {
            if r.user.len() > 0 && !(k < list.len() && list[k].user == r.user) {
                if q < k {
                    assert(next[q] == list[q]);
                } else if q > k {
                    assert(next[q] == list[q - 1]);
                }
            } else if q == k {
            } else {
                assert(next[q] == list[q]);
            }
        }
    }
}

/// Whoever is listed gave the review that is listed of them.
pub proof fn law_listed_words_were_given(reviews: Seq<GivenReview>, k: int)
    requires
        0 <= k < last_words(reviews).len(),
    ensures
        exists|i: int|
            0 <= i < reviews.len() && (#[trigger] reviews[i]).login is Some && reviews[i].login->0@
                == last_words(reviews)[k].user && reviews[i].login->0@.len() > 0
                && last_words(reviews)[k].state == (match reviews[i].state {
                Some(s) => s@,
                None => seq![],
            }),
    decreases reviews.len(),
{
    let t = reviews.drop_last();
    let list = last_words(t);
    let r = given(reviews.last());
    let p = place_of(list, r.user) as int;
    lemma_place_of(list, r.user);
    let next = last_words(reviews);
    reveal_strlit("");
    assert(""@ =~= seq![]);
    let last = reviews[reviews.len() - 1];
    let word = next[k];
    if r.user.len() > 0 && word == r {
        assert(last.login is Some);
    } else {
        let q: int = if r.user.len() > 0 && !(p < list.len() && list[p].user == r.user) && k > p {
            k - 1
        } else {
            k
        };
        assert(word == list[q]);
        law_listed_words_were_given(t, q);
        let i = choose|i: int|
            0 <= i < t.len() && (#[trigger] t[i]).login is Some && t[i].login->0@ == list[q].user
                && t[i].login->0@.len() > 0 && list[q].state == (match t[i].state {
                Some(s) => s@,
                None => seq![],
            });
        assert(reviews[i] == t[i]);
    }
}

/// A request for changes that stands outweighs every approval, and an approval
/// everything else.
pub proof fn law_overall_review_is_the_gravest(reviews: Seq<GivenReview>)
    ensures
        reviews.len() == 0 <==> overall_review(reviews) == "unknown"@,
        overall_review(reviews) == "changes_requested"@ <==> exists|k: int|
            0 <= k < last_words(reviews).len() && (#[trigger] last_words(reviews)[k]).state
                == "CHANGES_REQUESTED"@,
        overall_review(reviews) == "approved"@ <==> (exists|k: int|
            0 <= k < last_words(reviews).len() && (#[trigger] last_words(reviews)[k]).state
                == "APPROVED"@) && forall|k: int|
            0 <= k < last_words(reviews).len() ==> (#[trigger] last_words(reviews)[k]).state
                != "CHANGES_REQUESTED"@,
        reviews.len() > 0 && (forall|k: int|
            0 <= k < last_words(reviews).len() ==> (#[trigger] last_words(reviews)[k]).state
                != "CHANGES_REQUESTED"@ && last_words(reviews)[k].state != "APPROVED"@)
            ==> overall_review(reviews) == "pending"@,
{
    reveal_strlit("unknown");
    reveal_strlit("changes_requested");
    reveal_strlit("approved");
    reveal_strlit("pending");
    assert("unknown"@[0] == 'u' && "changes_requested"@[0] == 'c' && "approved"@[0] == 'a'
        && "pending"@[0] == 'p');
    let list = last_words(reviews);
    if reviews.len() == 0 {
        assert(list.len() == 0);
    }
    if has_word(list, "CHANGES_REQUESTED"@) {
        let k = choose|k: int|
            0 <= k < list.len() && (#[trigger] list[k]).state == "CHANGES_REQUESTED"@;
        assert(last_words(reviews)[k].state == "CHANGES_REQUESTED"@);
    }
    if has_word(list, "APPROVED"@) {
        let k = choose|k: int| 0 <= k < list.len() && (#[trigger] list[k]).state == "APPROVED"@;
        assert(last_words(reviews)[k].state == "APPROVED"@);
    }
}

/// A run that is not completed is pending; a completed one is a success where it
/// succeeded or was skipped, and a failure otherwise. One failure makes the
/// whole fail, and one pending run keeps it from passing.
pub proof fn law_checks_add_up(runs: Seq<CheckRun>)
    ensures
        overall_ci(runs) == "unknown"@ <==> runs.len() == 0,
        overall_ci(runs) == "failing"@ <==> exists|i: int|
            0 <= i < runs.len() && (#[trigger] runs[i]).status is Some && runs[i].status->0@
                == "completed"@ && (runs[i].conclusion is None || (runs[i].conclusion->0@
                != "success"@ && runs[i].conclusion->0@ != "skipped"@)),
        overall_ci(runs) == "passing"@ <==> runs.len() > 0 && forall|i: int|
            0 <= i < runs.len() ==> (#[trigger] runs[i]).status is Some && runs[i].status->0@
                == "completed"@ && runs[i].conclusion is Some && (runs[i].conclusion->0@
                == "success"@ || runs[i].conclusion->0@ == "skipped"@),
        overall_ci(runs) == "unknown"@ || overall_ci(runs) == "failing"@ || overall_ci(runs)
            == "passing"@ || overall_ci(runs) == "pending"@,
        forall|i: int|
            0 <= i < runs.len() ==> {
                let run = #[trigger] runs[i];
                &&& check_of(run).name == (match run.name {
                    Some(n) => n@,
                    None => seq![],
                })
                &&& run.status is None || run.status->0@ != "completed"@ ==> check_of(run).status
                    == "pending"@
                &&& run.status is Some && run.status->0@ == "completed"@ ==> check_of(run).status
                    == (if run.conclusion is Some && (run.conclusion->0@ == "success"@
                    || run.conclusion->0@ == "skipped"@) {
                    "success"@
                } else {
                    "failure"@
                })
            },
{
    reveal_strlit("unknown");
    reveal_strlit("failing");
    reveal_strlit("passing");
    reveal_strlit("pending");
    reveal_strlit("failure");
    reveal_strlit("success");
    reveal_strlit("");
    assert("unknown"@[0] == 'u' && "failing"@[0] == 'f' && "passing"@[1] == 'a' && "pending"@[1]
        == 'e' && "failing"@.len() == 7 && "passing"@[0] == 'p' && "pending"@[0] == 'p'
        && "failure"@[0] == 'f' && "success"@[0] == 's');
    assert(""@ =~= seq![]);
    assert forall|i: int| 0 <= i < runs.len() implies {
        let run = #[trigger] runs[i];
        let failed = run.status is Some && run.status->0@ == "completed"@ && (run.conclusion is None
            || (run.conclusion->0@ != "success"@ && run.conclusion->0@ != "skipped"@));
        let passed = run.status is Some && run.status->0@ == "completed"@ && run.conclusion is Some
            && (run.conclusion->0@ == "success"@ || run.conclusion->0@ == "skipped"@);
        &&& (run_kind(run) == "failure"@) == failed
        &&& (run_kind(run) == "success"@) == passed
        &&& run_kind(run) == "pending"@ || run_kind(run) == "success"@ || run_kind(run)
            == "failure"@
    } by {}
    if exists|i: int| 0 <= i < runs.len() && run_kind(#[trigger] runs[i]) == "failure"@ {
        let i = choose|i: int| 0 <= i < runs.len() && run_kind(#[trigger] runs[i]) == "failure"@;
        assert(runs[i].status is Some);
    } else if exists|i: int| 0 <= i < runs.len() && run_kind(#[trigger] runs[i]) == "pending"@ {
        let i = choose|i: int| 0 <= i < runs.len() && run_kind(#[trigger] runs[i]) == "pending"@;
        assert(run_kind(runs[i]) == "pending"@);
    } else {
        assert forall|i: int| 0 <= i < runs.len() implies run_kind(#[trigger] runs[i])
            == "success"@ by {
            assert(run_kind(runs[i]) != "failure"@ && run_kind(runs[i]) != "pending"@);
        }
    }
}

/// A change is listed as what it is: without a pull request, merged, a draft or
/// open.
pub proof fn law_status_names_the_state(change: LocalChange)
    ensures
        change.pull is None ==> entry_status(change) == "no_pr"@,
        change.pull is Some && (change.action == Action::SkipMerged
            || change.pull->0.merged_at == MergedAt::Time) ==> entry_status(change) == "merged"@,
        change.pull is Some && change.action != Action::SkipMerged && !(
        change.pull->0.merged_at == MergedAt::Time) ==> entry_status(change) == (if change.pull->0.draft
            == Some(true) {
            "draft"@
        } else {
            "open"@
        }),
{
}

/// What is listed of a user is their last review in state `APPROVED`,
/// `CHANGES_REQUESTED` or `DISMISSED`, whatever they say after it.
pub proof fn law_listed_review_is_the_last_verdict(
    reviews: &Vec<GivenReview>,
    r: (&'static str, Vec<Review>),
    i: int,
)
    requires
        call_ensures(compute_review_status, (reviews,), r),
        0 <= i < reviews@.len(),
        reviews@[i].login is Some,
        reviews@[i].login->0@.len() > 0,
        reviews@[i].state is Some,
        reviews@[i].state->0@ == "APPROVED"@ || reviews@[i].state->0@ == "CHANGES_REQUESTED"@
            || reviews@[i].state->0@ == "DISMISSED"@,
        forall|j: int|
            i < j < reviews@.len() && (#[trigger] reviews@[j]).login is Some
                && reviews@[j].login->0@ == reviews@[i].login->0@ ==> reviews@[j].state is None || (
            reviews@[j].state->0@ != "APPROVED"@ && reviews@[j].state->0@ != "CHANGES_REQUESTED"@
                && reviews@[j].state->0@ != "DISMISSED"@),
    ensures
        exists|k: int|
            0 <= k < r.1@.len() && (#[trigger] r.1@[k]).user@ == reviews@[i].login->0@
                && r.1@[k].state@ == reviews@[i].state->0@,
        forall|k: int|
            0 <= k < r.1@.len() && (#[trigger] r.1@[k]).user@ == reviews@[i].login->0@
                ==> r.1@[k].state@ == reviews@[i].state->0@,
{
    law_last_verdict_is_listed(reviews@, i);
    law_one_word_per_user(reviews@);
    let words = last_words(reviews@);
    assert(review_views(r.1@).len() == r.1@.len());
    let k = choose|k: int|
        0 <= k < words.len() && (#[trigger] words[k]).user == reviews@[i].login->0@
            && words[k].state == reviews@[i].state->0@;
    assert(words[k] == r.1@[k]@);
    assert forall|m: int| 0 <= m < r.1@.len() && (#[trigger] r.1@[m]).user@
        == reviews@[i].login->0@ implies r.1@[m].state@ == reviews@[i].state->0@ by {
        assert(words[m] == r.1@[m]@);
        if m != k {
            lemma_users_differ(words, m, k);
        }
    }
}

/// No user is listed twice.
proof fn lemma_users_differ(list: Seq<ReviewView>, i: int, j: int)
    requires
        sorted_by_user(list),
        0 <= i < list.len(),
        0 <= j < list.len(),
        i != j,
    ensures
        list[i].user != list[j].user,
{
    if i < j {
        lemma_not_before_itself(list[i].user);
    } else {
        lemma_not_before_itself(list[j].user);
    }
}

proof fn lemma_not_before_itself(a: Seq<char>)
    ensures
        !text_before(a, a),
    decreases a.len(),
{
    if a.len() > 0 {
        lemma_not_before_itself(a.drop_first());
    }
}

/// A user who gave no verdict is listed with their first review.
pub proof fn law_listed_review_is_the_first_without_a_verdict(
    reviews: &Vec<GivenReview>,
    r: (&'static str, Vec<Review>),
    i: int,
)
    requires
        call_ensures(compute_review_status, (reviews,), r),
        0 <= i < reviews@.len(),
        reviews@[i].login is Some,
        reviews@[i].login->0@.len() > 0,
        reviews@[i].state is Some,
        forall|j: int|
            0 <= j < i ==> (#[trigger] reviews@[j]).login is None || reviews@[j].login->0@
                != reviews@[i].login->0@,
        forall|j: int|
            i < j < reviews@.len() && (#[trigger] reviews@[j]).login is Some
                && reviews@[j].login->0@ == reviews@[i].login->0@ ==> reviews@[j].state is None || (
            reviews@[j].state->0@ != "APPROVED"@ && reviews@[j].state->0@ != "CHANGES_REQUESTED"@
                && reviews@[j].state->0@ != "DISMISSED"@),
    ensures
        exists|k: int|
            0 <= k < r.1@.len() && (#[trigger] r.1@[k]).user@ == reviews@[i].login->0@
                && r.1@[k].state@ == reviews@[i].state->0@,
{
    law_first_word_is_listed_without_a_verdict(reviews@, i);
    let words = last_words(reviews@);
    assert(review_views(r.1@).len() == r.1@.len());
    let k = choose|k: int|
        0 <= k < words.len() && (#[trigger] words[k]).user == reviews@[i].login->0@
            && words[k].state == reviews@[i].state->0@;
    assert(words[k] == r.1@[k]@);
}

/// An entry shows the commit and the pull request of its change, with nothing
/// known of checks and reviews.
pub proof fn law_entry_shows_its_change(change: &LocalChange, r: StackListEntry)
    requires
        call_ensures(list_entry, (change,), r),
    ensures
        r.commit_sha@ == change.commit_sha@,
        r.title@ == change.title@,
        r.change_id@ == change.change_id@,
        change.pull is None ==> r.pull_number is None && r.pull_url is None && r.mergeable is None
            && r.status@ == "no_pr"@,
        change.pull is Some ==> r.pull_number == change.pull->0.number && r.pull_url
            == change.pull->0.html_url && r.mergeable == change.pull->0.mergeable,
        change.pull is Some && (change.action == Action::SkipMerged || change.pull->0.merged_at
            == MergedAt::Time) ==> r.status@ == "merged"@,
        change.pull is Some && change.action != Action::SkipMerged && change.pull->0.merged_at
            != MergedAt::Time && change.pull->0.draft == Some(true) ==> r.status@ == "draft"@,
        change.pull is Some && change.action != Action::SkipMerged && change.pull->0.merged_at
            != MergedAt::Time && change.pull->0.draft != Some(true) ==> r.status@ == "open"@,
        r.ci_status@ == "unknown"@,
        r.review_status@ == "unknown"@,
        r.ci_checks@.len() == 0,
        r.reviews@.len() == 0,
{
}

/// A branch may be a stack unless it is its own target.
pub proof fn law_stack_does_not_target_itself(
    branch: &str,
    remote: &str,
    base: &str,
    r: Result<(), CliError>,
)
    requires
        call_ensures(check_target, (branch, remote, base), r),
    ensures
        r is Err <==> branch@ == base@,
        r is Err ==> r->Err_0@ is InvalidState,
{
}

/// The checks are read at the head of a pull request, and its reviews by its
/// number.
pub proof fn law_details_are_read_of_the_pull_request(
    user: &str,
    repo: &str,
    change: &LocalChange,
    r: Option<(String, String)>,
)
    requires
        call_ensures(detail_paths, (user, repo, change), r),
    ensures
        r is Some <==> change.pull is Some && change.pull->0.head_sha is Some
            && change.pull->0.number is Some,
        r is Some ==> {
            let (checks, reviews) = r->0;
            &&& checks@ == "/repos/"@ + user@ + "/"@ + repo@ + "/commits/"@
                + change.pull->0.head_sha->0@ + "/check-runs"@
            &&& reviews@ == "/repos/"@ + user@ + "/"@ + repo@ + "/pulls/"@ + text::decimal(
                change.pull->0.number->0 as nat,
            ) + "/reviews"@
        },
{
}

/// Every run of a check is listed, in order.
pub proof fn law_every_check_is_listed(
    runs: &Vec<CheckRun>,
    r: (&'static str, Vec<CiCheck>),
    i: int,
)
    requires
        call_ensures(compute_ci_status, (runs,), r),
        0 <= i < runs@.len(),
    ensures
        r.1@.len() == runs@.len(),
        runs@[i].name is Some ==> r.1@[i].name@ == runs@[i].name->0@,
        runs@[i].name is None ==> r.1@[i].name@.len() == 0,
        runs@[i].status is None || runs@[i].status->0@ != "completed"@ ==> r.1@[i].status@
            == "pending"@,
        runs@[i].status is Some && runs@[i].status->0@ == "completed"@
            && runs@[i].conclusion is Some && (runs@[i].conclusion->0@ == "success"@
            || runs@[i].conclusion->0@ == "skipped"@) ==> r.1@[i].status@ == "success"@,
        runs@[i].status is Some && runs@[i].status->0@ == "completed"@ && !(
        runs@[i].conclusion is Some && (runs@[i].conclusion->0@ == "success"@
            || runs@[i].conclusion->0@ == "skipped"@)) ==> r.1@[i].status@ == "failure"@,
{
    reveal_strlit("");
    let views = r.1@.map_values(|c: CiCheck| c@);
    let goal = runs@.map_values(|x: CheckRun| check_of(x));
    assert(views.len() == r.1@.len());
    assert(goal.len() == runs@.len());
    assert(views[i] == r.1@[i]@);
    assert(goal[i] == check_of(runs@[i]));
}

/// Users are sorted by their names, character by character, and a name comes
/// after its own beginnings.
pub proof fn law_names_are_in_order(p: Seq<char>, a: char, b: char, s: Seq<char>, t: Seq<char>)
    ensures
        a < b ==> text_before(p.push(a) + s, p.push(b) + t),
        text_before(p, p.push(a) + s),
        !text_before(p.push(a) + s, p),
        !text_before(p, p),
    decreases p.len(),
{
    let x = p.push(a) + s;
    let y = p.push(b) + t;
    lemma_not_before_itself(p);
    if p.len() > 0 {
        let q = p.drop_first();
        law_names_are_in_order(q, a, b, s, t);
        assert(x.drop_first() =~= q.push(a) + s);
        assert(y.drop_first() =~= q.push(b) + t);
        assert(x[0] == p[0] && y[0] == p[0]);
    } else {
        assert(x[0] == a && y[0] == b);
    }
}

} // verus!
