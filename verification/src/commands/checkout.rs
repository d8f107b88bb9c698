//! `stack checkout`: which stack is meant, and how its pull requests hang
//! together.
//!
//! The target is a branch of a stack as it is named on the remote, or the
//! address of any pull request of the stack. The open pull requests of the
//! stack form a chain, from the one that targets a branch outside the stack up
//! to the one that no other targets.
use crate::change_id::strip_branch_suffix;
use crate::error::{CliError, Failure};
use crate::outside;
use crate::pull::Pull;
use crate::remote_changes::RemoteChange;
use crate::text;
use vstd::prelude::*;

verus! {

/// A pull request of a stack.
#[derive(Debug, Clone, PartialEq, Eq)]
pub struct PullSummary {
    pub number: u64,
    pub title: String,
    pub html_url: String,
    pub base_ref: String,
    pub head_ref: String,
}

/// A pull request of a stack as the contracts see it.
pub struct SummaryView {
    pub number: u64,
    pub title: Seq<char>,
    pub html_url: Seq<char>,
    pub base_ref: Seq<char>,
    pub head_ref: Seq<char>,
}

impl View for PullSummary {
    type V = SummaryView;

    open spec fn view(&self) -> SummaryView {
        SummaryView {
            number: self.number,
            title: self.title@,
            html_url: self.html_url@,
            base_ref: self.base_ref@,
            head_ref: self.head_ref@,
        }
    }
}

/// The contents of some summaries.
pub open spec fn summary_views(v: Seq<PullSummary>) -> Seq<SummaryView> {
    v.map_values(|s: PullSummary| s@)
}

/// How a checkout ended.
#[derive(Debug, Clone)]
pub enum Outcome {
    CheckedOut {
        /// The pull requests, from the bottom.
        chain: Vec<PullSummary>,
        /// Whether a branch was made.
        created: bool,
        local_branch: String,
        upstream: String,
        stack_branch: String,
        /// Whether the stack is one of this machine's.
        under_local_prefix: bool,
    },
    NoStackedPrs,
}

// ---------------------------------------------------------------------------
// The target
// ---------------------------------------------------------------------------

/// What a checkout is pointed at.
#[derive(Debug, Clone, PartialEq, Eq)]
pub enum Target {
    /// The branch of a stack.
    Branch(String),
    /// A pull request.
    Pull { owner: String, repo: String, number: u64 },
}

/// What a checkout is pointed at, as the contracts see it.
pub enum TargetView {
    Branch(Seq<char>),
    Pull { owner: Seq<char>, repo: Seq<char>, number: u64 },
}

impl View for Target {
    type V = TargetView;

    open spec fn view(&self) -> TargetView {
        match self {
            Target::Branch(b) => TargetView::Branch(b@),
            Target::Pull { owner, repo, number } => TargetView::Pull {
                owner: owner@,
                repo: repo@,
                number: *number,
            },
        }
    }
}

/// The pull request that a path names: `<owner>/<repo>/pull/<number>`, and
/// anything behind it.
pub open spec fn pull_at(segments: Seq<Seq<char>>) -> Option<TargetView> {
    if segments.len() >= 4 && segments[0].len() > 0 && segments[1].len() > 0 && segments[2]
        == "pull"@ {
        match text::parse_number(segments[3], u64::MAX as nat) {
            Some(n) => Some(
                TargetView::Pull { owner: segments[0], repo: segments[1], number: n as u64 },
            ),
            None => None,
        }
    } else {
        None
    }
}

/// The pull request that the segments of a path name.
pub fn match_pull(segments: &Vec<String>) -> (r: Option<Target>)
    ensures
        match r {
            Some(t) => pull_at(text::texts(segments@)) == Some(t@),
            None => pull_at(text::texts(segments@)) is None,
        },
{
    proof {
        assert(text::texts(segments@).len() == segments.len());
        assert(forall|i: int|
            0 <= i < segments.len() ==> #[trigger] text::texts(segments@)[i] == segments@[i]@);
    }
    if segments.len() < 4 || segments[0].as_str().is_empty() || segments[1].as_str().is_empty()
        || !text::same(segments[2].as_str(), "pull") {
        return None;
    }
    match text::parse_up_to(segments[3].as_str(), u64::MAX) {
        Some(number) => Some(
            Target::Pull { owner: segments[0].clone(), repo: segments[1].clone(), number },
        ),
        None => None,
    }
}

/// The segments of the path of an address.
pub open spec fn path_segments(path: Seq<char>) -> Seq<Seq<char>> {
    match text::after(path, "/"@) {
        Some(rest) => text::split(rest, '/'),
        None => seq![],
    }
}

/// The pull request that the path of an address names.
pub fn pull_of_path(path: &str) -> (r: Option<Target>)
    ensures
        match r {
            Some(t) => pull_at(path_segments(path@)) == Some(t@),
            None => pull_at(path_segments(path@)) is None,
        },
{
    match text::strip_start(path, "/") {
        Some(rest) => match_pull(&text::split_on(rest.as_str(), '/')),
        None => None,
    }
}

/// Whether a target is an address with its scheme.
pub open spec fn has_scheme(raw: Seq<char>) -> bool {
    "https://"@.is_prefix_of(raw) || "http://"@.is_prefix_of(raw)
}

/// What is said of an address that names no pull request.
pub open spec fn no_pull_url(raw: Seq<char>) -> Failure {
    Failure::InvalidState(
        "`"@ + raw
            + "` is not a pull request URL — expected `http(s)://<host>/<owner>/<repo>/pull/<number>`"@,
    )
}

/// What a target without a scheme means: a pull request where its first
/// segment looks like a host and a pull request follows, else a branch.
pub open spec fn plain_target(raw: Seq<char>) -> TargetView {
    let name = text::trim_end_char(raw, '/');
    let segments = text::split(name, '/');
    let pull = if text::contains_text(segments[0], "."@) {
        pull_at(segments.drop_first())
    } else {
        None
    };
    match pull {
        Some(t) => t,
        None => TargetView::Branch(crate::change_id::stack_stem(name)),
    }
}

/// What a target means.
pub open spec fn target_of(raw: Seq<char>) -> Result<TargetView, Failure> {
    if has_scheme(raw) {
        match outside::url_parsed(raw) {
            Ok((path, _)) => match pull_at(path_segments(path)) {
                Some(t) => Ok(t),
                None => Err(no_pull_url(raw)),
            },
            Err(_) => Err(no_pull_url(raw)),
        }
    } else {
        Ok(plain_target(raw))
    }
}

fn invalid_target(raw: &str) -> (r: CliError)
    ensures
        r@ == no_pull_url(raw@),
{
    let mut m = "`".to_owned();
    m.append(raw);
    m.append(
        "` is not a pull request URL — expected `http(s)://<host>/<owner>/<repo>/pull/<number>`",
    );
    CliError::InvalidState(m)
}

/// What a target without a scheme means.
pub fn parse_plain_target(raw: &str) -> (r: Target)
    ensures
        r@ == plain_target(raw@),
{
    let name = text::without_trailing(raw, '/');
    let segments = text::split_on(name.as_str(), '/');
    let ghost all = text::texts(segments@);
    proof {
        assert(all.len() > 0);
        assert(all[0] == segments@[0]@);
    }
    if text::contains(segments[0].as_str(), ".") {
        let mut rest: Vec<String> = Vec::new();
        let mut i: usize = 1;
        while i < segments.len()
            invariant
                1 <= i <= segments.len(),
                all == text::texts(segments@),
                text::texts(rest@) == all.subrange(1, i as int),
            decreases segments.len() - i,
        {
            let ghost before = rest@;
            rest.push(segments[i].clone());
            proof {
                assert(text::texts(rest@) =~= text::texts(before).push(all[i as int]));
                assert(text::texts(rest@) =~= all.subrange(1, i + 1));
            }
            i += 1;
        }
        proof {
            assert(all.subrange(1, all.len() as int) =~= all.drop_first());
        }
        if let Some(t) = match_pull(&rest) {
            return t;
        }
    }
    Target::Branch(strip_branch_suffix(name.as_str()))
}

/// What a target means. An address has to name a pull request.
pub fn parse_target(raw: &str) -> (r: Result<Target, CliError>)
    ensures
        match r {
            Ok(t) => target_of(raw@) == Ok::<TargetView, Failure>(t@),
            Err(e) => target_of(raw@) == Err::<TargetView, Failure>(e@),
        },
{
    if text::starts_with(raw, "https://") || text::starts_with(raw, "http://") {
        return match outside::parse_url(raw) {
            Ok((path, _query)) => match pull_of_path(path.as_str()) {
                Some(t) => Ok(t),
                None => Err(invalid_target(raw)),
            },
            Err(_e) => Err(invalid_target(raw)),
        };
    }
    Ok(parse_plain_target(raw))
}

// ---------------------------------------------------------------------------
// The branches
// ---------------------------------------------------------------------------

/// What is said of a pull request without a field.
pub open spec fn missing_field(parent: Seq<char>, child: Seq<char>) -> Failure {
    Failure::Generic("pull request payload missing `"@ + parent + "."@ + child + "`"@)
}

/// A field of a pull request.
pub open spec fn field_of(value: Option<String>, parent: Seq<char>, child: Seq<char>) -> Result<
    Seq<char>,
    Failure,
> {
    match value {
        Some(s) => Ok(s@),
        None => Err(missing_field(parent, child)),
    }
}

fn pull_field(value: &Option<String>, parent: &str, child: &str) -> (r: Result<String, CliError>)
    ensures
        crate::error::text_outcome(r) == field_of(*value, parent@, child@),
{
    match value {
        Some(s) => Ok(s.clone()),
        None => {
            let mut m = "pull request payload missing `".to_owned();
            m.append(parent);
            m.append(".");
            m.append(child);
            m.append("`");
            Err(CliError::Generic(m))
        },
    }
}

/// The branch of the stack that a pull request belongs to.
pub open spec fn branch_of_pull(pull: Pull) -> Result<Seq<char>, Failure> {
    match field_of(pull.head_ref, "head"@, "ref"@) {
        Ok(head) => Ok(crate::change_id::stack_stem(head)),
        Err(e) => Err(e),
    }
}

/// The branch of the stack that a pull request belongs to.
pub fn stack_branch_of_pull(pull: &Pull) -> (r: Result<String, CliError>)
    ensures
        crate::error::text_outcome(r) == branch_of_pull(*pull),
{
    match pull_field(&pull.head_ref, "head", "ref") {
        Ok(head) => Ok(strip_branch_suffix(head.as_str())),
        Err(e) => Err(e),
    }
}

/// The branch of a stack, which has to have a name.
pub fn checked_stack_branch(branch: String) -> (r: Result<String, CliError>)
    ensures
        crate::error::text_outcome(r) == (if branch@.len() == 0 {
            Err(
                Failure::InvalidState(
                    "empty stack branch — pass the stack's branch name or a pull request URL"@,
                ),
            )
        } else {
            Ok(branch@)
        }),
{
    if branch.as_str().is_empty() {
        return Err(
            CliError::InvalidState(
                "empty stack branch — pass the stack's branch name or a pull request URL".to_owned(),
            ),
        );
    }
    Ok(branch)
}

/// What is left of the branch of a stack below the prefix of this machine.
pub open spec fn below(stack_branch: Seq<char>, prefix: Option<Seq<char>>) -> Option<Seq<char>> {
    match prefix {
        Some(p) => text::after(stack_branch, p + "/"@),
        None => None,
    }
}

/// What is left of the branch of a stack below the prefix of this machine. It
/// is there only for a stack of this machine.
pub fn below_prefix(stack_branch: &str, local_stack_prefix: Option<&str>) -> (r: Option<String>)
    ensures
        text::opt_text(r) == below(stack_branch@, text::opt_str(local_stack_prefix)),
{
    match local_stack_prefix {
        Some(p) => {
            let mut start = p.to_owned();
            start.append("/");
            text::strip_start(stack_branch, start.as_str())
        },
        None => None,
    }
}

/// The name of the local branch of a stack.
pub open spec fn local_name(stack_branch: Seq<char>, below: Option<Seq<char>>) -> Seq<char> {
    match below {
        Some(b) => b,
        None => crate::change_id::last_segment(stack_branch),
    }
}

/// The name of the local branch of a stack: the one that it was pushed from,
/// where the stack is one of this machine's, so that a push finds the same
/// stack again. Of another stack it is the last segment.
pub fn derive_local_branch(stack_branch: &str, below_prefix: Option<&str>) -> (r: String)
    ensures
        r@ == local_name(stack_branch@, text::opt_str(below_prefix)),
{
    match below_prefix {
        Some(b) => b.to_owned(),
        None => {
            let cs = text::chars_of(stack_branch);
            let k = text::after_last(&cs, '/');
            proof {
                assert(cs@.subrange(k as int, cs@.len() as int) =~= cs@.skip(k as int));
            }
            text::piece(&cs, k, cs.len())
        },
    }
}

// ---------------------------------------------------------------------------
// The chain
// ---------------------------------------------------------------------------

/// The place of the pull request that targets `base`, or the number of them.
pub open spec fn node_index(nodes: Seq<Pull>, base: Seq<char>) -> nat
    decreases nodes.len(),
{
    if nodes.len() == 0 || text::opt_text(nodes[0].base_ref) == Some(base) {
        0
    } else {
        1 + node_index(nodes.drop_first(), base)
    }
}

/// The pull request that targets `base`.
pub open spec fn node(nodes: Seq<Pull>, base: Seq<char>) -> Option<Pull> {
    let k = node_index(nodes, base) as int;
    if k < nodes.len() {
        Some(nodes[k])
    } else {
        None
    }
}

/// The pull requests with one more. Of two that target the same branch the
/// later counts.
pub open spec fn with_node(nodes: Seq<Pull>, pull: Pull) -> Seq<Pull> {
    let k = node_index(nodes, pull.base_ref->0@) as int;
    if k < nodes.len() {
        nodes.update(k, pull)
    } else {
        nodes.push(pull)
    }
}

/// The open pull requests among some changes, one for each branch that is
/// targeted.
pub open spec fn open_nodes(changes: Seq<RemoteChange>) -> Result<Seq<Pull>, Failure>
    decreases changes.len(),
{
    if changes.len() == 0 {
        Ok(seq![])
    } else {
        match open_nodes(changes.drop_last()) {
            Err(e) => Err(e),
            Ok(nodes) => {
                let pull = changes.last().pull;
                if !pull.in_state("open"@) {
                    Ok(nodes)
                } else if pull.base_ref is None {
                    Err(missing_field("base"@, "ref"@))
                } else {
                    Ok(with_node(nodes, pull))
                }
            },
        }
    }
}

/// The places of the pull requests that target a branch outside the stack.
pub open spec fn roots(nodes: Seq<Pull>, stack_branch: Seq<char>) -> Seq<int>
    decreases nodes.len(),
{
    if nodes.len() == 0 {
        seq![]
    } else {
        let before = roots(nodes.drop_last(), stack_branch);
        if nodes.last().base_ref matches Some(b) && !stack_branch.is_prefix_of(b@) {
            before.push(nodes.len() - 1)
        } else {
            before
        }
    }
}

/// Whether a pull request is open and targets a branch outside the stack.
pub open spec fn open_root(pull: Pull, stack_branch: Seq<char>) -> bool {
    &&& pull.in_state("open"@)
    &&& pull.base_ref matches Some(b)
    &&& !stack_branch.is_prefix_of(b@)
}

/// How many of the open pull requests target a branch outside the stack.
pub open spec fn open_roots(changes: Seq<RemoteChange>, stack_branch: Seq<char>) -> nat
    decreases changes.len(),
{
    if changes.len() == 0 {
        0
    } else {
        open_roots(changes.drop_last(), stack_branch) + (if open_root(
            changes.last().pull,
            stack_branch,
        ) {
            1nat
        } else {
            0nat
        })
    }
}

/// A pull request of the chain.
pub open spec fn summary(pull: Pull) -> Result<SummaryView, Failure> {
    match (pull.number, pull.title, pull.html_url, pull.base_ref, pull.head_ref) {
        (None, _, _, _, _) => Err(Failure::Generic("pull missing `number`"@)),
        (_, None, _, _, _) => Err(Failure::Generic("pull missing `title`"@)),
        (_, _, None, _, _) => Err(Failure::Generic("pull missing `html_url`"@)),
        (_, _, _, None, _) => Err(missing_field("base"@, "ref"@)),
        (_, _, _, _, None) => Err(missing_field("head"@, "ref"@)),
        (Some(n), Some(t), Some(u), Some(b), Some(h)) => Ok(
            SummaryView { number: n, title: t@, html_url: u@, base_ref: b@, head_ref: h@ },
        ),
    }
}

/// The chain from a pull request up, of at most `steps` more.
pub open spec fn chain_from(nodes: Seq<Pull>, pull: Pull, steps: nat) -> Result<
    Seq<SummaryView>,
    Failure,
>
    decreases steps,
{
    match summary(pull) {
        Err(e) => Err(e),
        Ok(s) => match node(nodes, s.head_ref) {
            Some(next) if steps > 0 => match chain_from(nodes, next, (steps - 1) as nat) {
                Ok(rest) => Ok(seq![s] + rest),
                Err(e) => Err(e),
            },
            _ => Ok(seq![s]),
        },
    }
}

/// Whether the chain from a pull request up ends within `steps` more.
pub open spec fn ends(nodes: Seq<Pull>, pull: Pull, steps: nat) -> bool
    decreases steps,
{
    match summary(pull) {
        Err(_) => true,
        Ok(s) => match node(nodes, s.head_ref) {
            Some(next) => steps > 0 && ends(nodes, next, (steps - 1) as nat),
            None => true,
        },
    }
}

/// Whether the pull requests of some changes do not form a ring.
pub open spec fn chain_is_finite(changes: Seq<RemoteChange>, stack_branch: Seq<char>) -> bool {
    open_nodes(changes) matches Ok(nodes) ==> open_roots(changes, stack_branch) == 1 ==> roots(
        nodes,
        stack_branch,
    ).len() > 0 ==> ends(nodes, nodes[roots(nodes, stack_branch)[0]], nodes.len())
}

/// The chain of the open pull requests of a stack.
pub open spec fn chain_of(changes: Seq<RemoteChange>, stack_branch: Seq<char>) -> Result<
    Seq<SummaryView>,
    Failure,
> {
    match open_nodes(changes) {
        Err(e) => Err(e),
        Ok(nodes) => {
            let rs = roots(nodes, stack_branch);
            if open_roots(changes, stack_branch) > 1 {
                Err(Failure::InvalidState("unexpected stack layout, two root commits found"@))
            } else if rs.len() == 0 {
                Ok(seq![])
            } else {
                chain_from(nodes, nodes[rs[0]], nodes.len())
            }
        },
    }
}

fn find_node(nodes: &Vec<Pull>, base: &str) -> (r: usize)
    ensures
        r == node_index(nodes@, base@),
        r <= nodes.len(),
{
    let mut i: usize = 0;
    proof {
        assert(nodes@.skip(0) =~= nodes@);
    }
    while i < nodes.len()
        invariant
            i <= nodes.len(),
            node_index(nodes@, base@) == i + node_index(nodes@.skip(i as int), base@),
        decreases nodes.len() - i,
    {
        proof {
            assert(nodes@.skip(i as int).drop_first() =~= nodes@.skip(i + 1));
            assert(nodes@.skip(i as int)[0] == nodes@[i as int]);
        }
        if text::same_opt(&nodes[i].base_ref, base) {
            return i;
        }
        i += 1;
    }
    i
}

fn nodes_of(changes: &Vec<RemoteChange>) -> (r: Result<Vec<Pull>, CliError>)
    ensures
        match r {
            Ok(nodes) => open_nodes(changes@) == Ok::<Seq<Pull>, Failure>(nodes@),
            Err(e) => open_nodes(changes@) == Err::<Seq<Pull>, Failure>(e@),
        },
{
    let mut nodes: Vec<Pull> = Vec::new();
    let mut i: usize = 0;
    proof {
        assert(changes@.take(0) =~= seq![]);
        assert(nodes@ =~= seq![]);
    }
    while i < changes.len()
        invariant
            i <= changes.len(),
            open_nodes(changes@.take(i as int)) == Ok::<Seq<Pull>, Failure>(nodes@),
        decreases changes.len() - i,
    {
        let pull = &changes[i].pull;
        proof {
            assert(changes@.take(i + 1).drop_last() =~= changes@.take(i as int));
        }
        if pull.has_state("open") {
            match pull_field(&pull.base_ref, "base", "ref") {
                Err(e) => {
                    proof {
                        lemma_open_nodes_fail(changes@, i + 1);
                    }
                    return Err(e);
                },
                Ok(base) => {
                    let k = find_node(&nodes, base.as_str());
                    if k < nodes.len() {
                        nodes.set(k, pull.copy());
                    } else {
                        nodes.push(pull.copy());
                    }
                },
            }
        }
        i += 1;
    }
    proof {
        assert(changes@.take(i as int) =~= changes@);
    }
    Ok(nodes)
}

proof fn lemma_open_nodes_fail(changes: Seq<RemoteChange>, k: int)
    requires
        0 <= k <= changes.len(),
        open_nodes(changes.take(k)) is Err,
    ensures
        open_nodes(changes) == open_nodes(changes.take(k)),
    decreases changes.len() - k,
{
    if k == changes.len() {
        assert(changes.take(k) =~= changes);
    } else {
        assert(changes.take(k + 1).drop_last() =~= changes.take(k));
        lemma_open_nodes_fail(changes, k + 1);
    }
}

/// How many of the open pull requests target a branch outside the stack.
fn count_roots(changes: &Vec<RemoteChange>, stack_branch: &str) -> (r: usize)
    ensures
        r == open_roots(changes@, stack_branch@),
{
    let mut n: usize = 0;
    let mut i: usize = 0;
    proof {
        assert(changes@.take(0) =~= seq![]);
    }
    while i < changes.len()
        invariant
            i <= changes.len(),
            n == open_roots(changes@.take(i as int), stack_branch@),
            n <= i,
        decreases changes.len() - i,
    {
        let pull = &changes[i].pull;
        proof {
            assert(changes@.take(i + 1).drop_last() =~= changes@.take(i as int));
        }
        if pull.has_state("open") {
            if let Some(b) = &pull.base_ref {
                if !text::starts_with(b.as_str(), stack_branch) {
                    n += 1;
                }
            }
        }
        i += 1;
    }
    proof {
        assert(changes@.take(i as int) =~= changes@);
    }
    n
}

/// The places of the pull requests that target a branch outside the stack.
fn roots_of(nodes: &Vec<Pull>, stack_branch: &str) -> (r: Vec<usize>)
    ensures
        r@.map_values(|i: usize| i as int) == roots(nodes@, stack_branch@),
        forall|j: int| 0 <= j < r.len() ==> #[trigger] r@[j] < nodes.len(),
{
    let mut out: Vec<usize> = Vec::new();
    let mut i: usize = 0;
    proof {
        assert(nodes@.take(0) =~= seq![]);
        assert(out@.map_values(|i: usize| i as int) =~= seq![]);
    }
    while i < nodes.len()
        invariant
            i <= nodes.len(),
            out@.map_values(|i: usize| i as int) == roots(nodes@.take(i as int), stack_branch@),
            forall|j: int| 0 <= j < out.len() ==> #[trigger] out@[j] < nodes.len(),
        decreases nodes.len() - i,
    {
        let ghost before = out@;
        proof {
            assert(nodes@.take(i + 1).drop_last() =~= nodes@.take(i as int));
        }
        if let Some(b) = &nodes[i].base_ref {
            if !text::starts_with(b.as_str(), stack_branch) {
                out.push(i);
                proof {
                    assert(out@.map_values(|i: usize| i as int) =~= before.map_values(
                        |i: usize| i as int,
                    ).push(i as int));
                }
            }
        }
        i += 1;
    }
    proof {
        assert(nodes@.take(i as int) =~= nodes@);
    }
    out
}

fn summary_from(pull: &Pull) -> (r: Result<PullSummary, CliError>)
    ensures
        match r {
            Ok(s) => summary(*pull) == Ok::<SummaryView, Failure>(s@),
            Err(e) => summary(*pull) == Err::<SummaryView, Failure>(e@),
        },
{
    let number: u64 = match pull.number {
        Some(n) => n,
        None => {
            return Err(CliError::Generic("pull missing `number`".to_owned()));
        },
    };
    let title = match &pull.title {
        Some(t) => t.clone(),
        None => {
            return Err(CliError::Generic("pull missing `title`".to_owned()));
        },
    };
    let html_url = match &pull.html_url {
        Some(u) => u.clone(),
        None => {
            return Err(CliError::Generic("pull missing `html_url`".to_owned()));
        },
    };
    let base_ref = match pull_field(&pull.base_ref, "base", "ref") {
        Ok(b) => b,
        Err(e) => {
            return Err(e);
        },
    };
    match pull_field(&pull.head_ref, "head", "ref") {
        Ok(head_ref) => Ok(PullSummary { number, title, html_url, base_ref, head_ref }),
        Err(e) => Err(e),
    }
}

/// Whether the pull requests of some changes do not form a ring. A ring has no
/// last pull request to check out.
pub fn is_chain_finite(remote_changes: &Vec<RemoteChange>, stack_branch: &str) -> (r: bool)
    ensures
        r == chain_is_finite(remote_changes@, stack_branch@),
{
    let nodes = match nodes_of(remote_changes) {
        Ok(n) => n,
        Err(_e) => {
            return true;
        },
    };
    let rs = roots_of(&nodes, stack_branch);
    proof {
        assert(rs@.map_values(|i: usize| i as int).len() == rs.len());
    }
    if count_roots(remote_changes, stack_branch) != 1 || rs.len() == 0 {
        return true;
    }
    proof {
        assert(rs@.map_values(|i: usize| i as int)[0] == rs@[0] as int);
    }
    let ghost start = nodes@[rs@[0] as int];
    let mut at: usize = rs[0];
    let mut left: usize = nodes.len();
    loop
        invariant
            at < nodes.len(),
            left <= nodes.len(),
            open_nodes(remote_changes@) == Ok::<Seq<Pull>, Failure>(nodes@),
            open_roots(remote_changes@, stack_branch@) == 1,
            roots(nodes@, stack_branch@).len() > 0,
            start == nodes@[roots(nodes@, stack_branch@)[0]],
            ends(nodes@, start, nodes@.len()) == ends(nodes@, nodes@[at as int], left as nat),
        decreases left,
    {
        match summary_from(&nodes[at]) {
            Err(_e) => {
                return true;
            },
            Ok(s) => {
                let k = find_node(&nodes, s.head_ref.as_str());
                if k >= nodes.len() {
                    return true;
                }
                if left == 0 {
                    return false;
                }
                at = k;
                left -= 1;
            },
        }
    }
}

/// The chain of the open pull requests of a stack, from the one that targets a
/// branch outside the stack. Two of these are an error; without one the chain
/// is empty.
pub fn build_chain(remote_changes: &Vec<RemoteChange>, stack_branch: &str) -> (r: Result<
    Vec<PullSummary>,
    CliError,
>)
    requires
        chain_is_finite(remote_changes@, stack_branch@),
    ensures
        match r {
            Ok(chain) => chain_of(remote_changes@, stack_branch@) == Ok::<
                Seq<SummaryView>,
                Failure,
            >(summary_views(chain@)),
            Err(e) => chain_of(remote_changes@, stack_branch@) == Err::<
                Seq<SummaryView>,
                Failure,
            >(e@),
        },
{
    let nodes = match nodes_of(remote_changes) {
        Ok(n) => n,
        Err(e) => {
            return Err(e);
        },
    };
    let rs = roots_of(&nodes, stack_branch);
    proof {
        assert(rs@.map_values(|i: usize| i as int).len() == rs.len());
    }
    if count_roots(remote_changes, stack_branch) > 1 {
        return Err(
            CliError::InvalidState("unexpected stack layout, two root commits found".to_owned()),
        );
    }
    let mut chain: Vec<PullSummary> = Vec::new();
    proof {
        assert(summary_views(chain@) =~= seq![]);
    }
    if rs.len() == 0 {
        return Ok(chain);
    }
    proof {
        lemma_roots_are_open(remote_changes@, stack_branch@);
    }
    proof {
        assert(rs@.map_values(|i: usize| i as int)[0] == rs@[0] as int);
    }
    let ghost goal = chain_of(remote_changes@, stack_branch@);
    let mut at: usize = rs[0];
    let ghost mut left: nat = nodes@.len();
    proof {
        assert(goal == chain_from(nodes@, nodes@[at as int], left));
        assert(joined(seq![], goal) == goal) by {
            if goal is Ok {
                assert(seq![] + goal->Ok_0 =~= goal->Ok_0);
            }
        }
    }
    loop
        invariant
            at < nodes.len(),
            goal == chain_of(remote_changes@, stack_branch@),
            ends(nodes@, nodes@[at as int], left),
            goal == joined(
                summary_views(chain@),
                chain_from(nodes@, nodes@[at as int], left),
            ),
        decreases left,
    {
        let ghost before = summary_views(chain@);
        match summary_from(&nodes[at]) {
            Err(e) => {
                return Err(e);
            },
            Ok(s) => {
                let k = find_node(&nodes, s.head_ref.as_str());
                chain.push(s);
                proof {
                    assert(summary_views(chain@) =~= before.push(s@));
                    assert(before.push(s@) =~= before + seq![s@]);
                }
                if k >= nodes.len() {
                    return Ok(chain);
                }
                proof {
                    let rest = chain_from(nodes@, nodes@[k as int], (left - 1) as nat);
                    if rest is Ok {
                        assert(before + (seq![s@] + rest->Ok_0) =~= before.push(s@) + rest->Ok_0);
                    }
                    left = (left - 1) as nat;
                }
                at = k;
            },
        }
    }
}

/// Where a pull request of the chain targets a branch outside the stack, there
/// is an open one that does.
proof fn lemma_roots_are_open(changes: Seq<RemoteChange>, stack_branch: Seq<char>)
    requires
        open_nodes(changes) is Ok,
    ensures
        roots(open_nodes(changes)->Ok_0, stack_branch).len() <= open_roots(changes, stack_branch),
    decreases changes.len(),
{
    if changes.len() > 0 {
        let t = changes.drop_last();
        lemma_roots_are_open(t, stack_branch);
        let nodes = open_nodes(t)->Ok_0;
        let pull = changes.last().pull;
        if pull.in_state("open"@) {
            let k = node_index(nodes, pull.base_ref->0@) as int;
            lemma_node_index(nodes, pull.base_ref->0@);
            if k < nodes.len() {
                lemma_roots_update(nodes, stack_branch, k, pull);
            } else {
                assert(nodes.push(pull).drop_last() =~= nodes);
            }
        }
    }
}

/// The place of a pull request in a list holds one with the same target.
proof fn lemma_node_index(nodes: Seq<Pull>, base: Seq<char>)
    ensures
        node_index(nodes, base) <= nodes.len(),
        node_index(nodes, base) < nodes.len() ==> text::opt_text(
            nodes[node_index(nodes, base) as int].base_ref,
        ) == Some(base),
    decreases nodes.len(),
{
    if nodes.len() > 0 && text::opt_text(nodes[0].base_ref) != Some(base) {
        lemma_node_index(nodes.drop_first(), base);
    }
}

/// A pull request in the place of one with the same target is no new root.
proof fn lemma_roots_update(nodes: Seq<Pull>, stack_branch: Seq<char>, k: int, pull: Pull)
    requires
        0 <= k < nodes.len(),
        text::opt_text(nodes[k].base_ref) == text::opt_text(pull.base_ref),
    ensures
        roots(nodes.update(k, pull), stack_branch).len() == roots(nodes, stack_branch).len(),
    decreases nodes.len(),
{
    let u = nodes.update(k, pull);
    if k < nodes.len() - 1 {
        lemma_roots_update(nodes.drop_last(), stack_branch, k, pull);
        assert(u.drop_last() =~= nodes.drop_last().update(k, pull));
    } else {
        assert(u.drop_last() =~= nodes.drop_last());
    }
}

/// What was found so far, with the rest.
spec fn joined(found: Seq<SummaryView>, rest: Result<Seq<SummaryView>, Failure>) -> Result<
    Seq<SummaryView>,
    Failure,
> {
    match rest {
        Ok(r) => Ok(found + r),
        Err(e) => Err(e),
    }
}

// ---------------------------------------------------------------------------
// The checkout
// ---------------------------------------------------------------------------

/// How a checkout of a chain ends, and the calls of git that it takes.
#[derive(Debug, Clone)]
pub struct Checkout {
    pub outcome: Outcome,
    pub git_calls: Vec<Vec<String>>,
}

/// The branch that the local one follows.
pub open spec fn upstream_of(remote: Seq<char>, base_ref: Seq<char>) -> Seq<char> {
    remote + "/"@ + base_ref
}

/// The calls of git that check out the pull request on top of a stack.
pub open spec fn checkout_calls(
    remote: Seq<char>,
    leaf: Seq<char>,
    local_branch: Seq<char>,
    upstream: Seq<char>,
) -> Seq<Seq<Seq<char>>> {
    seq![
        seq!["fetch"@, remote, leaf],
        seq!["checkout"@, "-b"@, local_branch, remote + "/"@ + leaf],
        seq!["branch"@, "--set-upstream-to="@ + upstream],
    ]
}

/// What a checkout does with the chain that was found. A dry run calls no git,
/// and there is nothing to do without a chain.
pub fn plan_checkout(
    chain: Vec<PullSummary>,
    stack_branch: &str,
    local_branch: Option<&str>,
    local_stack_prefix: Option<&str>,
    remote: &str,
    dry_run: bool,
) -> (r: Checkout)
    ensures
        match r.outcome {
            Outcome::NoStackedPrs => chain.len() == 0 && r.git_calls@ == Seq::<
                Vec<String>,
            >::empty(),
            Outcome::CheckedOut {
                chain: c,
                created,
                local_branch: l,
                upstream,
                stack_branch: b,
                under_local_prefix,
            } => {
                &&& chain.len() > 0
                &&& c == chain
                &&& created == !dry_run
                &&& l@ == (match local_branch {
                    Some(name) => name@,
                    None => local_name(
                        stack_branch@,
                        below(stack_branch@, text::opt_str(local_stack_prefix)),
                    ),
                })
                &&& upstream@ == upstream_of(remote@, chain@[0].base_ref@)
                &&& b@ == stack_branch@
                &&& under_local_prefix == (below(stack_branch@, text::opt_str(local_stack_prefix))
                    is Some)
                &&& r.git_calls@.map_values(|v: Vec<String>| text::texts(v@)) == (if dry_run {
                    seq![]
                } else {
                    checkout_calls(remote@, chain@.last().head_ref@, l@, upstream@)
                })
            },
        },
{
    let mut git_calls: Vec<Vec<String>> = Vec::new();
    if chain.len() == 0 {
        return Checkout { outcome: Outcome::NoStackedPrs, git_calls };
    }
    let rest = below_prefix(stack_branch, local_stack_prefix);
    let name = match local_branch {
        Some(b) => b.to_owned(),
        None => match &rest {
            Some(b) => derive_local_branch(stack_branch, Some(b.as_str())),
            None => derive_local_branch(stack_branch, None),
        },
    };
    let mut upstream = remote.to_owned();
    upstream.append("/");
    upstream.append(chain[0].base_ref.as_str());
    if !dry_run {
        let leaf = chain[chain.len() - 1].head_ref.clone();
        let mut fetch: Vec<String> = Vec::new();
        fetch.push("fetch".to_owned());
        fetch.push(remote.to_owned());
        fetch.push(leaf.clone());
        let mut head = remote.to_owned();
        head.append("/");
        head.append(leaf.as_str());
        let mut checkout: Vec<String> = Vec::new();
        checkout.push("checkout".to_owned());
        checkout.push("-b".to_owned());
        checkout.push(name.clone());
        checkout.push(head);
        let mut follow = "--set-upstream-to=".to_owned();
        follow.append(upstream.as_str());
        let mut branch: Vec<String> = Vec::new();
        branch.push("branch".to_owned());
        branch.push(follow);
        proof {
            assert(text::texts(fetch@) =~= seq!["fetch"@, remote@, leaf@]);
            assert(text::texts(checkout@) =~= seq!["checkout"@, "-b"@, name@, remote@ + "/"@ + leaf@]);
            assert(text::texts(branch@) =~= seq!["branch"@, "--set-upstream-to="@ + upstream@]);
        }
        git_calls.push(fetch);
        git_calls.push(checkout);
        git_calls.push(branch);
        proof {
            assert(git_calls@.map_values(|v: Vec<String>| text::texts(v@)) =~= checkout_calls(
                remote@,
                leaf@,
                name@,
                upstream@,
            ));
        }
    } else {
        proof {
            assert(git_calls@.map_values(|v: Vec<String>| text::texts(v@)) =~= seq![]);
        }
    }
    Checkout {
        outcome: Outcome::CheckedOut {
            chain,
            created: !dry_run,
            local_branch: name,
            upstream,
            stack_branch: stack_branch.to_owned(),
            under_local_prefix: rest.is_some(),
        },
        git_calls,
    }
}

// ---------------------------------------------------------------------------
// Laws
// ---------------------------------------------------------------------------

proof fn lemma_node_targets(nodes: Seq<Pull>, base: Seq<char>)
    ensures
        node(nodes, base) matches Some(p) ==> text::opt_text(p.base_ref) == Some(base),
    decreases nodes.len(),
{
    if nodes.len() > 0 && text::opt_text(nodes[0].base_ref) != Some(base) {
        lemma_node_targets(nodes.drop_first(), base);
        let k = node_index(nodes.drop_first(), base) as int;
        if k < nodes.len() - 1 {
            assert(nodes.drop_first()[k] == nodes[k + 1]);
        }
    }
}

proof fn lemma_chain_is_linked(nodes: Seq<Pull>, pull: Pull, steps: nat)
    ensures
        chain_from(nodes, pull, steps) matches Ok(chain) ==> {
            &&& chain.len() > 0
            &&& text::opt_text(pull.base_ref) == Some(chain[0].base_ref)
            &&& forall|i: int|
                0 < i < chain.len() ==> (#[trigger] chain[i]).base_ref == chain[i - 1].head_ref
        },
    decreases steps,
{
    if let Ok(s) = summary(pull) {
        if let Some(next) = node(nodes, s.head_ref) {
            lemma_node_targets(nodes, s.head_ref);
            if steps > 0 {
                lemma_chain_is_linked(nodes, next, (steps - 1) as nat);
                if let Ok(rest) = chain_from(nodes, next, (steps - 1) as nat) {
                    let chain = seq![s] + rest;
                    assert forall|i: int| 0 < i < chain.len() implies (#[trigger] chain[i]).base_ref
                        == chain[i - 1].head_ref by {
                        if i > 1 {
                            assert(chain[i] == rest[i - 1]);
                            assert(chain[i - 1] == rest[i - 2]);
                        } else {
                            assert(chain[1] == rest[0]);
                        }
                    }
                }
            }
        }
    }
}

proof fn lemma_roots_are_outside(nodes: Seq<Pull>, stack_branch: Seq<char>)
    ensures
        forall|j: int|
            0 <= j < roots(nodes, stack_branch).len() ==> {
                let i = #[trigger] roots(nodes, stack_branch)[j];
                0 <= i < nodes.len() && (nodes[i].base_ref matches Some(b)
                    && !stack_branch.is_prefix_of(b@))
            },
    decreases nodes.len(),
{
    if nodes.len() > 0 {
        let t = nodes.drop_last();
        lemma_roots_are_outside(t, stack_branch);
        let rs = roots(nodes, stack_branch);
        assert forall|j: int| 0 <= j < rs.len() implies ({
            let i = #[trigger] rs[j];
            0 <= i < nodes.len() && (nodes[i].base_ref matches Some(b)
                && !stack_branch.is_prefix_of(b@))
        }) by {
            if j < roots(t, stack_branch).len() {
                assert(rs[j] == roots(t, stack_branch)[j]);
                assert(nodes[rs[j]] == t[rs[j]]);
            }
        }
    }
}

/// A chain starts at a pull request that targets a branch outside the stack,
/// and each further one targets the branch of the one before.
pub proof fn law_chain_is_linked(changes: Seq<RemoteChange>, stack_branch: Seq<char>)
    ensures
        chain_of(changes, stack_branch) matches Ok(chain) ==> chain.len() > 0 ==> {
            &&& !stack_branch.is_prefix_of(chain[0].base_ref)
            &&& forall|i: int|
                0 < i < chain.len() ==> (#[trigger] chain[i]).base_ref == chain[i - 1].head_ref
        },
{
    if let Ok(nodes) = open_nodes(changes) {
        let rs = roots(nodes, stack_branch);
        if rs.len() > 0 {
            lemma_roots_are_outside(nodes, stack_branch);
            lemma_chain_is_linked(nodes, nodes[rs[0]], nodes.len());
        }
    }
}

/// A stack with two open pull requests on branches outside it has no chain.
pub proof fn law_two_roots_are_refused(
    changes: Seq<RemoteChange>,
    stack_branch: Seq<char>,
    i: int,
    j: int,
)
    requires
        open_nodes(changes) is Ok,
        0 <= i < j < changes.len(),
        open_root(changes[i].pull, stack_branch),
        open_root(changes[j].pull, stack_branch),
    ensures
        chain_of(changes, stack_branch) == Err::<Seq<SummaryView>, Failure>(
            Failure::InvalidState("unexpected stack layout, two root commits found"@),
        ),
{
    lemma_counted(changes, stack_branch, i, j);
}

proof fn lemma_counted(changes: Seq<RemoteChange>, stack_branch: Seq<char>, i: int, j: int)
    requires
        0 <= i <= j < changes.len(),
        open_root(changes[i].pull, stack_branch),
        open_root(changes[j].pull, stack_branch),
    ensures
        open_roots(changes, stack_branch) >= (if i < j {
            2nat
        } else {
            1nat
        }),
    decreases changes.len(),
{
    let t = changes.drop_last();
    if j < changes.len() - 1 {
        lemma_counted(t, stack_branch, i, j);
    } else if i < j {
        lemma_counted(t, stack_branch, i, i);
    }
}

/// A push from the branch that a checkout makes finds the stack that was
/// checked out, where the stack is one of this machine's.
pub proof fn law_push_finds_the_stack(stack_branch: Seq<char>, prefix: Seq<char>)
    requires
        prefix.len() > 0,
        below(stack_branch, Some(prefix)) is Some,
    ensures
        crate::commands::push::prefix_of_stack(
            prefix,
            local_name(stack_branch, below(stack_branch, Some(prefix))),
        ) == stack_branch,
{
    let start = prefix + "/"@;
    assert(stack_branch.subrange(0, start.len() as int) == start);
    assert(prefix + "/"@ + stack_branch.skip(start.len() as int) =~= stack_branch);
}

/// The address of a pull request means that pull request with its scheme or
/// without.
pub proof fn law_scheme_is_optional(host: Seq<char>, path: Seq<char>)
    requires
        text::contains_text(host, "."@),
        forall|i: int| 0 <= i < host.len() ==> #[trigger] host[i] != '/',
        path.len() > 0,
        path[0] == '/',
        path.last() != '/',
        pull_at(path_segments(path)) is Some,
    ensures
        plain_target(host + path) == pull_at(path_segments(path))->0,
{
    reveal_strlit("/");
    reveal_strlit(".");
    let raw = host + path;
    let k = host.len() as int;
    assert(raw.last() == path.last());
    text::lemma_span_back_is(raw, text::is_only('/'), 0);
    assert(raw.take(raw.len() as int) =~= raw);
    assert(text::trim_end_char(raw, '/') == raw);
    assert forall|i: int| 0 <= i < k implies text::is_not('/')(#[trigger] raw[i]) by {
        assert(raw[i] == host[i]);
    }
    assert(raw[k] == '/');
    text::lemma_span_is(raw, text::is_not('/'), k);
    assert(path.subrange(0, 1) =~= "/"@);
    assert(raw.take(k) =~= host);
    assert(raw.skip(k + 1) =~= path.skip(1));
    let segments = text::split(raw, '/');
    assert(segments == seq![host] + text::split(path.skip(1), '/'));
    assert(segments[0] == host);
    assert(segments.drop_first() =~= text::split(path.skip(1), '/'));
}

/// The parts of a path name a pull request exactly where they are an owner, a
/// repository, `pull` and a number; what follows does not matter.
pub proof fn law_pull_address_reads(segments: Seq<Seq<char>>)
    ensures
        ({
            let number = text::parse_number(segments[3], u64::MAX as nat);
            let fits = segments.len() >= 4 && segments[0].len() > 0 && segments[1].len() > 0
                && segments[2] == "pull"@ && number is Some;
            &&& fits ==> pull_at(segments) == Some(
                TargetView::Pull {
                    owner: segments[0],
                    repo: segments[1],
                    number: number->0 as u64,
                },
            )
            &&& !fits ==> pull_at(segments) is None
        }),
{
}

/// A target with a scheme is a pull request or an error; one without is a pull
/// request where it names one on a host, and else the branch of a stack, without
/// the part that names a change.
pub proof fn law_target_reads(raw: Seq<char>)
    ensures
        ({
            let web = "https://"@.is_prefix_of(raw) || "http://"@.is_prefix_of(raw);
            let name = text::trim_end_char(raw, '/');
            let parts = text::split(name, '/');
            let pull = pull_at(parts.drop_first());
            &&& web && outside::url_parsed(raw) is Err ==> target_of(raw) is Err
            &&& web && outside::url_parsed(raw) is Ok ==> {
                let at = pull_at(path_segments((outside::url_parsed(raw)->Ok_0).0));
                &&& at is Some ==> target_of(raw) == Ok::<TargetView, Failure>(at->0)
                &&& at is None ==> target_of(raw) is Err
            }
            &&& !web && text::contains_text(parts[0], "."@) && pull is Some ==> target_of(raw)
                == Ok::<TargetView, Failure>(pull->0)
            &&& !web && !(text::contains_text(parts[0], "."@) && pull is Some) ==> target_of(raw)
                == Ok::<TargetView, Failure>(
                TargetView::Branch(crate::change_id::stack_stem(name)),
            )
        }),
{
}

/// The parts of a path are what stands between its slashes.
pub proof fn law_path_is_split_at_slashes(rest: Seq<char>, other: Seq<char>)
    requires
        other.len() == 0 || other[0] != '/',
    ensures
        path_segments(seq!['/'] + rest) == text::split(rest, '/'),
        path_segments(other).len() == 0,
{
    reveal_strlit("/");
    let s = seq!['/'] + rest;
    assert(s.subrange(0, 1) =~= "/"@);
    assert(s.skip(1) =~= rest);
    if "/"@.is_prefix_of(other) {
        assert(other.subrange(0, 1)[0] == '/');
    }
}

/// The stack of a pull request is its head branch without the part that names
/// the change.
pub proof fn law_stack_of_a_pull_request(pull: Pull)
    ensures
        pull.head_ref is Some ==> branch_of_pull(pull) == Ok::<Seq<char>, Failure>(
            crate::change_id::stack_stem(pull.head_ref->0@),
        ),
        pull.head_ref is None ==> branch_of_pull(pull) == Err::<Seq<char>, Failure>(
            Failure::Generic("pull request payload missing `"@ + "head"@ + "."@ + "ref"@ + "`"@),
        ),
{
}

/// A stack below the prefix of this machine is checked out under its name below
/// the prefix, and any other one under the last part of its name.
pub proof fn law_local_name_reads(prefix: Seq<char>, name: Seq<char>, other: Seq<char>)
    requires
        !(prefix + "/"@).is_prefix_of(other),
    ensures
        below(prefix + "/"@ + name, Some(prefix)) == Some(name),
        local_name(prefix + "/"@ + name, below(prefix + "/"@ + name, Some(prefix))) == name,
        below(other, Some(prefix)) is None,
        below(other, None) is None,
        local_name(other, None) == crate::change_id::last_segment(other),
{
    let start = prefix + "/"@;
    let s = start + name;
    assert(s.subrange(0, start.len() as int) =~= start);
    assert(s.skip(start.len() as int) =~= name);
}

/// What a checkout shows of a pull request is what GitHub says of it, and all of
/// it has to be there.
pub proof fn law_summary_reads(pull: Pull)
    ensures
        ({
            let whole = pull.number is Some && pull.title is Some && pull.html_url is Some
                && pull.base_ref is Some && pull.head_ref is Some;
            &&& whole ==> summary(pull) == Ok::<SummaryView, Failure>(
                SummaryView {
                    number: pull.number->0,
                    title: pull.title->0@,
                    html_url: pull.html_url->0@,
                    base_ref: pull.base_ref->0@,
                    head_ref: pull.head_ref->0@,
                },
            )
            &&& !whole ==> summary(pull) is Err
        }),
{
}

/// A checkout fetches the branch on top, makes the local branch from it, and
/// lets it follow the branch that the stack stands on.
pub proof fn law_checkout_calls_read(
    remote: Seq<char>,
    leaf: Seq<char>,
    local: Seq<char>,
    base: Seq<char>,
)
    ensures
        checkout_calls(remote, leaf, local, upstream_of(remote, base)) == seq![
            seq!["fetch"@, remote, leaf],
            seq!["checkout"@, "-b"@, local, remote + "/"@ + leaf],
            seq!["branch"@, "--set-upstream-to="@ + (remote + "/"@ + base)],
        ],
{
}

/// Whether pull request `i` of a search is open.
pub open spec fn open_at(changes: Seq<RemoteChange>, i: int) -> bool {
    &&& 0 <= i < changes.len()
    &&& changes[i].pull.state is Some
    &&& changes[i].pull.state->0@ == "open"@
}

/// Whether a pull request is an open one of a search.
pub open spec fn open_in(changes: Seq<RemoteChange>, pull: Pull) -> bool {
    exists|i: int| #[trigger] open_at(changes, i) && changes[i].pull == pull
}

/// Whether one of some pull requests targets a branch.
pub open spec fn targeted(nodes: Seq<Pull>, base: Seq<char>) -> bool {
    exists|k: int|
        0 <= k < nodes.len() && (#[trigger] nodes[k]).base_ref is Some && nodes[k].base_ref->0@
            == base
}

proof fn lemma_open_in(changes: Seq<RemoteChange>, pull: Pull)
    requires
        changes.len() > 0,
        open_in(changes.drop_last(), pull),
    ensures
        open_in(changes, pull),
{
    let t = changes.drop_last();
    let i = choose|i: int| #[trigger] open_at(t, i) && t[i].pull == pull;
    assert(t[i] == changes[i]);
    assert(open_at(changes, i));
}

/// The pull requests by their targets are open ones of the search.
proof fn lemma_nodes_are_open(changes: Seq<RemoteChange>)
    requires
        open_nodes(changes) is Ok,
    ensures
        forall|k: int|
            0 <= k < open_nodes(changes)->Ok_0.len() ==> open_in(
                changes,
                #[trigger] open_nodes(changes)->Ok_0[k],
            ),
    decreases changes.len(),
{
    if changes.len() > 0 {
        let t = changes.drop_last();
        let n = t.len() as int;
        lemma_nodes_are_open(t);
        let before = open_nodes(t)->Ok_0;
        let nodes = open_nodes(changes)->Ok_0;
        let pull = changes.last().pull;
        assert(changes[n].pull == pull);
        assert forall|k: int| 0 <= k < nodes.len() implies open_in(changes, #[trigger] nodes[k]) by {
            if k < before.len() && nodes[k] == before[k] {
                lemma_open_in(changes, before[k]);
            } else {
                assert(nodes[k] == pull);
                assert(open_at(changes, n));
            }
        }
    }
}

/// Every open pull request of the search has its target among them.
proof fn lemma_targets_are_there(changes: Seq<RemoteChange>, i: int)
    requires
        open_nodes(changes) is Ok,
        open_at(changes, i),
    ensures
        changes[i].pull.base_ref is Some,
        targeted(open_nodes(changes)->Ok_0, changes[i].pull.base_ref->0@),
    decreases changes.len(),
{
    let t = changes.drop_last();
    let before = open_nodes(t)->Ok_0;
    let nodes = open_nodes(changes)->Ok_0;
    let pull = changes.last().pull;
    let b = changes[i].pull.base_ref->0@;
    let j = node_index(before, pull.base_ref->0@) as int;
    lemma_node_index(before, pull.base_ref->0@);
    if i == t.len() {
        assert(nodes[j].base_ref->0@ == b);
    } else {
        assert(t[i] == changes[i]);
        assert(open_at(t, i));
        lemma_targets_are_there(t, i);
        let k = choose|k: int|
            0 <= k < before.len() && (#[trigger] before[k]).base_ref is Some
                && before[k].base_ref->0@ == b;
        if pull.in_state("open"@) && k == j {
            assert(nodes[k] == pull);
            assert(nodes[k].base_ref->0@ == b);
        } else {
            assert(nodes[k] == before[k]);
        }
    }
}

proof fn lemma_chain_members(nodes: Seq<Pull>, pull: Pull, steps: nat, from: int)
    requires
        0 <= from < nodes.len(),
        nodes[from] == pull,
        chain_from(nodes, pull, steps) is Ok,
    ensures
        ({
            let chain = chain_from(nodes, pull, steps)->Ok_0;
            &&& chain.len() > 0
            &&& summary(pull) == Ok::<SummaryView, Failure>(chain[0])
            &&& forall|i: int|
                0 <= i < chain.len() ==> exists|k: int|
                    0 <= k < nodes.len() && summary(#[trigger] nodes[k]) == Ok::<
                        SummaryView,
                        Failure,
                    >(#[trigger] chain[i])
            &&& ends(nodes, pull, steps) ==> node(nodes, chain.last().head_ref) is None
        }),
    decreases steps,
{
    let s = summary(pull)->Ok_0;
    let chain = chain_from(nodes, pull, steps)->Ok_0;
    if node(nodes, s.head_ref) is Some && steps > 0 {
        let next = node(nodes, s.head_ref)->0;
        let j = node_index(nodes, s.head_ref) as int;
        lemma_chain_members(nodes, next, (steps - 1) as nat, j);
        let rest = chain_from(nodes, next, (steps - 1) as nat)->Ok_0;
        assert(chain =~= seq![s] + rest);
        assert(chain.last() == rest.last());
        assert forall|i: int| 0 <= i < chain.len() implies exists|k: int|
            0 <= k < nodes.len() && summary(#[trigger] nodes[k]) == Ok::<SummaryView, Failure>(
                #[trigger] chain[i],
            ) by {
            if i == 0 {
                assert(summary(nodes[from]) == Ok::<SummaryView, Failure>(chain[0]));
            } else {
                assert(chain[i] == rest[i - 1]);
                let k = choose|k: int|
                    0 <= k < nodes.len() && summary(#[trigger] nodes[k]) == Ok::<
                        SummaryView,
                        Failure,
                    >(rest[i - 1]);
                assert(summary(nodes[k]) == Ok::<SummaryView, Failure>(chain[i]));
            }
        }
    } else {
        assert(chain =~= seq![s]);
        assert forall|i: int| 0 <= i < chain.len() implies exists|k: int|
            0 <= k < nodes.len() && summary(#[trigger] nodes[k]) == Ok::<SummaryView, Failure>(
                #[trigger] chain[i],
            ) by {
            assert(summary(nodes[from]) == Ok::<SummaryView, Failure>(chain[0]));
        }
    }
}

/// A chain is made of open pull requests of the search.
pub proof fn law_chain_members_are_open(changes: Seq<RemoteChange>, stack_branch: Seq<char>, i: int)
    requires
        chain_of(changes, stack_branch) is Ok,
        0 <= i < chain_of(changes, stack_branch)->Ok_0.len(),
    ensures
        exists|p: Pull| #[trigger]
            open_in(changes, p) && summary(p) == Ok::<SummaryView, Failure>(
                chain_of(changes, stack_branch)->Ok_0[i],
            ),
{
    let nodes = open_nodes(changes)->Ok_0;
    let rs = roots(nodes, stack_branch);
    let chain = chain_of(changes, stack_branch)->Ok_0;
    lemma_roots_are_outside(nodes, stack_branch);
    let from = rs[0];
    lemma_chain_members(nodes, nodes[from], nodes.len(), from);
    assert(chain == chain_from(nodes, nodes[from], nodes.len())->Ok_0);
    let m = choose|m: int|
        0 <= m < nodes.len() && summary(#[trigger] nodes[m]) == Ok::<SummaryView, Failure>(
            chain[i],
        );
    lemma_nodes_are_open(changes);
    assert(open_in(changes, nodes[m]));
}

/// A chain ends at the top: no open pull request targets the branch of its last
/// one.
pub proof fn law_chain_reaches_the_top(changes: Seq<RemoteChange>, stack_branch: Seq<char>, i: int)
    requires
        chain_is_finite(changes, stack_branch),
        chain_of(changes, stack_branch) is Ok,
        chain_of(changes, stack_branch)->Ok_0.len() > 0,
        open_at(changes, i),
    ensures
        changes[i].pull.base_ref is Some,
        changes[i].pull.base_ref->0@ != chain_of(changes, stack_branch)->Ok_0.last().head_ref,
{
    let nodes = open_nodes(changes)->Ok_0;
    let rs = roots(nodes, stack_branch);
    let chain = chain_of(changes, stack_branch)->Ok_0;
    lemma_roots_are_outside(nodes, stack_branch);
    lemma_roots_are_open(changes, stack_branch);
    let from = rs[0];
    lemma_chain_members(nodes, nodes[from], nodes.len(), from);
    lemma_targets_are_there(changes, i);
    let top = chain.last().head_ref;
    lemma_no_node(nodes, top);
    let b = changes[i].pull.base_ref->0@;
    let k = choose|k: int|
        0 <= k < nodes.len() && (#[trigger] nodes[k]).base_ref is Some && nodes[k].base_ref->0@
            == b;
    assert(text::opt_text(nodes[k].base_ref) != Some(top));
}

proof fn lemma_no_node(nodes: Seq<Pull>, base: Seq<char>)
    requires
        node(nodes, base) is None,
    ensures
        forall|k: int|
            0 <= k < nodes.len() ==> text::opt_text((#[trigger] nodes[k]).base_ref) != Some(base),
    decreases nodes.len(),
{
    if nodes.len() > 0 {
        let t = nodes.drop_first();
        assert(text::opt_text(nodes[0].base_ref) != Some(base));
        lemma_no_node(t, base);
        assert forall|k: int| 0 <= k < nodes.len() implies text::opt_text(
            (#[trigger] nodes[k]).base_ref,
        ) != Some(base) by {
            if k > 0 {
                assert(nodes[k] == t[k - 1]);
            }
        }
    }
}

/// Without an open pull request on a branch outside the stack there is no chain.
pub proof fn law_no_root_no_chain(changes: Seq<RemoteChange>, stack_branch: Seq<char>)
    requires
        open_nodes(changes) is Ok,
        forall|i: int|
            0 <= i < changes.len() && (#[trigger] changes[i]).pull.state is Some
                && changes[i].pull.state->0@ == "open"@ ==> stack_branch.is_prefix_of(
                changes[i].pull.base_ref->0@,
            ),
    ensures
        chain_of(changes, stack_branch) == Ok::<Seq<SummaryView>, Failure>(seq![]),
{
    lemma_no_roots(changes, stack_branch);
    lemma_roots_are_open(changes, stack_branch);
}

proof fn lemma_no_roots(changes: Seq<RemoteChange>, stack_branch: Seq<char>)
    requires
        forall|i: int|
            0 <= i < changes.len() && (#[trigger] changes[i]).pull.state is Some
                && changes[i].pull.state->0@ == "open"@ ==> stack_branch.is_prefix_of(
                changes[i].pull.base_ref->0@,
            ),
    ensures
        open_roots(changes, stack_branch) == 0,
    decreases changes.len(),
{
    if changes.len() > 0 {
        let t = changes.drop_last();
        assert forall|i: int|
            0 <= i < t.len() && (#[trigger] t[i]).pull.state is Some && t[i].pull.state->0@
                == "open"@ implies stack_branch.is_prefix_of(t[i].pull.base_ref->0@) by {
            assert(t[i] == changes[i]);
        }
        lemma_no_roots(t, stack_branch);
        assert(changes[changes.len() - 1].pull == changes.last().pull);
    }
}

/// A pull request counts as the bottom of a stack where it is open and targets a
/// branch outside it.
pub proof fn law_root_reads(pull: Pull, stack_branch: Seq<char>)
    ensures
        open_root(pull, stack_branch) <==> pull.state is Some && pull.state->0@ == "open"@
            && pull.base_ref is Some && !stack_branch.is_prefix_of(pull.base_ref->0@),
{
}

/// A checkout follows the chain: without one nothing is done, and a preview makes
/// no call of git.
pub proof fn law_checkout_follows_the_chain(
    chain: Vec<PullSummary>,
    stack: &str,
    wanted: Option<&str>,
    prefix: Option<&str>,
    remote: &str,
    dry_run: bool,
    r: Checkout,
)
    requires
        call_ensures(plan_checkout, (chain, stack, wanted, prefix, remote, dry_run), r),
    ensures
        r.outcome is NoStackedPrs <==> chain@.len() == 0,
        chain@.len() == 0 || dry_run ==> r.git_calls@.len() == 0,
        chain@.len() > 0 ==> {
            &&& r.outcome->chain == chain
            &&& r.outcome->created <==> !dry_run
            &&& r.outcome->CheckedOut_stack_branch@ == stack@
            &&& wanted is Some ==> r.outcome->local_branch@ == wanted->0@
            &&& r.outcome->upstream@ == remote@ + "/"@ + chain@[0].base_ref@
        },
        chain@.len() > 0 && !dry_run ==> r.git_calls@.map_values(|v: Vec<String>| text::texts(v@))
            == checkout_calls(
            remote@,
            chain@[chain@.len() - 1].head_ref@,
            r.outcome->local_branch@,
            remote@ + "/"@ + chain@[0].base_ref@,
        ),
{
    let calls = r.git_calls@.map_values(|v: Vec<String>| text::texts(v@));
    assert(calls.len() == r.git_calls@.len());
}

/// A stack branch has a name.
pub proof fn law_stack_branch_has_a_name(branch: String, r: Result<String, CliError>)
    requires
        call_ensures(checked_stack_branch, (branch,), r),
    ensures
        r is Ok <==> branch@.len() > 0,
        r is Ok ==> r->Ok_0@ == branch@,
        r is Err ==> r->Err_0@ is InvalidState,
{
    let o = crate::error::text_outcome(r);
    assert(r is Ok <==> o is Ok);
}

} // verus!
