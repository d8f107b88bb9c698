//! The requests that create, update and remove the pull requests of a stack.
use crate::changes::Action;
use crate::error::{CliError, Failure};
use crate::pull::{Pull, field_or};
use crate::push_helpers::format_pull_description;
use crate::text;
use vstd::prelude::*;

verus! {

/// A pull request to create or update.
pub struct PrUpsertInput<'a> {
    pub action: Action,
    /// The title of the commit.
    pub title: &'a str,
    /// The message of the commit.
    pub message: &'a str,
    /// The head branch.
    pub dest_branch: &'a str,
    /// The branch it targets.
    pub base_branch: &'a str,
    /// The pull request that exists.
    pub pull: Option<&'a Pull>,
    /// The pull request it depends on.
    pub depends_on_number: Option<u64>,
    pub create_as_draft: bool,
    /// Keep the title, and only refresh the headers of the description.
    pub keep_pull_request_title_and_body: bool,
}

/// A request to GitHub.
#[derive(Debug, Clone, PartialEq, Eq)]
pub enum PrRequest {
    /// Change a pull request. Without a title its title is left alone, and
    /// without a base it keeps the branch that it targets.
    Patch {
        path: String,
        head: String,
        base: Option<String>,
        title: Option<String>,
        body: String,
    },
    /// Open a pull request.
    Post { path: String, title: String, body: String, draft: bool, head: String, base: String },
}

/// A request as the contracts see it.
pub enum PrRequestView {
    Patch {
        path: Seq<char>,
        head: Seq<char>,
        base: Option<Seq<char>>,
        title: Option<Seq<char>>,
        body: Seq<char>,
    },
    Post {
        path: Seq<char>,
        title: Seq<char>,
        body: Seq<char>,
        draft: bool,
        head: Seq<char>,
        base: Seq<char>,
    },
}

impl View for PrRequest {
    type V = PrRequestView;

    open spec fn view(&self) -> PrRequestView {
        match self {
            PrRequest::Patch { path, head, base, title, body } => PrRequestView::Patch {
                path: path@,
                head: head@,
                base: text::opt_text(*base),
                title: text::opt_text(*title),
                body: body@,
            },
            PrRequest::Post { path, title, body, draft, head, base } => PrRequestView::Post {
                path: path@,
                title: title@,
                body: body@,
                draft: *draft,
                head: head@,
                base: base@,
            },
        }
    }
}

/// The path of the pull requests of a repository.
pub open spec fn pulls_path(user: Seq<char>, repo: Seq<char>) -> Seq<char> {
    "/repos/"@ + user + "/"@ + repo + "/pulls"@
}

/// The branch that an update names as the target. GitHub refuses the key on a
/// pull request of a registered stack even where it changes nothing, so it is
/// only sent where the pull request moves.
pub open spec fn sent_base(pull: Pull, base_branch: Seq<char>) -> Option<Seq<char>> {
    if text::opt_text(pull.base_ref) == Some(base_branch) {
        None
    } else {
        Some(base_branch)
    }
}

/// The request for an input, or why there is none.
pub open spec fn upsert_request(user: Seq<char>, repo: Seq<char>, input: PrUpsertInput<'_>) -> Result<
    PrRequestView,
    Failure,
> {
    match input.action {
        Action::Update => match input.pull {
            None => Err(Failure::Generic("Can't update pull with change.pull unset"@)),
            Some(pull) => match pull.number {
                None => Err(Failure::Generic("update pull payload missing `number`"@)),
                Some(n) => Ok(
                    PrRequestView::Patch {
                        path: pulls_path(user, repo) + "/"@ + text::decimal(n as nat),
                        head: input.dest_branch@,
                        base: sent_base(*pull, input.base_branch@),
                        title: if input.keep_pull_request_title_and_body {
                            None
                        } else {
                            Some(input.title@)
                        },
                        body: crate::push_helpers::description(
                            if input.keep_pull_request_title_and_body {
                                crate::pull::text_or(pull.body, ""@)
                            } else {
                                input.message@
                            },
                            input.depends_on_number,
                        ),
                    },
                ),
            },
        },
        Action::Create => Ok(
            PrRequestView::Post {
                path: pulls_path(user, repo),
                title: input.title@,
                body: crate::push_helpers::description(input.message@, input.depends_on_number),
                draft: input.create_as_draft,
                head: input.dest_branch@,
                base: input.base_branch@,
            },
        ),
        _ => Err(Failure::Generic("Unhandled action: "@ + input.action.name())),
    }
}

fn pulls_path_text(user: &str, repo: &str) -> (r: String)
    ensures
        r@ == pulls_path(user@, repo@),
{
    let mut p = "/repos/".to_owned();
    p.append(user);
    p.append("/");
    p.append(repo);
    p.append("/pulls");
    p
}

/// The request that creates or updates a pull request. An update needs the
/// pull request and its number, and only the two pushing actions are allowed.
pub fn create_or_update_pr(user: &str, repo: &str, input: PrUpsertInput<'_>) -> (r: Result<
    PrRequest,
    CliError,
>)
    ensures
        match r {
            Ok(q) => upsert_request(user@, repo@, input) == Ok::<PrRequestView, Failure>(q@),
            Err(e) => upsert_request(user@, repo@, input) == Err::<PrRequestView, Failure>(e@),
        },
{
    match input.action {
        Action::Update => {
            let pull = match input.pull {
                Some(p) => p,
                None => {
                    return Err(
                        CliError::Generic(
                            "Can't update pull with change.pull unset".to_owned(),
                        ),
                    );
                },
            };
            let number: u64 = match pull.number {
                Some(n) => n,
                None => {
                    return Err(
                        CliError::Generic("update pull payload missing `number`".to_owned()),
                    );
                },
            };
            let mut path = pulls_path_text(user, repo);
            path.append("/");
            path.append(text::decimal_of(number).as_str());
            let base = if text::same_opt(&pull.base_ref, input.base_branch) {
                None
            } else {
                Some(input.base_branch.to_owned())
            };
            if input.keep_pull_request_title_and_body {
                let existing = field_or(&pull.body, "");
                Ok(
                    PrRequest::Patch {
                        path,
                        head: input.dest_branch.to_owned(),
                        base,
                        title: None,
                        body: format_pull_description(existing.as_str(), input.depends_on_number),
                    },
                )
            } else {
                Ok(
                    PrRequest::Patch {
                        path,
                        head: input.dest_branch.to_owned(),
                        base,
                        title: Some(input.title.to_owned()),
                        body: format_pull_description(input.message, input.depends_on_number),
                    },
                )
            }
        },
        Action::Create => Ok(
            PrRequest::Post {
                path: pulls_path_text(user, repo),
                title: input.title.to_owned(),
                body: format_pull_description(input.message, input.depends_on_number),
                draft: input.create_as_draft,
                head: input.dest_branch.to_owned(),
                base: input.base_branch.to_owned(),
            },
        ),
        _ => {
            let mut msg = "Unhandled action: ".to_owned();
            msg.append(input.action.label());
            Err(CliError::Generic(msg))
        },
    }
}

/// The pull request after a request: an update keeps the one that was there,
/// whatever the reply says, and a creation gives the one of the reply.
pub fn upserted_pull(existing: &Option<Pull>, request: &PrRequest, reply: Pull) -> (r: Pull)
    ensures
        r == (match (request, existing) {
            (PrRequest::Patch { .. }, Some(p)) => *p,
            _ => reply,
        }),
{
    match (request, existing) {
        (PrRequest::Patch { .. }, Some(p)) => p.copy(),
        _ => reply,
    }
}

/// The path of the branch of an orphan.
pub fn delete_orphan_branch(user: &str, repo: &str, branch_ref: &str) -> (r: String)
    ensures
        r@ == "/repos/"@ + user@ + "/"@ + repo@ + "/git/refs/heads/"@ + branch_ref@,
{
    let mut p = "/repos/".to_owned();
    p.append(user);
    p.append("/");
    p.append(repo);
    p.append("/git/refs/heads/");
    p.append(branch_ref);
    p
}

/// A pull request whose target changes with a push.
#[derive(Debug, Clone, PartialEq, Eq)]
pub struct StaleBase {
    pub pull_number: u64,
    pub current_base_ref: String,
    pub new_base_ref: String,
}

/// A pull request whose target changes with a push, as the contracts see it.
pub struct StaleBaseView {
    pub pull_number: u64,
    pub current_base_ref: Seq<char>,
    pub new_base_ref: Seq<char>,
}

impl View for StaleBase {
    type V = StaleBaseView;

    open spec fn view(&self) -> StaleBaseView {
        StaleBaseView {
            pull_number: self.pull_number,
            current_base_ref: self.current_base_ref@,
            new_base_ref: self.new_base_ref@,
        }
    }
}

/// The pull requests of a list whose target changes.
pub open spec fn moving(bases: Seq<StaleBaseView>) -> Seq<u64>
    decreases bases.len(),
{
    if bases.len() == 0 {
        seq![]
    } else {
        let before = moving(bases.drop_last());
        if bases.last().current_base_ref != bases.last().new_base_ref {
            before.push(bases.last().pull_number)
        } else {
            before
        }
    }
}

/// The pull requests that have to target the trunk while the branches are
/// pushed: those whose target changes. With its old target, a pull request
/// could look merged between the push and its update.
pub fn neutralize_stale_bases(bases: &Vec<StaleBase>) -> (r: Vec<u64>)
    ensures
        r@ == moving(bases@.map_values(|b: StaleBase| b@)),
{
    let ghost all = bases@.map_values(|b: StaleBase| b@);
    let mut out: Vec<u64> = Vec::new();
    let mut i: usize = 0;
    proof {
        assert(all.take(0) =~= seq![]);
    }
    while i < bases.len()
        invariant
            i <= bases.len(),
            all == bases@.map_values(|b: StaleBase| b@),
            out@ == moving(all.take(i as int)),
        decreases bases.len() - i,
    {
        let b = &bases[i];
        proof {
            assert(all.take(i + 1).drop_last() =~= all.take(i as int));
            assert(all.take(i + 1).last() == b@);
        }
        if !text::same(b.current_base_ref.as_str(), b.new_base_ref.as_str()) {
            out.push(b.pull_number);
        }
        i += 1;
    }
    proof {
        assert(all.take(i as int) =~= all);
    }
    out
}

/// A request never touches a title that is to be kept, and its description ends
/// in the fresh dependency, where there is one.
pub proof fn law_request_respects_title(user: Seq<char>, repo: Seq<char>, input: PrUpsertInput<'_>)
    requires
        upsert_request(user, repo, input) is Ok,
    ensures
        upsert_request(user, repo, input)->Ok_0 matches PrRequestView::Patch { title, .. } ==> (title
            is None) == input.keep_pull_request_title_and_body,
        input.action.pushes(),
        input.depends_on_number matches Some(n) ==> ("\n\nDepends-On: #"@ + text::decimal(
            n as nat,
        )).is_suffix_of(body_of(upsert_request(user, repo, input)->Ok_0)),
{
    if let Some(n) = input.depends_on_number {
        let text = if input.action is Create || !input.keep_pull_request_title_and_body {
            input.message@
        } else {
            crate::pull::text_or(input.pull->0.body, ""@)
        };
        crate::push_helpers::lemma_description_depends(text, n);
    }
}

/// The description that a request carries.
pub open spec fn body_of(request: PrRequestView) -> Seq<char> {
    match request {
        PrRequestView::Patch { body, .. } => body,
        PrRequestView::Post { body, .. } => body,
    }
}

/// A pull request that stays on its branch is never told to target it, and one
/// that moves always is.
pub proof fn law_base_is_sent_to_retarget(user: Seq<char>, repo: Seq<char>, input: PrUpsertInput<'_>)
    requires
        upsert_request(user, repo, input) is Ok,
        input.action is Update,
    ensures
        upsert_request(user, repo, input)->Ok_0 matches PrRequestView::Patch { base, .. } && {
            &&& base is None <==> text::opt_text(input.pull->0.base_ref) == Some(input.base_branch@)
            &&& base matches Some(b) ==> b == input.base_branch@
        },
{
}

/// A creation opens a pull request from the branch of the change onto its base,
/// with the title of the commit, as a draft where that is asked for.
pub proof fn law_creation_opens_the_branch(user: Seq<char>, repo: Seq<char>, input: PrUpsertInput<'_>)
    requires
        input.action == Action::Create,
    ensures
        upsert_request(user, repo, input) matches Ok(PrRequestView::Post {
            path,
            title,
            body,
            draft,
            head,
            base,
        }) && {
            &&& path == "/repos/"@ + user + "/"@ + repo + "/pulls"@
            &&& title == input.title@
            &&& body == crate::push_helpers::description(input.message@, input.depends_on_number)
            &&& draft == input.create_as_draft
            &&& head == input.dest_branch@
            &&& base == input.base_branch@
        },
{
}

/// An update goes to the pull request by its number. It sends the title and the
/// message of the commit, unless those of the pull request are to be kept: then
/// no title is sent, and its own text is the description.
pub proof fn law_update_goes_to_its_pull_request(
    user: Seq<char>,
    repo: Seq<char>,
    input: PrUpsertInput<'_>,
)
    requires
        input.action == Action::Update,
        input.pull is Some,
        input.pull->0.number is Some,
    ensures
        upsert_request(user, repo, input) matches Ok(PrRequestView::Patch {
            path,
            head,
            base,
            title,
            body,
        }) && {
            let keep = input.keep_pull_request_title_and_body;
            let pull = input.pull->0;
            &&& path == "/repos/"@ + user + "/"@ + repo + "/pulls"@ + "/"@ + text::decimal(
                pull.number->0 as nat,
            )
            &&& head == input.dest_branch@
            &&& keep ==> title is None
            &&& !keep ==> title == Some(input.title@)
            &&& !keep ==> body == crate::push_helpers::description(
                input.message@,
                input.depends_on_number,
            )
            &&& keep && pull.body is Some ==> body == crate::push_helpers::description(
                pull.body->0@,
                input.depends_on_number,
            )
            &&& keep && pull.body is None ==> body == crate::push_helpers::description(
                seq![],
                input.depends_on_number,
            )
            &&& pull.base_ref is Some && pull.base_ref->0@ == input.base_branch@ ==> base is None
            &&& pull.base_ref is None || pull.base_ref->0@ != input.base_branch@ ==> base == Some(
                input.base_branch@,
            )
        },
{
    reveal_strlit("");
    assert(""@ =~= seq![]);
}

/// Only creations and updates make a request, and an update only of a pull
/// request with a number.
pub proof fn law_other_actions_make_no_request(
    user: Seq<char>,
    repo: Seq<char>,
    input: PrUpsertInput<'_>,
)
    ensures
        upsert_request(user, repo, input) is Ok <==> input.action == Action::Create || (input.action
            == Action::Update && input.pull is Some && input.pull->0.number is Some),
{
}

/// The pull requests that move are all whose target changes, in their order.
pub proof fn law_moving_are_those_with_another_target(bases: Seq<StaleBaseView>)
    ensures
        moving(bases) == bases.filter(
            |b: StaleBaseView| b.current_base_ref != b.new_base_ref,
        ).map_values(|b: StaleBaseView| b.pull_number),
    decreases bases.len(),
{
    reveal(Seq::filter);
    let f = |b: StaleBaseView| b.current_base_ref != b.new_base_ref;
    let g = |b: StaleBaseView| b.pull_number;
    if bases.len() > 0 {
        let t = bases.drop_last();
        law_moving_are_those_with_another_target(t);
        if f(bases.last()) {
            assert(bases.filter(f).map_values(g) =~= t.filter(f).map_values(g).push(
                g(bases.last()),
            ));
        }
    } else {
        assert(bases.filter(f).map_values(g) =~= seq![]);
    }
}

/// A pull request that was there is kept as it was; a new one is what GitHub
/// replied.
pub proof fn law_created_pull_request_is_githubs(
    existing: &Option<Pull>,
    request: &PrRequest,
    reply: Pull,
    r: Pull,
)
    requires
        call_ensures(upserted_pull, (existing, request, reply), r),
    ensures
        request is Patch && existing is Some ==> r == existing->0,
        existing is None || !(request is Patch) ==> r == reply,
{
}

/// An orphan is removed by its branch.
pub proof fn law_orphan_path_reads(user: &str, repo: &str, branch: &str, r: String)
    requires
        call_ensures(delete_orphan_branch, (user, repo, branch), r),
    ensures
        r@ == "/repos/"@ + user@ + "/"@ + repo@ + "/git/refs/heads/"@ + branch@,
{
}

/// An update needs a pull request with a number.
pub proof fn law_update_needs_its_number(
    user: Seq<char>,
    repo: Seq<char>,
    input: PrUpsertInput<'_>,
)
    requires
        input.action == Action::Update,
    ensures
        input.pull is None ==> upsert_request(user, repo, input) == Err::<PrRequestView, Failure>(
            Failure::Generic("Can't update pull with change.pull unset"@),
        ),
        input.pull is Some && input.pull->0.number is None ==> upsert_request(user, repo, input)
            == Err::<PrRequestView, Failure>(
            Failure::Generic("update pull payload missing `number`"@),
        ),
        input.pull is Some && input.pull->0.number is Some ==> upsert_request(
            user,
            repo,
            input,
        ) is Ok,
{
}

} // verus!
