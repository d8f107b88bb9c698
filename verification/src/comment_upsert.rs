//! What a push does to the two comments that it keeps on each pull request:
//! the one that shows the stack, and the revision history.
use crate::change_type::ChangeType;
use crate::error::{CliError, Failure};
use crate::outside;
use crate::revision_history;
use crate::revision_history::RevisionHistoryComment;
use crate::text;
use crate::timestamp::Timestamp;
use vstd::prelude::*;

verus! {

/// A comment on a pull request.
#[derive(Debug, Clone, PartialEq, Eq)]
pub struct Comment {
    /// Where it can be changed, as an absolute address.
    pub url: String,
    pub body: String,
}

/// A comment as the contracts see it.
pub struct CommentView {
    pub url: Seq<char>,
    pub body: Seq<char>,
}

impl View for Comment {
    type V = CommentView;

    open spec fn view(&self) -> CommentView {
        CommentView { url: self.url@, body: self.body@ }
    }
}

/// The contents of some comments.
pub open spec fn comment_views(v: Seq<Comment>) -> Seq<CommentView> {
    v.map_values(|c: Comment| c@)
}

/// What to do about a comment.
#[derive(Debug, Clone, PartialEq, Eq)]
pub enum CommentAction {
    Nothing,
    /// Change the comment at `path`.
    Patch { path: String, body: String },
    /// Add a comment.
    Post { path: String, body: String },
}

/// What to do about a comment, as the contracts see it.
pub enum CommentActionView {
    Nothing,
    Patch { path: Seq<char>, body: Seq<char> },
    Post { path: Seq<char>, body: Seq<char> },
}

impl View for CommentAction {
    type V = CommentActionView;

    open spec fn view(&self) -> CommentActionView {
        match self {
            CommentAction::Nothing => CommentActionView::Nothing,
            CommentAction::Patch { path, body } => CommentActionView::Patch {
                path: path@,
                body: body@,
            },
            CommentAction::Post { path, body } => CommentActionView::Post {
                path: path@,
                body: body@,
            },
        }
    }
}

/// The contents of an outcome.
pub open spec fn action_outcome(r: Result<CommentAction, CliError>) -> Result<
    CommentActionView,
    Failure,
> {
    match r {
        Ok(a) => Ok(a@),
        Err(e) => Err(e@),
    }
}

/// The path of the comments on a pull request.
pub open spec fn comments_path_text(user: Seq<char>, repo: Seq<char>, pull_number: u64) -> Seq<
    char,
> {
    "/repos/"@ + user + "/"@ + repo + "/issues/"@ + text::decimal(pull_number as nat) + "/comments"@
}

/// The path of the comments on a pull request.
pub fn comments_path(user: &str, repo: &str, pull_number: u64) -> (r: String)
    ensures
        r@ == comments_path_text(user@, repo@, pull_number),
{
    let mut p = "/repos/".to_owned();
    p.append(user);
    p.append("/");
    p.append(repo);
    p.append("/issues/");
    p.append(text::decimal_of(pull_number).as_str());
    p.append("/comments");
    p
}

/// A path with its query.
pub open spec fn target(path: Seq<char>, query: Option<Seq<char>>) -> Seq<char> {
    match query {
        Some(q) => path + "?"@ + q,
        None => path,
    }
}

/// A path with its query.
pub fn path_and_query(path: &str, query: Option<&str>) -> (r: String)
    ensures
        r@ == target(path@, text::opt_str(query)),
{
    let mut p = path.to_owned();
    if let Some(q) = query {
        p.append("?");
        p.append(q);
    }
    p
}

/// The path of the comment at an absolute address.
pub open spec fn path_of_comment(url: Seq<char>) -> Result<Seq<char>, Failure> {
    match outside::url_parsed(url) {
        Ok((path, query)) => Ok(target(path, query)),
        Err(e) => Err(
            Failure::GitHubApi(
                "comment payload had unparseable `url`: "@ + outside::debug_text(url) + " ("@ + e
                    + ")"@,
            ),
        ),
    }
}

/// The path of the comment at an absolute address. Requests are made by path,
/// so that a reply cannot send them elsewhere.
pub fn comment_path(absolute_url: &str) -> (r: Result<String, CliError>)
    ensures
        crate::error::text_outcome(r) == path_of_comment(absolute_url@),
{
    match outside::parse_url(absolute_url) {
        Ok((path, query)) => {
            let q: Option<&str> = match &query {
                Some(q) => Some(q.as_str()),
                None => None,
            };
            Ok(path_and_query(path.as_str(), q))
        },
        Err(e) => {
            let mut m = "comment payload had unparseable `url`: ".to_owned();
            m.append(outside::debug_of(absolute_url).as_str());
            m.append(" (");
            m.append(e.as_str());
            m.append(")");
            Err(CliError::GitHubApi(m))
        },
    }
}

/// The change of a comment to `body`.
pub open spec fn patched(c: CommentView, body: Seq<char>) -> Result<CommentActionView, Failure> {
    match path_of_comment(c.url) {
        Ok(path) => Ok(CommentActionView::Patch { path, body }),
        Err(e) => Err(e),
    }
}

/// The change of a comment to `body`, where it has another one.
pub open spec fn patched_if_changed(c: CommentView, body: Seq<char>) -> Result<
    CommentActionView,
    Failure,
> {
    if c.body == body {
        Ok(CommentActionView::Nothing)
    } else {
        patched(c, body)
    }
}

fn patch(comment: &Comment, body: String) -> (r: Result<CommentAction, CliError>)
    ensures
        action_outcome(r) == patched(comment@, body@),
{
    match comment_path(comment.url.as_str()) {
        Ok(path) => Ok(CommentAction::Patch { path, body }),
        Err(e) => Err(e),
    }
}

fn patch_if_changed(comment: &Comment, body: String) -> (r: Result<CommentAction, CliError>)
    ensures
        action_outcome(r) == patched_if_changed(comment@, body@),
{
    if text::same(comment.body.as_str(), body.as_str()) {
        return Ok(CommentAction::Nothing);
    }
    patch(comment, body)
}

// ---------------------------------------------------------------------------
// The comment that shows the stack
// ---------------------------------------------------------------------------

/// What to do about the comment that shows the stack. `ours` says which
/// comments are such.
pub open spec fn stack_comment_action(
    comments: Seq<CommentView>,
    ours: Seq<bool>,
    path: Seq<char>,
    new_body: Seq<char>,
    total_pulls: nat,
) -> Result<CommentActionView, Failure>
    decreases comments.len(),
{
    if comments.len() == 0 {
        if total_pulls <= 1 {
            Ok(CommentActionView::Nothing)
        } else {
            Ok(CommentActionView::Post { path, body: new_body })
        }
    } else if ours[0] {
        patched_if_changed(comments[0], new_body)
    } else {
        stack_comment_action(
            comments.drop_first(),
            ours.drop_first(),
            path,
            new_body,
            total_pulls,
        )
    }
}

/// What to do about the comment on pull request `pull_number` that shows the
/// stack: the first one that is such is changed where it differs, and without
/// one it is added. A stack of one pull request gets none, but one that is
/// there is kept up to date.
pub fn update_stack_comment_for_pull(
    user: &str,
    repo: &str,
    pull_number: u64,
    comments: &Vec<Comment>,
    ours: &Vec<bool>,
    new_body: &str,
    total_pulls: usize,
) -> (r: Result<CommentAction, CliError>)
    requires
        ours.len() == comments.len(),
    ensures
        action_outcome(r) == stack_comment_action(
            comment_views(comments@),
            ours@,
            comments_path_text(user@, repo@, pull_number),
            new_body@,
            total_pulls as nat,
        ),
{
    let path = comments_path(user, repo, pull_number);
    let ghost all = comment_views(comments@);
    let ghost goal = stack_comment_action(all, ours@, path@, new_body@, total_pulls as nat);
    let mut i: usize = 0;
    proof {
        assert(all.skip(0) =~= all);
        assert(ours@.skip(0) =~= ours@);
    }
    while i < comments.len()
        invariant
            i <= comments.len(),
            ours.len() == comments.len(),
            all == comment_views(comments@),
            goal == stack_comment_action(
                all,
                ours@,
                comments_path_text(user@, repo@, pull_number),
                new_body@,
                total_pulls as nat,
            ),
            path@ == comments_path_text(user@, repo@, pull_number),
            goal == stack_comment_action(
                all.skip(i as int),
                ours@.skip(i as int),
                path@,
                new_body@,
                total_pulls as nat,
            ),
        decreases comments.len() - i,
    {
        proof {
            assert(all.skip(i as int).drop_first() =~= all.skip(i + 1));
            assert(ours@.skip(i as int).drop_first() =~= ours@.skip(i + 1));
            assert(all.skip(i as int)[0] == comments@[i as int]@);
            assert(ours@.skip(i as int)[0] == ours@[i as int]);
        }
        if ours[i] {
            return patch_if_changed(&comments[i], new_body.to_owned());
        }
        i += 1;
    }
    if total_pulls <= 1 {
        return Ok(CommentAction::Nothing);
    }
    Ok(CommentAction::Post { path, body: new_body.to_owned() })
}

// ---------------------------------------------------------------------------
// The revision history
// ---------------------------------------------------------------------------

/// A revision to add to the history of a pull request.
#[derive(Debug, Clone)]
pub struct RevisionInput<'a> {
    pub pull_number: u64,
    pub old_sha: &'a str,
    pub new_sha: &'a str,
    pub change_type: ChangeType,
    pub reason: &'a str,
    pub replay_sha: Option<&'a str>,
    pub timestamp: Timestamp,
}

/// The revision that an input adds as number `number`.
pub open spec fn input_entry(input: RevisionInput<'_>, number: u32) -> revision_history::EntryView {
    revision_history::EntryView {
        number,
        change_type: input.change_type,
        old_sha: Some(input.old_sha@),
        new_sha: input.new_sha@,
        timestamp: Some(input.timestamp@),
        reason: input.reason@,
        replay_sha: text::opt_str(input.replay_sha),
    }
}

/// The history that starts with an input.
pub open spec fn fresh_history(
    github_server: Seq<char>,
    user: Seq<char>,
    repo: Seq<char>,
    input: RevisionInput<'_>,
) -> revision_history::HistoryView {
    revision_history::HistoryView {
        github_server,
        user,
        repo,
        entries: seq![
            revision_history::EntryView {
                number: 1,
                change_type: ChangeType::Initial,
                old_sha: None,
                new_sha: input.old_sha@,
                timestamp: Some(input.timestamp@),
                reason: seq![],
                replay_sha: None,
            },
            input_entry(input, 2),
        ],
        raw_rows: seq![],
    }
}

/// The history that a comment holds, with an input added to it. A comment that
/// cannot be read is started again.
pub open spec fn next_history(
    parsed: Option<revision_history::HistoryView>,
    github_server: Seq<char>,
    user: Seq<char>,
    repo: Seq<char>,
    input: RevisionInput<'_>,
) -> revision_history::HistoryView {
    match parsed {
        Some(h) => revision_history::HistoryView {
            entries: h.entries.push(
                input_entry(
                    input,
                    if h.entries.len() < u32::MAX {
                        (h.entries.len() + 1) as u32
                    } else {
                        u32::MAX
                    },
                ),
            ),
            ..h
        },
        None => fresh_history(github_server, user, repo, input),
    }
}

/// The text of the history that was read, with an input added to it.
pub fn next_body(
    parsed: Option<RevisionHistoryComment>,
    github_server: &str,
    user: &str,
    repo: &str,
    input: &RevisionInput<'_>,
) -> (r: String)
    requires
        text::cuts_at(input.old_sha@, 7),
        text::cuts_at(input.new_sha@, 7),
        parsed matches Some(h) ==> revision_history::writable(h@),
    ensures
        r@ == revision_history::body_text(
            next_history(
                match parsed {
                    Some(h) => Some(h@),
                    None => None,
                },
                github_server@,
                user@,
                repo@,
                *input,
            ),
            input.pull_number,
        ),
{
    match parsed {
        Some(h) => {
            let mut history = h;
            history.append(
                input.old_sha,
                input.new_sha,
                input.change_type,
                input.timestamp,
                input.reason,
                input.replay_sha,
            );
            proof {
                assert forall|i: int|
                    history@.raw_rows.len() <= i < history@.entries.len() implies
                    revision_history::entry_cuts(#[trigger] history@.entries[i]) by {
                    if i < h@.entries.len() {
                        assert(history@.entries[i] == h@.entries[i]);
                    }
                }
            }
            history.body(input.pull_number)
        },
        None => {
            let history = RevisionHistoryComment::create_initial(
                github_server,
                user,
                repo,
                input.old_sha,
                input.new_sha,
                input.change_type,
                input.timestamp,
                input.reason,
                input.replay_sha,
            );
            proof {
                assert(history@ == fresh_history(github_server@, user@, repo@, *input));
            }
            history.body(input.pull_number)
        },
    }
}

/// Which comments are revision histories.
pub open spec fn history_flags(comments: Seq<Comment>) -> Seq<bool> {
    comments.map_values(
        |c: Comment| revision_history::REVISION_COMMENT_FIRST_LINE@.is_prefix_of(c.body@),
    )
}

/// What to do to let the revision history of a pull request be `body`: the
/// first comment that is one is changed where it differs, and without one it
/// is added.
pub fn upsert_revision_history_comment(
    user: &str,
    repo: &str,
    pull_number: u64,
    comments: &Vec<Comment>,
    body: &str,
) -> (r: Result<CommentAction, CliError>)
    ensures
        action_outcome(r) == stack_comment_action(
            comment_views(comments@),
            history_flags(comments@),
            comments_path_text(user@, repo@, pull_number),
            body@,
            2,
        ),
{
    let ghost flags = history_flags(comments@);
    let mut ours: Vec<bool> = Vec::new();
    let mut i: usize = 0;
    while i < comments.len()
        invariant
            i <= comments.len(),
            flags == history_flags(comments@),
            ours@ == flags.take(i as int),
        decreases comments.len() - i,
    {
        ours.push(RevisionHistoryComment::is_revision_comment(comments[i].body.as_str()));
        proof {
            assert(flags.take(i + 1) =~= flags.take(i as int).push(flags[i as int]));
        }
        i += 1;
    }
    proof {
        assert(flags.take(i as int) =~= flags);
    }
    update_stack_comment_for_pull(user, repo, pull_number, comments, &ours, body, 2)
}

/// What to do about the revision history of a pull request.
pub open spec fn revision_action(
    comments: Seq<CommentView>,
    path: Seq<char>,
    github_server: Seq<char>,
    user: Seq<char>,
    repo: Seq<char>,
    input: RevisionInput<'_>,
) -> Result<CommentActionView, Failure>
    decreases comments.len(),
{
    if comments.len() == 0 {
        Ok(
            CommentActionView::Post {
                path,
                body: revision_history::body_text(
                    fresh_history(github_server, user, repo, input),
                    input.pull_number,
                ),
            },
        )
    } else if revision_history::REVISION_COMMENT_FIRST_LINE@.is_prefix_of(comments[0].body) {
        let parsed = revision_history::parsed(comments[0].body, github_server, user, repo);
        let body = revision_history::body_text(
            next_history(parsed, github_server, user, repo, input),
            input.pull_number,
        );
        if parsed is Some {
            patched_if_changed(comments[0], body)
        } else {
            patched(comments[0], body)
        }
    } else {
        revision_action(comments.drop_first(), path, github_server, user, repo, input)
    }
}

/// What to do about the revision history of a pull request: the first comment
/// that is one gets the revision added, with its rows kept as they are, or is
/// started again where it cannot be read. Without one, one is added.
pub fn update_revision_history_for_pull(
    user: &str,
    repo: &str,
    github_server: &str,
    comments: &Vec<Comment>,
    input: &RevisionInput<'_>,
) -> (r: Result<CommentAction, CliError>)
    requires
        text::cuts_at(input.old_sha@, 7),
        text::cuts_at(input.new_sha@, 7),
    ensures
        action_outcome(r) == revision_action(
            comment_views(comments@),
            comments_path_text(user@, repo@, input.pull_number),
            github_server@,
            user@,
            repo@,
            *input,
        ),
{
    let path = comments_path(user, repo, input.pull_number);
    let ghost all = comment_views(comments@);
    let mut i: usize = 0;
    proof {
        assert(all.skip(0) =~= all);
    }
    while i < comments.len()
        invariant
            i <= comments.len(),
            text::cuts_at(input.old_sha@, 7),
            text::cuts_at(input.new_sha@, 7),
            all == comment_views(comments@),
            path@ == comments_path_text(user@, repo@, input.pull_number),
            revision_action(all, path@, github_server@, user@, repo@, *input) == revision_action(
                all.skip(i as int),
                path@,
                github_server@,
                user@,
                repo@,
                *input,
            ),
        decreases comments.len() - i,
    {
        proof {
            assert(all.skip(i as int).drop_first() =~= all.skip(i + 1));
            assert(all.skip(i as int)[0] == comments@[i as int]@);
        }
        let comment = &comments[i];
        if RevisionHistoryComment::is_revision_comment(comment.body.as_str()) {
            let parsed = RevisionHistoryComment::parse(
                comment.body.as_str(),
                github_server,
                user,
                repo,
            );
            proof {
                revision_history::lemma_row_for_each(text::lines(comment.body@));
            }
            let readable: bool = parsed.is_some();
            let body = next_body(parsed, github_server, user, repo, input);
            if readable {
                return patch_if_changed(comment, body);
            }
            return patch(comment, body);
        }
        i += 1;
    }
    let body = next_body(None, github_server, user, repo, input);
    Ok(CommentAction::Post { path, body })
}

/// A push of the same stack again leaves the comment that shows it alone: the
/// comment that was written is not written again.
pub proof fn law_unchanged_comment_stays(
    comments: Seq<CommentView>,
    ours: Seq<bool>,
    path: Seq<char>,
    body: Seq<char>,
    total_pulls: nat,
    k: int,
)
    requires
        ours.len() == comments.len(),
        0 <= k < comments.len(),
        ours[k],
        forall|j: int| 0 <= j < k ==> !#[trigger] ours[j],
        comments[k].body == body,
    ensures
        stack_comment_action(comments, ours, path, body, total_pulls) == Ok::<
            CommentActionView,
            Failure,
        >(CommentActionView::Nothing),
    decreases k,
{
    if k > 0 {
        assert(!ours[0]);
        assert forall|j: int| 0 <= j < k - 1 implies !#[trigger] ours.drop_first()[j] by {
            assert(ours.drop_first()[j] == ours[j + 1]);
        }
        law_unchanged_comment_stays(
            comments.drop_first(),
            ours.drop_first(),
            path,
            body,
            total_pulls,
            k - 1,
        );
    }
}

/// A pull request never gets a second revision history: one is only added
/// where no comment is one.
pub proof fn law_one_revision_history(
    comments: Seq<CommentView>,
    path: Seq<char>,
    github_server: Seq<char>,
    user: Seq<char>,
    repo: Seq<char>,
    input: RevisionInput<'_>,
    k: int,
)
    requires
        0 <= k < comments.len(),
        revision_history::REVISION_COMMENT_FIRST_LINE@.is_prefix_of(comments[k].body),
    ensures
        !(revision_action(comments, path, github_server, user, repo, input) matches Ok(
            CommentActionView::Post { .. },
        )),
    decreases k,
{
    if k > 0 && !revision_history::REVISION_COMMENT_FIRST_LINE@.is_prefix_of(comments[0].body) {
        law_one_revision_history(
            comments.drop_first(),
            path,
            github_server,
            user,
            repo,
            input,
            k - 1,
        );
    }
}

/// The first comment that shows the stack is changed where it says something
/// else, at its own address; those after it are left alone.
pub proof fn law_first_own_comment_is_changed(
    comments: Seq<CommentView>,
    ours: Seq<bool>,
    path: Seq<char>,
    body: Seq<char>,
    total_pulls: nat,
    k: int,
)
    requires
        ours.len() == comments.len(),
        0 <= k < comments.len(),
        ours[k],
        forall|j: int| 0 <= j < k ==> !#[trigger] ours[j],
        comments[k].body != body,
    ensures
        match outside::url_parsed(comments[k].url) {
            Ok((at, None)) => stack_comment_action(comments, ours, path, body, total_pulls) == Ok::<
                CommentActionView,
                Failure,
            >(CommentActionView::Patch { path: at, body }),
            Ok((at, Some(query))) => stack_comment_action(comments, ours, path, body, total_pulls)
                == Ok::<CommentActionView, Failure>(
                CommentActionView::Patch { path: at + "?"@ + query, body },
            ),
            Err(_) => stack_comment_action(comments, ours, path, body, total_pulls) is Err,
        },
    decreases k,
{
    if k > 0 {
        assert(!ours[0]);
        assert forall|j: int| 0 <= j < k - 1 implies !#[trigger] ours.drop_first()[j] by {
            assert(ours.drop_first()[j] == ours[j + 1]);
        }
        law_first_own_comment_is_changed(
            comments.drop_first(),
            ours.drop_first(),
            path,
            body,
            total_pulls,
            k - 1,
        );
    }
}

/// Where no comment shows the stack, one is added, unless the stack is a single
/// pull request.
pub proof fn law_missing_comment_is_added(
    comments: Seq<CommentView>,
    ours: Seq<bool>,
    path: Seq<char>,
    body: Seq<char>,
    total_pulls: nat,
)
    requires
        ours.len() == comments.len(),
        forall|j: int| 0 <= j < ours.len() ==> !#[trigger] ours[j],
    ensures
        stack_comment_action(comments, ours, path, body, total_pulls) == Ok::<
            CommentActionView,
            Failure,
        >(
            if total_pulls > 1 {
                CommentActionView::Post { path, body }
            } else {
                CommentActionView::Nothing
            },
        ),
    decreases comments.len(),
{
    if comments.len() > 0 {
        assert(!ours[0]);
        assert forall|j: int| 0 <= j < ours.drop_first().len() implies !#[trigger] ours.drop_first()[j] by {
            assert(ours.drop_first()[j] == ours[j + 1]);
        }
        law_missing_comment_is_added(
            comments.drop_first(),
            ours.drop_first(),
            path,
            body,
            total_pulls,
        );
    }
}

/// A comment is a revision history exactly where it starts with the heading of
/// one.
pub proof fn law_history_is_told_by_its_heading(comments: Seq<Comment>, i: int)
    requires
        0 <= i < comments.len(),
    ensures
        history_flags(comments).len() == comments.len(),
        history_flags(comments)[i] <==> "### Revision history\n"@.is_prefix_of(comments[i].body@),
{
}

/// The first comment that is a revision history gets the revision; where it
/// cannot be read, its place is taken by a new history. Those after it are left
/// alone, and without one a new history is added.
pub proof fn law_first_history_gets_the_revision(
    comments: Seq<CommentView>,
    path: Seq<char>,
    server: Seq<char>,
    user: Seq<char>,
    repo: Seq<char>,
    input: RevisionInput<'_>,
    k: int,
)
    requires
        0 <= k <= comments.len(),
        forall|j: int|
            0 <= j < k ==> !"### Revision history\n"@.is_prefix_of((#[trigger] comments[j]).body),
        k < comments.len() ==> "### Revision history\n"@.is_prefix_of(comments[k].body),
    ensures
        ({
            let r = revision_action(comments, path, server, user, repo, input);
            let n = input.pull_number;
            let fresh = revision_history::body_text(fresh_history(server, user, repo, input), n);
            if k == comments.len() {
                r == Ok::<CommentActionView, Failure>(CommentActionView::Post { path, body: fresh })
            } else {
                match revision_history::parsed(comments[k].body, server, user, repo) {
                    None => r == patched(comments[k], fresh),
                    Some(h) => {
                        let body = revision_history::body_text(
                            next_history(Some(h), server, user, repo, input),
                            n,
                        );
                        &&& comments[k].body == body ==> r == Ok::<CommentActionView, Failure>(
                            CommentActionView::Nothing,
                        )
                        &&& comments[k].body != body ==> r == patched(comments[k], body)
                    },
                }
            }
        }),
    decreases comments.len(),
{
    if k > 0 {
        assert(!"### Revision history\n"@.is_prefix_of(comments[0].body));
        let t = comments.drop_first();
        assert forall|j: int| 0 <= j < k - 1 implies !"### Revision history\n"@.is_prefix_of(
            (#[trigger] t[j]).body,
        ) by {
            assert(t[j] == comments[j + 1]);
        }
        law_first_history_gets_the_revision(t, path, server, user, repo, input, k - 1);
    }
}

/// A comment is changed at the path of its own address, with the new text.
pub proof fn law_comment_is_changed_in_place(c: CommentView, body: Seq<char>)
    ensures
        match outside::url_parsed(c.url) {
            Ok((at, None)) => patched(c, body) == Ok::<CommentActionView, Failure>(
                CommentActionView::Patch { path: at, body },
            ),
            Ok((at, Some(query))) => patched(c, body) == Ok::<CommentActionView, Failure>(
                CommentActionView::Patch { path: at + "?"@ + query, body },
            ),
            Err(_) => patched(c, body) matches Err(Failure::GitHubApi(_)),
        },
{
}

/// A history keeps all its revisions and gets one more: the next number, the old
/// and the new head of the update, its kind, its time, its reason and its replay.
pub proof fn law_revision_is_added_at_the_end(
    h: revision_history::HistoryView,
    server: Seq<char>,
    user: Seq<char>,
    repo: Seq<char>,
    input: RevisionInput<'_>,
)
    requires
        h.entries.len() < u32::MAX,
    ensures
        ({
            let next = next_history(Some(h), server, user, repo, input);
            let e = next.entries.last();
            &&& next.entries.drop_last() == h.entries
            &&& next.raw_rows == h.raw_rows
            &&& next.github_server == h.github_server && next.user == h.user && next.repo == h.repo
            &&& e.number == h.entries.len() + 1
            &&& e.old_sha == Some(input.old_sha@)
            &&& e.new_sha == input.new_sha@
            &&& e.change_type == input.change_type
            &&& e.timestamp == Some(input.timestamp@)
            &&& e.reason == input.reason@
            &&& input.replay_sha is Some ==> e.replay_sha == Some(input.replay_sha->0@)
            &&& input.replay_sha is None ==> e.replay_sha is None
        }),
{
    let next = next_history(Some(h), server, user, repo, input);
    assert(next.entries.drop_last() =~= h.entries);
}

/// A new history has two revisions: the head that the pull request had, and the
/// update.
pub proof fn law_new_history_starts_with_the_old_head(
    server: Seq<char>,
    user: Seq<char>,
    repo: Seq<char>,
    input: RevisionInput<'_>,
)
    ensures
        ({
            let h = next_history(None, server, user, repo, input);
            let a = h.entries[0];
            let b = h.entries[1];
            &&& h.entries.len() == 2
            &&& h.raw_rows.len() == 0
            &&& h.github_server == server && h.user == user && h.repo == repo
            &&& a.number == 1 && a.change_type == ChangeType::Initial && a.old_sha is None
            &&& a.new_sha == input.old_sha@ && a.timestamp == Some(input.timestamp@)
            &&& a.reason.len() == 0 && a.replay_sha is None
            &&& b.number == 2 && b.change_type == input.change_type
            &&& b.old_sha == Some(input.old_sha@) && b.new_sha == input.new_sha@
            &&& b.timestamp == Some(input.timestamp@) && b.reason == input.reason@
            &&& input.replay_sha is Some ==> b.replay_sha == Some(input.replay_sha->0@)
            &&& input.replay_sha is None ==> b.replay_sha is None
        }),
{
}

/// The comments of a pull request are those of the issue with its number.
pub proof fn law_comments_path_reads(user: Seq<char>, repo: Seq<char>, n: u64)
    ensures
        comments_path_text(user, repo, n) == "/repos/"@ + user + "/"@ + repo + "/issues/"@
            + text::decimal(n as nat) + "/comments"@,
{
}

} // verus!
