//! What the stack commands read of a pull request.
use crate::text;
use vstd::prelude::*;

verus! {

/// The `merged_at` field of a pull request.
#[derive(Debug, Clone, Copy, PartialEq, Eq, Structural)]
pub enum MergedAt {
    /// The reply has no such field.
    Absent,
    /// The field is there and empty: the pull request is not merged.
    Null,
    /// The field holds the time of the merge.
    Time,
}

/// A pull request as GitHub reports it. A field is `None` where the reply does
/// not hold it, or holds it with another type.
#[derive(Debug, Clone, PartialEq, Eq)]
pub struct Pull {
    pub number: Option<u64>,
    pub title: Option<String>,
    pub body: Option<String>,
    pub html_url: Option<String>,
    pub state: Option<String>,
    pub merged_at: MergedAt,
    pub merge_commit_sha: Option<String>,
    pub draft: Option<bool>,
    pub mergeable: Option<bool>,
    pub head_ref: Option<String>,
    pub head_sha: Option<String>,
    pub base_ref: Option<String>,
    pub stack_number: Option<u64>,
}

impl Default for Pull {
    /// A reply that holds nothing.
    fn default() -> (r: Pull)
        ensures
            r == Pull::nothing(),
    {
        Pull {
            number: None,
            title: None,
            body: None,
            html_url: None,
            state: None,
            merged_at: MergedAt::Absent,
            merge_commit_sha: None,
            draft: None,
            mergeable: None,
            head_ref: None,
            head_sha: None,
            base_ref: None,
            stack_number: None,
        }
    }
}

impl Pull {
    pub open spec fn nothing() -> Pull {
        Pull {
            number: None,
            title: None,
            body: None,
            html_url: None,
            state: None,
            merged_at: MergedAt::Absent,
            merge_commit_sha: None,
            draft: None,
            mergeable: None,
            head_ref: None,
            head_sha: None,
            base_ref: None,
            stack_number: None,
        }
    }

    pub open spec fn merged(self) -> bool {
        self.merged_at == MergedAt::Time
    }

    pub open spec fn in_state(self, state: Seq<char>) -> bool {
        text::opt_text(self.state) == Some(state)
    }

    /// Whether the pull request is merged.
    pub fn is_merged(&self) -> (r: bool)
        ensures
            r == self.merged(),
    {
        self.merged_at == MergedAt::Time
    }

    /// Whether GitHub reports `state` for the pull request.
    pub fn has_state(&self, state: &str) -> (r: bool)
        ensures
            r == self.in_state(state@),
    {
        text::same_opt(&self.state, state)
    }

    /// A copy of the pull request.
    pub fn copy(&self) -> (r: Pull)
        ensures
            r == *self,
    {
        Pull {
            number: self.number,
            title: text::clone_opt(&self.title),
            body: text::clone_opt(&self.body),
            html_url: text::clone_opt(&self.html_url),
            state: text::clone_opt(&self.state),
            merged_at: self.merged_at,
            merge_commit_sha: text::clone_opt(&self.merge_commit_sha),
            draft: self.draft,
            mergeable: self.mergeable,
            head_ref: text::clone_opt(&self.head_ref),
            head_sha: text::clone_opt(&self.head_sha),
            base_ref: text::clone_opt(&self.base_ref),
            stack_number: self.stack_number,
        }
    }
}

/// A copy of an optional pull request.
pub fn copy_opt(o: &Option<Pull>) -> (r: Option<Pull>)
    ensures
        r == *o,
{
    match o {
        Some(p) => Some(p.copy()),
        None => None,
    }
}

/// The text of an optional field, or a placeholder.
pub open spec fn text_or(o: Option<String>, default: Seq<char>) -> Seq<char> {
    match o {
        Some(s) => s@,
        None => default,
    }
}

/// The text of an optional field, or a placeholder.
pub fn field_or(o: &Option<String>, default: &str) -> (r: String)
    ensures
        r@ == text_or(*o, default@),
{
    match o {
        Some(s) => s.clone(),
        None => default.to_owned(),
    }
}

/// A pull request is merged where GitHub gives the time of the merge, and in a
/// state where GitHub names that very state.
pub proof fn law_state_is_what_github_says(p: Pull, state: Seq<char>)
    ensures
        p.merged() <==> p.merged_at == MergedAt::Time,
        p.in_state(state) <==> p.state is Some && p.state->0@ == state,
        text_or(p.title, state) == (match p.title {
            Some(t) => t@,
            None => state,
        }),
{
}

} // verus!
