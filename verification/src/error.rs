//! The errors of the stack commands.
use vstd::prelude::*;

verus! {

/// Why a stack command failed. The variant picks the exit code, the text is
/// what the user reads.
#[derive(Debug, Clone, PartialEq, Eq)]
pub enum CliError {
    /// Anything without a more precise class.
    Generic(String),
    /// The arguments or the state of the repository do not allow the request.
    InvalidState(String),
    /// No stack, or no commit of the stack, is there to work on.
    StackNotFound(String),
    /// A reply of the GitHub API cannot be used.
    GitHubApi(String),
    /// A rebase stopped on a conflict.
    Conflict(String),
}

/// What a [`CliError`] holds.
pub enum Failure {
    Generic(Seq<char>),
    InvalidState(Seq<char>),
    StackNotFound(Seq<char>),
    GitHubApi(Seq<char>),
    Conflict(Seq<char>),
}

impl View for CliError {
    type V = Failure;

    open spec fn view(&self) -> Failure {
        match self {
            CliError::Generic(s) => Failure::Generic(s@),
            CliError::InvalidState(s) => Failure::InvalidState(s@),
            CliError::StackNotFound(s) => Failure::StackNotFound(s@),
            CliError::GitHubApi(s) => Failure::GitHubApi(s@),
            CliError::Conflict(s) => Failure::Conflict(s@),
        }
    }
}

impl CliError {
    /// The text that the user reads.
    pub fn message(&self) -> (r: &str)
        ensures
            r@ == self@.text(),
    {
        match self {
            CliError::Generic(s) => s.as_str(),
            CliError::InvalidState(s) => s.as_str(),
            CliError::StackNotFound(s) => s.as_str(),
            CliError::GitHubApi(s) => s.as_str(),
            CliError::Conflict(s) => s.as_str(),
        }
    }
}

impl Failure {
    /// The text of the error.
    pub open spec fn text(self) -> Seq<char> {
        match self {
            Failure::Generic(s) => s,
            Failure::InvalidState(s) => s,
            Failure::StackNotFound(s) => s,
            Failure::GitHubApi(s) => s,
            Failure::Conflict(s) => s,
        }
    }
}

/// The contents of a result that is a text.
pub open spec fn text_outcome(r: Result<String, CliError>) -> Result<Seq<char>, Failure> {
    match r {
        Ok(s) => Ok(s@),
        Err(e) => Err(e@),
    }
}

/// The user reads the text of an error, whatever its kind.
pub proof fn law_message_is_the_text(e: &CliError, r: &str, s: String)
    requires
        call_ensures(CliError::message, (e,), r),
        *e == CliError::Generic(s) || *e == CliError::InvalidState(s) || *e
            == CliError::StackNotFound(s) || *e == CliError::GitHubApi(s) || *e
            == CliError::Conflict(s),
    ensures
        r@ == s@,
{
}

} // verus!
