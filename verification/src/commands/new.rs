//! `stack new`: a branch for a new stack.
use crate::error::{CliError, Failure};
use crate::text;
use vstd::prelude::*;

verus! {

/// The branch that a stack starts from.
#[derive(Debug, Clone, PartialEq, Eq)]
pub struct Base {
    pub remote: String,
    pub branch: String,
}

impl Base {
    /// The name of the branch on this machine.
    pub open spec fn name(self) -> Seq<char> {
        self.remote@ + "/"@ + self.branch@
    }

    /// The name of the branch on this machine.
    pub fn refspec(&self) -> (r: String)
        ensures
            r@ == self.name(),
    {
        let mut s = self.remote.clone();
        s.append("/");
        s.append(self.branch.as_str());
        s
    }
}

/// The upstream that a branch got on the way.
#[derive(Debug, Clone, PartialEq, Eq)]
pub struct UpstreamAutoSet {
    pub current_branch: String,
    pub remote: String,
    pub branch: String,
}

/// What was made.
#[derive(Debug, Clone, PartialEq, Eq)]
pub struct Outcome {
    pub upstream_auto_set: Option<UpstreamAutoSet>,
    pub branch_name: String,
    pub base_refspec: String,
    pub checked_out: bool,
}

/// The trunk that a branch has.
#[derive(Debug, Clone, PartialEq, Eq)]
pub struct Trunk {
    pub current_branch: String,
    pub remote: String,
    pub branch: String,
    /// Whether it had to be set.
    pub tracking_set: bool,
}

/// The branch that a new stack starts from, and the upstream that was set on
/// the way: the one that was asked for, else the trunk.
pub fn choose_base(base: Option<Base>, trunk: Result<Trunk, CliError>) -> (r: Result<
    (Base, Option<UpstreamAutoSet>),
    CliError,
>)
    ensures
        match (base, trunk) {
            (Some(b), _) => r matches Ok((x, None)) && x == b,
            (None, Ok(t)) => r matches Ok((x, set)) && x.remote == t.remote && x.branch == t.branch
                && (set is Some) == t.tracking_set && (set matches Some(u) ==> u.current_branch
                == t.current_branch && u.remote == t.remote && u.branch == t.branch),
            (None, Err(e)) => r matches Err(x) && x@ == Failure::StackNotFound(
                "could not determine trunk branch ("@ + e@.text()
                    + "). Please set upstream tracking or use --base to specify the base branch."@,
            ),
        },
{
    match base {
        Some(b) => Ok((b, None)),
        None => match trunk {
            Ok(t) => {
                let set: Option<UpstreamAutoSet> = if t.tracking_set {
                    Some(
                        UpstreamAutoSet {
                            current_branch: t.current_branch.clone(),
                            remote: t.remote.clone(),
                            branch: t.branch.clone(),
                        },
                    )
                } else {
                    None
                };
                Ok((Base { remote: t.remote, branch: t.branch }, set))
            },
            Err(e) => {
                let mut m = "could not determine trunk branch (".to_owned();
                m.append(e.message());
                m.append(
                    "). Please set upstream tracking or use --base to specify the base branch.",
                );
                Err(CliError::StackNotFound(m))
            },
        },
    }
}

/// The arguments that fetch the branch a stack starts from.
pub fn fetch_args(base: &Base) -> (r: Vec<String>)
    ensures
        text::texts(r@) == seq!["fetch"@, base.remote@, base.branch@],
{
    let mut v: Vec<String> = Vec::new();
    v.push("fetch".to_owned());
    v.push(base.remote.clone());
    v.push(base.branch.clone());
    proof {
        assert(text::texts(v@) =~= seq!["fetch"@, base.remote@, base.branch@]);
    }
    v
}

/// The error where that fails.
pub fn fetch_failure(base: &Base, error: &CliError) -> (r: CliError)
    ensures
        r@ == Failure::Generic(
            "failed to fetch from "@ + base.remote@ + ": "@ + error@.text(),
        ),
{
    let mut m = "failed to fetch from ".to_owned();
    m.append(base.remote.as_str());
    m.append(": ");
    m.append(error.message());
    CliError::Generic(m)
}

/// The arguments that make a branch.
pub open spec fn create_branch(name: Seq<char>, base: Seq<char>, checkout: bool) -> Seq<Seq<char>> {
    if checkout {
        seq!["checkout"@, "--track"@, "-b"@, name, base]
    } else {
        seq!["branch"@, "--track"@, name, base]
    }
}

/// The arguments that make the branch of a new stack, and check it out or not.
pub fn create_args(name: &str, base: &Base, checkout: bool) -> (r: Vec<String>)
    ensures
        text::texts(r@) == create_branch(name@, base.name(), checkout),
{
    let mut v: Vec<String> = Vec::new();
    if checkout {
        v.push("checkout".to_owned());
        v.push("--track".to_owned());
        v.push("-b".to_owned());
    } else {
        v.push("branch".to_owned());
        v.push("--track".to_owned());
    }
    v.push(name.to_owned());
    v.push(base.refspec());
    proof {
        assert(text::texts(v@) =~= create_branch(name@, base.name(), checkout));
    }
    v
}

/// The error where that fails.
pub fn create_failure(name: &str, error: &CliError) -> (r: CliError)
    ensures
        r@ == Failure::Generic(
            "failed to create branch '"@ + name@ + "': "@ + error@.text(),
        ),
{
    let mut m = "failed to create branch '".to_owned();
    m.append(name);
    m.append("': ");
    m.append(error.message());
    CliError::Generic(m)
}

/// What was made.
pub fn created(name: &str, base: &Base, set: Option<UpstreamAutoSet>, checkout: bool) -> (r: Outcome)
    ensures
        r.upstream_auto_set == set,
        r.branch_name@ == name@,
        r.base_refspec@ == base.name(),
        r.checked_out == checkout,
{
    Outcome {
        upstream_auto_set: set,
        branch_name: name.to_owned(),
        base_refspec: base.refspec(),
        checked_out: checkout,
    }
}

/// The branch of a new stack follows the branch that it starts from, and is
/// checked out exactly where that is asked for.
pub proof fn law_new_branch_follows_its_base(name: Seq<char>, base: Base)
    ensures
        base.name() == base.remote@ + "/"@ + base.branch@,
        create_branch(name, base.name(), true) == seq![
            "checkout"@,
            "--track"@,
            "-b"@,
            name,
            base.remote@ + "/"@ + base.branch@,
        ],
        create_branch(name, base.name(), false) == seq![
            "branch"@,
            "--track"@,
            name,
            base.remote@ + "/"@ + base.branch@,
        ],
{
}

/// A base that was asked for is taken as it is; without one the trunk is, and an
/// upstream that was set on the way is told.
pub proof fn law_asked_base_comes_first(
    base: Option<Base>,
    trunk: Result<Trunk, CliError>,
    r: Result<(Base, Option<UpstreamAutoSet>), CliError>,
)
    requires
        call_ensures(choose_base, (base, trunk), r),
    ensures
        r is Ok <==> base is Some || trunk is Ok,
        base is Some ==> (r->Ok_0).0 == base->0 && (r->Ok_0).1 is None,
        base is None && trunk is Ok ==> {
            let t = trunk->Ok_0;
            &&& (r->Ok_0).0.remote@ == t.remote@
            &&& (r->Ok_0).0.branch@ == t.branch@
            &&& (r->Ok_0).1 is Some <==> t.tracking_set
            &&& t.tracking_set ==> (r->Ok_0).1->0.current_branch == t.current_branch && (
            r->Ok_0).1->0.remote == t.remote && (r->Ok_0).1->0.branch == t.branch
        },
        r is Err ==> r->Err_0@ is StackNotFound,
{
}

/// What is said of a new branch is what was made.
pub proof fn law_new_branch_is_told(
    name: &str,
    base: &Base,
    set: Option<UpstreamAutoSet>,
    checkout: bool,
    r: Outcome,
    fetch: Vec<String>,
)
    requires
        call_ensures(created, (name, base, set, checkout), r),
        call_ensures(fetch_args, (base,), fetch),
    ensures
        r.branch_name@ == name@,
        r.base_refspec@ == base.remote@ + "/"@ + base.branch@,
        r.upstream_auto_set == set,
        r.checked_out == checkout,
        text::texts(fetch@) == seq!["fetch"@, base.remote@, base.branch@],
{
}

} // verus!
