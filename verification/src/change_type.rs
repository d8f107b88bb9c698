//! Whether an update of a pull request only moved it onto a newer base or
//! changed what it does.
//!
//! `git patch-id --stable` hashes a diff without line numbers and white space:
//! a pure rebase keeps the hash, an edit changes it.
use crate::error::{CliError, Failure};
use crate::text;
use vstd::prelude::*;

verus! {

/// What an update of a pull request was.
#[derive(Debug, Clone, Copy, PartialEq, Eq, Structural)]
pub enum ChangeType {
    /// The first revision.
    Initial,
    /// The same diff on another base.
    Rebase,
    /// Another diff.
    Content,
    /// It could not be told.
    Unknown,
}

impl ChangeType {
    pub open spec fn wire(self) -> Seq<char> {
        match self {
            ChangeType::Initial => "initial"@,
            ChangeType::Rebase => "rebase"@,
            ChangeType::Content => "content"@,
            ChangeType::Unknown => "unknown"@,
        }
    }

    /// The change type that a text writes.
    pub open spec fn of_wire(value: Seq<char>) -> ChangeType {
        if value == "initial"@ {
            ChangeType::Initial
        } else if value == "rebase"@ {
            ChangeType::Rebase
        } else if value == "content"@ {
            ChangeType::Content
        } else {
            ChangeType::Unknown
        }
    }

    /// The name of the change type in revision histories.
    pub fn as_str(self) -> (r: &'static str)
        ensures
            r@ == self.wire(),
    {
        match self {
            ChangeType::Initial => "initial",
            ChangeType::Rebase => "rebase",
            ChangeType::Content => "content",
            ChangeType::Unknown => "unknown",
        }
    }

    /// The change type of a name. What is no name of one is `Unknown`, so that
    /// an old or edited history can still be read.
    pub fn from_str_lossy(value: &str) -> (r: ChangeType)
        ensures
            r == ChangeType::of_wire(value@),
    {
        if text::same(value, "initial") {
            ChangeType::Initial
        } else if text::same(value, "rebase") {
            ChangeType::Rebase
        } else if text::same(value, "content") {
            ChangeType::Content
        } else {
            ChangeType::Unknown
        }
    }
}

/// Reading back the name of a change type gives the change type.
pub proof fn law_wire_round_trip(t: ChangeType)
    ensures
        ChangeType::of_wire(t.wire()) == t,
{
    reveal_strlit("initial");
    reveal_strlit("rebase");
    reveal_strlit("content");
    reveal_strlit("unknown");
    assert("rebase"@.len() == 6);
    assert("initial"@[0] == 'i');
    assert("content"@[0] == 'c');
    assert("unknown"@[0] == 'u');
}

/// The first word of a text.
pub open spec fn first_word(s: Seq<char>) -> Seq<char> {
    let t = text::trim_start(s);
    t.take(text::span(t, text::not_blank()) as int)
}

/// What one run of `git patch-id` on the diff of `sha` gave.
/// `stdout` is its output, or what is wrong with it where it is not UTF-8.
pub open spec fn patch_id_result(
    succeeded: bool,
    stdout: Result<Seq<char>, Seq<char>>,
    stderr: Seq<char>,
    sha: Seq<char>,
) -> Result<Seq<char>, Failure> {
    if !succeeded {
        if text::trim(stderr).len() == 0 {
            Err(Failure::Generic("`git patch-id` failed for "@ + sha))
        } else {
            Err(Failure::Generic(text::trim(stderr)))
        }
    } else {
        match stdout {
            Err(why) => Err(Failure::Generic("`git patch-id` output is not UTF-8: "@ + why)),
            Ok(out) => if first_word(out).len() == 0 {
                Err(Failure::Generic("`git patch-id` printed no patch-id for "@ + sha))
            } else {
                Ok(first_word(out))
            },
        }
    }
}

/// The patch-id that a run of `git patch-id` on the diff of `sha` printed:
/// the first of the two words of its output.
pub fn git_patch_id(succeeded: bool, stdout: Result<String, String>, stderr: &str, sha: &str) -> (r:
    Result<String, CliError>)
    ensures
        crate::error::text_outcome(r) == patch_id_result(
            succeeded,
            crate::git::read_text(stdout),
            stderr@,
            sha@,
        ),
{
    if !succeeded {
        let err = text::trimmed(stderr);
        if err.as_str().is_empty() {
            let mut msg = "`git patch-id` failed for ".to_owned();
            msg.append(sha);
            return Err(CliError::Generic(msg));
        }
        return Err(CliError::Generic(err));
    }
    let out = match stdout {
        Ok(out) => out,
        Err(why) => {
            let mut msg = "`git patch-id` output is not UTF-8: ".to_owned();
            msg.append(why.as_str());
            return Err(CliError::Generic(msg));
        },
    };
    let t = text::trimmed_start(out.as_str());
    let cs = text::chars_of(t.as_str());
    let n: usize = text::leading_word(&cs);
    if n == 0 {
        let mut msg = "`git patch-id` printed no patch-id for ".to_owned();
        msg.append(sha);
        return Err(CliError::Generic(msg));
    }
    proof {
        assert(cs@.subrange(0, n as int) =~= first_word(out@));
    }
    Ok(text::piece(&cs, 0, n))
}

/// What an update was, by the patch-ids of the old and the new commit.
pub open spec fn change_type_of(
    old_id: Result<String, CliError>,
    new_id: Result<String, CliError>,
) -> ChangeType {
    match (old_id, new_id) {
        (Ok(a), Ok(b)) => if a@ == b@ {
            ChangeType::Rebase
        } else {
            ChangeType::Content
        },
        _ => ChangeType::Unknown,
    }
}

/// What an update was, by the patch-ids of the old and the new commit. Where
/// one of them is not to be had it cannot be told, and the push goes on.
pub fn detect_change_type(old_id: &Result<String, CliError>, new_id: &Result<String, CliError>) -> (r:
    ChangeType)
    ensures
        r == change_type_of(*old_id, *new_id),
{
    match (old_id, new_id) {
        (Ok(a), Ok(b)) => if text::same(a.as_str(), b.as_str()) {
            ChangeType::Rebase
        } else {
            ChangeType::Content
        },
        _ => ChangeType::Unknown,
    }
}

/// The ref under which GitHub keeps the head of a pull request.
pub open spec fn pull_head_ref(n: u64) -> Seq<char> {
    "refs/pull/"@ + text::decimal(n as nat) + "/head"@
}

/// The arguments of the `git fetch` that brings the heads of the pull requests
/// before a push overwrites them, or nothing where there are none to bring.
pub fn fetch_old_pr_heads(remote: &str, pr_numbers: &Vec<u64>) -> (r: Option<Vec<String>>)
    ensures
        match r {
            None => pr_numbers.len() == 0,
            Some(args) => pr_numbers.len() > 0 && text::texts(args@) == seq!["fetch"@, remote@]
                + pr_numbers@.map_values(|n: u64| pull_head_ref(n)),
        },
{
    if pr_numbers.len() == 0 {
        return None;
    }
    let ghost refs = pr_numbers@.map_values(|n: u64| pull_head_ref(n));
    let mut args: Vec<String> = Vec::new();
    args.push("fetch".to_owned());
    args.push(remote.to_owned());
    let mut i: usize = 0;
    proof {
        assert(text::texts(args@) =~= seq!["fetch"@, remote@] + refs.take(0));
    }
    while i < pr_numbers.len()
        invariant
            i <= pr_numbers.len(),
            refs == pr_numbers@.map_values(|n: u64| pull_head_ref(n)),
            text::texts(args@) == seq!["fetch"@, remote@] + refs.take(i as int),
        decreases pr_numbers.len() - i,
    {
        let ghost before = text::texts(args@);
        let mut a = "refs/pull/".to_owned();
        a.append(text::decimal_of(pr_numbers[i]).as_str());
        a.append("/head");
        args.push(a);
        proof {
            assert(text::texts(args@) =~= before.push(refs[i as int]));
            assert(before.push(refs[i as int]) =~= seq!["fetch"@, remote@] + refs.take(i + 1));
        }
        i += 1;
    }
    proof {
        assert(refs.take(i as int) =~= refs);
    }
    Some(args)
}

/// The error where that fetch ended with `status`.
pub fn fetch_failure(args: &Vec<String>, status: &str) -> (r: CliError)
    ensures
        r@ == Failure::Generic(
            "`git "@ + text::join(text::texts(args@), " "@) + "` exited "@ + status@,
        ),
{
    let mut msg = "`git ".to_owned();
    msg.append(text::join_with(args, " ").as_str());
    msg.append("` exited ");
    msg.append(status);
    CliError::Generic(msg)
}

/// An update is a rebase exactly where both patch-ids are known and the same,
/// and it changes the content exactly where both are known and differ.
pub proof fn law_same_patch_is_a_rebase(old_id: Result<String, CliError>, new_id: Result<String, CliError>)
    ensures
        change_type_of(old_id, new_id) == ChangeType::Rebase <==> old_id is Ok && new_id is Ok
            && old_id->Ok_0@ == new_id->Ok_0@,
        change_type_of(old_id, new_id) == ChangeType::Content <==> old_id is Ok && new_id is Ok
            && old_id->Ok_0@ != new_id->Ok_0@,
        change_type_of(old_id, new_id) == ChangeType::Unknown <==> old_id is Err || new_id is Err,
{
}

/// The patch-id is the first of the words that git prints, and only of a run
/// that succeeded.
pub proof fn law_patch_id_is_the_first_word(
    id: Seq<char>,
    rest: Seq<char>,
    stderr: Seq<char>,
    sha: Seq<char>,
)
    requires
        id.len() > 0,
        forall|i: int| 0 <= i < id.len() ==> !text::white_space(#[trigger] id[i]),
    ensures
        patch_id_result(true, Ok(id + seq![' '] + rest), stderr, sha) == Ok::<Seq<char>, Failure>(id),
        patch_id_result(false, Ok(id + seq![' '] + rest), stderr, sha) is Err,
        patch_id_result(true, Err(rest), stderr, sha) is Err,
{
    let s = id + seq![' '] + rest;
    assert(s[0] == id[0]);
    text::lemma_span_is(s, text::blank(), 0);
    assert(s.skip(0) =~= s);
    assert(text::trim_start(s) =~= s);
    assert forall|i: int| 0 <= i < id.len() implies text::not_blank()(#[trigger] s[i]) by {
        assert(s[i] == id[i]);
    }
    assert(s[id.len() as int] == ' ');
    text::lemma_span_is(s, text::not_blank(), id.len() as int);
    assert(s.take(id.len() as int) =~= id);
}

/// The head of a pull request is fetched by its number.
pub proof fn law_head_ref_reads(n: u64)
    ensures
        pull_head_ref(n) == "refs/pull/"@ + text::decimal(n as nat) + "/head"@,
{
}

/// The heads of all pull requests are fetched in one call, and without one there
/// is none to make.
pub proof fn law_heads_are_fetched_together(
    remote: &str,
    numbers: &Vec<u64>,
    r: Option<Vec<String>>,
    i: int,
)
    requires
        call_ensures(fetch_old_pr_heads, (remote, numbers), r),
        0 <= i < numbers@.len(),
    ensures
        r is Some,
        r->0@.len() == numbers@.len() + 2,
        r->0@[0]@ == "fetch"@,
        r->0@[1]@ == remote@,
        r->0@[i + 2]@ == "refs/pull/"@ + text::decimal(numbers@[i] as nat) + "/head"@,
{
    let all = text::texts(r->0@);
    assert(all.len() == r->0@.len());
    assert(all[0] == r->0@[0]@);
    assert(all[1] == r->0@[1]@);
    assert(all[i + 2] == r->0@[i + 2]@);
    law_head_ref_reads(numbers@[i]);
}

} // verus!
