//! The local commits of a stack, read from `git log`.
//!
//! The log is asked for one record per commit, oldest first, the records
//! ended by the ASCII record separator and their fields separated by NUL:
//! SHA, subject, body and note. A commit without a `Change-Id:` trailer fails
//! the walk, so that partial results never reach a caller.
use crate::change_id;
use crate::error::{CliError, Failure};
use crate::outside;
use crate::text;
use vstd::prelude::*;

verus! {

/// The notes ref that holds why commits were amended.
pub const STACK_NOTES_REF: &'static str = "refs/notes/mergify/stack";

/// One commit of the local stack.
#[derive(Debug, Clone, PartialEq, Eq)]
pub struct LocalCommit {
    /// The full commit SHA.
    pub commit_sha: String,
    /// The subject line.
    pub title: String,
    /// The message body.
    pub message: String,
    /// The `Change-Id:` of the message.
    pub change_id: String,
    /// The branch suffix `<slug>--<hex8>` of the commit.
    pub slug: String,
    /// Why the commit was amended, or nothing.
    pub note: String,
}

/// What a log record says of a commit.
pub struct CommitFields {
    pub commit_sha: Seq<char>,
    pub title: Seq<char>,
    pub message: Seq<char>,
    pub change_id: Seq<char>,
    pub note: Seq<char>,
}

impl LocalCommit {
    pub open spec fn fields(self) -> CommitFields {
        CommitFields {
            commit_sha: self.commit_sha@,
            title: self.title@,
            message: self.message@,
            change_id: self.change_id@,
            note: self.note@,
        }
    }
}

/// The pieces of `s` between the first `n - 1` characters `sep`.
pub open spec fn split_at_most(s: Seq<char>, sep: char, n: nat) -> Seq<Seq<char>>
    decreases n,
{
    let k = text::span(s, text::is_not(sep)) as int;
    if n <= 1 || k >= s.len() {
        seq![s]
    } else {
        seq![s.take(k)] + split_at_most(s.skip(k + 1), sep, (n - 1) as nat)
    }
}

/// The pieces of `s` between the first `n - 1` characters `sep`.
fn splitn(s: &str, sep: char, n: usize) -> (r: Vec<String>)
    ensures
        text::texts(r@) == split_at_most(s@, sep, n as nat),
{
    let cs = text::chars_of(s);
    let mut out: Vec<String> = Vec::new();
    let mut start: usize = 0;
    let mut left: usize = n;
    let mut end: usize = text::index_of(&cs, sep, 0);
    proof {
        assert(cs@.skip(0) =~= cs@);
        assert(text::texts(out@) + split_at_most(cs@, sep, n as nat) =~= split_at_most(cs@, sep, n as nat));
    }
    while left > 1 && end < cs.len()
        invariant
            start <= end <= cs.len(),
            end - start == text::span(cs@.skip(start as int), text::is_not(sep)),
            text::texts(out@) + split_at_most(cs@.skip(start as int), sep, left as nat) == split_at_most(
                cs@,
                sep,
                n as nat,
            ),
        decreases left,
    {
        let ghost rest = cs@.skip(start as int);
        let ghost before = text::texts(out@);
        out.push(text::piece(&cs, start, end));
        proof {
            assert(cs@.subrange(start as int, end as int) =~= rest.take(end - start));
            assert(rest.skip(end - start + 1) =~= cs@.skip(end + 1));
            assert(text::texts(out@) =~= before.push(rest.take(end - start)));
            assert(text::texts(out@) + split_at_most(cs@.skip(end + 1), sep, (left - 1) as nat)
                =~= before + split_at_most(rest, sep, left as nat));
        }
        start = end + 1;
        left -= 1;
        end = text::index_of(&cs, sep, start);
    }
    let ghost before = text::texts(out@);
    out.push(text::piece(&cs, start, cs.len()));
    proof {
        assert(cs@.subrange(start as int, cs@.len() as int) =~= cs@.skip(start as int));
        assert(text::texts(out@) =~= before + seq![cs@.skip(start as int)]);
    }
    out
}

/// What a log record says, or why it cannot be used.
pub open spec fn record_fields(record: Seq<char>) -> Result<CommitFields, Failure> {
    let parts = split_at_most(record, '\0', 4);
    if parts.len() < 4 {
        Err(Failure::Generic("Unexpected git log record format: "@ + outside::debug_text(record)))
    } else {
        match change_id::message_id(text::trim(parts[2])) {
            None => Err(
                Failure::InvalidState(
                    "`Change-Id:` line is missing on commit "@ + text::trim(parts[0]),
                ),
            ),
            Some(id) => Ok(
                CommitFields {
                    commit_sha: text::trim(parts[0]),
                    title: text::trim(parts[1]),
                    message: text::trim(parts[2]),
                    change_id: id,
                    note: text::trim(parts[3]),
                },
            ),
        }
    }
}

/// The commits of a list of records, blank records left out, or the first
/// error.
pub open spec fn all_fields(records: Seq<Seq<char>>) -> Result<Seq<CommitFields>, Failure>
    decreases records.len(),
{
    if records.len() == 0 {
        Ok(seq![])
    } else {
        match all_fields(records.drop_last()) {
            Err(e) => Err(e),
            Ok(out) => {
                let record = text::trim(records.last());
                if record.len() == 0 {
                    Ok(out)
                } else {
                    match record_fields(record) {
                        Ok(c) => Ok(out.push(c)),
                        Err(e) => Err(e),
                    }
                }
            },
        }
    }
}

/// The commits that a log lists.
pub open spec fn parsed(raw: Seq<char>) -> Result<Seq<CommitFields>, Failure> {
    all_fields(text::split(raw, '\x1e'))
}

proof fn lemma_all_fields_error(records: Seq<Seq<char>>, n: int)
    requires
        0 <= n <= records.len(),
        all_fields(records.take(n)) is Err,
    ensures
        all_fields(records) == all_fields(records.take(n)),
    decreases records.len() - n,
{
    if n < records.len() {
        assert(records.take(n + 1).drop_last() =~= records.take(n));
        lemma_all_fields_error(records, n + 1);
    } else {
        assert(records.take(n) =~= records);
    }
}

/// The fields of the commits `v`.
pub open spec fn fields_of(v: Seq<LocalCommit>) -> Seq<CommitFields> {
    v.map_values(|c: LocalCommit| c.fields())
}

fn malformed_record(record: &str) -> (r: CliError)
    ensures
        r@ == Failure::Generic("Unexpected git log record format: "@ + outside::debug_text(record@)),
{
    let mut msg = "Unexpected git log record format: ".to_owned();
    msg.append(outside::debug_of(record).as_str());
    CliError::Generic(msg)
}

/// Parse the output of the log. `slugify` gives the branch suffix of a commit
/// from its title and Change-Id.
pub fn parse<F: Fn(&str, &str) -> String>(raw: &str, slugify: F) -> (r: Result<
    Vec<LocalCommit>,
    CliError,
>)
    requires
        forall|title: &str, id: &str| call_requires(slugify, (title, id)),
    ensures
        match r {
            Ok(v) => parsed(raw@) == Ok::<Seq<CommitFields>, Failure>(fields_of(v@)) && forall|i: int|
                0 <= i < v.len() ==> slug_by(slugify, #[trigger] v@[i]),
            Err(e) => parsed(raw@) == Err::<Seq<CommitFields>, Failure>(e@),
        },
{
    let records = text::split_on(raw, '\x1e');
    let ghost rs = text::texts(records@);
    let mut out: Vec<LocalCommit> = Vec::new();
    let mut i: usize = 0;
    proof {
        assert(rs.take(0) =~= seq![]);
        assert(fields_of(out@) =~= seq![]);
    }
    while i < records.len()
        invariant
            i <= records.len(),
            rs == text::texts(records@),
            rs == text::split(raw@, '\x1e'),
            forall|title: &str, id: &str| call_requires(slugify, (title, id)),
            all_fields(rs.take(i as int)) == Ok::<Seq<CommitFields>, Failure>(fields_of(out@)),
            forall|j: int| 0 <= j < out.len() ==> slug_by(slugify, #[trigger] out@[j]),
        decreases records.len() - i,
    {
        let stripped = text::trimmed(records[i].as_str());
        let ghost before = fields_of(out@);
        proof {
            assert(rs.take(i + 1).drop_last() =~= rs.take(i as int));
            assert(rs.take(i + 1).last() == records@[i as int]@);
        }
        i += 1;
        if stripped.as_str().is_empty() {
            continue ;
        }
        let parts = splitn(stripped.as_str(), '\0', 4);
        let ghost ps = text::texts(parts@);
        if parts.len() < 4 {
            proof {
                lemma_all_fields_error(rs, i as int);
            }
            return Err(malformed_record(stripped.as_str()));
        }
        let commit_sha = text::trimmed(parts[0].as_str());
        let title = text::trimmed(parts[1].as_str());
        let message = text::trimmed(parts[2].as_str());
        let note = text::trimmed(parts[3].as_str());
        proof {
            assert(ps[0] == parts@[0]@ && ps[1] == parts@[1]@ && ps[2] == parts@[2]@ && ps[3]
                == parts@[3]@);
        }
        let change_id = match change_id::extract_from_message(message.as_str()) {
            Some(id) => id.to_owned(),
            None => {
                proof {
                    lemma_all_fields_error(rs, i as int);
                }
                let mut msg = "`Change-Id:` line is missing on commit ".to_owned();
                msg.append(commit_sha.as_str());
                return Err(CliError::InvalidState(msg));
            },
        };
        let title_text = title.as_str();
        let id_text = change_id.as_str();
        let slug = slugify(title_text, id_text);
        let ghost args = (title_text, id_text);
        let commit = LocalCommit { commit_sha, title, message, change_id, slug, note };
        out.push(commit);
        proof {
            assert(fields_of(out@) =~= before.push(commit.fields()));
            assert(call_ensures(slugify, args, commit.slug));
        }
    }
    proof {
        assert(rs.take(i as int) =~= rs);
    }
    Ok(out)
}

/// Whether the slug of `c` is what `slugify` makes of its title and Change-Id.
pub open spec fn slug_by<F: Fn(&str, &str) -> String>(slugify: F, c: LocalCommit) -> bool {
    exists|title: &str, id: &str|
        title@ == c.title@ && id@ == c.change_id@ && #[trigger] call_ensures(
            slugify,
            (title, id),
            c.slug,
        )
}

/// The arguments of the `git log` call that lists the commits of
/// `<base>..<head>`.
pub fn log_args(base: &str, head: &str) -> (r: Vec<String>)
    ensures
        text::texts(r@) == seq![
            "log"@,
            "--reverse"@,
            "--format=%H%x00%s%x00%b%x00%N%x1e"@,
            "--notes="@ + STACK_NOTES_REF@,
            base@ + ".."@ + head@,
        ],
{
    let mut notes = "--notes=".to_owned();
    notes.append(STACK_NOTES_REF);
    let mut range = base.to_owned();
    range.append("..");
    range.append(head);
    let mut out: Vec<String> = Vec::new();
    out.push("log".to_owned());
    out.push("--reverse".to_owned());
    out.push("--format=%H%x00%s%x00%b%x00%N%x1e".to_owned());
    out.push(notes);
    out.push(range);
    proof {
        assert(text::texts(out@) =~= seq![
            "log"@,
            "--reverse"@,
            "--format=%H%x00%s%x00%b%x00%N%x1e"@,
            "--notes="@ + STACK_NOTES_REF@,
            base@ + ".."@ + head@,
        ]);
    }
    out
}

/// The error where the log of `<base>..<head>` failed.
pub fn log_failure(base: &str, head: &str, stderr: &str) -> (r: CliError)
    ensures
        r@ == Failure::Generic(
            "`git log "@ + base@ + ".."@ + head@ + "` failed: "@ + (if text::trim(stderr@).len() == 0 {
                "no stderr"@
            } else {
                text::trim(stderr@)
            }),
        ),
{
    let err = text::trimmed(stderr);
    let mut msg = "`git log ".to_owned();
    msg.append(base);
    msg.append("..");
    msg.append(head);
    msg.append("` failed: ");
    if err.as_str().is_empty() {
        msg.append("no stderr");
    } else {
        msg.append(err.as_str());
    }
    CliError::Generic(msg)
}

/// Every commit that a log lists has a Change-Id, found in its own message.
pub proof fn law_commits_have_change_ids(raw: Seq<char>, i: int)
    requires
        parsed(raw) is Ok,
        0 <= i < parsed(raw)->Ok_0.len(),
    ensures
        change_id::message_id(parsed(raw)->Ok_0[i].message) == Some(parsed(raw)->Ok_0[i].change_id),
{
    lemma_ids(text::split(raw, '\x1e'), i);
}

proof fn lemma_ids(records: Seq<Seq<char>>, i: int)
    requires
        all_fields(records) is Ok,
        0 <= i < all_fields(records)->Ok_0.len(),
    ensures
        change_id::message_id(all_fields(records)->Ok_0[i].message) == Some(
            all_fields(records)->Ok_0[i].change_id,
        ),
    decreases records.len(),
{
    let before = all_fields(records.drop_last())->Ok_0;
    if i < before.len() {
        lemma_ids(records.drop_last(), i);
    }
}

/// A record holds the SHA, the subject, the body and the note of a commit, in
/// this order, each without the white space around it.
pub proof fn law_record_gives_its_fields(
    sha: Seq<char>,
    title: Seq<char>,
    message: Seq<char>,
    note: Seq<char>,
)
    requires
        forall|i: int| 0 <= i < sha.len() ==> #[trigger] sha[i] != '\0',
        forall|i: int| 0 <= i < title.len() ==> #[trigger] title[i] != '\0',
        forall|i: int| 0 <= i < message.len() ==> #[trigger] message[i] != '\0',
    ensures
        ({
            let record = sha + seq!['\0'] + (title + seq!['\0'] + (message + seq!['\0'] + note));
            let id = change_id::message_id(text::trim(message));
            &&& id is None ==> record_fields(record) is Err
            &&& id is Some ==> record_fields(record) == Ok::<CommitFields, Failure>(
                CommitFields {
                    commit_sha: text::trim(sha),
                    title: text::trim(title),
                    message: text::trim(message),
                    change_id: id->0,
                    note: text::trim(note),
                },
            )
        }),
{
    let c = message + seq!['\0'] + note;
    let b = title + seq!['\0'] + c;
    let a = sha + seq!['\0'] + b;
    lemma_split_step(sha, b, '\0', 4);
    lemma_split_step(title, c, '\0', 3);
    lemma_split_step(message, note, '\0', 2);
    assert(split_at_most(note, '\0', 1) =~= seq![note]);
    assert(split_at_most(a, '\0', 4) =~= seq![sha, title, message, note]);
}

proof fn lemma_split_step(first: Seq<char>, rest: Seq<char>, sep: char, n: nat)
    requires
        n > 1,
        forall|i: int| 0 <= i < first.len() ==> #[trigger] first[i] != sep,
    ensures
        split_at_most(first + seq![sep] + rest, sep, n) == seq![first] + split_at_most(
            rest,
            sep,
            (n - 1) as nat,
        ),
{
    let s = first + seq![sep] + rest;
    let k = first.len() as int;
    assert forall|i: int| 0 <= i < k implies text::is_not(sep)(#[trigger] s[i]) by {
        assert(s[i] == first[i]);
    }
    assert(s[k] == sep);
    text::lemma_span_is(s, text::is_not(sep), k);
    assert(s.take(k) =~= first);
    assert(s.skip(k + 1) =~= rest);
}

/// The log gives one commit for each record that is not blank, in their order.
pub proof fn law_every_record_is_a_commit(records: Seq<Seq<char>>)
    requires
        all_fields(records) is Ok,
    ensures
        ({
            let full = records.filter(|r: Seq<char>| text::trim(r).len() > 0);
            let out = all_fields(records)->Ok_0;
            &&& out.len() == full.len()
            &&& forall|i: int|
                0 <= i < full.len() ==> record_fields(text::trim(#[trigger] full[i])) == Ok::<
                    CommitFields,
                    Failure,
                >(out[i])
        }),
    decreases records.len(),
{
    reveal(Seq::filter);
    if records.len() > 0 {
        law_every_record_is_a_commit(records.drop_last());
    }
}

/// The commits are read from the base to the head, the oldest first, with their
/// notes.
pub proof fn law_log_reads(base: &str, head: &str, r: Vec<String>)
    requires
        call_ensures(log_args, (base, head), r),
    ensures
        text::texts(r@) == seq![
            "log"@,
            "--reverse"@,
            "--format=%H%x00%s%x00%b%x00%N%x1e"@,
            "--notes="@ + "refs/notes/mergify/stack"@,
            base@ + ".."@ + head@,
        ],
{
}

/// A record with fewer fields than the format has is refused, and so is a commit
/// without a Change-Id, which is named.
pub proof fn law_broken_records_are_refused(record: Seq<char>)
    ensures
        ({
            let parts = split_at_most(record, '\0', 4);
            let id = change_id::message_id(text::trim(parts[2]));
            &&& parts.len() < 4 ==> record_fields(record) == Err::<CommitFields, Failure>(
                Failure::Generic(
                    "Unexpected git log record format: "@ + outside::debug_text(record),
                ),
            )
            &&& parts.len() >= 4 && id is None ==> record_fields(record) == Err::<
                CommitFields,
                Failure,
            >(
                Failure::InvalidState(
                    "`Change-Id:` line is missing on commit "@ + text::trim(parts[0]),
                ),
            )
            &&& parts.len() >= 4 && id is Some ==> record_fields(record) is Ok
        }),
{
}

} // verus!
