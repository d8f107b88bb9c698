//! Pull request descriptions, and which pull request each change depends on.
use crate::change_id;
use crate::changes::{Action, LocalChange};
use crate::pull::{Pull, copy_opt};
use crate::text;
use vstd::prelude::*;

verus! {

// ---------------------------------------------------------------------------
// Descriptions
// ---------------------------------------------------------------------------

/// The length of the `Change-Id: I<40>` trailer that `s` starts with, or 0.
pub open spec fn change_id_len(s: Seq<char>) -> nat {
    if change_id::trailer_at(s, 0) {
        52
    } else {
        0
    }
}

/// The length of the `Depends-On: #<digits>` or `Depends-On: (#<digits>)` that
/// `s` starts with, or 0.
pub open spec fn depends_on_len(s: Seq<char>) -> nat {
    if text::occurs_at(s, "Depends-On: (#"@, 0) {
        let d = text::span(s.skip(14), is_digit_char());
        if 14 + d < s.len() && s[14 + d as int] == ')' {
            15 + d
        } else {
            0
        }
    } else if text::occurs_at(s, "Depends-On: #"@, 0) {
        13 + text::span(s.skip(13), is_digit_char())
    } else {
        0
    }
}

/// The decimal digits.
pub open spec fn is_digit_char() -> spec_fn(char) -> bool {
    |c: char| text::digit(c)
}

/// What is erased from a commit message.
pub enum Header {
    ChangeId,
    DependsOn,
}

/// The length of the header that `s` starts with, or 0.
pub open spec fn header_len(h: Header, s: Seq<char>) -> nat {
    match h {
        Header::ChangeId => change_id_len(s),
        Header::DependsOn => depends_on_len(s),
    }
}

/// `s` without its headers, taken out from left to right.
pub open spec fn erased(h: Header, s: Seq<char>) -> Seq<char>
    decreases s.len(),
{
    if s.len() == 0 {
        s
    } else if 0 < header_len(h, s) <= s.len() {
        erased(h, s.skip(header_len(h, s) as int))
    } else {
        seq![s[0]] + erased(h, s.skip(1))
    }
}

/// The description that a commit message makes.
pub open spec fn description(message: Seq<char>, depends_on: Option<u64>) -> Seq<char> {
    let a = text::trim_end_char(erased(Header::ChangeId, message), '\n');
    let b = text::trim_end_char(erased(Header::DependsOn, a), '\n');
    match depends_on {
        Some(n) => b + "\n\nDepends-On: #"@ + text::decimal(n as nat),
        None => b,
    }
}

/// The number of digits of `cs` from `at` on.
fn digit_run(cs: &[char], at: usize) -> (r: usize)
    requires
        at <= cs.len(),
    ensures
        at + r <= cs.len(),
        r == text::span(cs@.skip(at as int), is_digit_char()),
{
    let mut i: usize = at;
    while i < cs.len() && text::is_digit(cs[i])
        invariant
            at <= i <= cs.len(),
            forall|j: int| at <= j < i ==> text::digit(cs@[j]),
        decreases cs.len() - i,
    {
        i += 1;
    }
    proof {
        text::lemma_span_is(cs@.skip(at as int), is_digit_char(), i - at);
    }
    i - at
}

/// The length of the header that stands in `cs` at `at`, or 0.
fn header_at(h: &Header, cs: &Vec<char>, at: usize) -> (r: usize)
    requires
        at <= cs.len(),
    ensures
        r == header_len(*h, cs@.skip(at as int)),
        at + r <= cs.len(),
{
    let ghost rest = cs@.skip(at as int);
    proof {
        reveal_strlit("Change-Id: ");
        reveal_strlit("Depends-On: (#");
        reveal_strlit("Depends-On: #");
    }
    match h {
        Header::ChangeId => {
            let pat = text::chars_of("Change-Id: ");
            proof {
                lemma_occurs_skip(cs@, pat@, at as int);
                if at + 52 <= cs.len() {
                    assert(rest.subrange(11, 52) =~= cs@.subrange(at + 11, at + 52));
                }
            }
            if text::matches_at(cs, &pat, at) && change_id::loose_at(cs, at + 11) {
                52
            } else {
                0
            }
        },
        Header::DependsOn => {
            let wrapped = text::chars_of("Depends-On: (#");
            let bare = text::chars_of("Depends-On: #");
            proof {
                lemma_occurs_skip(cs@, wrapped@, at as int);
                lemma_occurs_skip(cs@, bare@, at as int);
            }
            if text::matches_at(cs, &wrapped, at) {
                let d: usize = digit_run(cs, at + 14);
                proof {
                    assert(rest.skip(14) =~= cs@.skip(at + 14));
                }
                if at + 14 + d < cs.len() && cs[at + 14 + d] == ')' {
                    15 + d
                } else {
                    0
                }
            } else if text::matches_at(cs, &bare, at) {
                let d: usize = digit_run(cs, at + 13);
                proof {
                    assert(rest.skip(13) =~= cs@.skip(at + 13));
                }
                13 + d
            } else {
                0
            }
        },
    }
}

/// Where a pattern stands in the rest of a text.
proof fn lemma_occurs_skip(s: Seq<char>, pat: Seq<char>, at: int)
    requires
        0 <= at <= s.len(),
    ensures
        text::occurs_at(s.skip(at), pat, 0) == text::occurs_at(s, pat, at),
{
    if at + pat.len() <= s.len() {
        assert(s.skip(at).subrange(0, pat.len() as int) =~= s.subrange(at, at + pat.len()));
    }
}

/// `s` without its headers.
fn erase(h: Header, s: &str) -> (r: String)
    ensures
        r@ == erased(h, s@),
{
    let cs = text::chars_of(s);
    let mut out = String::new();
    let mut i: usize = 0;
    proof {
        assert(cs@.skip(0) =~= cs@);
        assert(out@ + erased(h, cs@) =~= erased(h, cs@));
    }
    while i < cs.len()
        invariant
            i <= cs.len(),
            out@ + erased(h, cs@.skip(i as int)) == erased(h, cs@),
        decreases cs.len() - i,
    {
        let n: usize = header_at(&h, &cs, i);
        let ghost rest = cs@.skip(i as int);
        let ghost before = out@;
        if n > 0 {
            proof {
                assert(rest.skip(n as int) =~= cs@.skip(i + n));
            }
            i += n;
        } else {
            out.push(cs[i]);
            proof {
                assert(rest.skip(1) =~= cs@.skip(i + 1));
                assert(before + (seq![rest[0]] + erased(h, cs@.skip(i + 1))) =~= out@ + erased(
                    h,
                    cs@.skip(i + 1),
                ));
            }
            i += 1;
        }
    }
    proof {
        assert(cs@.skip(i as int) =~= seq![]);
        assert(out@ + erased(h, cs@.skip(i as int)) =~= out@);
    }
    out
}

/// The description of a pull request: the commit message without its
/// `Change-Id:` and without stale `Depends-On:` headers, and with a fresh
/// `Depends-On:` where the change stands on another pull request.
pub fn format_pull_description(message: &str, depends_on_number: Option<u64>) -> (r: String)
    ensures
        r@ == description(message@, depends_on_number),
{
    let a = text::without_trailing(erase(Header::ChangeId, message).as_str(), '\n');
    let mut out = text::without_trailing(erase(Header::DependsOn, a.as_str()).as_str(), '\n');
    if let Some(n) = depends_on_number {
        out.append("\n\nDepends-On: #");
        out.append(text::decimal_of(n).as_str());
    }
    out
}

// ---------------------------------------------------------------------------
// Dependencies
// ---------------------------------------------------------------------------

/// One step of a push.
#[derive(Debug, Clone, PartialEq, Eq)]
pub struct TaskMeta {
    /// The place of the change in the stack.
    pub index: usize,
    /// The change whose pull request this one depends on.
    pub depends_on_index: Option<usize>,
    /// Whether the pull request is known before the push starts, or none will
    /// ever be there to wait for.
    pub pull_ready_at_start: bool,
    /// The pull request as it is before the push.
    pub initial_pull: Option<Pull>,
}

/// Whether a later change can depend on this one.
pub open spec fn anchors(c: LocalChange) -> bool {
    c.pull is Some || c.action == Action::Create
}

/// The last of the first `n` changes that a later one can depend on.
pub open spec fn anchor_before(changes: Seq<LocalChange>, n: int) -> Option<usize>
    decreases n,
{
    if n <= 0 {
        None
    } else if anchors(changes[n - 1]) {
        Some((n - 1) as usize)
    } else {
        anchor_before(changes, n - 1)
    }
}

/// Whether nothing has to wait for the pull request of `c`.
pub open spec fn ready_at_start(c: LocalChange) -> bool {
    match c.action {
        Action::Create => false,
        Action::Update => c.pull is Some,
        _ => true,
    }
}

/// The step of change `i`.
pub open spec fn task_for(changes: Seq<LocalChange>, i: int) -> TaskMeta {
    TaskMeta {
        index: i as usize,
        depends_on_index: anchor_before(changes, i),
        pull_ready_at_start: ready_at_start(changes[i]),
        initial_pull: changes[i].pull,
    }
}

/// The steps of a push: each change depends on the nearest one below it that
/// has a pull request or will create one.
pub fn build_change_tasks(local_changes: &Vec<LocalChange>) -> (r: Vec<TaskMeta>)
    ensures
        r.len() == local_changes.len(),
        forall|i: int|
            0 <= i < r.len() ==> #[trigger] r@[i] == task_for(local_changes@, i),
{
    let mut tasks: Vec<TaskMeta> = Vec::new();
    let mut last: Option<usize> = None;
    let mut i: usize = 0;
    while i < local_changes.len()
        invariant
            i <= local_changes.len(),
            tasks.len() == i,
            last == anchor_before(local_changes@, i as int),
            forall|j: int| 0 <= j < i ==> #[trigger] tasks@[j] == task_for(local_changes@, j),
        decreases local_changes.len() - i,
    {
        let change = &local_changes[i];
        let ready = match change.action {
            Action::Create => false,
            Action::Update => change.pull.is_some(),
            _ => true,
        };
        tasks.push(
            TaskMeta {
                index: i,
                depends_on_index: last,
                pull_ready_at_start: ready,
                initial_pull: copy_opt(&change.pull),
            },
        );
        if change.pull.is_some() || change.action == Action::Create {
            last = Some(i);
        }
        i += 1;
    }
    tasks
}

// ---------------------------------------------------------------------------
// Laws
// ---------------------------------------------------------------------------

/// A change only ever depends on one below it, and none between the two could
/// have been depended on.
pub proof fn law_dependencies_point_down(changes: Seq<LocalChange>, i: int)
    requires
        0 <= i <= changes.len() <= usize::MAX,
    ensures
        match anchor_before(changes, i) {
            Some(k) => k < i && anchors(changes[k as int]) && forall|j: int|
                k < j < i ==> !anchors(#[trigger] changes[j]),
            None => forall|j: int| 0 <= j < i ==> !anchors(#[trigger] changes[j]),
        },
    decreases i,
{
    if i > 0 && !anchors(changes[i - 1]) {
        law_dependencies_point_down(changes, i - 1);
    }
}

/// A `Depends-On:` header that a push wrote is taken out again by the next
/// one: what is erased at the place of such a header is the whole header.
pub proof fn law_written_header_is_recognised(n: nat, rest: Seq<char>)
    requires
        rest.len() > 0 ==> !text::digit(rest[0]),
    ensures
        depends_on_len("Depends-On: #"@ + text::decimal(n) + rest) == ("Depends-On: #"@ + text::decimal(
            n,
        )).len(),
{
    reveal_strlit("Depends-On: (#");
    reveal_strlit("Depends-On: #");
    let head = "Depends-On: #"@;
    let s = head + text::decimal(n) + rest;
    text::lemma_decimal(n);
    assert(s.subrange(0, 13) =~= head);
    assert(s[12] == '#');
    assert(!text::occurs_at(s, "Depends-On: (#"@, 0)) by {
        if text::occurs_at(s, "Depends-On: (#"@, 0) {
            assert(s.subrange(0, 14)[12] == '(');
        }
    }
    let tail = s.skip(13);
    assert(tail =~= text::decimal(n) + rest);
    assert forall|i: int| 0 <= i < text::decimal(n).len() implies is_digit_char()(#[trigger] tail[i]) by {
        assert(text::digit(text::decimal(n)[i]));
    }
    text::lemma_span_is(tail, is_digit_char(), text::decimal(n).len() as int);
}

/// Whether every header in `s` starts a line. `fresh` is whether `s` itself
/// stands at the start of one.
pub open spec fn starts_lines(h: Header, s: Seq<char>, fresh: bool) -> bool {
    forall|i: int|
        0 <= i < s.len() && header_len(h, #[trigger] s.skip(i)) > 0 ==> (if i == 0 {
            fresh
        } else {
            s[i - 1] == '\n'
        })
}

/// Whether `s` holds no such header.
pub open spec fn free_of(h: Header, s: Seq<char>) -> bool {
    forall|i: int| 0 <= i < s.len() ==> header_len(h, #[trigger] s.skip(i)) == 0
}

/// A description without a dependency holds none of the headers, does not end
/// in a line end, and stays as it is when it is made into a description again,
/// where the headers of the message start their lines.
pub proof fn law_description_is_clean(message: Seq<char>)
    requires
        starts_lines(Header::ChangeId, message, true),
        starts_lines(Header::DependsOn, message, true),
    ensures
        ({
            let d = description(message, None);
            &&& free_of(Header::ChangeId, d)
            &&& free_of(Header::DependsOn, d)
            &&& d.len() > 0 ==> d.last() != '\n'
            &&& description(d, None) == d
        }),
{
    let first = erased(Header::ChangeId, message);
    lemma_erased_keeps(Header::ChangeId, Header::ChangeId, message, true);
    lemma_erased_keeps(Header::ChangeId, Header::DependsOn, message, true);
    let a = text::trim_end_char(first, '\n');
    text::lemma_span_back(first, text::is_only('\n'));
    let k = first.len() - text::span_back(first, text::is_only('\n'));
    lemma_take_keeps(Header::ChangeId, first, k, true);
    lemma_take_keeps(Header::DependsOn, first, k, true);
    let second = erased(Header::DependsOn, a);
    lemma_erased_keeps(Header::DependsOn, Header::DependsOn, a, true);
    lemma_free_starts_lines(Header::ChangeId, a);
    lemma_erased_keeps(Header::DependsOn, Header::ChangeId, a, true);
    let d = text::trim_end_char(second, '\n');
    text::lemma_span_back(second, text::is_only('\n'));
    let m = second.len() - text::span_back(second, text::is_only('\n'));
    lemma_take_keeps(Header::ChangeId, second, m, true);
    lemma_take_keeps(Header::DependsOn, second, m, true);
    if d.len() > 0 {
        assert(d.last() == second[m - 1]);
        text::lemma_span_back_is(d, text::is_only('\n'), 0);
    }
    assert(text::trim_end_char(d, '\n') =~= d);
    lemma_nothing_to_erase(Header::ChangeId, d);
    lemma_nothing_to_erase(Header::DependsOn, d);
}

/// A description with a dependency ends in it.
pub proof fn lemma_description_depends(message: Seq<char>, n: u64)
    ensures
        ("\n\nDepends-On: #"@ + text::decimal(n as nat)).is_suffix_of(description(message, Some(n))),
{
    let head = description(message, None);
    let tail = "\n\nDepends-On: #"@ + text::decimal(n as nat);
    let d = description(message, Some(n));
    assert(d =~= head + tail);
    assert(d.subrange(d.len() - tail.len(), d.len() as int) =~= tail);
}

/// A header is told by its own characters, and does not go beyond its line.
proof fn lemma_header_is_local(h: Header, u: Seq<char>, v: Seq<char>)
    requires
        header_len(h, u) > 0,
        header_len(h, u) <= v.len(),
        v.take(header_len(h, u) as int) == u.take(header_len(h, u) as int),
    ensures
        header_len(h, v) > 0,
{
    let n = header_len(h, u) as int;
    lemma_header_in_line(h, u);
    assert forall|i: int| 0 <= i < n implies u[i] == #[trigger] v[i] by {
        assert(u.take(n)[i] == v.take(n)[i]);
    }
    reveal_strlit("Change-Id: ");
    reveal_strlit("Depends-On: (#");
    reveal_strlit("Depends-On: #");
    match h {
        Header::ChangeId => {
            assert(u.subrange(0, 11) =~= v.subrange(0, 11));
            assert(u.subrange(11, 52) =~= v.subrange(11, 52));
        },
        Header::DependsOn => {
            if text::occurs_at(u, "Depends-On: (#"@, 0) {
                assert(u.subrange(0, 14) =~= v.subrange(0, 14));
                let d = text::span(u.skip(14), is_digit_char()) as int;
                text::lemma_span(u.skip(14), is_digit_char());
                let t = v.skip(14);
                assert forall|i: int| 0 <= i < d implies is_digit_char()(#[trigger] t[i]) by {
                    assert(t[i] == v[14 + i]);
                    assert(u.skip(14)[i] == u[14 + i]);
                }
                assert(t[d] == v[14 + d]);
                text::lemma_span_is(t, is_digit_char(), d);
            } else {
                assert(u.subrange(0, 13) =~= v.subrange(0, 13));
                assert(v.subrange(0, 13)[12] == '#');
                if text::occurs_at(v, "Depends-On: (#"@, 0) {
                    assert(v.subrange(0, 14)[12] == '(');
                }
            }
        },
    }
}

/// A header lies in the text, on one line.
proof fn lemma_header_in_line(h: Header, u: Seq<char>)
    ensures
        header_len(h, u) <= u.len(),
        forall|i: int| 0 <= i < header_len(h, u) ==> #[trigger] u[i] != '\n',
{
    reveal_strlit("Change-Id: ");
    reveal_strlit("Depends-On: (#");
    reveal_strlit("Depends-On: #");
    let n = header_len(h, u) as int;
    if n > 0 {
        match h {
            Header::ChangeId => {
                let id = u.subrange(11, 52);
                assert forall|i: int| 0 <= i < n implies #[trigger] u[i] != '\n' by {
                    if i < 11 {
                        assert(u.subrange(0, 11)[i] == u[i]);
                    } else {
                        assert(id[i - 11] == u[i]);
                    }
                }
            },
            Header::DependsOn => {
                let k: int = if text::occurs_at(u, "Depends-On: (#"@, 0) {
                    14
                } else {
                    13
                };
                let rest = u.skip(k);
                text::lemma_span(rest, is_digit_char());
                assert forall|i: int| 0 <= i < n implies #[trigger] u[i] != '\n' by {
                    if i < k {
                        assert(u.subrange(0, k)[i] == u[i]);
                    } else if i - k < text::span(rest, is_digit_char()) {
                        assert(is_digit_char()(rest[i - k]));
                        assert(rest[i - k] == u[i]);
                    }
                }
            },
        }
    }
}

/// What is left of a text starts with the first line of the text.
proof fn lemma_erased_start(h: Header, s: Seq<char>, n: int)
    requires
        starts_lines(h, s, false),
        0 <= n <= erased(h, s).len(),
        forall|i: int| 0 <= i < n ==> #[trigger] erased(h, s)[i] != '\n',
    ensures
        n <= s.len(),
        erased(h, s).take(n) == s.take(n),
    decreases s.len(),
{
    let e = erased(h, s);
    if s.len() == 0 {
        assert(e.take(n) =~= s.take(n));
    } else {
        assert(s.skip(0) =~= s);
        assert(header_len(h, s.skip(0)) == 0);
        let t = s.skip(1);
        let et = erased(h, t);
        assert(e == seq![s[0]] + et);
        if n > 0 {
            assert(e[0] == s[0]);
            lemma_starts_lines_skip(h, s, 1, false);
            assert forall|i: int| 0 <= i < n - 1 implies #[trigger] et[i] != '\n' by {
                assert(e[i + 1] == et[i]);
            }
            lemma_erased_start(h, t, n - 1);
            assert forall|i: int| 0 <= i < n implies e.take(n)[i] == s.take(n)[i] by {
                if i > 0 {
                    assert(et.take(n - 1)[i - 1] == t.take(n - 1)[i - 1]);
                }
            }
            assert(e.take(n) =~= s.take(n));
        } else {
            assert(e.take(n) =~= s.take(n));
        }
    }
}

/// Whether headers start lines does not change in the rest of a text.
proof fn lemma_starts_lines_skip(h: Header, s: Seq<char>, k: int, fresh: bool)
    requires
        0 < k <= s.len(),
        starts_lines(h, s, fresh),
    ensures
        starts_lines(h, s.skip(k), s[k - 1] == '\n'),
{
    let t = s.skip(k);
    assert forall|i: int| 0 <= i < t.len() && header_len(h, #[trigger] t.skip(i)) > 0 implies (if i
        == 0 {
        s[k - 1] == '\n'
    } else {
        t[i - 1] == '\n'
    }) by {
        assert(t.skip(i) =~= s.skip(k + i));
        assert(header_len(h, s.skip(k + i)) > 0);
    }
}

/// Taking out the headers `h` leaves none of them, and makes no header of
/// either kind that was not there.
proof fn lemma_erased_keeps(h: Header, g: Header, s: Seq<char>, fresh: bool)
    requires
        starts_lines(h, s, fresh),
        starts_lines(g, s, fresh),
    ensures
        starts_lines(g, erased(h, s), fresh),
        g == h || free_of(g, s) ==> free_of(g, erased(h, s)),
    decreases s.len(),
{
    let e = erased(h, s);
    if s.len() > 0 {
        assert(s.skip(0) =~= s);
        lemma_header_in_line(h, s);
        if header_len(h, s) > 0 {
            let n = header_len(h, s) as int;
            assert(header_len(h, s.skip(0)) > 0);
            lemma_starts_lines_skip(h, s, n, fresh);
            lemma_starts_lines_skip(g, s, n, fresh);
            assert(s[n - 1] != '\n');
            if free_of(g, s) {
                lemma_free_skip(g, s, n);
            }
            lemma_erased_keeps(h, g, s.skip(n), false);
        } else {
            let t = s.skip(1);
            let et = erased(h, t);
            assert(e == seq![s[0]] + et);
            lemma_starts_lines_skip(h, s, 1, fresh);
            lemma_starts_lines_skip(g, s, 1, fresh);
            if free_of(g, s) {
                lemma_free_skip(g, s, 1);
            }
            lemma_erased_keeps(h, g, t, s[0] == '\n');
            assert forall|i: int| 0 <= i < e.len() && header_len(g, #[trigger] e.skip(i))
                > 0 implies !(g == h || free_of(g, s)) && (if i == 0 {
                fresh
            } else {
                e[i - 1] == '\n'
            }) by {
                if i > 0 {
                    assert(e.skip(i) =~= et.skip(i - 1));
                    assert(header_len(g, et.skip(i - 1)) > 0);
                    if i > 1 {
                        assert(e[i - 1] == et[i - 2]);
                    }
                } else {
                    assert(e.skip(0) =~= e);
                    let n = header_len(g, e) as int;
                    lemma_header_in_line(g, e);
                    assert(e[0] == s[0]);
                    assert(s[0] != '\n');
                    assert forall|j: int| 0 <= j < n - 1 implies #[trigger] et[j] != '\n' by {
                        assert(e[j + 1] == et[j]);
                    }
                    lemma_erased_start(h, t, n - 1);
                    assert forall|j: int| 0 <= j < n implies e.take(n)[j] == s.take(n)[j] by {
                        if j > 0 {
                            assert(et.take(n - 1)[j - 1] == t.take(n - 1)[j - 1]);
                        }
                    }
                    assert(e.take(n) =~= s.take(n));
                    lemma_header_is_local(g, e, s);
                    assert(header_len(g, s.skip(0)) > 0);
                }
            }
        }
    }
}

proof fn lemma_free_skip(h: Header, s: Seq<char>, k: int)
    requires
        0 <= k <= s.len(),
        free_of(h, s),
    ensures
        free_of(h, s.skip(k)),
{
    assert forall|i: int| 0 <= i < s.skip(k).len() implies header_len(
        h,
        #[trigger] s.skip(k).skip(i),
    ) == 0 by {
        assert(s.skip(k).skip(i) =~= s.skip(k + i));
    }
}

proof fn lemma_free_starts_lines(h: Header, s: Seq<char>)
    requires
        free_of(h, s),
    ensures
        starts_lines(h, s, true),
{
}

/// The start of a text holds no header that the text does not hold.
proof fn lemma_take_keeps(h: Header, s: Seq<char>, k: int, fresh: bool)
    requires
        0 <= k <= s.len(),
    ensures
        starts_lines(h, s, fresh) ==> starts_lines(h, s.take(k), fresh),
        free_of(h, s) ==> free_of(h, s.take(k)),
{
    let t = s.take(k);
    assert forall|i: int| 0 <= i < t.len() && header_len(h, #[trigger] t.skip(i)) > 0 implies header_len(
        h,
        s.skip(i),
    ) > 0 by {
        let n = header_len(h, t.skip(i)) as int;
        lemma_header_in_line(h, t.skip(i));
        assert(t.skip(i).take(n) =~= s.skip(i).take(n));
        lemma_header_is_local(h, t.skip(i), s.skip(i));
    }
}

/// Nothing is taken out of a text without headers.
proof fn lemma_nothing_to_erase(h: Header, s: Seq<char>)
    requires
        free_of(h, s),
    ensures
        erased(h, s) == s,
    decreases s.len(),
{
    if s.len() > 0 {
        assert(s.skip(0) =~= s);
        assert(header_len(h, s.skip(0)) == 0);
        lemma_free_skip(h, s, 1);
        lemma_nothing_to_erase(h, s.skip(1));
        assert(seq![s[0]] + s.skip(1) =~= s);
    }
}

/// A change depends on the nearest one below it that has a pull request or is to
/// be created. Only a creation, and an update without a pull request, has to be
/// waited for.
pub proof fn law_tasks_follow_the_stack(changes: Seq<LocalChange>, i: int)
    requires
        0 <= i < changes.len() <= usize::MAX,
    ensures
        ({
            let t = task_for(changes, i);
            &&& t.index == i
            &&& t.initial_pull == changes[i].pull
            &&& match t.depends_on_index {
                Some(k) => k < i && (changes[k as int].pull is Some || changes[k as int].action
                    == Action::Create) && forall|j: int|
                    k < j < i ==> (#[trigger] changes[j]).pull is None && changes[j].action
                        != Action::Create,
                None => forall|j: int|
                    0 <= j < i ==> (#[trigger] changes[j]).pull is None && changes[j].action
                        != Action::Create,
            }
            &&& t.pull_ready_at_start <==> changes[i].action != Action::Create && (changes[i].action
                != Action::Update || changes[i].pull is Some)
        }),
{
    law_dependencies_point_down(changes, i);
    match anchor_before(changes, i) {
        Some(k) => {
            assert forall|j: int| k < j < i implies (#[trigger] changes[j]).pull is None
                && changes[j].action != Action::Create by {
                assert(!anchors(changes[j]));
            }
        },
        None => {
            assert forall|j: int| 0 <= j < i implies (#[trigger] changes[j]).pull is None
                && changes[j].action != Action::Create by {
                assert(!anchors(changes[j]));
            }
        },
    }
}

/// A header in brackets is recognised too.
pub proof fn law_wrapped_header_is_recognised(n: nat, rest: Seq<char>)
    ensures
        depends_on_len("Depends-On: (#"@ + text::decimal(n) + ")"@ + rest) == ("Depends-On: (#"@
            + text::decimal(n) + ")"@).len(),
{
    reveal_strlit("Depends-On: (#");
    reveal_strlit(")");
    let head = "Depends-On: (#"@;
    let s = head + text::decimal(n) + ")"@ + rest;
    text::lemma_decimal(n);
    assert(s.subrange(0, 14) =~= head);
    let tail = s.skip(14);
    let d = text::decimal(n).len() as int;
    assert(tail =~= text::decimal(n) + ")"@ + rest);
    assert forall|i: int| 0 <= i < d implies is_digit_char()(#[trigger] tail[i]) by {
        assert(text::digit(text::decimal(n)[i]));
    }
    assert(tail[d] == ')');
    text::lemma_span_is(tail, is_digit_char(), d);
    assert(s[14 + d] == ')');
}

/// A `Change-Id:` of an `I` and forty lower-case letters and digits is taken out
/// whole.
pub proof fn law_change_id_is_recognised(id: Seq<char>, rest: Seq<char>)
    requires
        id.len() == 41,
        id[0] == 'I',
        forall|i: int|
            1 <= i < 41 ==> '0' <= #[trigger] id[i] <= '9' || 'a' <= id[i] <= 'z',
    ensures
        change_id_len("Change-Id: "@ + id + rest) == 52,
        erased(Header::ChangeId, "Change-Id: "@ + id + rest) == erased(Header::ChangeId, rest),
{
    reveal_strlit("Change-Id: ");
    let s = "Change-Id: "@ + id + rest;
    assert(s.subrange(0, 11) =~= "Change-Id: "@);
    assert(s.subrange(11, 52) =~= id);
    assert forall|i: int| 1 <= i < 41 implies text::lower_alnum(#[trigger] id[i]) by {}
    assert(change_id::trailer_at(s, 0));
    assert(s.skip(52) =~= rest);
}

/// Text without headers that ends before a line end is kept as it is, and what
/// follows is cleaned on its own.
proof fn lemma_erased_after(h: Header, s: Seq<char>, t: Seq<char>)
    requires
        free_of(h, s),
        t.len() > 0,
        t[0] == '\n',
    ensures
        erased(h, s + t) == s + erased(h, t),
    decreases s.len(),
{
    let u = s + t;
    if s.len() == 0 {
        assert(u =~= t);
        assert(s + erased(h, t) =~= erased(h, t));
    } else {
        let n = header_len(h, u) as int;
        lemma_header_in_line(h, u);
        if n > 0 {
            assert(u[s.len() as int] == '\n');
            assert(n <= s.len());
            assert(u.take(n) =~= s.take(n));
            lemma_header_is_local(h, u, s);
            assert(s.skip(0) =~= s);
            assert(header_len(h, s.skip(0)) == 0);
        }
        assert(u.skip(1) =~= s.skip(1) + t);
        lemma_free_skip(h, s, 1);
        lemma_erased_after(h, s.skip(1), t);
        assert(seq![u[0]] + (s.skip(1) + erased(h, t)) =~= s + erased(h, t));
    }
}

/// The dependency of an earlier push is forgotten: what it described is
/// described again as if it had never had one.
pub proof fn law_stale_dependency_is_forgotten(message: Seq<char>, n: u64, next: Option<u64>)
    requires
        starts_lines(Header::ChangeId, message, true),
        starts_lines(Header::DependsOn, message, true),
    ensures
        description(description(message, Some(n)), next) == description(message, next),
{
    law_description_is_clean(message);
    let d = description(message, None);
    let line = "Depends-On: #"@ + text::decimal(n as nat);
    let tail = "\n\nDepends-On: #"@ + text::decimal(n as nat);
    let s = description(message, Some(n));
    reveal_strlit("\n\nDepends-On: #");
    reveal_strlit("Depends-On: #");
    reveal_strlit("Depends-On: (#");
    reveal_strlit("Change-Id: ");
    assert(s =~= d + tail);
    assert(tail[0] == '\n' && tail[1] == '\n');
    assert(tail.skip(1).skip(1) =~= line);
    text::lemma_decimal(n as nat);
    // No `Change-Id:` comes with the dependency.
    assert forall|i: int| 0 <= i < tail.len() implies header_len(
        Header::ChangeId,
        #[trigger] tail.skip(i),
    ) == 0 by {
        let r = tail.skip(i);
        if change_id::trailer_at(r, 0) {
            assert(r.subrange(0, 11)[0] == 'C');
            assert(tail[i] == 'C');
            if i >= 15 {
                assert(text::digit(text::decimal(n as nat)[i - 15]));
            }
        }
    }
    lemma_nothing_to_erase(Header::ChangeId, tail);
    lemma_erased_after(Header::ChangeId, d, tail);
    let a = text::trim_end_char(s, '\n');
    assert(s.last() == tail.last());
    assert(tail.last() == text::decimal(n as nat).last());
    assert(text::digit(text::decimal(n as nat)[text::decimal(n as nat).len() - 1]));
    text::lemma_span_back_is(s, text::is_only('\n'), 0);
    assert(a =~= s);
    // The dependency goes, and with it the line ends before it.
    law_written_header_is_recognised(n as nat, seq![]);
    assert(erased(Header::DependsOn, line) == Seq::<char>::empty()) by {
        reveal_with_fuel(erased, 2);
        assert("Depends-On: #"@ + text::decimal(n as nat) + Seq::<char>::empty() =~= line);
        assert(header_len(Header::DependsOn, line) == line.len());
        assert(line.skip(line.len() as int) =~= Seq::<char>::empty());
    }
    let one = tail.skip(1);
    lemma_header_in_line(Header::DependsOn, tail);
    lemma_header_in_line(Header::DependsOn, one);
    assert(one[0] == '\n');
    assert(erased(Header::DependsOn, one) =~= seq!['\n']);
    assert(erased(Header::DependsOn, tail) =~= seq!['\n', '\n']);
    lemma_erased_after(Header::DependsOn, d, tail);
    let e = d + seq!['\n', '\n'];
    assert(erased(Header::DependsOn, a) == e);
    assert forall|i: int| e.len() - 2 <= i < e.len() implies text::is_only('\n')(#[trigger] e[i]) by {}
    if d.len() > 0 {
        assert(e[d.len() - 1] == d.last());
    }
    text::lemma_span_back_is(e, text::is_only('\n'), 2);
    assert(text::trim_end_char(e, '\n') =~= d);
}

} // verus!
