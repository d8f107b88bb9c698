//! `Change-Id` parsing helpers.
//!
//! Each stacked commit carries a `Change-Id: I<40 hex digits>` trailer in its
//! message. The identifier ties a local commit to its remote branch and pull
//! request across rewrites. It occurs in three forms: the full one, a prefix
//! typed by a user, and the eight hex digits that end a branch name
//! (`...--abcd1234`).
//!
//! Finding a trailer is deliberately permissive (`[0-9a-z]`), so that a
//! malformed one is seen; [`is_full`] is strict (`[0-9a-f]`).
use crate::text;
use vstd::prelude::*;

verus! {

/// `I` and forty characters of `[0-9a-z]`.
pub open spec fn loose_id(s: Seq<char>) -> bool {
    s.len() == 41 && s[0] == 'I' && forall|i: int| 1 <= i < 41 ==> text::lower_alnum(#[trigger] s[i])
}

/// `I` and forty lower-case hex digits.
pub open spec fn full_id(s: Seq<char>) -> bool {
    s.len() == 41 && s[0] == 'I' && forall|i: int| 1 <= i < 41 ==> text::hex(#[trigger] s[i])
}

/// `I` and at least one lower-case hex digit, and nothing else.
pub open spec fn id_prefix(s: Seq<char>) -> bool {
    s.len() >= 2 && s[0] == 'I' && forall|i: int| 1 <= i < s.len() ==> text::hex(#[trigger] s[i])
}

/// Whether `s` ends in `--` and eight lower-case hex digits.
pub open spec fn has_short_tail(s: Seq<char>) -> bool {
    &&& s.len() >= 10
    &&& s[s.len() - 10] == '-'
    &&& s[s.len() - 9] == '-'
    &&& forall|i: int| s.len() - 8 <= i < s.len() ==> text::hex(#[trigger] s[i])
}

/// The identifier that a segment of a branch name carries: the whole segment,
/// or its eight last digits.
pub open spec fn segment_id(s: Seq<char>) -> Option<Seq<char>> {
    if full_id(s) {
        Some(s)
    } else if has_short_tail(s) {
        Some(s.skip(s.len() - 8))
    } else {
        None
    }
}

/// Whether a segment of a branch name names one change of a stack.
pub open spec fn change_segment(s: Seq<char>) -> bool {
    loose_id(s) || has_short_tail(s)
}

/// The segment of a branch name after its last `/`.
pub open spec fn last_segment(s: Seq<char>) -> Seq<char> {
    s.skip(s.len() - text::span_back(s, text::is_not('/')))
}

/// A branch name without a last segment that names one change.
pub open spec fn stack_stem(s: Seq<char>) -> Seq<char> {
    let k = s.len() - text::span_back(s, text::is_not('/'));
    if k > 0 && change_segment(s.skip(k)) {
        s.take(k - 1)
    } else {
        s
    }
}

/// Whether a `Change-Id: ` trailer stands in a message at index `i`.
pub open spec fn trailer_at(s: Seq<char>, i: int) -> bool {
    &&& text::occurs_at(s, "Change-Id: "@, i)
    &&& i + 52 <= s.len()
    &&& loose_id(s.subrange(i + 11, i + 52))
}

/// The greatest index below `n` at which a trailer stands, or -1.
pub open spec fn last_trailer(s: Seq<char>, n: int) -> int
    decreases n,
{
    if n <= 0 {
        -1
    } else if trailer_at(s, n - 1) {
        n - 1
    } else {
        last_trailer(s, n - 1)
    }
}

/// The identifier of the last trailer of a message.
pub open spec fn message_id(s: Seq<char>) -> Option<Seq<char>> {
    let i = last_trailer(s, s.len() as int);
    if i < 0 {
        None
    } else {
        Some(s.subrange(i + 11, i + 52))
    }
}

fn all_hex(cs: &[char], from: usize) -> (r: bool)
    requires
        from <= cs.len(),
    ensures
        r == forall|i: int| from <= i < cs.len() ==> text::hex(#[trigger] cs@[i]),
{
    let mut i: usize = from;
    while i < cs.len()
        invariant
            from <= i <= cs.len(),
            forall|j: int| from <= j < i ==> text::hex(#[trigger] cs@[j]),
        decreases cs.len() - i,
    {
        if !text::is_hex(cs[i]) {
            return false;
        }
        i += 1;
    }
    true
}

/// Whether `I` and forty characters of `[0-9a-z]` stand in `cs` at `at`.
pub fn loose_at(cs: &[char], at: usize) -> (r: bool)
    ensures
        r == (at + 41 <= cs.len() && loose_id(cs@.subrange(at as int, at + 41))),
{
    if at > cs.len() || cs.len() - at < 41 {
        return false;
    }
    let ghost s = cs@.subrange(at as int, at + 41);
    if cs[at] != 'I' {
        proof {
            assert(s[0] != 'I');
        }
        return false;
    }
    let mut i: usize = 1;
    while i < 41
        invariant
            1 <= i <= 41,
            at + 41 <= cs.len(),
            s == cs@.subrange(at as int, at + 41),
            forall|j: int| 1 <= j < i ==> text::lower_alnum(#[trigger] s[j]),
        decreases 41 - i,
    {
        proof {
            assert(s[i as int] == cs@[at + i]);
        }
        if !text::is_lower_alnum(cs[at + i]) {
            return false;
        }
        i += 1;
    }
    true
}

fn short_tail(cs: &[char]) -> (r: bool)
    ensures
        r == has_short_tail(cs@),
{
    let n: usize = cs.len();
    n >= 10 && cs[n - 10] == '-' && cs[n - 9] == '-' && all_hex(cs, n - 8)
}

/// Strip the last segment of a branch name where it names one change of a
/// stack: a Change-Id (`.../I<40>`), or a slug with the eight last digits of
/// one (`.../feat-x--abcd1234`). Any other name is returned unchanged.
pub fn strip_branch_suffix(name: &str) -> (r: String)
    ensures
        r@ == stack_stem(name@),
{
    let cs = text::chars_of(name);
    let k: usize = text::after_last(&cs, '/');
    if k == 0 {
        return name.to_owned();
    }
    let seg_text = text::piece(&cs, k, cs.len());
    let seg = text::chars_of(seg_text.as_str());
    proof {
        assert(seg@ =~= cs@.skip(k as int));
        if seg@.len() == 41 {
            assert(seg@.subrange(0, 41) =~= seg@);
        }
    }
    if (seg.len() == 41 && loose_at(&seg, 0)) || short_tail(&seg) {
        proof {
            assert(cs@.subrange(0, k - 1) =~= cs@.take(k - 1));
        }
        text::piece(&cs, 0, k - 1)
    } else {
        name.to_owned()
    }
}

/// Whether `value` is a strict, full Change-Id: `I` and forty lower-case hex
/// digits.
pub fn is_full(value: &str) -> (r: bool)
    ensures
        r == full_id(value@),
{
    let cs = text::chars_of(value);
    cs.len() == 41 && cs[0] == 'I' && all_hex(&cs, 1)
}

/// Whether `prefix` could be the start of a Change-Id. A bare `I` is not
/// enough.
pub fn is_prefix(prefix: &str) -> (r: bool)
    ensures
        r == id_prefix(prefix@),
{
    let cs = text::chars_of(prefix);
    cs.len() >= 2 && cs[0] == 'I' && all_hex(&cs, 1)
}

/// The identifier of the last `Change-Id: ` trailer of a commit message, as it
/// is written there. Callers that want strictness pass it to [`is_full`].
pub fn extract_from_message(message: &str) -> (r: Option<&str>)
    ensures
        text::opt_str(r) == message_id(message@),
{
    let cs = text::chars_of(message);
    let pat = text::chars_of("Change-Id: ");
    proof {
        reveal_strlit("Change-Id: ");
    }
    let mut i: usize = cs.len();
    while i > 0
        invariant
            i <= cs.len(),
            cs@ == message@,
            pat@ == "Change-Id: "@,
            pat@.len() == 11,
            last_trailer(cs@, cs@.len() as int) == last_trailer(cs@, i as int),
        decreases i,
    {
        i -= 1;
        if text::matches_at(&cs, &pat, i) && loose_at(&cs, i + 11) {
            return Some(message.substring_char(i + 11, i + 52));
        }
    }
    None
}

/// The identifier that the last segment of a stack branch name carries: the
/// full Change-Id where the segment is one, else the eight hex digits after
/// the `--` that ends it.
pub fn extract_from_branch_segment(segment: &str) -> (r: Option<&str>)
    ensures
        text::opt_str(r) == segment_id(segment@),
{
    if is_full(segment) {
        return Some(segment);
    }
    let cs = text::chars_of(segment);
    if short_tail(&cs) {
        let n: usize = cs.len();
        proof {
            assert(segment@.subrange(n - 8, n as int) =~= segment@.skip(n - 8));
        }
        Some(segment.substring_char(n - 8, n))
    } else {
        None
    }
}

/// A full Change-Id can be typed as a prefix, and is found in a message as it
/// is.
pub proof fn law_full_id_is_prefix_and_loose(id: Seq<char>)
    requires
        full_id(id),
    ensures
        id_prefix(id),
        loose_id(id),
        segment_id(id) == Some(id),
{
    assert forall|i: int| 1 <= i < 41 implies text::lower_alnum(#[trigger] id[i]) by {
        assert(text::hex(id[i]));
    }
}

/// Stripping the branch of one change gives the branch of its stack, whatever
/// the stack branch is called.
pub proof fn law_stem_of_change_branch(stem: Seq<char>, segment: Seq<char>)
    requires
        change_segment(segment),
        !segment.contains('/'),
    ensures
        stack_stem(stem + seq!['/'] + segment) == stem,
{
    let s = stem + seq!['/'] + segment;
    assert forall|i: int| s.len() - segment.len() <= i < s.len() implies text::is_not('/')(
        #[trigger] s[i],
    ) by {
        assert(s[i] == segment[i - stem.len() - 1]);
        assert(segment.contains(segment[i - stem.len() - 1]));
    }
    assert(s[stem.len() as int] == '/');
    text::lemma_span_back_is(s, text::is_not('/'), segment.len() as int);
    assert(s.skip(stem.len() as int + 1) =~= segment);
    assert(s.take(stem.len() as int) =~= stem);
}

proof fn lemma_last_trailer(s: Seq<char>, n: int)
    requires
        0 <= n,
    ensures
        -1 <= last_trailer(s, n) < n,
        last_trailer(s, n) >= 0 ==> trailer_at(s, last_trailer(s, n)),
        forall|j: int| last_trailer(s, n) < j < n && j >= 0 ==> !#[trigger] trailer_at(s, j),
    decreases n,
{
    if n > 0 && !trailer_at(s, n - 1) {
        lemma_last_trailer(s, n - 1);
    }
}

/// Of several trailers the last one wins: what is found has the permissive
/// form of a Change-Id, stands after a `Change-Id: `, and no trailer stands
/// behind it. Nothing is found only where there is no trailer.
pub proof fn law_last_trailer_wins(message: Seq<char>)
    ensures
        match message_id(message) {
            Some(id) => loose_id(id) && exists|i: int|
                #![trigger trailer_at(message, i)]
                trailer_at(message, i) && id == message.subrange(i + 11, i + 52) && forall|j: int|
                    j > i ==> !#[trigger] trailer_at(message, j),
            None => forall|j: int| !#[trigger] trailer_at(message, j),
        },
{
    let n = message.len() as int;
    lemma_last_trailer(message, n);
    let i = last_trailer(message, n);
    reveal_strlit("Change-Id: ");
    assert forall|j: int| j > i implies !#[trigger] trailer_at(message, j) by {}
    if i >= 0 {
        assert(trailer_at(message, i));
    }
}

/// The last part of a branch is what stands after its last slash.
pub proof fn law_last_segment_follows_the_slash(stem: Seq<char>, segment: Seq<char>)
    requires
        forall|i: int| 0 <= i < segment.len() ==> #[trigger] segment[i] != '/',
    ensures
        last_segment(stem + seq!['/'] + segment) == segment,
        last_segment(segment) == segment,
{
    let s = stem + seq!['/'] + segment;
    assert forall|i: int| s.len() - segment.len() <= i < s.len() implies text::is_not('/')(
        #[trigger] s[i],
    ) by {
        assert(s[i] == segment[i - stem.len() - 1]);
    }
    assert(s[stem.len() as int] == '/');
    text::lemma_span_back_is(s, text::is_not('/'), segment.len() as int);
    assert(s.skip(stem.len() as int + 1) =~= segment);
    text::lemma_span_back_is(segment, text::is_not('/'), segment.len() as int);
    assert(segment.skip(0) =~= segment);
}

/// The last part of a branch names a change by a full Change-Id, or by the eight
/// hexadecimal digits behind the last two dashes. Nothing else names one.
pub proof fn law_branch_names_its_change(segment: Seq<char>, title: Seq<char>, digits: Seq<char>)
    requires
        digits.len() == 8,
        forall|i: int|
            0 <= i < 8 ==> '0' <= #[trigger] digits[i] <= '9' || 'a' <= digits[i] <= 'f',
        title.len() + 10 != 41 || title.len() == 0 || title[0] != 'I',
    ensures
        segment.len() == 41 && segment[0] == 'I' && (forall|i: int|
            1 <= i < 41 ==> '0' <= #[trigger] segment[i] <= '9' || 'a' <= segment[i] <= 'f')
            ==> segment_id(segment) == Some(segment),
        segment_id(title + seq!['-', '-'] + digits) == Some(digits),
        segment_id(segment) is Some ==> segment.len() == 41 || (segment.len() >= 10
            && segment[segment.len() - 10] == '-' && segment[segment.len() - 9] == '-'),
        segment_id(segment) is Some ==> segment_id(segment)->0.len() == 41 || segment_id(
            segment,
        )->0.len() == 8,
        segment_id(segment) is Some ==> segment_id(segment)->0.is_suffix_of(segment),
{
    if segment.len() == 41 && segment[0] == 'I' && (forall|i: int|
        1 <= i < 41 ==> '0' <= #[trigger] segment[i] <= '9' || 'a' <= segment[i] <= 'f') {
        assert forall|i: int| 1 <= i < 41 implies text::hex(#[trigger] segment[i]) by {}
        assert(full_id(segment));
    }
    let s = title + seq!['-', '-'] + digits;
    assert(s.skip(s.len() - 8) =~= digits);
    assert forall|i: int| s.len() - 8 <= i < s.len() implies text::hex(#[trigger] s[i]) by {
        assert(s[i] == digits[i - title.len() - 2]);
    }
    assert(s[s.len() - 10] == '-' && s[s.len() - 9] == '-');
    assert(has_short_tail(s));
    assert(s.len() == 41 ==> title.len() == 31 && s[0] == title[0]);
    assert(!full_id(s));
    if segment_id(segment) is Some {
        if full_id(segment) {
            assert(segment.subrange(0, segment.len() as int) =~= segment);
        } else {
            assert(segment.subrange(segment.len() - 8, segment.len() as int) =~= segment.skip(
                segment.len() - 8,
            ));
        }
    }
}

/// A message with a `Change-Id:` of an `I` and forty lower-case letters and
/// digits has that Change-Id, where none follows.
pub proof fn law_trailer_gives_the_id(before: Seq<char>, id: Seq<char>, after: Seq<char>)
    requires
        id.len() == 41,
        id[0] == 'I',
        forall|i: int|
            1 <= i < 41 ==> '0' <= #[trigger] id[i] <= '9' || 'a' <= id[i] <= 'z',
        forall|j: int|
            before.len() < j ==> !#[trigger] text::occurs_at(
                before + "Change-Id: "@ + id + after,
                "Change-Id: "@,
                j,
            ),
    ensures
        message_id(before + "Change-Id: "@ + id + after) == Some(id),
{
    reveal_strlit("Change-Id: ");
    let s = before + "Change-Id: "@ + id + after;
    let k = before.len() as int;
    assert(s.subrange(k, k + 11) =~= "Change-Id: "@);
    assert(s.subrange(k + 11, k + 52) =~= id);
    assert forall|i: int| 1 <= i < 41 implies text::lower_alnum(#[trigger] id[i]) by {}
    assert(trailer_at(s, k));
    lemma_last_trailer(s, s.len() as int);
    let i = last_trailer(s, s.len() as int);
    assert(i >= k) by {
        if i < k {
            assert(!trailer_at(s, k));
        }
    }
    if i > k {
        assert(text::occurs_at(s, "Change-Id: "@, i));
    }
}

/// A prefix of a Change-Id is an `I` and at least one hexadecimal digit.
pub proof fn law_prefix_is_marked(s: Seq<char>)
    ensures
        id_prefix(s) <==> s.len() >= 2 && s[0] == 'I' && forall|i: int|
            1 <= i < s.len() ==> '0' <= #[trigger] s[i] <= '9' || 'a' <= s[i] <= 'f',
        full_id(s) <==> id_prefix(s) && s.len() == 41,
{
    if s.len() >= 2 && s[0] == 'I' && (forall|i: int|
        1 <= i < s.len() ==> '0' <= #[trigger] s[i] <= '9' || 'a' <= s[i] <= 'f') {
        assert forall|i: int| 1 <= i < s.len() implies text::hex(#[trigger] s[i]) by {}
    }
    if id_prefix(s) {
        assert forall|i: int| 1 <= i < s.len() implies '0' <= #[trigger] s[i] <= '9' || 'a' <= s[i]
            <= 'f' by {
            assert(text::hex(s[i]));
        }
    }
}

/// A branch loses its last segment exactly where that is a whole identifier or
/// ends in two dashes and eight hex digits, and a name without a slash is kept.
pub proof fn law_only_change_branches_are_shortened(stem: Seq<char>, segment: Seq<char>)
    requires
        forall|i: int| 0 <= i < segment.len() ==> #[trigger] segment[i] != '/',
    ensures
        ({
            let whole = segment.len() == 41 && segment[0] == 'I' && forall|i: int|
                1 <= i < 41 ==> '0' <= #[trigger] segment[i] <= '9' || 'a' <= segment[i] <= 'z';
            let tailed = segment.len() >= 10 && segment[segment.len() - 10] == '-'
                && segment[segment.len() - 9] == '-' && forall|i: int|
                segment.len() - 8 <= i < segment.len() ==> '0' <= #[trigger] segment[i] <= '9'
                    || 'a' <= segment[i] <= 'f';
            let name = stem + seq!['/'] + segment;
            &&& whole || tailed ==> stack_stem(name) == stem
            &&& !(whole || tailed) ==> stack_stem(name) == name
            &&& stack_stem(segment) == segment
        }),
{
    let name = stem + seq!['/'] + segment;
    law_last_segment_follows_the_slash(stem, segment);
    let n = text::span_back(name, text::is_not('/')) as int;
    let m = text::span_back(segment, text::is_not('/')) as int;
    text::lemma_span_back(name, text::is_not('/'));
    text::lemma_span_back(segment, text::is_not('/'));
    assert(last_segment(name).len() == n);
    assert(last_segment(segment).len() == m);
    assert(name.skip(name.len() - n) =~= segment);
    assert(name.take(name.len() - n - 1) =~= stem);
}

/// A segment without such an end names no change.
pub proof fn law_other_segments_name_no_change(segment: Seq<char>)
    ensures
        segment_id(segment) is Some <==> {
            ||| segment.len() == 41 && segment[0] == 'I' && (forall|i: int|
                1 <= i < 41 ==> '0' <= #[trigger] segment[i] <= '9' || 'a' <= segment[i] <= 'f')
            ||| segment.len() >= 10 && segment[segment.len() - 10] == '-' && segment[segment.len()
                - 9] == '-' && (forall|i: int|
                segment.len() - 8 <= i < segment.len() ==> '0' <= #[trigger] segment[i] <= '9'
                    || 'a' <= segment[i] <= 'f')
        },
{
}

/// A message has an identifier exactly where a trailer with one stands in it.
pub proof fn law_message_has_an_id_with_a_trailer(message: Seq<char>)
    ensures
        message_id(message) is Some <==> exists|i: int|
            0 <= i && i + 52 <= message.len() && #[trigger] message.subrange(i, i + 11)
                == "Change-Id: "@ && message[i + 11] == 'I' && forall|j: int|
                i + 12 <= j < i + 52 ==> '0' <= #[trigger] message[j] <= '9' || 'a' <= message[j]
                    <= 'z',
{
    reveal_strlit("Change-Id: ");
    law_last_trailer_wins(message);
    assert forall|i: int| 0 <= i && i + 52 <= message.len() && #[trigger] message.subrange(
        i,
        i + 11,
    ) == "Change-Id: "@ && message[i + 11] == 'I' && (forall|j: int|
        i + 12 <= j < i + 52 ==> '0' <= #[trigger] message[j] <= '9' || 'a' <= message[j]
            <= 'z') implies trailer_at(message, i) by {
        let id = message.subrange(i + 11, i + 52);
        assert forall|k: int| 1 <= k < 41 implies text::lower_alnum(#[trigger] id[k]) by {
            assert(id[k] == message[i + 11 + k]);
        }
    }
    if message_id(message) is Some {
        let i = choose|i: int|
            #![trigger trailer_at(message, i)]
            trailer_at(message, i) && message_id(message)->0 == message.subrange(i + 11, i + 52);
        let id = message.subrange(i + 11, i + 52);
        assert(message.subrange(i, i + 11) == "Change-Id: "@);
        assert(id[0] == message[i + 11]);
        assert forall|j: int| i + 12 <= j < i + 52 implies '0' <= #[trigger] message[j] <= '9'
            || 'a' <= message[j] <= 'z' by {
            assert(message[j] == id[j - i - 11]);
        }
    }
}

} // verus!
