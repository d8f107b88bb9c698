//! Text as sequences of characters: the vocabulary in which every other
//! module states what it reads and writes.
use vstd::prelude::*;

verus! {

/// `String::push` appends one character to the end of the string and changes
/// nothing else.
pub assume_specification[ String::push ](s: &mut String, c: char)
    ensures
        final(s)@ == old(s)@.push(c),
;

/// The contents of a list of strings.
pub open spec fn texts(v: Seq<String>) -> Seq<Seq<char>> {
    v.map_values(|s: String| s@)
}

/// The contents of a list of string slices.
pub open spec fn str_texts(v: Seq<&str>) -> Seq<Seq<char>> {
    v.map_values(|s: &str| s@)
}

/// The contents of an optional string.
pub open spec fn opt_text(o: Option<String>) -> Option<Seq<char>> {
    match o {
        Some(s) => Some(s@),
        None => None,
    }
}

/// The contents of an optional string slice.
pub open spec fn opt_str(o: Option<&str>) -> Option<Seq<char>> {
    match o {
        Some(s) => Some(s@),
        None => None,
    }
}

// ---------------------------------------------------------------------------
// Characters
// ---------------------------------------------------------------------------

/// The characters with the Unicode property `White_Space`.
pub open spec fn white_space(c: char) -> bool {
    let n = c as u32;
    ||| 0x09 <= n <= 0x0d
    ||| n == 0x20
    ||| n == 0x85
    ||| n == 0xa0
    ||| n == 0x1680
    ||| 0x2000 <= n <= 0x200a
    ||| n == 0x2028
    ||| n == 0x2029
    ||| n == 0x202f
    ||| n == 0x205f
    ||| n == 0x3000
}

pub open spec fn digit(c: char) -> bool {
    '0' <= c <= '9'
}

/// A lower-case hexadecimal digit.
pub open spec fn hex(c: char) -> bool {
    '0' <= c <= '9' || 'a' <= c <= 'f'
}

/// A digit or a lower-case ASCII letter.
pub open spec fn lower_alnum(c: char) -> bool {
    '0' <= c <= '9' || 'a' <= c <= 'z'
}

/// Whether `c` has the Unicode property `White_Space`.
pub fn is_white_space(c: char) -> (r: bool)
    ensures
        r == white_space(c),
{
    let n: u32 = c as u32;
    (n >= 0x09 && n <= 0x0d) || n == 0x20 || n == 0x85 || n == 0xa0 || n == 0x1680 || (n >= 0x2000
        && n <= 0x200a) || n == 0x2028 || n == 0x2029 || n == 0x202f || n == 0x205f || n == 0x3000
}

pub fn is_digit(c: char) -> (r: bool)
    ensures
        r == digit(c),
{
    c >= '0' && c <= '9'
}

pub fn is_hex(c: char) -> (r: bool)
    ensures
        r == hex(c),
{
    (c >= '0' && c <= '9') || (c >= 'a' && c <= 'f')
}

pub fn is_lower_alnum(c: char) -> (r: bool)
    ensures
        r == lower_alnum(c),
{
    (c >= '0' && c <= '9') || (c >= 'a' && c <= 'z')
}

// ---------------------------------------------------------------------------
// Conversions
// ---------------------------------------------------------------------------

/// The characters of `s`, in order.
pub fn chars_of(s: &str) -> (r: Vec<char>)
    ensures
        r@ == s@,
{
    let mut out: Vec<char> = Vec::new();
    for c in it: s.chars()
        invariant
            out@ == it.seq().take(it.index() as int),
            it.seq() == s@,
    {
        out.push(c);
    }
    out
}

/// The text `cs[from..to]`.
pub fn piece(cs: &[char], from: usize, to: usize) -> (r: String)
    requires
        from <= to <= cs.len(),
    ensures
        r@ == cs@.subrange(from as int, to as int),
{
    let mut out = String::new();
    let mut i: usize = from;
    while i < to
        invariant
            from <= i <= to <= cs.len(),
            out@ == cs@.subrange(from as int, i as int),
        decreases to - i,
    {
        out.push(cs[i]);
        proof {
            assert(cs@.subrange(from as int, i as int).push(cs@[i as int]) =~= cs@.subrange(
                from as int,
                i + 1,
            ));
        }
        i += 1;
    }
    out
}

/// The first `n` characters of `s`, or all of them where there are fewer.
pub open spec fn first_chars(s: Seq<char>, n: nat) -> Seq<char> {
    s.take(if s.len() <= n {
        s.len() as int
    } else {
        n as int
    })
}

/// The first `n` characters of `s`, or all of them where there are fewer.
pub fn first_chars_of(s: &str, n: usize) -> (r: String)
    ensures
        r@ == first_chars(s@, n as nat),
{
    let cs = chars_of(s);
    let k: usize = if cs.len() <= n {
        cs.len()
    } else {
        n
    };
    proof {
        assert(cs@.subrange(0, k as int) =~= cs@.take(k as int));
    }
    piece(&cs, 0, k)
}

/// A copy of an optional string.
pub fn clone_opt(o: &Option<String>) -> (r: Option<String>)
    ensures
        r == *o,
{
    match o {
        Some(s) => Some(s.clone()),
        None => None,
    }
}

// ---------------------------------------------------------------------------
// Comparison
// ---------------------------------------------------------------------------

/// Whether two texts are the same.
pub fn same(a: &str, b: &str) -> (r: bool)
    ensures
        r == (a@ == b@),
{
    a.to_owned() == b.to_owned()
}

/// Whether `o` holds exactly the text `b`.
pub fn same_opt(o: &Option<String>, b: &str) -> (r: bool)
    ensures
        r == (opt_text(*o) == Some(b@)),
{
    match o {
        Some(s) => same(s.as_str(), b),
        None => false,
    }
}

/// Whether `pat` stands in `s` at index `i`.
pub open spec fn occurs_at(s: Seq<char>, pat: Seq<char>, i: int) -> bool {
    0 <= i && i + pat.len() <= s.len() && s.subrange(i, i + pat.len()) == pat
}

/// Whether `pat` stands somewhere in `s`.
pub open spec fn contains_text(s: Seq<char>, pat: Seq<char>) -> bool {
    exists|i: int| occurs_at(s, pat, i)
}

/// Whether `pat` stands in `cs` at index `at`.
pub fn matches_at(cs: &[char], pat: &[char], at: usize) -> (r: bool)
    ensures
        r == occurs_at(cs@, pat@, at as int),
{
    if at > cs.len() || pat.len() > cs.len() - at {
        return false;
    }
    let mut i: usize = 0;
    while i < pat.len()
        invariant
            i <= pat.len(),
            at + pat.len() <= cs.len(),
            forall|j: int| 0 <= j < i ==> cs@[at + j] == pat@[j],
        decreases pat.len() - i,
    {
        if cs[at + i] != pat[i] {
            proof {
                assert(cs@.subrange(at as int, at + pat@.len())[i as int] != pat@[i as int]);
            }
            return false;
        }
        i += 1;
    }
    proof {
        assert(cs@.subrange(at as int, at + pat@.len()) =~= pat@);
    }
    true
}

/// Whether `s` starts with `prefix`.
pub fn starts_with(s: &str, prefix: &str) -> (r: bool)
    ensures
        r == prefix@.is_prefix_of(s@),
{
    let cs = chars_of(s);
    let ps = chars_of(prefix);
    matches_at(&cs, &ps, 0)
}

/// Whether `s` ends with `suffix`.
pub fn ends_with(s: &str, suffix: &str) -> (r: bool)
    ensures
        r == suffix@.is_suffix_of(s@),
{
    let cs = chars_of(s);
    let ps = chars_of(suffix);
    if ps.len() > cs.len() {
        return false;
    }
    matches_at(&cs, &ps, cs.len() - ps.len())
}

/// The index of the first place at or after `from` where `pat` stands.
pub fn find_from(cs: &[char], pat: &[char], from: usize) -> (r: Option<usize>)
    requires
        from <= cs.len(),
    ensures
        match r {
            Some(i) => from <= i && occurs_at(cs@, pat@, i as int) && forall|j: int|
                from <= j < i ==> !occurs_at(cs@, pat@, j),
            None => forall|j: int| from <= j ==> !occurs_at(cs@, pat@, j),
        },
{
    let mut i: usize = from;
    while i < cs.len()
        invariant
            from <= i <= cs.len(),
            forall|j: int| from <= j < i ==> !occurs_at(cs@, pat@, j),
        decreases cs.len() - i,
    {
        if matches_at(cs, pat, i) {
            return Some(i);
        }
        i += 1;
    }
    if matches_at(cs, pat, i) {
        Some(i)
    } else {
        None
    }
}

/// Whether `pat` stands somewhere in `s`.
pub fn contains(s: &str, pat: &str) -> (r: bool)
    ensures
        r == contains_text(s@, pat@),
{
    let cs = chars_of(s);
    let ps = chars_of(pat);
    find_from(&cs, &ps, 0).is_some()
}

/// `s` after `p`, where it starts with it.
pub open spec fn after(s: Seq<char>, p: Seq<char>) -> Option<Seq<char>> {
    if p.is_prefix_of(s) {
        Some(s.skip(p.len() as int))
    } else {
        None
    }
}

/// `s` before `p`, where it ends in it.
pub open spec fn before(s: Seq<char>, p: Seq<char>) -> Option<Seq<char>> {
    if p.is_suffix_of(s) {
        Some(s.take(s.len() - p.len()))
    } else {
        None
    }
}

/// The text of `s` after `p`, where it starts with it.
pub fn strip_start(s: &str, p: &str) -> (r: Option<String>)
    ensures
        opt_text(r) == after(s@, p@),
{
    if !starts_with(s, p) {
        return None;
    }
    let cs = chars_of(s);
    let n: usize = p.unicode_len();
    proof {
        assert(cs@.subrange(n as int, cs@.len() as int) =~= s@.skip(n as int));
    }
    Some(piece(&cs, n, cs.len()))
}

/// The text of `s` before `p`, where it ends in it.
pub fn strip_end(s: &str, p: &str) -> (r: Option<String>)
    ensures
        opt_text(r) == before(s@, p@),
{
    if !ends_with(s, p) {
        return None;
    }
    let cs = chars_of(s);
    let n: usize = cs.len() - p.unicode_len();
    proof {
        assert(cs@.subrange(0, n as int) =~= s@.take(n as int));
    }
    Some(piece(&cs, 0, n))
}

// ---------------------------------------------------------------------------
// Runs of characters, trimming
// ---------------------------------------------------------------------------

/// The length of the longest prefix of `s` whose characters all satisfy `p`.
pub open spec fn span(s: Seq<char>, p: spec_fn(char) -> bool) -> nat
    decreases s.len(),
{
    if s.len() == 0 || !p(s[0]) {
        0
    } else {
        1 + span(s.drop_first(), p)
    }
}

/// The length of the longest suffix of `s` whose characters all satisfy `p`.
pub open spec fn span_back(s: Seq<char>, p: spec_fn(char) -> bool) -> nat
    decreases s.len(),
{
    if s.len() == 0 || !p(s.last()) {
        0
    } else {
        1 + span_back(s.drop_last(), p)
    }
}

/// Every character but `c`.
pub open spec fn is_not(c: char) -> spec_fn(char) -> bool {
    |x: char| x != c
}

/// The character `c` alone.
pub open spec fn is_only(c: char) -> spec_fn(char) -> bool {
    |x: char| x == c
}

/// The white-space characters.
pub open spec fn blank() -> spec_fn(char) -> bool {
    |x: char| white_space(x)
}

/// The characters that are not white space.
pub open spec fn not_blank() -> spec_fn(char) -> bool {
    |x: char| !white_space(x)
}

/// The characters that can end a line.
pub open spec fn line_end() -> spec_fn(char) -> bool {
    |x: char| x == '\n' || x == '\r'
}

/// `span` is the place of the first character that does not satisfy `p`.
pub proof fn lemma_span(s: Seq<char>, p: spec_fn(char) -> bool)
    ensures
        span(s, p) <= s.len(),
        forall|i: int| 0 <= i < span(s, p) ==> p(#[trigger] s[i]),
        span(s, p) < s.len() ==> !p(s[span(s, p) as int]),
    decreases s.len(),
{
    if s.len() > 0 && p(s[0]) {
        let t = s.drop_first();
        lemma_span(t, p);
        assert forall|i: int| 0 <= i < span(s, p) implies p(#[trigger] s[i]) by {
            if i > 0 {
                assert(t[i - 1] == s[i]);
            }
        }
    }
}

/// The place of the first character that does not satisfy `p` is `span`.
pub proof fn lemma_span_is(s: Seq<char>, p: spec_fn(char) -> bool, k: int)
    requires
        0 <= k <= s.len(),
        forall|i: int| 0 <= i < k ==> p(#[trigger] s[i]),
        k < s.len() ==> !p(s[k]),
    ensures
        span(s, p) == k,
{
    lemma_span(s, p);
    let n = span(s, p) as int;
    if n < k {
        assert(p(s[n]));
    }
    if k < n {
        assert(p(s[k]));
    }
}

/// What `span_back` says of the characters of `s`.
pub proof fn lemma_span_back(s: Seq<char>, p: spec_fn(char) -> bool)
    ensures
        span_back(s, p) <= s.len(),
        forall|i: int| s.len() - span_back(s, p) <= i < s.len() ==> p(#[trigger] s[i]),
        span_back(s, p) < s.len() ==> !p(s[s.len() - span_back(s, p) - 1]),
    decreases s.len(),
{
    if s.len() > 0 && p(s.last()) {
        let t = s.drop_last();
        lemma_span_back(t, p);
        assert forall|i: int| s.len() - span_back(s, p) <= i < s.len() implies p(#[trigger] s[i]) by {
            if i < s.len() - 1 {
                assert(t[i] == s[i]);
            }
        }
    }
}

/// A suffix whose characters all satisfy `p`, after a character that does
/// not, is the longest one.
pub proof fn lemma_span_back_is(s: Seq<char>, p: spec_fn(char) -> bool, k: int)
    requires
        0 <= k <= s.len(),
        forall|i: int| s.len() - k <= i < s.len() ==> p(#[trigger] s[i]),
        k < s.len() ==> !p(s[s.len() - k - 1]),
    ensures
        span_back(s, p) == k,
{
    lemma_span_back(s, p);
    let n = span_back(s, p) as int;
    if n < k {
        assert(p(s[s.len() - n - 1]));
    }
    if k < n {
        assert(p(s[s.len() - k - 1]));
    }
}

/// `s` without the white space at its start.
pub open spec fn trim_start(s: Seq<char>) -> Seq<char> {
    s.skip(span(s, blank()) as int)
}

/// `s` without the white space at its end.
pub open spec fn trim_end(s: Seq<char>) -> Seq<char> {
    s.take(s.len() - span_back(s, blank()))
}

/// `s` without the white space around it.
pub open spec fn trim(s: Seq<char>) -> Seq<char> {
    trim_end(trim_start(s))
}

/// `s` without the characters `c` at its end.
pub open spec fn trim_end_char(s: Seq<char>, c: char) -> Seq<char> {
    s.take(s.len() - span_back(s, is_only(c)))
}

/// The index of the first character of `cs[from..]` that is `c`, or `cs.len()`.
pub fn index_of(cs: &[char], c: char, from: usize) -> (r: usize)
    requires
        from <= cs.len(),
    ensures
        from <= r <= cs.len(),
        r - from == span(cs@.skip(from as int), is_not(c)),
        r < cs.len() ==> cs@[r as int] == c,
        forall|j: int| from <= j < r ==> cs@[j] != c,
{
    let mut i: usize = from;
    while i < cs.len() && cs[i] != c
        invariant
            from <= i <= cs.len(),
            forall|j: int| from <= j < i ==> cs@[j] != c,
        decreases cs.len() - i,
    {
        i += 1;
    }
    proof {
        lemma_span_is(cs@.skip(from as int), is_not(c), i - from);
    }
    i
}

/// The index after the last character `c` of `cs`, or 0 where there is none.
pub fn after_last(cs: &[char], c: char) -> (r: usize)
    ensures
        r <= cs.len(),
        cs.len() - r == span_back(cs@, is_not(c)),
        r > 0 ==> cs@[r - 1] == c,
        forall|j: int| r <= j < cs.len() ==> cs@[j] != c,
{
    let mut i: usize = cs.len();
    while i > 0 && cs[i - 1] != c
        invariant
            i <= cs.len(),
            forall|j: int| i <= j < cs.len() ==> cs@[j] != c,
        decreases i,
    {
        i -= 1;
    }
    proof {
        lemma_span_back_is(cs@, is_not(c), cs.len() - i);
    }
    i
}

/// The number of white-space characters at the start of `cs`.
pub fn leading_blanks(cs: &[char]) -> (r: usize)
    ensures
        r <= cs.len(),
        r == span(cs@, blank()),
{
    let mut i: usize = 0;
    while i < cs.len() && is_white_space(cs[i])
        invariant
            i <= cs.len(),
            forall|j: int| 0 <= j < i ==> white_space(cs@[j]),
        decreases cs.len() - i,
    {
        i += 1;
    }
    proof {
        lemma_span_is(cs@, blank(), i as int);
    }
    i
}

/// The number of characters before the first white space of `cs`.
pub fn leading_word(cs: &[char]) -> (r: usize)
    ensures
        r <= cs.len(),
        r == span(cs@, not_blank()),
{
    let mut i: usize = 0;
    while i < cs.len() && !is_white_space(cs[i])
        invariant
            i <= cs.len(),
            forall|j: int| 0 <= j < i ==> !white_space(cs@[j]),
        decreases cs.len() - i,
    {
        i += 1;
    }
    proof {
        lemma_span_is(cs@, not_blank(), i as int);
    }
    i
}

/// The number of characters of `cs` that stay once the white space at its end
/// is gone.
pub fn len_without_trailing_blanks(cs: &[char]) -> (r: usize)
    ensures
        r <= cs.len(),
        r == cs.len() - span_back(cs@, blank()),
{
    let mut i: usize = cs.len();
    while i > 0 && is_white_space(cs[i - 1])
        invariant
            i <= cs.len(),
            forall|j: int| i <= j < cs.len() ==> white_space(cs@[j]),
        decreases i,
    {
        i -= 1;
    }
    proof {
        lemma_span_back_is(cs@, blank(), cs.len() - i);
    }
    i
}

/// The number of characters of `cs` that stay once the line terminators at its
/// end are gone.
pub fn len_without_line_end(cs: &[char]) -> (r: usize)
    ensures
        r <= cs.len(),
        r == cs.len() - span_back(cs@, line_end()),
{
    let mut i: usize = cs.len();
    while i > 0 && (cs[i - 1] == '\n' || cs[i - 1] == '\r')
        invariant
            i <= cs.len(),
            forall|j: int| i <= j < cs.len() ==> cs@[j] == '\n' || cs@[j] == '\r',
        decreases i,
    {
        i -= 1;
    }
    proof {
        lemma_span_back_is(cs@, line_end(), cs.len() - i);
    }
    i
}

/// `s` without the characters `c` at its end.
pub fn without_trailing(s: &str, c: char) -> (r: String)
    ensures
        r@ == trim_end_char(s@, c),
{
    let cs = chars_of(s);
    let mut i: usize = cs.len();
    while i > 0 && cs[i - 1] == c
        invariant
            i <= cs.len(),
            forall|j: int| i <= j < cs.len() ==> cs@[j] == c,
        decreases i,
    {
        i -= 1;
    }
    proof {
        lemma_span_back_is(cs@, is_only(c), cs.len() - i);
        assert(cs@.subrange(0, i as int) =~= cs@.take(i as int));
    }
    piece(&cs, 0, i)
}

/// `s` without the white space at its start.
pub fn trimmed_start(s: &str) -> (r: String)
    ensures
        r@ == trim_start(s@),
{
    let cs = chars_of(s);
    let n = leading_blanks(&cs);
    proof {
        assert(cs@.subrange(n as int, cs@.len() as int) =~= cs@.skip(n as int));
    }
    piece(&cs, n, cs.len())
}

/// `s` without the white space at its end.
pub fn trimmed_end(s: &str) -> (r: String)
    ensures
        r@ == trim_end(s@),
{
    let cs = chars_of(s);
    let n = len_without_trailing_blanks(&cs);
    proof {
        assert(cs@.subrange(0, n as int) =~= cs@.take(n as int));
    }
    piece(&cs, 0, n)
}

/// `s` without the white space around it.
pub fn trimmed(s: &str) -> (r: String)
    ensures
        r@ == trim(s@),
{
    let t = trimmed_start(s);
    trimmed_end(t.as_str())
}

// ---------------------------------------------------------------------------
// Splitting and joining
// ---------------------------------------------------------------------------

/// The pieces of `s` between the characters `sep`. There is always one piece
/// more than there are separators.
pub open spec fn split(s: Seq<char>, sep: char) -> Seq<Seq<char>>
    decreases s.len(),
{
    let k = span(s, is_not(sep)) as int;
    if k >= s.len() {
        seq![s]
    } else {
        seq![s.take(k)] + split(s.skip(k + 1), sep)
    }
}

/// The lines of `s`, each with the `\n` that ends it.
pub open spec fn split_inclusive(s: Seq<char>) -> Seq<Seq<char>>
    decreases s.len(),
{
    let k = span(s, is_not('\n')) as int;
    if s.len() == 0 {
        seq![]
    } else if k >= s.len() {
        seq![s]
    } else {
        seq![s.take(k + 1)] + split_inclusive(s.skip(k + 1))
    }
}

/// A line without the `\n` or `\r\n` that ends it.
pub open spec fn strip_newline(l: Seq<char>) -> Seq<char> {
    if l.len() > 0 && l.last() == '\n' {
        if l.len() > 1 && l[l.len() - 2] == '\r' {
            l.take(l.len() - 2)
        } else {
            l.drop_last()
        }
    } else {
        l
    }
}

/// The lines of `s` without their terminators.
pub open spec fn lines(s: Seq<char>) -> Seq<Seq<char>> {
    split_inclusive(s).map_values(|l: Seq<char>| strip_newline(l))
}

/// The texts of `parts` one after the other.
pub open spec fn concat(parts: Seq<Seq<char>>) -> Seq<char>
    decreases parts.len(),
{
    if parts.len() == 0 {
        seq![]
    } else {
        concat(parts.drop_last()) + parts.last()
    }
}

/// The texts of `parts` with `sep` between them.
pub open spec fn join(parts: Seq<Seq<char>>, sep: Seq<char>) -> Seq<char>
    decreases parts.len(),
{
    if parts.len() == 0 {
        seq![]
    } else if parts.len() == 1 {
        parts[0]
    } else {
        join(parts.drop_last(), sep) + sep + parts.last()
    }
}

/// The pieces of `s` between the characters `sep`.
pub fn split_on(s: &str, sep: char) -> (r: Vec<String>)
    ensures
        texts(r@) == split(s@, sep),
{
    let cs = chars_of(s);
    let mut out: Vec<String> = Vec::new();
    let mut start: usize = 0;
    let mut end: usize = index_of(&cs, sep, 0);
    proof {
        assert(cs@.skip(0) =~= cs@);
        assert(texts(out@) + split(cs@, sep) =~= split(cs@, sep));
    }
    while end < cs.len()
        invariant
            start <= end <= cs.len(),
            end - start == span(cs@.skip(start as int), is_not(sep)),
            texts(out@) + split(cs@.skip(start as int), sep) == split(cs@, sep),
        decreases cs.len() - start,
    {
        let ghost rest = cs@.skip(start as int);
        let ghost before = texts(out@);
        out.push(piece(&cs, start, end));
        proof {
            assert(cs@.subrange(start as int, end as int) =~= rest.take(end - start));
            assert(rest.skip(end - start + 1) =~= cs@.skip(end + 1));
            assert(texts(out@) =~= before.push(rest.take(end - start)));
            assert(texts(out@) + split(cs@.skip(end + 1), sep) =~= before + split(rest, sep));
        }
        start = end + 1;
        end = index_of(&cs, sep, start);
    }
    let ghost before = texts(out@);
    out.push(piece(&cs, start, end));
    proof {
        assert(cs@.subrange(start as int, end as int) =~= cs@.skip(start as int));
        assert(texts(out@) =~= before + seq![cs@.skip(start as int)]);
    }
    out
}

/// The lines of `s`, each with the `\n` that ends it.
pub fn split_lines(s: &str) -> (r: Vec<String>)
    ensures
        texts(r@) == split_inclusive(s@),
{
    let cs = chars_of(s);
    let mut out: Vec<String> = Vec::new();
    let mut start: usize = 0;
    proof {
        assert(cs@.skip(0) =~= cs@);
        assert(texts(out@) + split_inclusive(cs@) =~= split_inclusive(cs@));
    }
    while start < cs.len()
        invariant
            start <= cs.len(),
            texts(out@) + split_inclusive(cs@.skip(start as int)) == split_inclusive(cs@),
        decreases cs.len() - start,
    {
        let end: usize = index_of(&cs, '\n', start);
        let stop: usize = if end < cs.len() {
            end + 1
        } else {
            end
        };
        let ghost rest = cs@.skip(start as int);
        let ghost before = texts(out@);
        out.push(piece(&cs, start, stop));
        proof {
            assert(cs@.subrange(start as int, stop as int) =~= rest.take(stop - start));
            assert(rest.skip(stop - start) =~= cs@.skip(stop as int));
            assert(texts(out@) =~= before.push(rest.take(stop - start)));
            if end >= cs.len() {
                assert(rest.take(stop - start) =~= rest);
                assert(split_inclusive(cs@.skip(stop as int)) =~= seq![]);
            }
            assert(texts(out@) + split_inclusive(cs@.skip(stop as int)) =~= before
                + split_inclusive(rest));
        }
        start = stop;
    }
    proof {
        assert(split_inclusive(cs@.skip(start as int)) =~= seq![]);
        assert(texts(out@) + split_inclusive(cs@.skip(start as int)) =~= texts(out@));
    }
    out
}

/// A line without the `\n` or `\r\n` that ends it.
pub fn without_newline(l: &str) -> (r: String)
    ensures
        r@ == strip_newline(l@),
{
    let cs = chars_of(l);
    let n: usize = cs.len();
    if n > 0 && cs[n - 1] == '\n' {
        if n > 1 && cs[n - 2] == '\r' {
            proof {
                assert(cs@.subrange(0, n - 2) =~= cs@.take(n - 2));
            }
            piece(&cs, 0, n - 2)
        } else {
            proof {
                assert(cs@.subrange(0, n - 1) =~= cs@.drop_last());
            }
            piece(&cs, 0, n - 1)
        }
    } else {
        l.to_owned()
    }
}

/// The lines of `s` without their terminators.
pub fn lines_of(s: &str) -> (r: Vec<String>)
    ensures
        texts(r@) == lines(s@),
{
    let full = split_lines(s);
    let mut out: Vec<String> = Vec::new();
    let mut i: usize = 0;
    while i < full.len()
        invariant
            i <= full.len(),
            out.len() == i,
            forall|j: int| 0 <= j < i ==> #[trigger] out@[j]@ == strip_newline(full@[j]@),
        decreases full.len() - i,
    {
        out.push(without_newline(full[i].as_str()));
        i += 1;
    }
    proof {
        assert forall|j: int| 0 <= j < out.len() implies texts(out@)[j] == lines(s@)[j] by {
            assert(texts(full@)[j] == full@[j]@);
        }
        assert(texts(out@) =~= lines(s@));
    }
    out
}

/// The texts of `parts` with `sep` between them.
pub fn join_with(parts: &Vec<String>, sep: &str) -> (r: String)
    ensures
        r@ == join(texts(parts@), sep@),
{
    let mut out = String::new();
    let mut i: usize = 0;
    while i < parts.len()
        invariant
            i <= parts.len(),
            out@ == join(texts(parts@).take(i as int), sep@),
        decreases parts.len() - i,
    {
        let ghost t = texts(parts@).take(i + 1);
        proof {
            assert(t.drop_last() =~= texts(parts@).take(i as int));
            assert(t.last() == parts@[i as int]@);
        }
        if i > 0 {
            out.append(sep);
        }
        out.append(parts[i].as_str());
        proof {
            if i == 0 {
                assert(join(t, sep@) == t[0]);
                assert(seq![] + parts@[0]@ =~= parts@[0]@);
            }
        }
        i += 1;
    }
    proof {
        assert(texts(parts@).take(parts@.len() as int) =~= texts(parts@));
    }
    out
}

/// Concatenation takes apart at any place.
pub proof fn lemma_concat_add(a: Seq<Seq<char>>, b: Seq<Seq<char>>)
    ensures
        concat(a + b) == concat(a) + concat(b),
    decreases b.len(),
{
    if b.len() == 0 {
        assert(a + b =~= a);
        assert(concat(a) + concat(b) =~= concat(a));
    } else {
        assert((a + b).drop_last() =~= a + b.drop_last());
        lemma_concat_add(a, b.drop_last());
        assert(concat(a) + (concat(b.drop_last()) + b.last()) =~= (concat(a) + concat(b.drop_last()))
            + b.last());
    }
}

/// Splitting a text into its lines loses nothing of it.
pub proof fn lemma_lines_concat(s: Seq<char>)
    ensures
        concat(split_inclusive(s)) == s,
    decreases s.len(),
{
    let k = span(s, is_not('\n')) as int;
    if s.len() == 0 {
        assert(concat(split_inclusive(s)) =~= s);
    } else if k >= s.len() {
        reveal_with_fuel(concat, 2);
        assert(seq![s].drop_last() =~= seq![]);
        assert(concat(seq![s]) =~= s);
    } else {
        let head = seq![s.take(k + 1)];
        lemma_lines_concat(s.skip(k + 1));
        lemma_concat_add(head, split_inclusive(s.skip(k + 1)));
        reveal_with_fuel(concat, 2);
        assert(head.drop_last() =~= seq![]);
        assert(concat(head) =~= s.take(k + 1));
        assert(s.take(k + 1) + s.skip(k + 1) =~= s);
    }
}

// ---------------------------------------------------------------------------
// Replacing
// ---------------------------------------------------------------------------

/// `s` with every occurrence of `pat`, from left to right and without overlap,
/// replaced by `with`.
pub open spec fn replace_all(s: Seq<char>, pat: Seq<char>, with: Seq<char>) -> Seq<char>
    decreases s.len(),
{
    if pat.len() == 0 || s.len() < pat.len() {
        s
    } else if occurs_at(s, pat, 0) {
        with + replace_all(s.skip(pat.len() as int), pat, with)
    } else {
        seq![s[0]] + replace_all(s.skip(1), pat, with)
    }
}

/// `s` with every occurrence of `pat` replaced by `with`.
pub fn replaced(s: &str, pat: &str, with: &str) -> (r: String)
    requires
        pat@.len() > 0,
    ensures
        r@ == replace_all(s@, pat@, with@),
{
    let cs = chars_of(s);
    let ps = chars_of(pat);
    let mut out = String::new();
    let mut i: usize = 0;
    proof {
        assert(cs@.skip(0) =~= cs@);
        assert(out@ + replace_all(cs@, ps@, with@) =~= replace_all(cs@, ps@, with@));
    }
    while i < cs.len()
        invariant
            i <= cs.len(),
            ps.len() > 0,
            out@ + replace_all(cs@.skip(i as int), ps@, with@) == replace_all(cs@, ps@, with@),
        decreases cs.len() - i,
    {
        let ghost rest = cs@.skip(i as int);
        let ghost before = out@;
        proof {
            assert(rest.subrange(0, ps@.len() as int) =~= cs@.subrange(i as int, i + ps@.len())
                || rest.len() < ps@.len());
        }
        if matches_at(&cs, &ps, i) {
            out.append(with);
            proof {
                assert(rest.skip(ps@.len() as int) =~= cs@.skip(i + ps@.len()));
                assert(before + (with@ + replace_all(cs@.skip(i + ps@.len()), ps@, with@)) =~= (
                before + with@) + replace_all(cs@.skip(i + ps@.len()), ps@, with@));
            }
            i += ps.len();
        } else {
            out.push(cs[i]);
            proof {
                let tail = cs@.skip(i + 1);
                assert(rest.skip(1) =~= tail);
                if rest.len() < ps@.len() {
                    assert(rest =~= seq![rest[0]] + tail);
                }
                assert(before + (seq![rest[0]] + replace_all(tail, ps@, with@)) =~= before.push(
                    cs@[i as int],
                ) + replace_all(tail, ps@, with@));
            }
            i += 1;
        }
    }
    proof {
        assert(cs@.skip(i as int) =~= seq![]);
        assert(out@ + replace_all(cs@.skip(i as int), ps@, with@) =~= out@);
    }
    out
}

/// `s` with the first occurrence of `pat` replaced by `with`.
pub open spec fn replace_first(s: Seq<char>, pat: Seq<char>, with: Seq<char>) -> Seq<char>
    decreases s.len(),
{
    if occurs_at(s, pat, 0) {
        with + s.skip(pat.len() as int)
    } else if s.len() == 0 {
        s
    } else {
        seq![s[0]] + replace_first(s.skip(1), pat, with)
    }
}

proof fn lemma_replace_first(s: Seq<char>, pat: Seq<char>, with: Seq<char>, k: int)
    requires
        0 <= k <= s.len(),
        forall|j: int| 0 <= j < k ==> !occurs_at(s, pat, j),
    ensures
        replace_first(s, pat, with) == s.take(k) + replace_first(s.skip(k), pat, with),
    decreases k,
{
    if k == 0 {
        assert(s.skip(0) =~= s);
        assert(s.take(0) + replace_first(s, pat, with) =~= replace_first(s, pat, with));
    } else {
        assert(!occurs_at(s, pat, 0));
        let t = s.skip(1);
        assert forall|j: int| 0 <= j < k - 1 implies !occurs_at(t, pat, j) by {
            assert(!occurs_at(s, pat, j + 1));
            if occurs_at(t, pat, j) {
                assert(t.subrange(j, j + pat.len()) =~= s.subrange(j + 1, j + 1 + pat.len()));
            }
        }
        lemma_replace_first(t, pat, with, k - 1);
        assert(t.skip(k - 1) =~= s.skip(k));
        assert(seq![s[0]] + t.take(k - 1) =~= s.take(k));
        assert(seq![s[0]] + (t.take(k - 1) + replace_first(s.skip(k), pat, with)) =~= s.take(k)
            + replace_first(s.skip(k), pat, with));
    }
}

/// `s` with the first occurrence of `pat` replaced by `with`.
pub fn replaced_first(s: &str, pat: &str, with: &str) -> (r: String)
    ensures
        r@ == replace_first(s@, pat@, with@),
{
    let cs = chars_of(s);
    let ps = chars_of(pat);
    match find_from(&cs, &ps, 0) {
        None => {
            proof {
                lemma_replace_first(s@, pat@, with@, s@.len() as int);
                assert(s@.skip(s@.len() as int) =~= seq![]);
                assert(!occurs_at(s@, pat@, s@.len() as int));
                assert(s@.skip(s@.len() as int).subrange(0, 0) =~= seq![]);
                assert(s@.subrange(s@.len() as int, s@.len() as int) =~= seq![]);
                assert(s@.take(s@.len() as int) + seq![] =~= s@);
            }
            s.to_owned()
        },
        Some(i) => {
            let mut out = piece(&cs, 0, i);
            out.append(with);
            proof {
                assert(i + ps@.len() <= cs@.len());
                assert(cs@.len() == cs.len());
            }
            let rest = piece(&cs, i + ps.len(), cs.len());
            out.append(rest.as_str());
            proof {
                let t = s@.skip(i as int);
                lemma_replace_first(s@, pat@, with@, i as int);
                assert(t.subrange(0, pat@.len() as int) =~= s@.subrange(i as int, i + pat@.len()));
                assert(t.skip(pat@.len() as int) =~= rest@);
                assert(cs@.subrange(0, i as int) =~= s@.take(i as int));
                assert(out@ =~= s@.take(i as int) + (with@ + t.skip(pat@.len() as int)));
            }
            out
        },
    }
}

/// `n` spaces.
pub open spec fn spaces(n: nat) -> Seq<char> {
    Seq::new(n, |i: int| ' ')
}

/// `s`, followed by spaces up to `width` characters.
pub open spec fn pad_right(s: Seq<char>, width: nat) -> Seq<char> {
    if s.len() >= width {
        s
    } else {
        s + spaces((width - s.len()) as nat)
    }
}

/// `s`, followed by spaces up to `width` characters.
pub fn padded(s: &str, width: usize) -> (r: String)
    ensures
        r@ == pad_right(s@, width as nat),
{
    let mut out = s.to_owned();
    let mut n: usize = s.unicode_len();
    let ghost start = s@.len();
    proof {
        assert(s@ + spaces(0) =~= s@);
    }
    while n < width
        invariant
            start == s@.len(),
            start <= n,
            n <= width || n == start,
            out@ == s@ + spaces((n - start) as nat),
        decreases width - n,
    {
        out.push(' ');
        n += 1;
        proof {
            assert(spaces((n - 1 - start) as nat).push(' ') =~= spaces((n - start) as nat));
            assert(out@ =~= s@ + spaces((n - start) as nat));
        }
    }
    proof {
        assert(s@.len() >= width ==> out@ =~= s@);
    }
    out
}

// ---------------------------------------------------------------------------
// Numbers
// ---------------------------------------------------------------------------

pub open spec fn digit_char(d: nat) -> char {
    (48 + d) as char
}

pub open spec fn digit_value(c: char) -> nat {
    (c as nat - 48) as nat
}

/// `n` in decimal, without leading zeros.
pub open spec fn decimal(n: nat) -> Seq<char>
    decreases n,
{
    if n < 10 {
        seq![digit_char(n)]
    } else {
        decimal(n / 10).push(digit_char(n % 10))
    }
}

/// The number that a sequence of decimal digits writes.
pub open spec fn digits_value(s: Seq<char>) -> nat
    decreases s.len(),
{
    if s.len() == 0 {
        0
    } else {
        digits_value(s.drop_last()) * 10 + digit_value(s.last())
    }
}

/// Whether `s` holds nothing but decimal digits.
pub open spec fn all_digits(s: Seq<char>) -> bool {
    forall|i: int| 0 <= i < s.len() ==> digit(#[trigger] s[i])
}

/// The number that `s` writes: decimal digits, at least one, with at most one
/// `+` before them, and no more than `max`.
pub open spec fn parse_number(s: Seq<char>, max: nat) -> Option<nat> {
    let d = if s.len() > 0 && s[0] == '+' {
        s.skip(1)
    } else {
        s
    };
    if d.len() == 0 || !all_digits(d) || digits_value(d) > max {
        None
    } else {
        Some(digits_value(d))
    }
}

/// `n` in decimal.
pub fn decimal_of(n: u64) -> (r: String)
    ensures
        r@ == decimal(n as nat),
    decreases n,
{
    let d: u8 = (n % 10) as u8;
    let c: char = (48u8 + d) as char;
    if n < 10 {
        let mut r = String::new();
        r.push(c);
        proof {
            assert(Seq::<char>::empty().push(c) =~= seq![c]);
        }
        r
    } else {
        let mut r = decimal_of(n / 10);
        r.push(c);
        r
    }
}

/// What `decimal` writes are digits, at least one, and they read back as the
/// number.
pub proof fn lemma_decimal(n: nat)
    ensures
        decimal(n).len() > 0,
        all_digits(decimal(n)),
        digits_value(decimal(n)) == n,
    decreases n,
{
    if n >= 10 {
        lemma_decimal(n / 10);
        let d = decimal(n);
        assert(d.drop_last() =~= decimal(n / 10));
        assert(d.last() == digit_char(n % 10));
        assert forall|i: int| 0 <= i < d.len() implies digit(#[trigger] d[i]) by {
            if i < d.len() - 1 {
                assert(d[i] == decimal(n / 10)[i]);
            }
        }
    } else {
        reveal_with_fuel(digits_value, 2);
        assert(decimal(n).drop_last() =~= seq![]);
    }
}

/// A number written in decimal parses as itself.
pub proof fn lemma_parse_decimal(n: nat, max: nat)
    requires
        n <= max,
    ensures
        parse_number(decimal(n), max) == Some(n),
{
    lemma_decimal(n);
    assert(digit(decimal(n)[0]));
}

proof fn lemma_digits_value_monotone(s: Seq<char>, k: int)
    requires
        0 <= k <= s.len(),
    ensures
        digits_value(s.take(k)) <= digits_value(s),
    decreases s.len() - k,
{
    if k < s.len() {
        lemma_digits_value_monotone(s, k + 1);
        assert(s.take(k + 1).drop_last() =~= s.take(k));
    } else {
        assert(s.take(k) =~= s);
    }
}

/// The number that `s` writes in decimal, up to `max`.
pub fn parse_up_to(s: &str, max: u64) -> (r: Option<u64>)
    ensures
        match r {
            Some(n) => parse_number(s@, max as nat) == Some(n as nat),
            None => parse_number(s@, max as nat) is None,
        },
{
    let cs = chars_of(s);
    let start: usize = if cs.len() > 0 && cs[0] == '+' {
        1
    } else {
        0
    };
    if start == cs.len() {
        return None;
    }
    let ghost d = if start == 1 {
        cs@.skip(1)
    } else {
        cs@
    };
    let mut n: u64 = 0;
    let mut i: usize = start;
    proof {
        assert(d.take(0) =~= seq![]);
    }
    while i < cs.len()
        invariant
            start <= i <= cs.len(),
            start == 0 || start == 1,
            cs@ == s@,
            d == (if start == 1 {
                cs@.skip(1)
            } else {
                cs@
            }),
            forall|j: int| 0 <= j < i - start ==> digit(#[trigger] d[j]),
            n == digits_value(d.take(i - start)),
            n <= max,
            parse_number(cs@, max as nat) == (if d.len() == 0 || !all_digits(d) || digits_value(d)
                > max {
                None
            } else {
                Some(digits_value(d))
            }),
        decreases cs.len() - i,
    {
        let c: char = cs[i];
        proof {
            assert(d[i - start] == c);
        }
        if !is_digit(c) {
            return None;
        }
        let v: u64 = (c as u32 - 48) as u64;
        proof {
            assert(d.take(i - start + 1).drop_last() =~= d.take(i - start));
            assert(d.take(i - start + 1).last() == c);
            lemma_digits_value_monotone(d, i - start + 1);
        }
        if v > max || n > max / 10 || n * 10 > max - v {
            return None;
        }
        n = n * 10 + v;
        i += 1;
    }
    proof {
        assert(d.take(i - start) =~= d);
    }
    Some(n)
}

// ---------------------------------------------------------------------------
// Encoded lengths
// ---------------------------------------------------------------------------

/// The number of bytes of `c` in UTF-8.
pub open spec fn char_bytes(c: char) -> nat {
    let n = c as u32;
    if n < 0x80 {
        1
    } else if n < 0x800 {
        2
    } else if n < 0x10000 {
        3
    } else {
        4
    }
}

/// The number of bytes of `s` in UTF-8.
pub open spec fn byte_len(s: Seq<char>) -> nat
    decreases s.len(),
{
    if s.len() == 0 {
        0
    } else {
        byte_len(s.drop_last()) + char_bytes(s.last())
    }
}

/// The longest prefix of `s` that takes no more than `n` bytes.
pub open spec fn cut(s: Seq<char>, n: nat) -> Seq<char>
    decreases s.len(),
{
    if byte_len(s) <= n {
        s
    } else {
        cut(s.drop_last(), n)
    }
}

/// Whether `s` is no longer than `n` bytes or has a character boundary there.
pub open spec fn cuts_at(s: Seq<char>, n: nat) -> bool {
    byte_len(s) <= n || byte_len(cut(s, n)) == n
}

proof fn lemma_byte_len_take(s: Seq<char>, k: int)
    requires
        0 <= k < s.len(),
    ensures
        byte_len(s.take(k + 1)) == byte_len(s.take(k)) + char_bytes(s[k]),
{
    assert(s.take(k + 1).drop_last() =~= s.take(k));
}

proof fn lemma_byte_len_monotone(s: Seq<char>, k: int, m: int)
    requires
        0 <= k <= m <= s.len(),
    ensures
        byte_len(s.take(k)) <= byte_len(s.take(m)),
    decreases m - k,
{
    if k < m {
        lemma_byte_len_monotone(s, k, m - 1);
        lemma_byte_len_take(s, m - 1);
    }
}

/// The prefix that `cut` takes is the one whose next character would go past
/// `n` bytes.
proof fn lemma_cut_is(s: Seq<char>, n: nat, k: int)
    requires
        0 <= k <= s.len(),
        byte_len(s.take(k)) <= n,
        k < s.len() ==> byte_len(s.take(k + 1)) > n,
    ensures
        cut(s, n) == s.take(k),
    decreases s.len(),
{
    assert(s.take(s.len() as int) =~= s);
    if k < s.len() {
        lemma_byte_len_monotone(s, k + 1, s.len() as int);
        let t = s.drop_last();
        assert(t.take(k) =~= s.take(k));
        if k + 1 <= t.len() {
            assert(t.take(k + 1) =~= s.take(k + 1));
        }
        lemma_cut_is(t, n, k);
    }
}

/// `s` cut down to `n` bytes.
pub fn cut_to(s: &str, n: usize) -> (r: String)
    requires
        cuts_at(s@, n as nat),
    ensures
        r@ == cut(s@, n as nat),
{
    let cs = chars_of(s);
    let mut total: usize = 0;
    let mut i: usize = 0;
    proof {
        assert(cs@.take(0) =~= seq![]);
    }
    while i < cs.len()
        invariant
            i <= cs.len(),
            cs@ == s@,
            total == byte_len(cs@.take(i as int)),
            total <= n,
        decreases cs.len() - i,
    {
        let c: u32 = cs[i] as u32;
        let b: usize = if c < 0x80 {
            1
        } else if c < 0x800 {
            2
        } else if c < 0x10000 {
            3
        } else {
            4
        };
        proof {
            lemma_byte_len_take(cs@, i as int);
        }
        if b > n - total {
            proof {
                lemma_cut_is(cs@, n as nat, i as int);
                assert(cs@.subrange(0, i as int) =~= cs@.take(i as int));
            }
            return piece(&cs, 0, i);
        }
        total += b;
        i += 1;
    }
    proof {
        assert(cs@.take(i as int) =~= cs@);
    }
    s.to_owned()
}

proof fn lemma_ascii_byte_len(s: Seq<char>)
    requires
        forall|i: int| 0 <= i < s.len() ==> (#[trigger] s[i] as u32) < 0x80,
    ensures
        byte_len(s) == s.len(),
    decreases s.len(),
{
    if s.len() > 0 {
        assert((s[s.len() - 1] as u32) < 0x80);
        lemma_ascii_byte_len(s.drop_last());
    }
}

/// Whether every character of a text is ASCII.
pub open spec fn all_ascii(s: Seq<char>) -> bool {
    forall|i: int| 0 <= i < s.len() ==> (#[trigger] s[i] as u32) < 0x80
}

/// An ASCII text has a character boundary at every byte.
pub proof fn law_ascii_cuts_anywhere(s: Seq<char>, n: nat)
    requires
        all_ascii(s),
    ensures
        cuts_at(s, n),
        cut(s, n) == s.take(if s.len() <= n {
            s.len() as int
        } else {
            n as int
        }),
{
    lemma_ascii_byte_len(s);
    if s.len() <= n {
        assert(s.take(s.len() as int) =~= s);
    } else {
        lemma_ascii_byte_len(s.take(n as int));
        lemma_ascii_byte_len(s.take(n as int + 1));
        lemma_cut_is(s, n, n as int);
    }
}

// ---------------------------------------------------------------------------
// Laws
// ---------------------------------------------------------------------------

/// What stands between white space is all that is left of a text, and nothing
/// inside it is lost.
pub proof fn law_trim_takes_only_the_white_space_around(a: Seq<char>, s: Seq<char>, b: Seq<char>)
    requires
        forall|i: int| 0 <= i < a.len() ==> white_space(#[trigger] a[i]),
        forall|i: int| 0 <= i < b.len() ==> white_space(#[trigger] b[i]),
        s.len() > 0,
        !white_space(s[0]),
        !white_space(s.last()),
    ensures
        trim(a + s + b) == s,
        trim_start(a + s + b) == s + b,
        trim_end(a + s + b) == a + s,
        trim(a + b) == Seq::<char>::empty(),
{
    let t = a + s + b;
    let k = a.len() as int;
    assert forall|i: int| 0 <= i < k implies blank()(#[trigger] t[i]) by {
        assert(t[i] == a[i]);
    }
    assert(t[k] == s[0]);
    lemma_span_is(t, blank(), k);
    assert(t.skip(k) =~= s + b);
    let u = s + b;
    let n = b.len() as int;
    assert forall|i: int| u.len() - n <= i < u.len() implies blank()(#[trigger] u[i]) by {
        assert(u[i] == b[i - s.len()]);
    }
    assert(u[u.len() - n - 1] == s.last());
    lemma_span_back_is(u, blank(), n);
    assert(u.take(u.len() - n) =~= s);
    assert forall|i: int| t.len() - n <= i < t.len() implies blank()(#[trigger] t[i]) by {
        assert(t[i] == b[i - a.len() - s.len()]);
    }
    assert(t[t.len() - n - 1] == s.last());
    lemma_span_back_is(t, blank(), n);
    assert(t.take(t.len() - n) =~= a + s);
    let w = a + b;
    assert forall|i: int| 0 <= i < w.len() implies blank()(#[trigger] w[i]) by {
        if i < a.len() {
            assert(w[i] == a[i]);
        } else {
            assert(w[i] == b[i - a.len()]);
        }
    }
    lemma_span_is(w, blank(), w.len() as int);
    assert(w.skip(w.len() as int) =~= Seq::<char>::empty());
    lemma_span_back_is(Seq::<char>::empty(), blank(), 0);
    assert(trim(w) =~= Seq::<char>::empty());
}

/// The white space of ASCII is the space and the five controls from the tab to
/// the carriage return.
pub proof fn law_ascii_white_space(c: char)
    requires
        (c as u32) < 0x80,
    ensures
        white_space(c) <==> c == ' ' || c == '\t' || c == '\n' || c as u32 == 0x0b || c as u32 == 0x0c
            || c == '\r',
{
}

/// The pieces of a text hold no separator, and with the separator between them
/// they are the text.
pub proof fn law_pieces_join_to_the_text(s: Seq<char>, sep: char)
    ensures
        split(s, sep).len() > 0,
        join(split(s, sep), seq![sep]) == s,
        forall|i: int, j: int|
            0 <= i < split(s, sep).len() && 0 <= j < (#[trigger] split(s, sep)[i]).len() ==> (
            #[trigger] split(s, sep)[i][j]) != sep,
    decreases s.len(),
{
    let k = span(s, is_not(sep)) as int;
    lemma_span(s, is_not(sep));
    let parts = split(s, sep);
    if k >= s.len() {
        assert(parts =~= seq![s]);
        assert forall|i: int, j: int| 0 <= i < parts.len() && 0 <= j < (#[trigger] parts[i]).len() implies (
        #[trigger] parts[i][j]) != sep by {
            assert(is_not(sep)(s[j]));
        }
    } else {
        let rest = split(s.skip(k + 1), sep);
        law_pieces_join_to_the_text(s.skip(k + 1), sep);
        lemma_join_first(s.take(k), rest, seq![sep]);
        assert(s[k] == sep);
        assert(s.take(k) + seq![sep] + s.skip(k + 1) =~= s);
        assert forall|i: int, j: int| 0 <= i < parts.len() && 0 <= j < (#[trigger] parts[i]).len() implies (
        #[trigger] parts[i][j]) != sep by {
            if i == 0 {
                assert(parts[0] == s.take(k));
                assert(is_not(sep)(s[j]));
            } else {
                assert(parts[i] == rest[i - 1]);
                assert(rest[i - 1][j] != sep);
            }
        }
    }
}

proof fn lemma_join_first(first: Seq<char>, rest: Seq<Seq<char>>, sep: Seq<char>)
    requires
        rest.len() > 0,
    ensures
        join(seq![first] + rest, sep) == first + sep + join(rest, sep),
    decreases rest.len(),
{
    let all = seq![first] + rest;
    assert(all.last() == rest.last());
    if rest.len() == 1 {
        assert(all.drop_last() =~= seq![first]);
        assert(join(seq![first], sep) == first);
    } else {
        assert(all.drop_last() =~= seq![first] + rest.drop_last());
        lemma_join_first(first, rest.drop_last(), sep);
        assert(first + sep + join(rest.drop_last(), sep) + sep + rest.last() =~= first + sep + (
        join(rest.drop_last(), sep) + sep + rest.last()));
    }
}

/// A text is its first line and the lines of the rest; a line ends at the line
/// feed, with the carriage return before it.
pub proof fn law_lines_are_told_by_their_ends(line: Seq<char>, rest: Seq<char>)
    requires
        forall|i: int| 0 <= i < line.len() ==> #[trigger] line[i] != '\n',
        line.len() == 0 || line.last() != '\r',
    ensures
        lines(line + seq!['\n'] + rest) == seq![line] + lines(rest),
        lines(line + seq!['\r', '\n'] + rest) == seq![line] + lines(rest),
        line.len() > 0 ==> lines(line) == seq![line],
        split_inclusive(line + seq!['\n'] + rest) == seq![line.push('\n')] + split_inclusive(rest),
{
    lemma_line_step(line, rest);
    let long = line.push('\r');
    assert forall|i: int| 0 <= i < long.len() implies #[trigger] long[i] != '\n' by {
        if i < line.len() {
            assert(long[i] == line[i]);
        }
    }
    lemma_line_step(long, rest);
    assert(line + seq!['\r', '\n'] + rest =~= long + seq!['\n'] + rest);
    assert(strip_newline(line.push('\n')) =~= line) by {
        if line.len() > 0 {
            assert(line.push('\n')[line.len() - 1] == line.last());
        }
        assert(line.push('\n').drop_last() =~= line);
    }
    let l = long.push('\n');
    assert(l[l.len() - 2] == '\r');
    assert(l.take(l.len() - 2) =~= line);
    assert(lines(line + seq!['\n'] + rest) =~= seq![line] + lines(rest));
    assert(lines(line + seq!['\r', '\n'] + rest) =~= seq![line] + lines(rest));
    if line.len() > 0 {
        assert forall|i: int| 0 <= i < line.len() implies is_not('\n')(#[trigger] line[i]) by {}
        lemma_span_is(line, is_not('\n'), line.len() as int);
        assert(lines(line) =~= seq![line]);
    }
}

proof fn lemma_line_step(line: Seq<char>, rest: Seq<char>)
    requires
        forall|i: int| 0 <= i < line.len() ==> #[trigger] line[i] != '\n',
    ensures
        split_inclusive(line + seq!['\n'] + rest) == seq![line.push('\n')] + split_inclusive(rest),
{
    let s = line + seq!['\n'] + rest;
    let k = line.len() as int;
    assert forall|i: int| 0 <= i < k implies is_not('\n')(#[trigger] s[i]) by {
        assert(s[i] == line[i]);
    }
    assert(s[k] == '\n');
    lemma_span_is(s, is_not('\n'), k);
    assert(s.take(k + 1) =~= line.push('\n'));
    assert(s.skip(k + 1) =~= rest);
}

/// Replacing leaves a text without the pattern alone; else it changes the first
/// occurrence and goes on behind it.
pub proof fn law_every_occurrence_is_replaced(
    a: Seq<char>,
    pat: Seq<char>,
    b: Seq<char>,
    with: Seq<char>,
)
    requires
        pat.len() > 0,
        forall|i: int| 0 <= i < a.len() ==> !#[trigger] occurs_at(a + pat + b, pat, i),
    ensures
        replace_all(a + pat + b, pat, with) == a + with + replace_all(b, pat, with),
        replace_first(a + pat + b, pat, with) == a + with + b,
    decreases a.len(),
{
    let s = a + pat + b;
    if a.len() == 0 {
        assert(s.subrange(0, pat.len() as int) =~= pat);
        assert(s.skip(pat.len() as int) =~= b);
        assert(a + with + replace_all(b, pat, with) =~= with + replace_all(b, pat, with));
        assert(a + with + b =~= with + b);
    } else {
        assert(!occurs_at(s, pat, 0));
        let t = a.skip(1);
        assert(s.skip(1) =~= t + pat + b);
        assert forall|i: int| 0 <= i < t.len() implies !#[trigger] occurs_at(t + pat + b, pat, i) by {
            assert(!occurs_at(s, pat, i + 1));
            if occurs_at(t + pat + b, pat, i) {
                assert(s.subrange(i + 1, i + 1 + pat.len()) =~= (t + pat + b).subrange(
                    i,
                    i + pat.len(),
                ));
            }
        }
        law_every_occurrence_is_replaced(t, pat, b, with);
        assert(seq![s[0]] + (t + with + replace_all(b, pat, with)) =~= a + with + replace_all(
            b,
            pat,
            with,
        ));
        assert(seq![s[0]] + (t + with + b) =~= a + with + b);
    }
}

/// Nothing is replaced where the pattern does not occur.
pub proof fn law_nothing_to_replace(s: Seq<char>, pat: Seq<char>, with: Seq<char>)
    requires
        pat.len() > 0,
        forall|i: int| !#[trigger] occurs_at(s, pat, i),
    ensures
        replace_all(s, pat, with) == s,
        replace_first(s, pat, with) == s,
    decreases s.len(),
{
    assert(!occurs_at(s, pat, 0));
    if s.len() > 0 {
        let t = s.skip(1);
        assert forall|i: int| !#[trigger] occurs_at(t, pat, i) by {
            assert(!occurs_at(s, pat, i + 1));
            if occurs_at(t, pat, i) {
                assert(s.subrange(i + 1, i + 1 + pat.len()) =~= t.subrange(i, i + pat.len()));
            }
        }
        law_nothing_to_replace(t, pat, with);
        assert(seq![s[0]] + t =~= s);
    }
}

/// A padded text is the text and spaces, as long as the width asks for and never
/// shorter than the text.
pub proof fn law_padding_is_spaces(s: Seq<char>, width: nat)
    ensures
        s.is_prefix_of(pad_right(s, width)),
        pad_right(s, width).len() == (if s.len() >= width {
            s.len()
        } else {
            width
        }),
        forall|i: int|
            s.len() <= i < pad_right(s, width).len() ==> #[trigger] pad_right(s, width)[i] == ' ',
{
    let p = pad_right(s, width);
    assert(p.subrange(0, s.len() as int) =~= s);
}

/// The first characters of a text are a prefix of it, of the length that was
/// asked for or all of it.
pub proof fn law_first_characters(s: Seq<char>, n: nat)
    ensures
        s.len() <= n ==> first_chars(s, n) == s,
        s.len() > n ==> first_chars(s, n) == s.take(n as int),
{
    assert(s.take(s.len() as int) =~= s);
}

/// A number is written in decimal digits without leading zeros, and one more
/// digit is worth ten times what stands before it.
pub proof fn law_decimal_reads(n: nat, d: nat)
    requires
        d < 10,
    ensures
        n > 0 ==> decimal(n)[0] != '0',
        n > 0 ==> decimal(10 * n + d) == decimal(n) + decimal(d),
        decimal(0) == seq!['0'],
        decimal(1) == seq!['1'],
        decimal(2) == seq!['2'],
        decimal(3) == seq!['3'],
        decimal(4) == seq!['4'],
        decimal(5) == seq!['5'],
        decimal(6) == seq!['6'],
        decimal(7) == seq!['7'],
        decimal(8) == seq!['8'],
        decimal(9) == seq!['9'],
    decreases n,
{
    if n > 0 {
        if n >= 10 {
            law_decimal_reads(n / 10, 0);
            lemma_decimal(n / 10);
            assert(decimal(n)[0] == decimal(n / 10)[0]);
        }
        let m = 10 * n + d;
        assert(m / 10 == n && m % 10 == d);
        assert(decimal(m) =~= decimal(n) + decimal(d));
    }
}

/// Digits read as a number, with a plus sign before them or without; anything
/// else, nothing at all and what is too great do not.
pub proof fn law_numbers_are_digits(s: Seq<char>, max: nat)
    ensures
        parse_number(s, max) is Some ==> s.len() > 0 && forall|i: int|
            1 <= i < s.len() ==> '0' <= #[trigger] s[i] <= '9',
        parse_number(s, max) is Some ==> s[0] == '+' || '0' <= s[0] <= '9',
        parse_number(s, max) is Some ==> parse_number(s, max)->0 <= max,
        parse_number(seq![], max) is None,
        parse_number(seq!['+'], max) is None,
        s.len() > 0 && (forall|i: int| 0 <= i < s.len() ==> '0' <= #[trigger] s[i] <= '9')
            ==> parse_number(s, max) == parse_number(seq!['+'] + s, max),
        s.len() > 0 && (forall|i: int| 0 <= i < s.len() ==> '0' <= #[trigger] s[i] <= '9')
            && digits_value(s) <= max ==> parse_number(s, max) == Some(digits_value(s)),
{
    let d = if s.len() > 0 && s[0] == '+' {
        s.skip(1)
    } else {
        s
    };
    if parse_number(s, max) is Some {
        assert forall|i: int| 1 <= i < s.len() implies '0' <= #[trigger] s[i] <= '9' by {
            if s[0] == '+' {
                assert(digit(d[i - 1]));
            } else {
                assert(digit(d[i]));
            }
        }
        assert(digit(d[0]));
    }
    assert(seq!['+'].skip(1) =~= Seq::<char>::empty());
    assert((seq!['+'] + s).skip(1) =~= s);
    assert(all_digits(s) <==> forall|i: int| 0 <= i < s.len() ==> '0' <= #[trigger] s[i] <= '9');
}

/// One more digit makes ten times the number, and the digit.
pub proof fn law_digits_count_tens(s: Seq<char>, c: char)
    requires
        '0' <= c <= '9',
    ensures
        digits_value(s.push(c)) == 10 * digits_value(s) + (c as nat - '0' as nat),
{
    assert(s.push(c).drop_last() =~= s);
}

/// A text is found where it stands, and `after` and `before` give what is left
/// once it is taken off.
pub proof fn law_start_and_end_come_off(p: Seq<char>, s: Seq<char>, t: Seq<char>)
    ensures
        after(p + s, p) == Some(s),
        before(s + p, p) == Some(s),
        !p.is_prefix_of(t) ==> after(t, p) is None,
        !p.is_suffix_of(t) ==> before(t, p) is None,
        contains_text(s + p + t, p),
{
    assert((p + s).subrange(0, p.len() as int) =~= p);
    assert((p + s).skip(p.len() as int) =~= s);
    let u = s + p;
    assert(u.subrange(u.len() - p.len(), u.len() as int) =~= p);
    assert(u.take(u.len() - p.len()) =~= s);
    let k = s.len() as int;
    assert((s + p + t).subrange(k, k + p.len()) =~= p);
    assert(occurs_at(s + p + t, p, k));
}

/// A character takes one byte up to the end of ASCII, and one more at each of the
/// bounds of UTF-8; a text takes what its characters take.
pub proof fn law_bytes_of_utf8(s: Seq<char>, c: char)
    ensures
        c as u32 <= 0x7f <==> char_bytes(c) == 1,
        0x80 <= c as u32 <= 0x7ff <==> char_bytes(c) == 2,
        0x800 <= c as u32 <= 0xffff <==> char_bytes(c) == 3,
        0x10000 <= c as u32 <==> char_bytes(c) == 4,
        byte_len(s.push(c)) == byte_len(s) + char_bytes(c),
        byte_len(seq![]) == 0,
{
    assert(s.push(c).drop_last() =~= s);
}

} // verus!
