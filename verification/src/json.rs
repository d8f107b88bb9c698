//! The JSON that the marker of a revision history holds: how it is written,
//! and what is read of it.
use crate::outside;
use crate::text;
use vstd::prelude::*;

verus! {

// ---------------------------------------------------------------------------
// Strings
// ---------------------------------------------------------------------------

/// A lower-case hex digit.
pub open spec fn hex_digit(d: nat) -> char {
    if d < 10 {
        (48 + d) as char
    } else {
        (87 + d) as char
    }
}

/// A character as it stands in a JSON string: quotes, backslashes and control
/// characters are escaped, the latter by a letter where they have one.
pub open spec fn json_char(c: char) -> Seq<char> {
    let n = c as nat;
    if c == '"' || c == '\\' {
        seq!['\\', c]
    } else if n == 8 {
        seq!['\\', 'b']
    } else if n == 9 {
        seq!['\\', 't']
    } else if n == 10 {
        seq!['\\', 'n']
    } else if n == 12 {
        seq!['\\', 'f']
    } else if n == 13 {
        seq!['\\', 'r']
    } else if n < 32 {
        seq!['\\', 'u', '0', '0', hex_digit(n / 16), hex_digit(n % 16)]
    } else {
        seq![c]
    }
}

/// The characters of `s` as they stand in a JSON string.
pub open spec fn json_chars(s: Seq<char>) -> Seq<char>
    decreases s.len(),
{
    if s.len() == 0 {
        seq![]
    } else {
        json_chars(s.drop_last()) + json_char(s.last())
    }
}

/// `s` as a JSON string.
pub open spec fn json_quoted(s: Seq<char>) -> Seq<char> {
    "\""@ + json_chars(s) + "\""@
}

/// An optional text as a JSON string or `null`.
pub open spec fn json_opt(o: Option<Seq<char>>) -> Seq<char> {
    match o {
        Some(s) => json_quoted(s),
        None => "null"@,
    }
}

/// `s` as a JSON string.
pub fn quote_json(s: &str) -> (r: String)
    ensures
        r@ == json_quoted(s@),
{
    outside::json_string(s)
}

/// An optional text as a JSON string or `null`.
pub fn quote_json_opt(o: Option<&str>) -> (r: String)
    ensures
        r@ == json_opt(text::opt_str(o)),
{
    match o {
        Some(s) => quote_json(s),
        None => "null".to_owned(),
    }
}

// ---------------------------------------------------------------------------
// The marker
// ---------------------------------------------------------------------------

/// One revision as the marker stores it.
pub struct MarkerEntry {
    pub number: u32,
    pub change_type: Seq<char>,
    pub old_sha: Option<Seq<char>>,
    pub new_sha: Seq<char>,
    pub timestamp_iso: Option<Seq<char>>,
    pub reason: Seq<char>,
    pub replay_sha: Option<Seq<char>>,
    pub compare_url: Option<Seq<char>>,
}

/// The object of one revision.
pub open spec fn entry_json(e: MarkerEntry) -> Seq<char> {
    "{\"number\":"@ + text::decimal(e.number as nat) + ",\"change_type\":"@ + json_quoted(e.change_type)
        + ",\"old_sha\":"@ + json_opt(e.old_sha) + ",\"new_sha\":"@ + json_quoted(e.new_sha)
        + ",\"timestamp_iso\":"@ + json_opt(e.timestamp_iso) + ",\"reason\":"@ + json_quoted(
        e.reason,
    ) + ",\"replay_sha\":"@ + json_opt(e.replay_sha) + ",\"compare_url\":"@ + json_opt(
        e.compare_url,
    ) + "}"@
}

/// The objects of some revisions.
pub open spec fn entry_jsons(es: Seq<MarkerEntry>) -> Seq<Seq<char>> {
    es.map_values(|e: MarkerEntry| entry_json(e))
}

/// The object that the marker of pull request `pull_number` holds.
pub open spec fn marker_json(pull_number: u64, es: Seq<MarkerEntry>) -> Seq<char> {
    "{\"schema_version\":1,\"pull_number\":"@ + text::decimal(pull_number as nat) + ",\"entries\":["@
        + text::join(entry_jsons(es), ","@) + "]}"@
}

/// A value in a JSON text.
#[derive(Debug, Clone, PartialEq, Eq)]
pub enum JsonNode {
    /// The text is not JSON.
    Invalid,
    /// There is nothing at that place.
    Missing,
    Null,
    Text(String),
    /// An integer from 0 to the greatest `u64`.
    Number(u64),
    /// An array with this many items.
    Array(usize),
    /// Anything else.
    Other,
}

/// A value in a JSON text as the contracts see it.
pub enum JsonValue {
    Invalid,
    Missing,
    Null,
    Text(Seq<char>),
    Number(u64),
    Array(nat),
    Other,
}

impl View for JsonNode {
    type V = JsonValue;

    open spec fn view(&self) -> JsonValue {
        match self {
            JsonNode::Invalid => JsonValue::Invalid,
            JsonNode::Missing => JsonValue::Missing,
            JsonNode::Null => JsonValue::Null,
            JsonNode::Text(s) => JsonValue::Text(s@),
            JsonNode::Number(n) => JsonValue::Number(*n),
            JsonNode::Array(n) => JsonValue::Array(*n as nat),
            JsonNode::Other => JsonValue::Other,
        }
    }
}

/// The fields of a revision that are read back from a marker.
#[derive(Clone, Copy)]
pub enum EntryKey {
    Number,
    OldSha,
    NewSha,
    TimestampIso,
    Reason,
    ReplaySha,
}

impl EntryKey {
    pub open spec fn name(self) -> Seq<char> {
        match self {
            EntryKey::Number => "number"@,
            EntryKey::OldSha => "old_sha"@,
            EntryKey::NewSha => "new_sha"@,
            EntryKey::TimestampIso => "timestamp_iso"@,
            EntryKey::Reason => "reason"@,
            EntryKey::ReplaySha => "replay_sha"@,
        }
    }

    fn label(self) -> (r: &'static str)
        ensures
            r@ == self.name(),
    {
        match self {
            EntryKey::Number => "number",
            EntryKey::OldSha => "old_sha",
            EntryKey::NewSha => "new_sha",
            EntryKey::TimestampIso => "timestamp_iso",
            EntryKey::Reason => "reason",
            EntryKey::ReplaySha => "replay_sha",
        }
    }
}

/// Where field `k` of revision `i` stands in a marker, as a JSON pointer.
pub open spec fn entry_pointer(i: nat, k: EntryKey) -> Seq<char> {
    "/entries/"@ + text::decimal(i) + "/"@ + k.name()
}

/// Where field `k` of revision `i` stands in a marker.
pub fn pointer_of(i: usize, k: EntryKey) -> (r: String)
    ensures
        r@ == entry_pointer(i as nat, k),
{
    let mut p = "/entries/".to_owned();
    p.append(text::decimal_of(i as u64).as_str());
    p.append("/");
    p.append(k.label());
    p
}

/// An optional text as a value.
pub open spec fn opt_node(o: Option<Seq<char>>) -> JsonValue {
    match o {
        Some(s) => JsonValue::Text(s),
        None => JsonValue::Null,
    }
}

/// Field `k` of a revision as a value.
pub open spec fn entry_node(e: MarkerEntry, k: EntryKey) -> JsonValue {
    match k {
        EntryKey::Number => JsonValue::Number(e.number as u64),
        EntryKey::OldSha => opt_node(e.old_sha),
        EntryKey::NewSha => JsonValue::Text(e.new_sha),
        EntryKey::TimestampIso => opt_node(e.timestamp_iso),
        EntryKey::Reason => JsonValue::Text(e.reason),
        EntryKey::ReplaySha => opt_node(e.replay_sha),
    }
}

// ---------------------------------------------------------------------------
// Line ends
// ---------------------------------------------------------------------------

/// Whether a text stands on one line.
pub open spec fn one_line(s: Seq<char>) -> bool {
    forall|i: int| 0 <= i < s.len() ==> #[trigger] s[i] != '\n'
}

/// Texts on one line make a text on one line.
pub proof fn lemma_one_line_add(a: Seq<char>, b: Seq<char>)
    requires
        one_line(a),
        one_line(b),
    ensures
        one_line(a + b),
{
}

proof fn lemma_json_chars_one_line(s: Seq<char>)
    ensures
        one_line(json_chars(s)),
    decreases s.len(),
{
    if s.len() > 0 {
        lemma_json_chars_one_line(s.drop_last());
        let c = s.last();
        assert(one_line(json_char(c)));
        lemma_one_line_add(json_chars(s.drop_last()), json_char(c));
    }
}

/// A JSON string stands on one line, whatever it holds.
pub proof fn lemma_quoted_one_line(s: Seq<char>)
    ensures
        one_line(json_quoted(s)),
{
    reveal_strlit("\"");
    lemma_json_chars_one_line(s);
}

proof fn lemma_opt_one_line(o: Option<Seq<char>>)
    ensures
        one_line(json_opt(o)),
{
    reveal_strlit("null");
    if o is Some {
        lemma_quoted_one_line(o->0);
    }
}

/// A number in decimal stands on one line.
pub proof fn lemma_decimal_one_line(n: nat)
    ensures
        one_line(text::decimal(n)),
{
    text::lemma_decimal(n);
    assert forall|i: int| 0 <= i < text::decimal(n).len() implies #[trigger] text::decimal(n)[i] != '\n' by {
        assert(text::digit(text::decimal(n)[i]));
    }
}

proof fn lemma_entry_one_line(e: MarkerEntry)
    ensures
        one_line(entry_json(e)),
{
    reveal_strlit("{\"number\":");
    reveal_strlit(",\"change_type\":");
    reveal_strlit(",\"old_sha\":");
    reveal_strlit(",\"new_sha\":");
    reveal_strlit(",\"timestamp_iso\":");
    reveal_strlit(",\"reason\":");
    reveal_strlit(",\"replay_sha\":");
    reveal_strlit(",\"compare_url\":");
    reveal_strlit("}");
    lemma_decimal_one_line(e.number as nat);
    lemma_quoted_one_line(e.change_type);
    lemma_opt_one_line(e.old_sha);
    lemma_quoted_one_line(e.new_sha);
    lemma_opt_one_line(e.timestamp_iso);
    lemma_quoted_one_line(e.reason);
    lemma_opt_one_line(e.replay_sha);
    lemma_opt_one_line(e.compare_url);
}

proof fn lemma_join_one_line(parts: Seq<Seq<char>>, sep: Seq<char>)
    requires
        forall|i: int| 0 <= i < parts.len() ==> one_line(#[trigger] parts[i]),
        one_line(sep),
    ensures
        one_line(text::join(parts, sep)),
    decreases parts.len(),
{
    if parts.len() > 1 {
        lemma_join_one_line(parts.drop_last(), sep);
        assert(one_line(parts[parts.len() - 1]));
        lemma_one_line_add(text::join(parts.drop_last(), sep), sep);
        lemma_one_line_add(text::join(parts.drop_last(), sep) + sep, parts.last());
    } else if parts.len() == 1 {
        assert(one_line(parts[0]));
    }
}

/// A marker stands on one line, whatever it holds, and is wrapped in braces.
pub proof fn lemma_marker_shape(pull_number: u64, es: Seq<MarkerEntry>)
    ensures
        one_line(marker_json(pull_number, es)),
        marker_json(pull_number, es).len() >= 2,
        marker_json(pull_number, es)[0] == '{',
        marker_json(pull_number, es).last() == '}',
{
    reveal_strlit("{\"schema_version\":1,\"pull_number\":");
    reveal_strlit(",\"entries\":[");
    reveal_strlit(",");
    reveal_strlit("]}");
    lemma_decimal_one_line(pull_number as nat);
    assert forall|i: int| 0 <= i < entry_jsons(es).len() implies one_line(
        #[trigger] entry_jsons(es)[i],
    ) by {
        lemma_entry_one_line(es[i]);
    }
    lemma_join_one_line(entry_jsons(es), ","@);
}

/// A text is written character by character between quotes; only quotes,
/// backslashes and control characters are written in another way.
pub proof fn law_json_text_reads(s: Seq<char>, c: char)
    ensures
        json_quoted(seq![]) == "\""@ + "\""@,
        json_chars(s.push(c)) == json_chars(s) + json_char(c),
        c != '"' && c != '\\' && c as nat >= 32 ==> json_char(c) == seq![c],
        c == '"' || c == '\\' ==> json_char(c) == seq!['\\', c],
        32 > c as nat ==> json_char(c).len() >= 2 && json_char(c)[0] == '\\',
        json_opt(None) == "null"@,
        json_opt(Some(s)) == json_quoted(s),
{
    assert(s.push(c).drop_last() =~= s);
    assert(json_chars(seq![]) =~= seq![]);
    assert("\""@ + json_chars(seq![]) =~= "\""@);
}

} // verus!
