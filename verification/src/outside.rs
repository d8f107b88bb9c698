//! The functions of other crates and of the standard library that the rules
//! of this library call. What is said of them here is taken on trust.
use vstd::prelude::*;

verus! {

/// `s` as `{:?}` writes it.
pub uninterp spec fn debug_text(s: Seq<char>) -> Seq<char>;

/// The `Debug` form of a string: in quotes, and with the characters escaped
/// that the standard library escapes. The contract only names that form.
#[verifier::external_body]
pub(crate) fn debug_of(s: &str) -> (r: String)
    ensures
        r@ == debug_text(s@),
{
    format!("{s:?}")
}

/// What is wrong with bytes that are not UTF-8.
pub uninterp spec fn utf8_error(bytes: Seq<u8>) -> Seq<char>;

/// `String::from_utf8`: the text that `bytes` encode, or the text of the error
/// where they are not UTF-8. The contract only names the latter.
#[verifier::external_body]
pub(crate) fn utf8_text(bytes: &[u8]) -> (r: Result<String, String>)
    ensures
        match r {
            Ok(s) => vstd::utf8::valid_utf8(bytes@) && s@ == vstd::utf8::decode_utf8(bytes@),
            Err(e) => !vstd::utf8::valid_utf8(bytes@) && e@ == utf8_error(bytes@),
        },
{
    String::from_utf8(bytes.to_vec()).map_err(|e| e.to_string())
}

/// The text that `bytes` encode, with a replacement character for what is not
/// UTF-8.
pub uninterp spec fn lossy(bytes: Seq<u8>) -> Seq<char>;

/// `String::from_utf8_lossy`. The contract only names the result.
#[verifier::external_body]
pub(crate) fn lossy_text(bytes: &[u8]) -> (r: String)
    ensures
        r@ == lossy(bytes@),
{
    String::from_utf8_lossy(bytes).into_owned()
}

/// `s` with its characters escaped as `{:?}` escapes them, without quotes.
pub uninterp spec fn escaped(s: Seq<char>) -> Seq<char>;

/// `str::escape_debug`. The contract only names the result.
#[verifier::external_body]
pub(crate) fn escape_text(s: &str) -> (r: String)
    ensures
        r@ == escaped(s@),
{
    s.escape_debug().to_string()
}

/// The path and the query of a URL, or what is wrong with it.
pub uninterp spec fn url_parsed(s: Seq<char>) -> Result<(Seq<char>, Option<Seq<char>>), Seq<char>>;

/// `url::Url::parse`, with the path and the query of the URL that it gives, or
/// the text of its error. The contract only names the result.
#[verifier::external_body]
pub(crate) fn parse_url(s: &str) -> (r: Result<(String, Option<String>), String>)
    ensures
        match r {
            Ok((path, query)) => url_parsed(s@) == Ok::<
                (Seq<char>, Option<Seq<char>>),
                Seq<char>,
            >((path@, crate::text::opt_text(query))),
            Err(e) => url_parsed(s@) == Err::<(Seq<char>, Option<Seq<char>>), Seq<char>>(e@),
        },
{
    match url::Url::parse(s) {
        Ok(u) => Ok((u.path().to_owned(), u.query().map(str::to_owned))),
        Err(e) => Err(e.to_string()),
    }
}

/// A point in time in the form that `fmt` describes.
pub uninterp spec fn time_text(t: (i64, u32), fmt: Seq<char>) -> Seq<char>;

/// The point in time that `s` writes in the form that `fmt` describes.
pub uninterp spec fn time_value(s: Seq<char>, fmt: Seq<char>) -> Option<(i64, u32)>;

/// Whether a text can stand in a cell of a table: it is not empty and holds
/// neither a column separator nor a line end.
pub open spec fn plain_time(s: Seq<char>) -> bool {
    s.len() > 0 && forall|i: int| 0 <= i < s.len() ==> #[trigger] s[i] != '|' && s[i] != '\n'
}

/// `chrono::DateTime::format` on the point in time `secs`, `nanos`. The
/// contract names the result, and says that in the two forms of this library
/// it is not empty and made of digits, signs, letters and the punctuation of
/// the form.
#[verifier::external_body]
pub(crate) fn format_time(secs: i64, nanos: u32, fmt: &str) -> (r: String)
    requires
        crate::timestamp::in_range(secs, nanos),
        fmt@ == crate::timestamp::TIMESTAMP_HUMAN_FMT@ || fmt@
            == crate::timestamp::TIMESTAMP_ISO_FMT@,
    ensures
        r@ == time_text((secs, nanos), fmt@),
        plain_time(r@),
{
    chrono::DateTime::from_timestamp(secs, nanos).unwrap().format(fmt).to_string()
}

/// `chrono::NaiveDateTime::parse_from_str`, with the point in time in UTC that
/// it gives. The contract names the result, and says that the form with
/// seconds is read back as it was written, for years of four digits.
#[verifier::external_body]
pub(crate) fn parse_time(s: &str, fmt: &str) -> (r: Option<(i64, u32)>)
    ensures
        r == time_value(s@, fmt@),
        r matches Some((secs, nanos)) ==> crate::timestamp::in_range(secs, nanos),
        fmt@ == crate::timestamp::TIMESTAMP_ISO_FMT@ ==> forall|secs: i64|
            crate::timestamp::four_digit_year(secs) && s@ == #[trigger] time_text((secs, 0u32), fmt@)
                ==> r == Some((secs, 0u32)),
{
    let t = chrono::NaiveDateTime::parse_from_str(s, fmt).ok()?.and_utc();
    Some((t.timestamp(), t.timestamp_subsec_nanos()))
}

/// `serde_json::to_string` of a text. The contract says which characters are
/// escaped, and how: quotes, backslashes and control characters.
#[verifier::external_body]
pub(crate) fn json_string(s: &str) -> (r: String)
    ensures
        r@ == crate::json::json_quoted(s@),
{
    serde_json::to_string(s).unwrap()
}

/// The value that stands at a place of a JSON text. The place is a JSON
/// pointer.
pub uninterp spec fn json_value(text: Seq<char>, pointer: Seq<char>) -> crate::json::JsonValue;

/// `serde_json::from_str` and `serde_json::Value::pointer`. The contract names
/// the value, and says that what a marker stores is read back from it as it
/// was stored.
#[verifier::external_body]
pub(crate) fn json_at(text: &str, pointer: &str) -> (r: crate::json::JsonNode)
    ensures
        r@ == json_value(text@, pointer@),
        forall|n: u64, es: Seq<crate::json::MarkerEntry>|
            text@ == #[trigger] crate::json::marker_json(n, es) ==> {
                &&& pointer@ == "/schema_version"@ ==> r@ == crate::json::JsonValue::Number(1)
                &&& pointer@ == "/entries"@ ==> r@ == crate::json::JsonValue::Array(es.len())
                &&& forall|i: nat, k: crate::json::EntryKey|
                    i < es.len() && pointer@ == #[trigger] crate::json::entry_pointer(i, k)
                        ==> r@ == crate::json::entry_node(es[i as int], k)
            },
{
    let Ok(value) = serde_json::from_str::<serde_json::Value>(text) else {
        return crate::json::JsonNode::Invalid;
    };
    match value.pointer(pointer) {
        None => crate::json::JsonNode::Missing,
        Some(serde_json::Value::Null) => crate::json::JsonNode::Null,
        Some(serde_json::Value::String(s)) => crate::json::JsonNode::Text(s.clone()),
        Some(serde_json::Value::Array(a)) => crate::json::JsonNode::Array(a.len()),
        Some(v) => match v.as_u64() {
            Some(n) => crate::json::JsonNode::Number(n),
            None => crate::json::JsonNode::Other,
        },
    }
}

/// Whether a regular expression takes `c` for a character of a word.
pub uninterp spec fn regex_word(c: char) -> bool;

/// `regex::Regex::is_match` with the class `\w`. The contract only names the
/// answer.
#[verifier::external_body]
pub(crate) fn matches_word(c: char) -> (r: bool)
    ensures
        r == regex_word(c),
{
    regex::Regex::new(r"^\w$").unwrap().is_match(&c.to_string())
}

/// How many columns of a terminal a character takes.
pub uninterp spec fn width_of(c: char) -> nat;

/// `unicode_width::UnicodeWidthChar::width`, with no columns for control
/// characters. The contract names the width, and says that no character takes
/// more than three columns, and that the printable ASCII characters and the
/// ellipsis take one.
#[verifier::external_body]
pub(crate) fn char_width(c: char) -> (r: usize)
    ensures
        r == width_of(c),
        r <= 3,
        ' ' <= c <= '~' || c == '…' ==> r == 1,
{
    unicode_width::UnicodeWidthChar::width(c).unwrap_or(0)
}

/// Why a text is no number.
pub uninterp spec fn number_error(s: Seq<char>) -> Seq<char>;

/// `str::parse::<u32>`, with the text of its error. The contract says which
/// texts are numbers, and names the text of the error.
#[verifier::external_body]
pub(crate) fn parse_count(s: &str) -> (r: Result<u32, String>)
    ensures
        match r {
            Ok(n) => crate::text::parse_number(s@, u32::MAX as nat) == Some(n as nat),
            Err(e) => crate::text::parse_number(s@, u32::MAX as nat) is None && e@ == number_error(
                s@,
            ),
        },
{
    s.parse::<u32>().map_err(|e| e.to_string())
}

} // verus!
