//! The "Revision history" comment of a pull request.
//!
//! Every push that updates a pull request adds a row to a table: what kind of
//! change it was, a link that shows it, why it was made, and when. Below the
//! table a marker, hidden in an HTML comment, stores the same data for
//! machines, with the full SHAs that the table only shows in part. A later
//! push reads the comment back, keeps its rows as they are, and adds its own.
use crate::change_type::ChangeType;
use crate::json;
use crate::json::{EntryKey, JsonNode, JsonValue, MarkerEntry};
use crate::outside;
use crate::text;
use crate::timestamp::{TIMESTAMP_HUMAN_FMT, TIMESTAMP_ISO_FMT, Timestamp};
use vstd::prelude::*;

verus! {

/// The first line of the comment, with its end.
pub const REVISION_COMMENT_FIRST_LINE: &'static str = "### Revision history\n";

/// What stands before the data of the marker.
pub const MARKER_PREFIX: &'static str = "<!-- mergify-revision-data: ";

/// What stands after the data of the marker.
pub const MARKER_SUFFIX: &'static str = " -->";

/// The greatest length of a reason in the table.
pub const MAX_REASON_LEN: usize = 200;

// ---------------------------------------------------------------------------
// Reasons
// ---------------------------------------------------------------------------

/// A reason as a cell of the table shows it, before it is shortened.
pub open spec fn cell_escaped(reason: Seq<char>) -> Seq<char> {
    text::replace_all(
        text::replace_all(text::replace_all(reason, "\\"@, "\\\\"@), "|"@, "\\|"@),
        "\n"@,
        "<br>"@,
    )
}

/// A reason as a cell of the table shows it.
pub open spec fn reason_cell(reason: Seq<char>) -> Seq<char> {
    let e = cell_escaped(reason);
    if e.len() > 200 {
        e.take(199).push('…')
    } else {
        e
    }
}

/// A reason as a cell of the table shows it: on one line, without column
/// separators, and shortened where it is long.
pub fn escape_reason(reason: &str) -> (r: String)
    ensures
        r@ == reason_cell(reason@),
{
    proof {
        reveal_strlit("\\");
        reveal_strlit("|");
        reveal_strlit("\n");
    }
    let a = text::replaced(reason, "\\", "\\\\");
    let b = text::replaced(a.as_str(), "|", "\\|");
    let e = text::replaced(b.as_str(), "\n", "<br>");
    if e.as_str().unicode_len() > MAX_REASON_LEN {
        let mut out = text::first_chars_of(e.as_str(), MAX_REASON_LEN - 1);
        out.push('…');
        out
    } else {
        e
    }
}

// ---------------------------------------------------------------------------
// Entries
// ---------------------------------------------------------------------------

/// One revision.
#[derive(Debug, Clone, PartialEq, Eq)]
pub struct RevisionEntry {
    pub number: u32,
    pub change_type: ChangeType,
    /// The head before; nothing for the first revision.
    pub old_sha: Option<String>,
    /// The head after.
    pub new_sha: String,
    pub timestamp: Option<Timestamp>,
    pub reason: String,
    /// The commit that shows only the amendment, where there is one.
    pub replay_sha: Option<String>,
}

/// One revision as the contracts see it.
pub struct EntryView {
    pub number: u32,
    pub change_type: ChangeType,
    pub old_sha: Option<Seq<char>>,
    pub new_sha: Seq<char>,
    pub timestamp: Option<(i64, u32)>,
    pub reason: Seq<char>,
    pub replay_sha: Option<Seq<char>>,
}

impl View for RevisionEntry {
    type V = EntryView;

    open spec fn view(&self) -> EntryView {
        EntryView {
            number: self.number,
            change_type: self.change_type,
            old_sha: text::opt_text(self.old_sha),
            new_sha: self.new_sha@,
            timestamp: crate::timestamp::opt_time(self.timestamp),
            reason: self.reason@,
            replay_sha: text::opt_text(self.replay_sha),
        }
    }
}

/// The contents of a list of revisions.
pub open spec fn entry_views(v: Seq<RevisionEntry>) -> Seq<EntryView> {
    v.map_values(|e: RevisionEntry| e@)
}

/// The revision history of a pull request.
#[derive(Debug, Clone)]
pub struct RevisionHistoryComment {
    pub github_server: String,
    pub user: String,
    pub repo: String,
    pub entries: Vec<RevisionEntry>,
    /// The rows of the comment that the history was read from, one for each
    /// entry that it had. They are written again as they were.
    pub raw_rows: Vec<String>,
}

/// A revision history as the contracts see it.
pub struct HistoryView {
    pub github_server: Seq<char>,
    pub user: Seq<char>,
    pub repo: Seq<char>,
    pub entries: Seq<EntryView>,
    pub raw_rows: Seq<Seq<char>>,
}

impl View for RevisionHistoryComment {
    type V = HistoryView;

    open spec fn view(&self) -> HistoryView {
        HistoryView {
            github_server: self.github_server@,
            user: self.user@,
            repo: self.repo@,
            entries: entry_views(self.entries@),
            raw_rows: text::texts(self.raw_rows@),
        }
    }
}

/// The web address of a GitHub server, from the address of its API.
pub open spec fn html_base(server: Seq<char>) -> Seq<char> {
    let api = text::trim_end_char(server, '/');
    if text::contains_text(api, "/api/v3"@) {
        text::replace_all(api, "/api/v3"@, ""@)
    } else {
        text::replace_all(api, "api.github.com"@, "github.com"@)
    }
}

/// The address that shows what changed between two commits.
pub open spec fn compare_link(h: HistoryView, old_sha: Seq<char>, new_sha: Seq<char>) -> Seq<char> {
    html_base(h.github_server) + "/"@ + h.user + "/"@ + h.repo + "/compare/"@ + old_sha + "..."@
        + new_sha
}

/// The commit that the link of a revision leads to.
pub open spec fn head_sha(e: EntryView) -> Seq<char> {
    match e.replay_sha {
        Some(s) => s,
        None => e.new_sha,
    }
}

/// Whether the SHAs of a revision can be cut to 7 bytes.
pub open spec fn entry_cuts(e: EntryView) -> bool {
    text::cuts_at(e.new_sha, 7) && (e.old_sha matches Some(s) ==> text::cuts_at(s, 7))
}

/// What a row shows of the change.
pub open spec fn changes_cell(h: HistoryView, e: EntryView) -> Seq<char> {
    match e.old_sha {
        None => "`"@ + text::cut(e.new_sha, 7) + "`"@,
        Some(old) => if e.change_type == ChangeType::Rebase {
            "`"@ + text::cut(old, 7) + " → "@ + text::cut(e.new_sha, 7) + "` _(rebase only)_"@
        } else {
            "[`"@ + text::cut(old, 7) + " → "@ + text::cut(e.new_sha, 7) + "`]("@ + compare_link(
                h,
                old,
                head_sha(e),
            ) + ")"@ + (if e.replay_sha is Some {
                " ([raw]("@ + compare_link(h, old, e.new_sha) + "))"@
            } else {
                seq![]
            })
        },
    }
}

/// When a revision was made, as a row shows it.
pub open spec fn human_time(e: EntryView) -> Seq<char> {
    match e.timestamp {
        Some(t) => outside::time_text(t, TIMESTAMP_HUMAN_FMT@),
        None => seq![],
    }
}

/// The row of a revision that was made at `date`.
pub open spec fn dated_row(h: HistoryView, e: EntryView, date: Seq<char>) -> Seq<char> {
    "| "@ + text::decimal(e.number as nat) + " | "@ + e.change_type.wire() + " | "@ + changes_cell(h, e)
        + " | "@ + reason_cell(e.reason) + " | "@ + date + " |"@
}

/// The row of a revision.
pub open spec fn row_text(h: HistoryView, e: EntryView) -> Seq<char> {
    dated_row(h, e, human_time(e))
}

/// A revision as the marker stores it.
pub open spec fn marker_entry(h: HistoryView, e: EntryView) -> MarkerEntry {
    MarkerEntry {
        number: e.number,
        change_type: e.change_type.wire(),
        old_sha: e.old_sha,
        new_sha: e.new_sha,
        timestamp_iso: match e.timestamp {
            Some(t) => Some(outside::time_text(t, TIMESTAMP_ISO_FMT@)),
            None => None,
        },
        reason: e.reason,
        replay_sha: e.replay_sha,
        compare_url: match e.old_sha {
            Some(old) => Some(compare_link(h, old, head_sha(e))),
            None => None,
        },
    }
}

/// The revisions of a history as the marker stores them.
pub open spec fn marker_entries(h: HistoryView) -> Seq<MarkerEntry> {
    h.entries.map_values(|e: EntryView| marker_entry(h, e))
}

/// The line of the marker.
pub open spec fn marker_line(h: HistoryView, pull_number: u64) -> Seq<char> {
    MARKER_PREFIX@ + json::marker_json(pull_number, marker_entries(h)) + MARKER_SUFFIX@
}

/// Row `i` of the table: the one that was read, or a fresh one.
pub open spec fn row_at(h: HistoryView, i: int) -> Seq<char> {
    if i < h.raw_rows.len() {
        h.raw_rows[i]
    } else {
        row_text(h, h.entries[i])
    }
}

/// The rows of the table.
pub open spec fn rows(h: HistoryView) -> Seq<Seq<char>> {
    Seq::new(h.entries.len(), |i: int| row_at(h, i))
}

/// The lines of the comment.
pub open spec fn body_lines(h: HistoryView, pull_number: u64) -> Seq<Seq<char>> {
    seq![
        "### Revision history"@,
        seq![],
        "| # | Type | Changes | Reason | Date |"@,
        "|---|------|---------|--------|------|"@,
    ] + rows(h) + seq![marker_line(h, pull_number)]
}

/// Lines, each with its end.
pub open spec fn ended(ls: Seq<Seq<char>>) -> Seq<Seq<char>> {
    ls.map_values(|l: Seq<char>| l.push('\n'))
}

/// The text of the comment.
pub open spec fn body_text(h: HistoryView, pull_number: u64) -> Seq<char> {
    text::concat(ended(body_lines(h, pull_number)))
}

/// Whether every fresh row of a history can be written: the SHAs can be cut.
pub open spec fn writable(h: HistoryView) -> bool {
    forall|i: int|
        h.raw_rows.len() <= i < h.entries.len() ==> entry_cuts(#[trigger] h.entries[i])
}

/// Whether the times of a history are shown in a form that fits a cell.
pub open spec fn times_fit(h: HistoryView) -> bool {
    forall|i: int|
        0 <= i < h.entries.len() && (#[trigger] h.entries[i]).timestamp is Some
            ==> outside::plain_time(human_time(h.entries[i]))
}

impl RevisionHistoryComment {
    /// Whether a comment is a revision history.
    pub fn is_revision_comment(comment_body: &str) -> (r: bool)
        ensures
            r == REVISION_COMMENT_FIRST_LINE@.is_prefix_of(comment_body@),
    {
        text::starts_with(comment_body, REVISION_COMMENT_FIRST_LINE)
    }

    /// The first history of a pull request: the head that it had, and its
    /// first change.
    pub fn create_initial(
        github_server: &str,
        user: &str,
        repo: &str,
        old_sha: &str,
        new_sha: &str,
        change_type: ChangeType,
        timestamp: Timestamp,
        reason: &str,
        replay_sha: Option<&str>,
    ) -> (r: RevisionHistoryComment)
        ensures
            r@ == (HistoryView {
                github_server: github_server@,
                user: user@,
                repo: repo@,
                entries: seq![
                    EntryView {
                        number: 1,
                        change_type: ChangeType::Initial,
                        old_sha: None,
                        new_sha: old_sha@,
                        timestamp: Some(timestamp@),
                        reason: seq![],
                        replay_sha: None,
                    },
                    EntryView {
                        number: 2,
                        change_type,
                        old_sha: Some(old_sha@),
                        new_sha: new_sha@,
                        timestamp: Some(timestamp@),
                        reason: reason@,
                        replay_sha: text::opt_str(replay_sha),
                    },
                ],
                raw_rows: seq![],
            }),
    {
        let first = RevisionEntry {
            number: 1,
            change_type: ChangeType::Initial,
            old_sha: None,
            new_sha: old_sha.to_owned(),
            timestamp: Some(timestamp),
            reason: String::new(),
            replay_sha: None,
        };
        let second = RevisionEntry {
            number: 2,
            change_type,
            old_sha: Some(old_sha.to_owned()),
            new_sha: new_sha.to_owned(),
            timestamp: Some(timestamp),
            reason: reason.to_owned(),
            replay_sha: match replay_sha {
                Some(s) => Some(s.to_owned()),
                None => None,
            },
        };
        let mut entries: Vec<RevisionEntry> = Vec::new();
        entries.push(first);
        entries.push(second);
        let raw_rows: Vec<String> = Vec::new();
        proof {
            assert(first@.reason =~= seq![]);
            assert(entry_views(entries@) =~= seq![first@, second@]);
            assert(text::texts(raw_rows@) =~= seq![]);
        }
        RevisionHistoryComment {
            github_server: github_server.to_owned(),
            user: user.to_owned(),
            repo: repo.to_owned(),
            entries,
            raw_rows,
        }
    }

    /// Add a revision. It gets the next number.
    pub fn append(
        &mut self,
        old_sha: &str,
        new_sha: &str,
        change_type: ChangeType,
        timestamp: Timestamp,
        reason: &str,
        replay_sha: Option<&str>,
    )
        ensures
            final(self)@ == (HistoryView {
                entries: old(self)@.entries.push(
                    EntryView {
                        number: if old(self)@.entries.len() < u32::MAX {
                            (old(self)@.entries.len() + 1) as u32
                        } else {
                            u32::MAX
                        },
                        change_type,
                        old_sha: Some(old_sha@),
                        new_sha: new_sha@,
                        timestamp: Some(timestamp@),
                        reason: reason@,
                        replay_sha: text::opt_str(replay_sha),
                    },
                ),
                ..old(self)@
            }),
    {
        let n: usize = self.entries.len();
        let number: u32 = if n < u32::MAX as usize {
            n as u32 + 1
        } else {
            u32::MAX
        };
        let ghost before = entry_views(self.entries@);
        let entry = RevisionEntry {
            number,
            change_type,
            old_sha: Some(old_sha.to_owned()),
            new_sha: new_sha.to_owned(),
            timestamp: Some(timestamp),
            reason: reason.to_owned(),
            replay_sha: match replay_sha {
                Some(s) => Some(s.to_owned()),
                None => None,
            },
        };
        self.entries.push(entry);
        proof {
            assert(entry_views(self.entries@) =~= before.push(entry@));
        }
    }

    /// The address that shows what changed between two commits.
    pub fn compare_url(&self, old_sha: &str, new_sha: &str) -> (r: String)
        ensures
            r@ == compare_link(self@, old_sha@, new_sha@),
    {
        proof {
            reveal_strlit("/api/v3");
            reveal_strlit("api.github.com");
        }
        let api = text::without_trailing(self.github_server.as_str(), '/');
        let mut url = if text::contains(api.as_str(), "/api/v3") {
            text::replaced(api.as_str(), "/api/v3", "")
        } else {
            text::replaced(api.as_str(), "api.github.com", "github.com")
        };
        url.append("/");
        url.append(self.user.as_str());
        url.append("/");
        url.append(self.repo.as_str());
        url.append("/compare/");
        url.append(old_sha);
        url.append("...");
        url.append(new_sha);
        url
    }

    /// The commit that the link of a revision leads to.
    fn entry_head_sha(entry: &RevisionEntry) -> (r: &str)
        ensures
            r@ == head_sha(entry@),
    {
        match &entry.replay_sha {
            Some(s) => s.as_str(),
            None => entry.new_sha.as_str(),
        }
    }

    fn render_changes(&self, entry: &RevisionEntry) -> (r: String)
        requires
            entry_cuts(entry@),
        ensures
            r@ == changes_cell(self@, entry@),
    {
        match &entry.old_sha {
            None => {
                let mut cell = "`".to_owned();
                cell.append(text::cut_to(entry.new_sha.as_str(), 7).as_str());
                cell.append("`");
                cell
            },
            Some(old) => {
                if entry.change_type == ChangeType::Rebase {
                    let mut cell = "`".to_owned();
                    cell.append(text::cut_to(old.as_str(), 7).as_str());
                    cell.append(" → ");
                    cell.append(text::cut_to(entry.new_sha.as_str(), 7).as_str());
                    cell.append("` _(rebase only)_");
                    return cell;
                }
                let mut raw = String::new();
                if entry.replay_sha.is_some() {
                    raw.append(" ([raw](");
                    raw.append(
                        self.compare_url(old.as_str(), entry.new_sha.as_str()).as_str(),
                    );
                    raw.append("))");
                    proof {
                        assert(raw@ =~= " ([raw]("@ + compare_link(self@, old@, entry@.new_sha)
                            + "))"@);
                    }
                }
                let mut cell = "[`".to_owned();
                cell.append(text::cut_to(old.as_str(), 7).as_str());
                cell.append(" → ");
                cell.append(text::cut_to(entry.new_sha.as_str(), 7).as_str());
                cell.append("`](");
                cell.append(
                    self.compare_url(
                        old.as_str(),
                        RevisionHistoryComment::entry_head_sha(entry),
                    ).as_str(),
                );
                cell.append(")");
                cell.append(raw.as_str());
                cell
            },
        }
    }

    /// The row of a revision that was made at `date`.
    pub fn render_row(&self, entry: &RevisionEntry, date: &str) -> (r: String)
        requires
            entry_cuts(entry@),
        ensures
            r@ == dated_row(self@, entry@, date@),
    {
        let mut row = "| ".to_owned();
        row.append(text::decimal_of(entry.number as u64).as_str());
        row.append(" | ");
        row.append(entry.change_type.as_str());
        row.append(" | ");
        row.append(self.render_changes(entry).as_str());
        row.append(" | ");
        row.append(escape_reason(entry.reason.as_str()).as_str());
        row.append(" | ");
        row.append(date);
        row.append(" |");
        row
    }

    /// The row of a revision.
    fn render_entry(&self, entry: &RevisionEntry) -> (r: String)
        requires
            entry_cuts(entry@),
        ensures
            r@ == row_text(self@, entry@),
            entry@.timestamp is Some ==> outside::plain_time(human_time(entry@)),
    {
        let human: String = match entry.timestamp {
            Some(t) => t.human(),
            None => String::new(),
        };
        proof {
            assert(human@ =~= human_time(entry@));
        }
        self.render_row(entry, human.as_str())
    }

    /// The object of a revision in the marker.
    fn render_marker_entry(&self, entry: &RevisionEntry) -> (r: String)
        ensures
            r@ == json::entry_json(marker_entry(self@, entry@)),
    {
        let old: Option<&str> = match &entry.old_sha {
            Some(s) => Some(s.as_str()),
            None => None,
        };
        let replay: Option<&str> = match &entry.replay_sha {
            Some(s) => Some(s.as_str()),
            None => None,
        };
        let iso_text: Option<String> = match entry.timestamp {
            Some(t) => Some(t.iso()),
            None => None,
        };
        let iso: Option<&str> = match &iso_text {
            Some(s) => Some(s.as_str()),
            None => None,
        };
        let url_text: Option<String> = match old {
            Some(o) => Some(self.compare_url(o, RevisionHistoryComment::entry_head_sha(entry))),
            None => None,
        };
        let url: Option<&str> = match &url_text {
            Some(s) => Some(s.as_str()),
            None => None,
        };
        let mut out = "{\"number\":".to_owned();
        out.append(text::decimal_of(entry.number as u64).as_str());
        out.append(",\"change_type\":");
        out.append(json::quote_json(entry.change_type.as_str()).as_str());
        out.append(",\"old_sha\":");
        out.append(json::quote_json_opt(old).as_str());
        out.append(",\"new_sha\":");
        out.append(json::quote_json(entry.new_sha.as_str()).as_str());
        out.append(",\"timestamp_iso\":");
        out.append(json::quote_json_opt(iso).as_str());
        out.append(",\"reason\":");
        out.append(json::quote_json(entry.reason.as_str()).as_str());
        out.append(",\"replay_sha\":");
        out.append(json::quote_json_opt(replay).as_str());
        out.append(",\"compare_url\":");
        out.append(json::quote_json_opt(url).as_str());
        out.append("}");
        out
    }

    /// The line of the marker.
    pub fn json_marker(&self, pull_number: u64) -> (r: String)
        ensures
            r@ == marker_line(self@, pull_number),
    {
        let ghost objects = json::entry_jsons(marker_entries(self@));
        let mut parts: Vec<String> = Vec::new();
        let mut i: usize = 0;
        while i < self.entries.len()
            invariant
                i <= self.entries.len(),
                parts.len() == i,
                objects == json::entry_jsons(marker_entries(self@)),
                forall|j: int| 0 <= j < i ==> #[trigger] parts@[j]@ == objects[j],
            decreases self.entries.len() - i,
        {
            parts.push(self.render_marker_entry(&self.entries[i]));
            i += 1;
        }
        proof {
            assert(text::texts(parts@) =~= objects);
        }
        let mut data = "{\"schema_version\":1,\"pull_number\":".to_owned();
        data.append(text::decimal_of(pull_number).as_str());
        data.append(",\"entries\":[");
        data.append(text::join_with(&parts, ",").as_str());
        data.append("]}");
        let mut out = MARKER_PREFIX.to_owned();
        out.append(data.as_str());
        out.append(MARKER_SUFFIX);
        out
    }

    /// The text of the comment on pull request `pull_number`. The rows that
    /// were read from a comment are written again as they were.
    pub fn body(&self, pull_number: u64) -> (r: String)
        requires
            writable(self@),
        ensures
            r@ == body_text(self@, pull_number),
            self@.raw_rows.len() == 0 ==> times_fit(self@),
    {
        let ghost h = self@;
        let ghost table = rows(h);
        let mut lines: Vec<String> = Vec::new();
        lines.push("### Revision history".to_owned());
        lines.push(String::new());
        lines.push("| # | Type | Changes | Reason | Date |".to_owned());
        lines.push("|---|------|---------|--------|------|".to_owned());
        let ghost head = seq![
            "### Revision history"@,
            Seq::<char>::empty(),
            "| # | Type | Changes | Reason | Date |"@,
            "|---|------|---------|--------|------|"@,
        ];
        let mut i: usize = 0;
        proof {
            assert(text::texts(lines@) =~= head + table.take(0));
        }
        while i < self.entries.len()
            invariant
                i <= self.entries.len(),
                h == self@,
                writable(h),
                table == rows(h),
                text::texts(lines@) == head + table.take(i as int),
                h.raw_rows.len() == 0 ==> forall|j: int|
                    0 <= j < i && (#[trigger] h.entries[j]).timestamp is Some
                        ==> outside::plain_time(human_time(h.entries[j])),
            decreases self.entries.len() - i,
        {
            let ghost before = text::texts(lines@);
            proof {
                assert(h.entries[i as int] == self.entries@[i as int]@);
            }
            if i < self.raw_rows.len() {
                lines.push(self.raw_rows[i].clone());
            } else {
                lines.push(self.render_entry(&self.entries[i]));
            }
            proof {
                assert(text::texts(lines@) =~= before.push(table[i as int]));
                assert(before.push(table[i as int]) =~= head + table.take(i + 1));
            }
            i += 1;
        }
        let ghost before = text::texts(lines@);
        lines.push(self.json_marker(pull_number));
        let ghost ls = body_lines(h, pull_number);
        proof {
            assert(table.take(i as int) =~= table);
            assert(text::texts(lines@) =~= before.push(marker_line(h, pull_number)));
            assert(text::texts(lines@) =~= ls);
        }
        let mut out = String::new();
        let mut k: usize = 0;
        proof {
            assert(ended(ls).take(0) =~= seq![]);
        }
        while k < lines.len()
            invariant
                k <= lines.len(),
                ls == text::texts(lines@),
                out@ == text::concat(ended(ls).take(k as int)),
            decreases lines.len() - k,
        {
            let ghost so_far = out@;
            out.append(lines[k].as_str());
            out.push('\n');
            proof {
                let t = ended(ls).take(k + 1);
                assert(t.drop_last() =~= ended(ls).take(k as int));
                assert(t.last() =~= lines@[k as int]@.push('\n'));
                assert(out@ =~= so_far + t.last());
            }
            k += 1;
        }
        proof {
            assert(ended(ls).take(k as int) =~= ended(ls));
        }
        out
    }
}

// ---------------------------------------------------------------------------
// Reading
// ---------------------------------------------------------------------------

/// The characters of a word.
pub open spec fn word_char(c: char) -> bool {
    ||| '0' <= c <= '9'
    ||| 'A' <= c <= 'Z'
    ||| 'a' <= c <= 'z'
    ||| c == '_'
    ||| c as u32 >= 0x80 && outside::regex_word(c)
}

/// The decimal digits.
pub open spec fn digits() -> spec_fn(char) -> bool {
    |c: char| text::digit(c)
}

/// The characters of a word.
pub open spec fn word_chars() -> spec_fn(char) -> bool {
    |c: char| word_char(c)
}

/// A first cell of characters `p`, at least one, and what follows its end.
pub open spec fn leading_cell(s: Seq<char>, p: spec_fn(char) -> bool) -> Option<
    (Seq<char>, Seq<char>),
> {
    let n = text::span(s, p) as int;
    match text::after(s.skip(n), " | "@) {
        Some(rest) if n > 0 => Some((s.take(n), rest)),
        _ => None,
    }
}

/// The greatest place up to `p`, but not the first, at which a column of `s`
/// ends and another that is not empty follows.
pub open spec fn last_column(s: Seq<char>, p: int) -> Option<int>
    decreases p,
{
    if p < 1 {
        None
    } else if text::occurs_at(s, " | "@, p) && p + 3 < s.len() {
        Some(p)
    } else {
        last_column(s, p - 1)
    }
}

/// The number, the type and the other cells of a row.
pub open spec fn row_cells(line: Seq<char>) -> Option<(Seq<char>, Seq<char>, Seq<char>)> {
    match text::after(line, "| "@) {
        None => None,
        Some(a) => match leading_cell(a, digits()) {
            None => None,
            Some((number, b)) => match leading_cell(b, word_chars()) {
                None => None,
                Some((word, c)) => match text::before(c, " |"@) {
                    None => None,
                    Some(cells) => Some((number, word, cells)),
                },
            },
        },
    }
}

/// What a row of the table says of its revision: the number, the type and, in
/// the last column, the date. A row has a column for the reason or, in older
/// comments, none; either way the date follows the last column separator.
pub open spec fn row_entry(line: Seq<char>) -> Option<EntryView> {
    match row_cells(line) {
        None => None,
        Some((number, word, cells)) => match (
            text::parse_number(number, u32::MAX as nat),
            last_column(cells, cells.len() as int),
        ) {
            (Some(n), Some(p)) => Some(
                EntryView {
                    number: n as u32,
                    change_type: ChangeType::of_wire(word),
                    old_sha: None,
                    new_sha: seq![],
                    timestamp: outside::time_value(text::trim(cells.skip(p + 3)), TIMESTAMP_HUMAN_FMT@),
                    reason: seq![],
                    replay_sha: None,
                },
            ),
            _ => None,
        },
    }
}

/// What a line says of the marker.
pub enum MarkerLine {
    /// It is no marker.
    Absent,
    /// It starts like a marker, and cannot be read.
    Corrupted,
    /// It is a marker with this data.
    Data(String),
}

/// What a line says of the marker, as the contracts see it.
pub enum MarkerView {
    Absent,
    Corrupted,
    Data(Seq<char>),
}

impl View for MarkerLine {
    type V = MarkerView;

    open spec fn view(&self) -> MarkerView {
        match self {
            MarkerLine::Absent => MarkerView::Absent,
            MarkerLine::Corrupted => MarkerView::Corrupted,
            MarkerLine::Data(s) => MarkerView::Data(s@),
        }
    }
}

/// Whether a text is wrapped in braces.
pub open spec fn braced(s: Seq<char>) -> bool {
    s.len() >= 2 && s[0] == '{' && s.last() == '}'
}

/// Whether the data of a marker are of the form that is known.
pub open spec fn known_data(payload: Seq<char>) -> bool {
    &&& outside::json_value(payload, "/schema_version"@) == JsonValue::Number(1)
    &&& outside::json_value(payload, "/entries"@) is Array
}

/// What a line says of the marker.
pub open spec fn marker_of(line: Seq<char>) -> MarkerView {
    match text::after(line, MARKER_PREFIX@) {
        None => MarkerView::Absent,
        Some(rest) => match text::before(rest, MARKER_SUFFIX@) {
            Some(payload) if braced(payload) && known_data(payload) => MarkerView::Data(payload),
            _ => MarkerView::Corrupted,
        },
    }
}

/// What the lines of a comment say.
pub struct Scan {
    pub entries: Seq<EntryView>,
    pub rows: Seq<Seq<char>>,
    pub marker: Option<Seq<char>>,
    pub corrupted: bool,
}

/// What the lines of a comment say. Of two markers the later counts.
pub open spec fn scan(ls: Seq<Seq<char>>) -> Scan
    decreases ls.len(),
{
    if ls.len() == 0 {
        Scan { entries: seq![], rows: seq![], marker: None, corrupted: false }
    } else {
        let s = scan(ls.drop_last());
        match row_entry(ls.last()) {
            Some(e) => Scan { entries: s.entries.push(e), rows: s.rows.push(ls.last()), ..s },
            None => match marker_of(ls.last()) {
                MarkerView::Absent => s,
                MarkerView::Corrupted => Scan { corrupted: true, ..s },
                MarkerView::Data(payload) => Scan { marker: Some(payload), ..s },
            },
        }
    }
}

/// An optional text after field `v` of a marker.
pub open spec fn opt_after(o: Option<Seq<char>>, v: JsonValue) -> Option<Seq<char>> {
    match v {
        JsonValue::Text(s) => Some(s),
        JsonValue::Null => None,
        _ => o,
    }
}

/// A text after field `v` of a marker.
pub open spec fn text_after(o: Seq<char>, v: JsonValue) -> Seq<char> {
    match v {
        JsonValue::Text(s) => s,
        _ => o,
    }
}

/// A point in time after field `v` of a marker.
pub open spec fn time_after(o: Option<(i64, u32)>, v: JsonValue) -> Option<(i64, u32)> {
    match v {
        JsonValue::Text(s) => match outside::time_value(s, TIMESTAMP_ISO_FMT@) {
            Some(t) => Some(t),
            None => o,
        },
        JsonValue::Null => None,
        _ => o,
    }
}

/// Field `k` of revision `i` in a marker.
pub open spec fn field(payload: Seq<char>, i: nat, k: EntryKey) -> JsonValue {
    outside::json_value(payload, json::entry_pointer(i, k))
}

/// Revision `i` of the table, with what the marker says of it. The marker
/// counts only where it numbers the revision as the table does.
pub open spec fn overlaid(e: EntryView, payload: Seq<char>, i: nat) -> EntryView {
    if field(payload, i, EntryKey::Number) != JsonValue::Number(e.number as u64) {
        e
    } else {
        EntryView {
            old_sha: opt_after(e.old_sha, field(payload, i, EntryKey::OldSha)),
            new_sha: text_after(e.new_sha, field(payload, i, EntryKey::NewSha)),
            timestamp: time_after(e.timestamp, field(payload, i, EntryKey::TimestampIso)),
            reason: text_after(e.reason, field(payload, i, EntryKey::Reason)),
            replay_sha: opt_after(e.replay_sha, field(payload, i, EntryKey::ReplaySha)),
            ..e
        }
    }
}

/// The revisions of a comment: those of the table, with what the marker says
/// of them where it has as many.
pub open spec fn scanned_entries(s: Scan) -> Seq<EntryView> {
    match s.marker {
        Some(payload) if outside::json_value(payload, "/entries"@) == JsonValue::Array(
            s.entries.len(),
        ) => s.entries.map(|i: int, e: EntryView| overlaid(e, payload, i as nat)),
        _ => s.entries,
    }
}

/// The history that a comment holds.
pub open spec fn parsed(
    body: Seq<char>,
    github_server: Seq<char>,
    user: Seq<char>,
    repo: Seq<char>,
) -> Option<HistoryView> {
    let s = scan(text::lines(body));
    if !REVISION_COMMENT_FIRST_LINE@.is_prefix_of(body) || s.entries.len() == 0 || s.corrupted {
        None
    } else {
        Some(
            HistoryView {
                github_server,
                user,
                repo,
                entries: scanned_entries(s),
                raw_rows: s.rows,
            },
        )
    }
}

fn is_word_char(c: char) -> (r: bool)
    ensures
        r == word_char(c),
{
    if (c >= '0' && c <= '9') || (c >= 'A' && c <= 'Z') || (c >= 'a' && c <= 'z') || c == '_' {
        true
    } else if (c as u32) < 0x80 {
        false
    } else {
        outside::matches_word(c)
    }
}

/// The number at the start of a row, and what follows its cell.
fn number_cell(s: &str) -> (r: Option<(String, String)>)
    ensures
        match r {
            Some((a, b)) => leading_cell(s@, digits()) == Some((a@, b@)),
            None => leading_cell(s@, digits()) is None,
        },
{
    let cs = text::chars_of(s);
    let mut i: usize = 0;
    while i < cs.len() && text::is_digit(cs[i])
        invariant
            i <= cs.len(),
            forall|j: int| 0 <= j < i ==> text::digit(cs@[j]),
        decreases cs.len() - i,
    {
        i += 1;
    }
    proof {
        text::lemma_span_is(cs@, digits(), i as int);
        assert(cs@.subrange(0, i as int) =~= s@.take(i as int));
        assert(cs@.subrange(i as int, cs@.len() as int) =~= s@.skip(i as int));
    }
    if i == 0 {
        return None;
    }
    match text::strip_start(text::piece(&cs, i, cs.len()).as_str(), " | ") {
        Some(rest) => Some((text::piece(&cs, 0, i), rest)),
        None => None,
    }
}

/// The word at the start of a row, and what follows its cell.
fn word_cell(s: &str) -> (r: Option<(String, String)>)
    ensures
        match r {
            Some((a, b)) => leading_cell(s@, word_chars()) == Some((a@, b@)),
            None => leading_cell(s@, word_chars()) is None,
        },
{
    let cs = text::chars_of(s);
    let mut i: usize = 0;
    while i < cs.len() && is_word_char(cs[i])
        invariant
            i <= cs.len(),
            forall|j: int| 0 <= j < i ==> word_char(cs@[j]),
        decreases cs.len() - i,
    {
        i += 1;
    }
    proof {
        text::lemma_span_is(cs@, word_chars(), i as int);
        assert(cs@.subrange(0, i as int) =~= s@.take(i as int));
        assert(cs@.subrange(i as int, cs@.len() as int) =~= s@.skip(i as int));
    }
    if i == 0 {
        return None;
    }
    match text::strip_start(text::piece(&cs, i, cs.len()).as_str(), " | ") {
        Some(rest) => Some((text::piece(&cs, 0, i), rest)),
        None => None,
    }
}

/// The last column of a row.
fn date_cell(s: &str) -> (r: Option<String>)
    ensures
        text::opt_text(r) == (match last_column(s@, s@.len() as int) {
            Some(p) => Some(s@.skip(p + 3)),
            None => None,
        }),
{
    let cs = text::chars_of(s);
    let sep = text::chars_of(" | ");
    let mut p: usize = cs.len();
    proof {
        reveal_strlit(" | ");
    }
    while p >= 1
        invariant
            p <= cs.len(),
            cs@ == s@,
            sep@ == " | "@,
            sep@.len() == 3,
            last_column(s@, s@.len() as int) == last_column(s@, p as int),
        decreases p,
    {
        if text::matches_at(&cs, &sep, p) && p + 3 < cs.len() {
            proof {
                assert(cs@.subrange(p + 3, cs@.len() as int) =~= s@.skip(p + 3));
            }
            return Some(text::piece(&cs, p + 3, cs.len()));
        }
        p -= 1;
    }
    None
}

/// What a row of the table says of its revision.
fn match_row(line: &str) -> (r: Option<RevisionEntry>)
    ensures
        match r {
            Some(e) => row_entry(line@) == Some(e@),
            None => row_entry(line@) is None,
        },
{
    let Some(a) = text::strip_start(line, "| ") else {
        return None;
    };
    let Some((number_text, b)) = number_cell(a.as_str()) else {
        return None;
    };
    let Some((word, c)) = word_cell(b.as_str()) else {
        return None;
    };
    let Some(cells) = text::strip_end(c.as_str(), " |") else {
        return None;
    };
    let Some(number) = text::parse_up_to(number_text.as_str(), u32::MAX as u64) else {
        return None;
    };
    let Some(date) = date_cell(cells.as_str()) else {
        return None;
    };
    let e = RevisionEntry {
        number: number as u32,
        change_type: ChangeType::from_str_lossy(word.as_str()),
        old_sha: None,
        new_sha: String::new(),
        timestamp: Timestamp::parse_human(text::trimmed(date.as_str()).as_str()),
        reason: String::new(),
        replay_sha: None,
    };
    proof {
        assert(e@.new_sha =~= seq![]);
        assert(e@.reason =~= seq![]);
    }
    Some(e)
}

/// What a line says of the marker. A marker that was written by
/// [`RevisionHistoryComment::json_marker`] is read.
fn read_marker(line: &str) -> (r: MarkerLine)
    ensures
        r@ == marker_of(line@),
        forall|n: u64, es: Seq<MarkerEntry>|
            line@ == MARKER_PREFIX@ + #[trigger] json::marker_json(n, es) + MARKER_SUFFIX@
                ==> marker_of(line@) == MarkerView::Data(json::marker_json(n, es))
                && outside::json_value(json::marker_json(n, es), "/entries"@)
                == JsonValue::Array(es.len()),
{
    let Some(rest) = text::strip_start(line, MARKER_PREFIX) else {
        proof {
            assert forall|n: u64, es: Seq<MarkerEntry>| line@ != MARKER_PREFIX@
                + #[trigger] json::marker_json(n, es) + MARKER_SUFFIX@ by {
                lemma_marker_frame(json::marker_json(n, es));
            }
        }
        return MarkerLine::Absent;
    };
    let Some(payload) = text::strip_end(rest.as_str(), MARKER_SUFFIX) else {
        proof {
            assert forall|n: u64, es: Seq<MarkerEntry>| line@ != MARKER_PREFIX@
                + #[trigger] json::marker_json(n, es) + MARKER_SUFFIX@ by {
                lemma_marker_frame(json::marker_json(n, es));
            }
        }
        return MarkerLine::Corrupted;
    };
    let cs = text::chars_of(payload.as_str());
    let ghost mine = payload@;
    proof {
        assert forall|n: u64, es: Seq<MarkerEntry>| line@ == MARKER_PREFIX@
            + #[trigger] json::marker_json(n, es) + MARKER_SUFFIX@ implies mine
            == json::marker_json(n, es) && braced(mine) by {
            lemma_marker_frame(json::marker_json(n, es));
            json::lemma_marker_shape(n, es);
        }
    }
    if cs.len() < 2 || cs[0] != '{' || cs[cs.len() - 1] != '}' {
        return MarkerLine::Corrupted;
    }
    let version = outside::json_at(payload.as_str(), "/schema_version");
    let entries = outside::json_at(payload.as_str(), "/entries");
    if is_known(&version, &entries) {
        MarkerLine::Data(payload)
    } else {
        MarkerLine::Corrupted
    }
}

/// Whether a marker with this version and these revisions is of the form that
/// is known.
pub fn is_known(version: &JsonNode, entries: &JsonNode) -> (r: bool)
    ensures
        r == (version@ == JsonValue::Number(1) && entries@ is Array),
{
    match (version, entries) {
        (JsonNode::Number(1), JsonNode::Array(_)) => true,
        _ => false,
    }
}

proof fn lemma_marker_frame(payload: Seq<char>)
    ensures
        text::after(MARKER_PREFIX@ + payload + MARKER_SUFFIX@, MARKER_PREFIX@) == Some(
            payload + MARKER_SUFFIX@,
        ),
        text::before(payload + MARKER_SUFFIX@, MARKER_SUFFIX@) == Some(payload),
{
    let line = MARKER_PREFIX@ + payload + MARKER_SUFFIX@;
    let n = MARKER_PREFIX@.len() as int;
    assert(line.subrange(0, n) =~= MARKER_PREFIX@);
    assert(line.skip(n) =~= payload + MARKER_SUFFIX@);
    let rest = payload + MARKER_SUFFIX@;
    assert(rest.subrange(rest.len() - MARKER_SUFFIX@.len(), rest.len() as int) =~= MARKER_SUFFIX@);
    assert(rest.take(rest.len() - MARKER_SUFFIX@.len()) =~= payload);
}

/// Whether a revision holds what a marker stores of it, with its time read
/// back to the second.
pub open spec fn holds(e: EntryView, m: MarkerEntry) -> bool {
    &&& e.old_sha == m.old_sha
    &&& e.new_sha == m.new_sha
    &&& e.reason == m.reason
    &&& e.replay_sha == m.replay_sha
    &&& m.timestamp_iso is None ==> e.timestamp is None
    &&& forall|secs: i64|
        crate::timestamp::four_digit_year(secs) && m.timestamp_iso == Some(
            #[trigger] outside::time_text((secs, 0u32), TIMESTAMP_ISO_FMT@),
        ) ==> e.timestamp == Some((secs, 0u32))
}

/// Whether `e`, read as revision `i` of the marker `payload`, holds what the
/// marker stores, where the marker is one that this library wrote.
pub open spec fn overlay_holds(before: EntryView, e: EntryView, payload: Seq<char>, i: int) -> bool {
    forall|n: u64, es: Seq<MarkerEntry>|
        payload == #[trigger] json::marker_json(n, es) && 0 <= i < es.len() && es[i].number
            == before.number ==> holds(e, es[i])
}

/// An optional text after a field of a marker: a text or `null` counts, and
/// anything else leaves it as it is.
pub fn take_opt(o: Option<String>, v: JsonNode) -> (r: Option<String>)
    ensures
        text::opt_text(r) == opt_after(text::opt_text(o), v@),
{
    match v {
        JsonNode::Text(s) => Some(s),
        JsonNode::Null => None,
        _ => o,
    }
}

/// A text after a field of a marker: only a text counts.
pub fn take_text(o: String, v: JsonNode) -> (r: String)
    ensures
        r@ == text_after(o@, v@),
{
    match v {
        JsonNode::Text(s) => s,
        _ => o,
    }
}

/// A point in time after a field of a marker: a text that can be read or
/// `null` counts.
pub fn take_time(o: Option<Timestamp>, v: JsonNode) -> (r: Option<Timestamp>)
    ensures
        crate::timestamp::opt_time(r) == time_after(crate::timestamp::opt_time(o), v@),
        v@ matches JsonValue::Text(s) ==> forall|secs: i64|
            crate::timestamp::four_digit_year(secs) && s == #[trigger] outside::time_text(
                (secs, 0u32),
                TIMESTAMP_ISO_FMT@,
            ) ==> crate::timestamp::opt_time(r) == Some((secs, 0u32)),
{
    match v {
        JsonNode::Text(s) => match Timestamp::parse_iso(s.as_str()) {
            Some(t) => Some(t),
            None => o,
        },
        JsonNode::Null => None,
        _ => o,
    }
}

/// Field `k` of revision `i` in a marker. What this library stored there is
/// read back.
fn read_field(payload: &str, i: usize, k: EntryKey) -> (r: JsonNode)
    ensures
        r@ == field(payload@, i as nat, k),
        forall|n: u64, es: Seq<MarkerEntry>|
            payload@ == #[trigger] json::marker_json(n, es) && i < es.len() ==> r@
                == json::entry_node(es[i as int], k),
{
    outside::json_at(payload, json::pointer_of(i, k).as_str())
}

/// Take over what the marker says of revision `i`.
fn overlay(e: &mut RevisionEntry, payload: &str, i: usize)
    ensures
        final(e)@ == overlaid(old(e)@, payload@, i as nat),
        overlay_holds(old(e)@, final(e)@, payload@, i as int),
{
    let ghost start = e@;
    let agrees: bool = match read_field(payload, i, EntryKey::Number) {
        JsonNode::Number(n) => n == e.number as u64,
        _ => false,
    };
    proof {
        assert forall|n: u64, es: Seq<MarkerEntry>|
            payload@ == #[trigger] json::marker_json(n, es) && i < es.len() && es[i as int].number
                == start.number implies agrees by {
            assert(json::entry_node(es[i as int], EntryKey::Number) == JsonValue::Number(
                es[i as int].number as u64,
            ));
        }
    }
    if !agrees {
        return;
    }
    let old_sha = read_field(payload, i, EntryKey::OldSha);
    let new_sha = read_field(payload, i, EntryKey::NewSha);
    let timestamp = read_field(payload, i, EntryKey::TimestampIso);
    let reason = read_field(payload, i, EntryKey::Reason);
    let replay_sha = read_field(payload, i, EntryKey::ReplaySha);
    e.old_sha = take_opt(text::clone_opt(&e.old_sha), old_sha);
    e.new_sha = take_text(e.new_sha.clone(), new_sha);
    e.timestamp = take_time(e.timestamp, timestamp);
    e.reason = take_text(e.reason.clone(), reason);
    e.replay_sha = take_opt(text::clone_opt(&e.replay_sha), replay_sha);
    proof {
        assert forall|n: u64, es: Seq<MarkerEntry>|
            payload@ == #[trigger] json::marker_json(n, es) && i < es.len() && es[i as int].number
                == start.number implies holds(e@, es[i as int]) by {
            let m = es[i as int];
            assert(old_sha@ == json::opt_node(m.old_sha));
            assert(new_sha@ == JsonValue::Text(m.new_sha));
            assert(timestamp@ == json::opt_node(m.timestamp_iso));
            assert(reason@ == JsonValue::Text(m.reason));
            assert(replay_sha@ == json::opt_node(m.replay_sha));
        }
    }
}

// ---------------------------------------------------------------------------
// Reading back what was written
// ---------------------------------------------------------------------------

/// Whether a row of the table is read as one of revision `e`.
pub open spec fn row_reads(line: Seq<char>, e: EntryView) -> bool {
    &&& json::one_line(line)
    &&& row_entry(line) matches Some(x) && x.number == e.number && x.change_type == e.change_type
}

/// Whether the time of a revision, if it has one, is a whole second in a year
/// of four digits.
pub open spec fn whole_second(e: EntryView) -> bool {
    e.timestamp matches Some((secs, nanos)) ==> nanos == 0 && crate::timestamp::four_digit_year(
        secs,
    )
}

/// Whether a comment holds all of a history: it has revisions, each row is
/// read as one of its revision, and the times are whole seconds.
pub open spec fn restorable(h: HistoryView) -> bool {
    &&& h.entries.len() > 0
    &&& forall|i: int|
        0 <= i < h.entries.len() ==> row_reads(#[trigger] row_at(h, i), h.entries[i])
    &&& forall|i: int| 0 <= i < h.entries.len() ==> whole_second(#[trigger] h.entries[i])
}

proof fn lemma_row_shape(line: Seq<char>)
    requires
        row_entry(line) is Some,
    ensures
        line.len() > 2,
        line[0] == '|',
        line.last() == '|',
{
    reveal_strlit("| ");
    reveal_strlit(" | ");
    reveal_strlit(" |");
    let a = text::after(line, "| "@)->0;
    assert(line.subrange(0, 2) == "| "@);
    assert(line[0] == line.subrange(0, 2)[0]);
    let n = text::span(a, digits()) as int;
    text::lemma_span(a, digits());
    let b = text::after(a.skip(n), " | "@)->0;
    let m = text::span(b, word_chars()) as int;
    text::lemma_span(b, word_chars());
    let c = text::after(b.skip(m), " | "@)->0;
    assert(c.subrange(c.len() - 2, c.len() as int) == " |"@);
    assert(c.last() == c.subrange(c.len() - 2, c.len() as int)[1]);
    assert(c.last() == line.last());
}

/// Lines, each with its end, one after the other, are the lines of the text.
proof fn lemma_lines_of_ended(ls: Seq<Seq<char>>)
    requires
        forall|i: int| 0 <= i < ls.len() ==> json::one_line(#[trigger] ls[i]),
    ensures
        text::split_inclusive(text::concat(ended(ls))) == ended(ls),
    decreases ls.len(),
{
    let s = text::concat(ended(ls));
    if ls.len() == 0 {
        assert(s =~= seq![]);
        assert(ended(ls) =~= seq![]);
    } else {
        let rest = ls.drop_first();
        let head = seq![ls[0].push('\n')];
        assert forall|i: int| 0 <= i < rest.len() implies json::one_line(#[trigger] rest[i]) by {
            assert(rest[i] == ls[i + 1]);
        }
        lemma_lines_of_ended(rest);
        assert(ended(ls) =~= head + ended(rest));
        text::lemma_concat_add(head, ended(rest));
        reveal_with_fuel(text::concat, 2);
        assert(head.drop_last() =~= seq![]);
        assert(text::concat(head) =~= ls[0].push('\n'));
        let k = ls[0].len() as int;
        assert(s =~= ls[0].push('\n') + text::concat(ended(rest)));
        assert(json::one_line(ls[0]));
        assert forall|i: int| 0 <= i < k implies text::is_not('\n')(#[trigger] s[i]) by {
            assert(s[i] == ls[0][i]);
        }
        assert(s[k] == '\n');
        text::lemma_span_is(s, text::is_not('\n'), k);
        assert(s.take(k + 1) =~= ls[0].push('\n'));
        assert(s.skip(k + 1) =~= text::concat(ended(rest)));
    }
}

proof fn lemma_lines_of_body(h: HistoryView, pull_number: u64)
    requires
        restorable(h),
    ensures
        text::lines(body_text(h, pull_number)) == body_lines(h, pull_number),
        REVISION_COMMENT_FIRST_LINE@.is_prefix_of(body_text(h, pull_number)),
{
    let ls = body_lines(h, pull_number);
    let k = h.entries.len() as int;
    reveal_strlit("### Revision history");
    reveal_strlit("### Revision history\n");
    reveal_strlit("| # | Type | Changes | Reason | Date |");
    reveal_strlit("|---|------|---------|--------|------|");
    reveal_strlit("<!-- mergify-revision-data: ");
    reveal_strlit(" -->");
    json::lemma_marker_shape(pull_number, marker_entries(h));
    assert forall|i: int| 0 <= i < ls.len() implies json::one_line(#[trigger] ls[i]) && (
    ls[i].len() > 0 ==> ls[i].last() != '\r') by {
        if 4 <= i < 4 + k {
            assert(ls[i] == row_at(h, i - 4));
            lemma_row_shape(row_at(h, i - 4));
        }
    }
    lemma_lines_of_ended(ls);
    let s = body_text(h, pull_number);
    assert(text::lines(s) =~= ls) by {
        assert forall|i: int| 0 <= i < ls.len() implies #[trigger] text::lines(s)[i] == ls[i] by {
            let l = ended(ls)[i];
            assert(l == ls[i].push('\n'));
            assert(l.drop_last() =~= ls[i]);
            if ls[i].len() > 0 {
                assert(l[l.len() - 2] == ls[i].last());
            }
        }
    }
    let head = seq![ls[0].push('\n')];
    assert(ended(ls) =~= head + ended(ls.drop_first()));
    text::lemma_concat_add(head, ended(ls.drop_first()));
    reveal_with_fuel(text::concat, 2);
    assert(head.drop_last() =~= seq![]);
    assert(text::concat(head) =~= "### Revision history\n"@);
    assert(s =~= "### Revision history\n"@ + text::concat(ended(ls.drop_first())));
    assert(s.subrange(0, "### Revision history\n"@.len() as int) =~= "### Revision history\n"@);
}

/// A line that does not start with the first characters of a row is none.
proof fn lemma_no_row(line: Seq<char>)
    requires
        line.len() == 0 || line[0] != '|' || (line.len() > 1 && line[1] != ' ') || (line.len() > 2
            && !text::digit(line[2])),
    ensures
        row_entry(line) is None,
{
    reveal_strlit("| ");
    if "| "@.is_prefix_of(line) {
        assert(line.subrange(0, 2) == "| "@);
        assert(line[0] == line.subrange(0, 2)[0]);
        assert(line[1] == line.subrange(0, 2)[1]);
        let a = line.skip(2);
        assert(a.len() > 0 ==> a[0] == line[2]);
        assert(text::span(a, digits()) == 0);
    }
}

proof fn lemma_scan_of_rows(h: HistoryView, pull_number: u64, k: int)
    requires
        restorable(h),
        0 <= k <= h.entries.len(),
    ensures
        ({
            let s = scan(body_lines(h, pull_number).take(4 + k));
            &&& s.entries.len() == k
            &&& s.rows == rows(h).take(k)
            &&& s.marker is None
            &&& !s.corrupted
            &&& forall|i: int|
                0 <= i < k ==> (#[trigger] s.entries[i]).number == h.entries[i].number
                    && s.entries[i].change_type == h.entries[i].change_type
        }),
    decreases k,
{
    let ls = body_lines(h, pull_number);
    let t = ls.take(4 + k);
    if k == 0 {
        reveal_strlit("### Revision history");
        reveal_strlit("| # | Type | Changes | Reason | Date |");
        reveal_strlit("|---|------|---------|--------|------|");
        reveal_strlit("<!-- mergify-revision-data: ");
        assert forall|i: int| 0 <= i < 4 implies row_entry(#[trigger] ls[i]) is None && marker_of(
            ls[i],
        ) is Absent by {
            lemma_no_row(ls[i]);
            let p = MARKER_PREFIX@;
            if p.is_prefix_of(ls[i]) {
                assert(ls[i].subrange(0, p.len() as int)[0] == p[0]);
            }
        }
        reveal_with_fuel(scan, 5);
        assert(t.drop_last() =~= ls.take(3));
        assert(ls.take(3).drop_last() =~= ls.take(2));
        assert(ls.take(2).drop_last() =~= ls.take(1));
        assert(ls.take(1).drop_last() =~= ls.take(0));
        assert(t.last() == ls[3] && ls.take(3).last() == ls[2] && ls.take(2).last() == ls[1]
            && ls.take(1).last() == ls[0]);
        assert(rows(h).take(0) =~= seq![]);
    } else {
        lemma_scan_of_rows(h, pull_number, k - 1);
        assert(t.drop_last() =~= ls.take(4 + k - 1));
        assert(t.last() == row_at(h, k - 1));
        assert(rows(h).take(k) =~= rows(h).take(k - 1).push(row_at(h, k - 1)));
    }
}

proof fn lemma_scan_of_body(h: HistoryView, pull_number: u64)
    requires
        restorable(h),
        marker_of(marker_line(h, pull_number)) == MarkerView::Data(
            json::marker_json(pull_number, marker_entries(h)),
        ),
    ensures
        ({
            let s = scan(body_lines(h, pull_number));
            &&& s.entries.len() == h.entries.len()
            &&& s.rows == rows(h)
            &&& s.marker == Some(json::marker_json(pull_number, marker_entries(h)))
            &&& !s.corrupted
            &&& forall|i: int|
                0 <= i < h.entries.len() ==> (#[trigger] s.entries[i]).number == h.entries[i].number
                    && s.entries[i].change_type == h.entries[i].change_type
        }),
{
    let ls = body_lines(h, pull_number);
    let k = h.entries.len() as int;
    lemma_scan_of_rows(h, pull_number, k);
    assert(ls.drop_last() =~= ls.take(4 + k));
    assert(ls.last() == marker_line(h, pull_number));
    assert(rows(h).take(k) =~= rows(h));
    lemma_marker_is_no_row(json::marker_json(pull_number, marker_entries(h)));
}

proof fn lemma_marker_is_no_row(payload: Seq<char>)
    ensures
        row_entry(MARKER_PREFIX@ + payload + MARKER_SUFFIX@) is None,
{
    reveal_strlit("<!-- mergify-revision-data: ");
    lemma_no_row(MARKER_PREFIX@ + payload + MARKER_SUFFIX@);
}

/// Whether the markers among some lines that this library wrote are read.
spec fn markers_read(ls: Seq<Seq<char>>) -> bool {
    forall|j: int, n: u64, es: Seq<MarkerEntry>|
        #![trigger ls[j], json::marker_json(n, es)]
        0 <= j < ls.len() && ls[j] == MARKER_PREFIX@ + json::marker_json(n, es) + MARKER_SUFFIX@
            ==> marker_of(ls[j]) == MarkerView::Data(json::marker_json(n, es))
            && outside::json_value(json::marker_json(n, es), "/entries"@) == JsonValue::Array(
            es.len(),
        )
}

/// What the lines of a comment say, in memory.
struct Scanned {
    entries: Vec<RevisionEntry>,
    rows: Vec<String>,
    marker: Option<String>,
    corrupted: bool,
}

impl Scanned {
    spec fn is_of(self, s: Scan) -> bool {
        &&& entry_views(self.entries@) == s.entries
        &&& text::texts(self.rows@) == s.rows
        &&& text::opt_text(self.marker) == s.marker
        &&& self.corrupted == s.corrupted
    }
}

fn scan_lines(ls: &Vec<String>) -> (r: Scanned)
    ensures
        r.is_of(scan(text::texts(ls@))),
        markers_read(text::texts(ls@)),
{
    let mut r = Scanned {
        entries: Vec::new(),
        rows: Vec::new(),
        marker: None,
        corrupted: false,
    };
    let ghost all = text::texts(ls@);
    let mut i: usize = 0;
    proof {
        assert(all.take(0) =~= seq![]);
        assert(entry_views(r.entries@) =~= seq![]);
        assert(text::texts(r.rows@) =~= seq![]);
    }
    while i < ls.len()
        invariant
            i <= ls.len(),
            all == text::texts(ls@),
            r.is_of(scan(all.take(i as int))),
            markers_read(all.take(i as int)),
        decreases ls.len() - i,
    {
        let line = ls[i].as_str();
        let ghost t = all.take(i + 1);
        let ghost s = scan(all.take(i as int));
        proof {
            assert(t.drop_last() =~= all.take(i as int));
            assert(t.last() == line@);
        }
        match match_row(line) {
            Some(e) => {
                let ghost es = r.entries@;
                let ghost rs = r.rows@;
                r.entries.push(e);
                r.rows.push(line.to_owned());
                proof {
                    assert(entry_views(r.entries@) =~= entry_views(es).push(e@));
                    assert(text::texts(r.rows@) =~= text::texts(rs).push(line@));
                    assert forall|n: u64, es: Seq<MarkerEntry>| line@ != MARKER_PREFIX@
                        + #[trigger] json::marker_json(n, es) + MARKER_SUFFIX@ by {
                        lemma_marker_is_no_row(json::marker_json(n, es));
                    }
                }
            },
            None => match read_marker(line) {
                MarkerLine::Absent => {},
                MarkerLine::Corrupted => {
                    r.corrupted = true;
                },
                MarkerLine::Data(payload) => {
                    r.marker = Some(payload);
                },
            },
        }
        proof {
            assert forall|j: int, n: u64, es: Seq<MarkerEntry>|
                #![trigger t[j], json::marker_json(n, es)]
                0 <= j < t.len() && t[j] == MARKER_PREFIX@ + json::marker_json(n, es)
                    + MARKER_SUFFIX@ implies marker_of(t[j]) == MarkerView::Data(
                json::marker_json(n, es),
            ) && outside::json_value(json::marker_json(n, es), "/entries"@) == JsonValue::Array(
                es.len(),
            ) by {
                if j < i {
                    assert(t[j] == all.take(i as int)[j]);
                }
            }
        }
        i += 1;
    }
    proof {
        assert(all.take(i as int) =~= all);
    }
    r
}

/// Take over what a marker says of some revisions.
fn overlay_all(entries: &mut Vec<RevisionEntry>, payload: &str)
    ensures
        entry_views(final(entries)@) == entry_views(old(entries)@).map(
            |i: int, e: EntryView| overlaid(e, payload@, i as nat),
        ),
        forall|i: int|
            0 <= i < old(entries)@.len() ==> overlay_holds(
                old(entries)@[i]@,
                (#[trigger] final(entries)@[i])@,
                payload@,
                i,
            ),
{
    let ghost start = entries@;
    let mut i: usize = 0;
    while i < entries.len()
        invariant
            i <= entries.len(),
            entries.len() == start.len(),
            forall|j: int|
                0 <= j < i ==> (#[trigger] entries@[j])@ == overlaid(start[j]@, payload@, j as nat)
                    && overlay_holds(start[j]@, entries@[j]@, payload@, j),
            forall|j: int| i <= j < start.len() ==> #[trigger] entries@[j] == start[j],
        decreases entries.len() - i,
    {
        overlay(&mut entries[i], payload, i);
        i += 1;
    }
    proof {
        assert(entry_views(entries@) =~= entry_views(start).map(
            |i: int, e: EntryView| overlaid(e, payload@, i as nat),
        ));
    }
}

impl RevisionHistoryComment {
    /// The history that a comment holds, or nothing where the comment is no
    /// revision history or its marker cannot be read.
    ///
    /// A comment that [`RevisionHistoryComment::body`] wrote gives back the
    /// revisions that it was written from, and keeps its rows.
    pub fn parse(body: &str, github_server: &str, user: &str, repo: &str) -> (r: Option<
        RevisionHistoryComment,
    >)
        ensures
            match r {
                Some(h) => parsed(body@, github_server@, user@, repo@) == Some(h@),
                None => parsed(body@, github_server@, user@, repo@) is None,
            },
            forall|h: HistoryView, pull_number: u64|
                body@ == #[trigger] body_text(h, pull_number) && restorable(h) ==> r is Some
                    && r->0@.entries == h.entries && r->0@.raw_rows == rows(h),
    {
        if !text::starts_with(body, REVISION_COMMENT_FIRST_LINE) {
            proof {
                assert forall|h: HistoryView, pull_number: u64| restorable(h) implies body@
                    != #[trigger] body_text(h, pull_number) by {
                    lemma_lines_of_body(h, pull_number);
                }
            }
            return None;
        }
        let ls = text::lines_of(body);
        let scanned = scan_lines(&ls);
        let ghost s = scan(text::lines(body@));
        proof {
            assert forall|h: HistoryView, pull_number: u64|
                restorable(h) && body@ == #[trigger] body_text(h, pull_number) implies restored(
                s,
                h,
                pull_number,
            ) by {
                lemma_lines_of_body(h, pull_number);
                let all = text::lines(body@);
                assert(all.last() == marker_line(h, pull_number));
                assert(all[all.len() - 1] == MARKER_PREFIX@ + json::marker_json(
                    pull_number,
                    marker_entries(h),
                ) + MARKER_SUFFIX@);
                lemma_scan_of_body(h, pull_number);
            }
        }
        if scanned.entries.len() == 0 || scanned.corrupted {
            return None;
        }
        let mut entries = scanned.entries;
        let ghost table = entries@;
        proof {
            assert(entry_views(table).len() == table.len());
        }
        if let Some(payload) = &scanned.marker {
            let size = outside::json_at(payload.as_str(), "/entries");
            let fits: bool = match size {
                JsonNode::Array(n) => n == entries.len(),
                _ => false,
            };
            if fits {
                overlay_all(&mut entries, payload.as_str());
                proof {
                    assert(entry_views(entries@).len() == entry_views(table).len());
                    assert forall|i: int| 0 <= i < table.len() implies overlay_holds(
                        entry_views(table)[i],
                        #[trigger] entry_views(entries@)[i],
                        payload@,
                        i,
                    ) by {
                        assert(overlay_holds(table[i]@, entries@[i]@, payload@, i));
                    }
                    assert forall|h: HistoryView, pull_number: u64|
                        restorable(h) && body@ == #[trigger] body_text(h, pull_number) implies
                        entry_views(entries@) == h.entries by {
                        lemma_overlay_restores(
                            s,
                            h,
                            pull_number,
                            entry_views(table),
                            entry_views(entries@),
                            payload@,
                        );
                    }
                }
            }
        }
        Some(
            RevisionHistoryComment {
                github_server: github_server.to_owned(),
                user: user.to_owned(),
                repo: repo.to_owned(),
                entries,
                raw_rows: scanned.rows,
            },
        )
    }
}

/// Whether the lines of a comment say what history `h` has.
spec fn restored(s: Scan, h: HistoryView, pull_number: u64) -> bool {
    let payload = json::marker_json(pull_number, marker_entries(h));
    &&& s.entries.len() == h.entries.len()
    &&& s.rows == rows(h)
    &&& s.marker == Some(payload)
    &&& outside::json_value(payload, "/entries"@) == JsonValue::Array(h.entries.len())
    &&& !s.corrupted
    &&& forall|i: int|
        0 <= i < h.entries.len() ==> (#[trigger] s.entries[i]).number == h.entries[i].number
            && s.entries[i].change_type == h.entries[i].change_type
}

proof fn lemma_overlay_restores(
    s: Scan,
    h: HistoryView,
    pull_number: u64,
    table: Seq<EntryView>,
    entries: Seq<EntryView>,
    payload: Seq<char>,
)
    requires
        restorable(h),
        restored(s, h, pull_number),
        table == s.entries,
        s.marker == Some(payload),
        entries == table.map(|i: int, e: EntryView| overlaid(e, payload, i as nat)),
        forall|i: int|
            0 <= i < table.len() ==> overlay_holds(table[i], #[trigger] entries[i], payload, i),
    ensures
        entries == h.entries,
{
    let es = marker_entries(h);
    assert forall|i: int| 0 <= i < h.entries.len() implies entries[i] == h.entries[i] by {
        let e = h.entries[i];
        assert(es[i] == marker_entry(h, e));
        assert(overlay_holds(table[i], entries[i], payload, i));
        assert(payload == json::marker_json(pull_number, es));
        assert(holds(entries[i], es[i]));
        assert(entries[i] == overlaid(table[i], payload, i as nat));
        assert(whole_second(e));
        match e.timestamp {
            Some((secs, nanos)) => {
                assert(es[i].timestamp_iso == Some(
                    outside::time_text((secs, 0u32), TIMESTAMP_ISO_FMT@),
                ));
            },
            None => {},
        }
    }
    assert(entries =~= h.entries);
}

/// A comment that was read has a row for each of its revisions.
pub proof fn lemma_row_for_each(ls: Seq<Seq<char>>)
    ensures
        scan(ls).rows.len() == scan(ls).entries.len(),
        scanned_entries(scan(ls)).len() == scan(ls).entries.len(),
    decreases ls.len(),
{
    if ls.len() > 0 {
        lemma_row_for_each(ls.drop_last());
    }
}

// ---------------------------------------------------------------------------
// Laws
// ---------------------------------------------------------------------------

/// Whether nothing in a history that a link or a cell shows breaks its line.
pub open spec fn unbroken(h: HistoryView) -> bool {
    &&& json::one_line(h.github_server)
    &&& json::one_line(h.user)
    &&& json::one_line(h.repo)
    &&& forall|i: int|
        0 <= i < h.entries.len() ==> {
            &&& json::one_line((#[trigger] h.entries[i]).new_sha)
            &&& h.entries[i].old_sha matches Some(s) ==> json::one_line(s)
            &&& h.entries[i].replay_sha matches Some(s) ==> json::one_line(s)
        }
}

proof fn lemma_replace_keeps_line(s: Seq<char>, pat: Seq<char>, with: Seq<char>)
    requires
        json::one_line(s),
        json::one_line(with),
    ensures
        json::one_line(text::replace_all(s, pat, with)),
    decreases s.len(),
{
    if pat.len() > 0 && s.len() >= pat.len() {
        if text::occurs_at(s, pat, 0) {
            let rest = s.skip(pat.len() as int);
            assert(json::one_line(rest));
            lemma_replace_keeps_line(rest, pat, with);
        } else {
            assert(json::one_line(s.skip(1)));
            lemma_replace_keeps_line(s.skip(1), pat, with);
        }
    }
}

proof fn lemma_replace_ends_lines(s: Seq<char>, with: Seq<char>)
    requires
        json::one_line(with),
    ensures
        json::one_line(text::replace_all(s, "\n"@, with)),
    decreases s.len(),
{
    reveal_strlit("\n");
    if s.len() > 0 {
        lemma_replace_ends_lines(s.skip(1), with);
        if text::occurs_at(s, "\n"@, 0) {
            assert("\n"@.len() == 1);
        } else {
            assert(s[0] != '\n') by {
                if s[0] == '\n' {
                    assert(s.subrange(0, 1) =~= "\n"@);
                }
            }
        }
    }
}

proof fn lemma_reason_one_line(reason: Seq<char>)
    ensures
        json::one_line(reason_cell(reason)),
{
    reveal_strlit("<br>");
    lemma_replace_ends_lines(
        text::replace_all(text::replace_all(reason, "\\"@, "\\\\"@), "|"@, "\\|"@),
        "<br>"@,
    );
}

proof fn lemma_cut_one_line(s: Seq<char>, n: nat)
    requires
        json::one_line(s),
    ensures
        json::one_line(text::cut(s, n)),
    decreases s.len(),
{
    if text::byte_len(s) > n {
        assert(json::one_line(s.drop_last()));
        lemma_cut_one_line(s.drop_last(), n);
    }
}

proof fn lemma_link_one_line(h: HistoryView, old_sha: Seq<char>, new_sha: Seq<char>)
    requires
        json::one_line(h.github_server),
        json::one_line(h.user),
        json::one_line(h.repo),
        json::one_line(old_sha),
        json::one_line(new_sha),
    ensures
        json::one_line(compare_link(h, old_sha, new_sha)),
{
    reveal_strlit("");
    reveal_strlit("github.com");
    reveal_strlit("/");
    reveal_strlit("/compare/");
    reveal_strlit("...");
    let api = text::trim_end_char(h.github_server, '/');
    assert(json::one_line(api)) by {
        text::lemma_span_back(h.github_server, text::is_only('/'));
    }
    lemma_replace_keeps_line(api, "/api/v3"@, ""@);
    lemma_replace_keeps_line(api, "api.github.com"@, "github.com"@);
}

proof fn lemma_changes_one_line(h: HistoryView, e: EntryView)
    requires
        json::one_line(h.github_server),
        json::one_line(h.user),
        json::one_line(h.repo),
        json::one_line(e.new_sha),
        e.old_sha matches Some(s) ==> json::one_line(s),
        e.replay_sha matches Some(s) ==> json::one_line(s),
    ensures
        json::one_line(changes_cell(h, e)),
        changes_cell(h, e).len() > 0,
{
    reveal_strlit("`");
    reveal_strlit(" → ");
    reveal_strlit("` _(rebase only)_");
    reveal_strlit("[`");
    reveal_strlit("`](");
    reveal_strlit(")");
    reveal_strlit(" ([raw](");
    reveal_strlit("))");
    lemma_cut_one_line(e.new_sha, 7);
    if e.old_sha is Some {
        let old = e.old_sha->0;
        lemma_cut_one_line(old, 7);
        lemma_link_one_line(h, old, head_sha(e));
        lemma_link_one_line(h, old, e.new_sha);
    }
}

proof fn lemma_last_column(s: Seq<char>, p: int, top: int)
    requires
        1 <= p <= top,
        text::occurs_at(s, " | "@, p),
        p + 3 < s.len(),
    ensures
        last_column(s, top) is Some,
    decreases top,
{
    if p < top && !(text::occurs_at(s, " | "@, top) && top + 3 < s.len()) {
        lemma_last_column(s, p, top - 1);
    }
}

proof fn lemma_wire_is_word(t: ChangeType)
    ensures
        t.wire().len() > 0,
        forall|i: int| 0 <= i < t.wire().len() ==> word_char(#[trigger] t.wire()[i]),
{
    reveal_strlit("initial");
    reveal_strlit("rebase");
    reveal_strlit("content");
    reveal_strlit("unknown");
}

proof fn lemma_leading_cell(cell: Seq<char>, rest: Seq<char>, p: spec_fn(char) -> bool)
    requires
        cell.len() > 0,
        forall|i: int| 0 <= i < cell.len() ==> p(#[trigger] cell[i]),
        !p(' '),
    ensures
        leading_cell(cell + " | "@ + rest, p) == Some((cell, rest)),
{
    reveal_strlit(" | ");
    let s = cell + " | "@ + rest;
    let n = cell.len() as int;
    assert forall|i: int| 0 <= i < n implies p(#[trigger] s[i]) by {
        assert(s[i] == cell[i]);
    }
    assert(s[n] == ' ');
    text::lemma_span_is(s, p, n);
    let t = s.skip(n);
    assert(t =~= " | "@ + rest);
    assert(t.subrange(0, 3) =~= " | "@);
    assert(t.skip(3) =~= rest);
    assert(s.take(n) =~= cell);
}

/// The row of a revision is read as one of that revision, whatever its reason
/// holds, where nothing else in it breaks the line and its time, if it has
/// one, is shown.
pub proof fn law_written_row_is_read(h: HistoryView, i: int)
    requires
        0 <= i < h.entries.len(),
        unbroken(h),
        times_fit(h),
    ensures
        row_reads(row_text(h, h.entries[i]), h.entries[i]),
{
    reveal_strlit("| ");
    reveal_strlit(" | ");
    reveal_strlit(" |");
    let e = h.entries[i];
    let line = row_text(h, e);
    let number = text::decimal(e.number as nat);
    let word = e.change_type.wire();
    let cell = changes_cell(h, e);
    let reason = reason_cell(e.reason);
    let human = human_time(e);
    let cells = cell + " | "@ + reason + " | "@ + human;
    lemma_changes_one_line(h, e);
    lemma_reason_one_line(e.reason);
    json::lemma_decimal_one_line(e.number as nat);
    lemma_wire_is_word(e.change_type);
    assert(json::one_line(word)) by {
        assert forall|j: int| 0 <= j < word.len() implies #[trigger] word[j] != '\n' by {
            assert(word_char(word[j]));
        }
    }
    assert(json::one_line(human));
    assert(json::one_line(line));
    // The cells of the line.
    let c = cells + " |"@;
    let b = word + " | "@ + c;
    let a = number + " | "@ + b;
    assert(line =~= "| "@ + a);
    assert(line.subrange(0, 2) =~= "| "@);
    assert(line.skip(2) =~= a);
    text::lemma_decimal(e.number as nat);
    lemma_leading_cell(number, b, digits());
    lemma_leading_cell(word, c, word_chars());
    assert(c.subrange(c.len() - 2, c.len() as int) =~= " |"@);
    assert(c.take(c.len() - 2) =~= cells);
    assert(row_cells(line) == Some((number, word, cells)));
    // The last column.
    let p = cell.len() as int;
    assert(cells.subrange(p, p + 3) =~= " | "@);
    lemma_last_column(cells, p, cells.len() as int);
    text::lemma_parse_decimal(e.number as nat, u32::MAX as nat);
    crate::change_type::law_wire_round_trip(e.change_type);
}

/// A history that was read from a comment and is written again gives the
/// comment that it was read from, and another revision only adds to it: the
/// rows that stand there stay as they are.
pub proof fn law_rows_are_kept(h: HistoryView, e: EntryView, pull_number: u64)
    requires
        restorable(h),
    ensures
        ({
            let read = HistoryView { raw_rows: rows(h), ..h };
            let more = HistoryView { entries: h.entries.push(e), ..read };
            &&& restorable(read)
            &&& body_text(read, pull_number) == body_text(h, pull_number)
            &&& rows(more) == rows(h).push(row_text(more, e))
            &&& row_reads(row_text(more, e), e) && whole_second(e) ==> restorable(more)
        }),
{
    let read = HistoryView { raw_rows: rows(h), ..h };
    let more = HistoryView { entries: h.entries.push(e), ..read };
    assert(rows(read) =~= rows(h));
    assert(marker_entries(read) =~= marker_entries(h)) by {
        assert forall|i: int| 0 <= i < h.entries.len() implies marker_entry(read, h.entries[i])
            == marker_entry(h, h.entries[i]) by {}
    }
    assert forall|i: int| 0 <= i < read.entries.len() implies row_reads(
        #[trigger] row_at(read, i),
        read.entries[i],
    ) by {
        assert(row_at(read, i) == row_at(h, i));
    }
    assert(rows(more) =~= rows(h).push(row_text(more, e)));
    if row_reads(row_text(more, e), e) && whole_second(e) {
        assert forall|i: int| 0 <= i < more.entries.len() implies row_reads(
            #[trigger] row_at(more, i),
            more.entries[i],
        ) by {
            if i < h.entries.len() {
                assert(row_at(more, i) == row_at(h, i));
            }
        }
        assert forall|i: int| 0 <= i < more.entries.len() implies whole_second(
            #[trigger] more.entries[i],
        ) by {
            if i < h.entries.len() {
                assert(more.entries[i] == h.entries[i]);
            }
        }
    }
}

/// A history that was not read from a comment is restored from the one that
/// it is written to, where nothing in it breaks a line, its times are shown,
/// and they are whole seconds.
pub proof fn law_fresh_history_is_restorable(h: HistoryView)
    requires
        h.raw_rows.len() == 0,
        h.entries.len() > 0,
        unbroken(h),
        times_fit(h),
        forall|i: int| 0 <= i < h.entries.len() ==> whole_second(#[trigger] h.entries[i]),
    ensures
        restorable(h),
{
    assert forall|i: int| 0 <= i < h.entries.len() implies row_reads(
        #[trigger] row_at(h, i),
        h.entries[i],
    ) by {
        law_written_row_is_read(h, i);
    }
}

/// The cell of the changes shows the two heads in short. A rebase is only named;
/// anything else links to the comparison of the old head with the replay, or
/// with the new head where there is no replay.
pub proof fn law_changes_cell_reads(h: HistoryView, e: EntryView)
    ensures
        ({
            let at = html_base(h.github_server) + "/"@ + h.user + "/"@ + h.repo + "/compare/"@;
            let new7 = text::cut(e.new_sha, 7);
            let cell = changes_cell(h, e);
            &&& e.old_sha is None ==> cell == "`"@ + new7 + "`"@
            &&& e.old_sha is Some ==> {
                let old = e.old_sha->0;
                let old7 = text::cut(old, 7);
                &&& e.change_type == ChangeType::Rebase ==> cell == "`"@ + old7 + " → "@ + new7
                    + "` _(rebase only)_"@
                &&& e.change_type != ChangeType::Rebase && e.replay_sha is None ==> cell == "[`"@
                    + old7 + " → "@ + new7 + "`]("@ + (at + old + "..."@ + e.new_sha) + ")"@
                &&& e.change_type != ChangeType::Rebase && e.replay_sha is Some ==> cell == "[`"@
                    + old7 + " → "@ + new7 + "`]("@ + (at + old + "..."@ + e.replay_sha->0) + ")"@
                    + (" ([raw]("@ + (at + old + "..."@ + e.new_sha) + "))"@)
            }
        }),
{
    if e.old_sha is Some && e.replay_sha is None {
        let old = e.old_sha->0;
        let start = "[`"@ + text::cut(old, 7) + " → "@ + text::cut(e.new_sha, 7) + "`]("@
            + compare_link(h, old, e.new_sha) + ")"@;
        assert(start + Seq::<char>::empty() =~= start);
    }
}

/// A row shows the number, the kind, the changes, the reason and the date.
pub proof fn law_row_reads(h: HistoryView, e: EntryView, date: Seq<char>)
    ensures
        dated_row(h, e, date) == "| "@ + text::decimal(e.number as nat) + " | "@ + (
        match e.change_type {
            ChangeType::Initial => "initial"@,
            ChangeType::Rebase => "rebase"@,
            ChangeType::Content => "content"@,
            ChangeType::Unknown => "unknown"@,
        }) + " | "@ + changes_cell(h, e) + " | "@ + reason_cell(e.reason) + " | "@ + date + " |"@,
        row_text(h, e) == dated_row(
            h,
            e,
            match e.timestamp {
                Some(t) => outside::time_text(t, TIMESTAMP_HUMAN_FMT@),
                None => seq![],
            },
        ),
{
}

/// A reason never takes more than two hundred characters; a longer one ends in
/// an ellipsis.
pub proof fn law_reason_fits_its_cell(reason: Seq<char>)
    ensures
        reason_cell(reason).len() <= 200,
        cell_escaped(reason).len() <= 200 ==> reason_cell(reason) == cell_escaped(reason),
        cell_escaped(reason).len() > 200 ==> reason_cell(reason).len() == 200 && reason_cell(
            reason,
        ).last() == '…' && reason_cell(reason).drop_last().is_prefix_of(cell_escaped(reason)),
{
    let e = cell_escaped(reason);
    if e.len() > 200 {
        assert(e.take(199).push('…').drop_last() =~= e.take(199));
        assert(e.subrange(0, 199) =~= e.take(199));
    }
}

/// A comment has its heading, the head of the table, one row for each revision,
/// and the marker.
pub proof fn law_comment_has_a_row_for_each(h: HistoryView, n: u64)
    ensures
        ({
            let ls = body_lines(h, n);
            &&& ls.len() == h.entries.len() + 5
            &&& ls[0] == "### Revision history"@
            &&& ls[1].len() == 0
            &&& ls[2] == "| # | Type | Changes | Reason | Date |"@
            &&& ls[3] == "|---|------|---------|--------|------|"@
            &&& forall|i: int|
                0 <= i < h.entries.len() ==> ls[i + 4] == (if i < h.raw_rows.len() {
                    h.raw_rows[i]
                } else {
                    row_text(h, #[trigger] h.entries[i])
                })
            &&& ls.last() == "<!-- mergify-revision-data: "@ + json::marker_json(
                n,
                marker_entries(h),
            ) + " -->"@
        }),
{
}

/// The marker stores every revision whole.
pub proof fn law_marker_stores_the_revision(h: HistoryView, i: int)
    requires
        0 <= i < h.entries.len(),
    ensures
        ({
            let e = h.entries[i];
            let m = marker_entries(h)[i];
            let at = html_base(h.github_server) + "/"@ + h.user + "/"@ + h.repo + "/compare/"@;
            &&& marker_entries(h).len() == h.entries.len()
            &&& m.number == e.number
            &&& m.old_sha == e.old_sha
            &&& m.new_sha == e.new_sha
            &&& m.reason == e.reason
            &&& m.replay_sha == e.replay_sha
            &&& ChangeType::of_wire(m.change_type) == e.change_type
            &&& e.timestamp is None ==> m.timestamp_iso is None
            &&& e.timestamp is Some ==> m.timestamp_iso == Some(
                outside::time_text(e.timestamp->0, TIMESTAMP_ISO_FMT@),
            )
            &&& e.old_sha is None ==> m.compare_url is None
            &&& e.old_sha is Some ==> m.compare_url == Some(
                at + e.old_sha->0 + "..."@ + (match e.replay_sha {
                    Some(s) => s,
                    None => e.new_sha,
                }),
            )
        }),
{
    crate::change_type::law_wire_round_trip(h.entries[i].change_type);
}

/// A comment is read only where it starts with the heading, has a row, and its
/// marker is not broken.
pub proof fn law_broken_comments_are_not_read(
    body: Seq<char>,
    server: Seq<char>,
    user: Seq<char>,
    repo: Seq<char>,
)
    ensures
        ({
            let ls = text::lines(body);
            let rows_there = exists|i: int|
                0 <= i < ls.len() && row_entry(#[trigger] ls[i]) is Some;
            let broken = exists|i: int|
                0 <= i < ls.len() && row_entry(#[trigger] ls[i]) is None && marker_of(ls[i])
                    is Corrupted;
            parsed(body, server, user, repo) is Some <==> "### Revision history\n"@.is_prefix_of(
                body,
            ) && rows_there && !broken
        }),
{
    lemma_scan_finds(text::lines(body));
}

proof fn lemma_scan_finds(ls: Seq<Seq<char>>)
    ensures
        scan(ls).entries.len() > 0 <==> exists|i: int|
            0 <= i < ls.len() && row_entry(#[trigger] ls[i]) is Some,
        scan(ls).corrupted <==> exists|i: int|
            0 <= i < ls.len() && row_entry(#[trigger] ls[i]) is None && marker_of(ls[i])
                is Corrupted,
    decreases ls.len(),
{
    if ls.len() > 0 {
        let t = ls.drop_last();
        lemma_scan_finds(t);
        let n = t.len() as int;
        assert(ls[n] == ls.last());
        assert forall|i: int| 0 <= i < n implies #[trigger] t[i] == ls[i] by {}
        if exists|i: int| 0 <= i < t.len() && row_entry(#[trigger] t[i]) is Some {
            let i = choose|i: int| 0 <= i < t.len() && row_entry(#[trigger] t[i]) is Some;
            assert(row_entry(ls[i]) is Some);
        }
        if exists|i: int|
            0 <= i < t.len() && row_entry(#[trigger] t[i]) is None && marker_of(t[i])
                is Corrupted {
            let i = choose|i: int|
                0 <= i < t.len() && row_entry(#[trigger] t[i]) is None && marker_of(t[i])
                    is Corrupted;
            assert(row_entry(ls[i]) is None);
        }
        if exists|i: int| 0 <= i < ls.len() && row_entry(#[trigger] ls[i]) is Some {
            let i = choose|i: int| 0 <= i < ls.len() && row_entry(#[trigger] ls[i]) is Some;
            if i < n {
                assert(row_entry(t[i]) is Some);
            }
        }
        if exists|i: int|
            0 <= i < ls.len() && row_entry(#[trigger] ls[i]) is None && marker_of(ls[i])
                is Corrupted {
            let i = choose|i: int|
                0 <= i < ls.len() && row_entry(#[trigger] ls[i]) is None && marker_of(ls[i])
                    is Corrupted;
            if i < n {
                assert(row_entry(t[i]) is None);
            }
        }
    }
}

/// The rows that are read are kept as they stand, in their order, and what the
/// marker says of them counts only where it speaks of as many.
pub proof fn law_rows_are_read_in_order(ls: Seq<Seq<char>>)
    ensures
        scan(ls).rows == ls.filter(|l: Seq<char>| row_entry(l) is Some),
        scan(ls).entries == scan(ls).rows.map_values(|l: Seq<char>| row_entry(l)->0),
        ({
            let s = scan(ls);
            &&& s.marker is None ==> scanned_entries(s) == s.entries
            &&& s.marker is Some && outside::json_value(s.marker->0, "/entries"@)
                != JsonValue::Array(s.entries.len()) ==> scanned_entries(s) == s.entries
            &&& s.marker is Some && outside::json_value(s.marker->0, "/entries"@)
                == JsonValue::Array(s.entries.len()) ==> scanned_entries(s) == Seq::new(
                s.entries.len(),
                |i: int| overlaid(s.entries[i], s.marker->0, i as nat),
            )
        }),
    decreases ls.len(),
{
    reveal(Seq::filter);
    let f = |l: Seq<char>| row_entry(l) is Some;
    let g = |l: Seq<char>| row_entry(l)->0;
    let s = scan(ls);
    if ls.len() > 0 {
        law_rows_are_read_in_order(ls.drop_last());
        let before = scan(ls.drop_last());
        if f(ls.last()) {
            assert(s.rows.map_values(g) =~= before.rows.map_values(g).push(g(ls.last())));
        }
    } else {
        assert(s.rows =~= ls.filter(f));
        assert(s.entries =~= s.rows.map_values(g));
    }
    if s.marker is Some && outside::json_value(s.marker->0, "/entries"@) == JsonValue::Array(
        s.entries.len(),
    ) {
        assert(scanned_entries(s) =~= Seq::new(
            s.entries.len(),
            |i: int| overlaid(s.entries[i], s.marker->0, i as nat),
        ));
    }
}

/// What the marker says of a revision counts only where it has the number of the
/// row. It then gives the heads, the time, the reason and the replay; a field
/// that is missing or of another kind leaves what the row says.
pub proof fn law_marker_fills_in_its_row(e: EntryView, payload: Seq<char>, i: nat)
    ensures
        ({
            let r = overlaid(e, payload, i);
            let same = field(payload, i, EntryKey::Number) == JsonValue::Number(e.number as u64);
            let old = field(payload, i, EntryKey::OldSha);
            let new = field(payload, i, EntryKey::NewSha);
            let why = field(payload, i, EntryKey::Reason);
            let replay = field(payload, i, EntryKey::ReplaySha);
            let at = field(payload, i, EntryKey::TimestampIso);
            &&& r.number == e.number && r.change_type == e.change_type
            &&& !same ==> r == e
            &&& same && old is Text ==> r.old_sha == Some(old->Text_0)
            &&& same && old is Null ==> r.old_sha is None
            &&& same && old is Missing ==> r.old_sha == e.old_sha
            &&& same && new is Text ==> r.new_sha == new->Text_0
            &&& same && new is Missing ==> r.new_sha == e.new_sha
            &&& same && why is Text ==> r.reason == why->Text_0
            &&& same && why is Missing ==> r.reason == e.reason
            &&& same && replay is Text ==> r.replay_sha == Some(replay->Text_0)
            &&& same && replay is Null ==> r.replay_sha is None
            &&& same && replay is Missing ==> r.replay_sha == e.replay_sha
            &&& same && at is Null ==> r.timestamp is None
            &&& same && at is Missing ==> r.timestamp == e.timestamp
            &&& same && at is Text && outside::time_value(at->Text_0, TIMESTAMP_ISO_FMT@) is Some
                ==> r.timestamp == outside::time_value(at->Text_0, TIMESTAMP_ISO_FMT@)
            &&& same && at is Text && outside::time_value(at->Text_0, TIMESTAMP_ISO_FMT@) is None
                ==> r.timestamp == e.timestamp
        }),
{
}

/// A line is the marker only with its start, its end and an object of the known
/// version between them; one that only starts like it is broken.
pub proof fn law_marker_is_told_by_its_frame(line: Seq<char>, data: Seq<char>)
    ensures
        !"<!-- mergify-revision-data: "@.is_prefix_of(line) ==> marker_of(line) is Absent,
        "<!-- mergify-revision-data: "@.is_prefix_of(line) ==> !(marker_of(line) is Absent),
        ({
            let framed = "<!-- mergify-revision-data: "@ + data + " -->"@;
            let good = data.len() >= 2 && data[0] == '{' && data.last() == '}'
                && outside::json_value(data, "/schema_version"@) == JsonValue::Number(1)
                && outside::json_value(data, "/entries"@) is Array;
            &&& good ==> marker_of(framed) == MarkerView::Data(data)
            &&& !good ==> marker_of(framed) is Corrupted
        }),
{
    reveal_strlit("<!-- mergify-revision-data: ");
    reveal_strlit(" -->");
    let head = "<!-- mergify-revision-data: "@;
    let foot = " -->"@;
    let framed = head + data + foot;
    assert(framed.subrange(0, head.len() as int) =~= head);
    assert(framed.skip(head.len() as int) =~= data + foot);
    let rest = data + foot;
    assert(rest.subrange(rest.len() - foot.len(), rest.len() as int) =~= foot);
    assert(rest.take(rest.len() - foot.len()) =~= data);
}

/// The web address of a server is that of its API without the slashes at its
/// end: without the path of the API where it has one.
pub proof fn law_web_address_reads(server: Seq<char>)
    ensures
        ({
            let api = text::trim_end_char(server, '/');
            &&& text::contains_text(api, "/api/v3"@) ==> html_base(server) == text::replace_all(
                api,
                "/api/v3"@,
                seq![],
            )
            &&& !text::contains_text(api, "/api/v3"@) ==> html_base(server) == text::replace_all(
                api,
                "api.github.com"@,
                "github.com"@,
            )
        }),
{
    reveal_strlit("");
    assert(""@ =~= seq![]);
}

/// A first history has the old head as its first revision and the new one as its
/// second.
pub proof fn law_first_history_has_two_revisions(
    server: &str,
    user: &str,
    repo: &str,
    old_sha: &str,
    new_sha: &str,
    change_type: ChangeType,
    timestamp: Timestamp,
    reason: &str,
    replay_sha: Option<&str>,
    r: RevisionHistoryComment,
)
    requires
        call_ensures(
            RevisionHistoryComment::create_initial,
            (
                server,
                user,
                repo,
                old_sha,
                new_sha,
                change_type,
                timestamp,
                reason,
                replay_sha,
            ),
            r,
        ),
    ensures
        r@.github_server == server@,
        r@.user == user@,
        r@.repo == repo@,
        r@.entries.len() == 2,
        r@.entries[0].number == 1,
        r@.entries[0].change_type == ChangeType::Initial,
        r@.entries[0].old_sha is None,
        r@.entries[0].new_sha == old_sha@,
        r@.entries[0].reason.len() == 0,
        r@.entries[0].replay_sha is None,
        r@.entries[1].number == 2,
        r@.entries[1].change_type == change_type,
        r@.entries[1].old_sha == Some(old_sha@),
        r@.entries[1].new_sha == new_sha@,
        r@.entries[1].timestamp == Some(timestamp@),
        r@.entries[1].reason == reason@,
        replay_sha is None ==> r@.entries[1].replay_sha is None,
        replay_sha is Some ==> r@.entries[1].replay_sha == Some(replay_sha->0@),
{
}

/// The comment of a history is told by its heading.
pub proof fn law_history_has_its_heading(body: &str, r: bool)
    requires
        call_ensures(RevisionHistoryComment::is_revision_comment, (body,), r),
    ensures
        r <==> "### Revision history\n"@.is_prefix_of(body@),
{
}

/// A revision is added at the end, with the next number.
pub proof fn law_added_revision_is_the_last()
    ensures
        forall|
            h: &mut RevisionHistoryComment,
            old_sha: &str,
            new_sha: &str,
            change_type: ChangeType,
            timestamp: Timestamp,
            reason: &str,
            replay_sha: Option<&str>,
        | #[trigger]
            call_ensures(
                RevisionHistoryComment::append,
                (h, old_sha, new_sha, change_type, timestamp, reason, replay_sha),
                (),
            ) ==> {
                let e = final(h)@.entries.last();
                &&& final(h)@.entries.drop_last() == (*h)@.entries
                &&& final(h)@.entries.len() == (*h)@.entries.len() + 1
                &&& (*h)@.entries.len() < u32::MAX ==> e.number == (*h)@.entries.len() + 1
                &&& e.change_type == change_type
                &&& e.old_sha == Some(old_sha@)
                &&& e.new_sha == new_sha@
                &&& e.timestamp == Some(timestamp@)
                &&& e.reason == reason@
                &&& replay_sha is Some ==> e.replay_sha == Some(replay_sha->0@)
                &&& replay_sha is None ==> e.replay_sha is None
                &&& final(h)@.raw_rows == (*h)@.raw_rows
                &&& final(h)@.github_server == (*h)@.github_server
                &&& final(h)@.user == (*h)@.user
                &&& final(h)@.repo == (*h)@.repo
            },
{
    assert forall|
        h: &mut RevisionHistoryComment,
        old_sha: &str,
        new_sha: &str,
        change_type: ChangeType,
        timestamp: Timestamp,
        reason: &str,
        replay_sha: Option<&str>,
    | #[trigger]
        call_ensures(
            RevisionHistoryComment::append,
            (h, old_sha, new_sha, change_type, timestamp, reason, replay_sha),
            (),
        ) implies {
        let e = final(h)@.entries.last();
        &&& final(h)@.entries.drop_last() == (*h)@.entries
        &&& final(h)@.entries.len() == (*h)@.entries.len() + 1
        &&& (*h)@.entries.len() < u32::MAX ==> e.number == (*h)@.entries.len() + 1
        &&& e.change_type == change_type
        &&& e.old_sha == Some(old_sha@)
        &&& e.new_sha == new_sha@
        &&& e.timestamp == Some(timestamp@)
        &&& e.reason == reason@
        &&& replay_sha is Some ==> e.replay_sha == Some(replay_sha->0@)
        &&& replay_sha is None ==> e.replay_sha is None
        &&& final(h)@.raw_rows == (*h)@.raw_rows
        &&& final(h)@.github_server == (*h)@.github_server
        &&& final(h)@.user == (*h)@.user
        &&& final(h)@.repo == (*h)@.repo
    } by {
        assert(final(h)@.entries.drop_last() =~= (*h)@.entries);
    }
}

} // verus!
