//! The grammars of the library, beside the regular expressions that describe
//! them.
use mergify_stack::change_id::{
    extract_from_branch_segment, extract_from_message, is_full, is_prefix,
};
use mergify_stack::push_helpers::format_pull_description;
use mergify_stack::revision_history::RevisionHistoryComment;
use mergify_stack::timestamp::Timestamp;
use regex::Regex;

/// All texts of up to `len` of some pieces.
fn texts(pieces: &[&str], len: usize) -> Vec<String> {
    let mut all = vec![String::new()];
    let mut last = all.clone();
    for _ in 0..len {
        let mut next = Vec::new();
        for t in &last {
            for p in pieces {
                next.push(format!("{t}{p}"));
            }
        }
        all.extend(next.iter().cloned());
        last = next;
    }
    all
}

#[test]
fn rows_are_those_of_the_patterns() {
    let five = Regex::new(r"^\| (\d+) \| (\w+) \| .+ \| (.*) \| (.+) \|$").unwrap();
    let four = Regex::new(r"^\| (\d+) \| (\w+) \| .+ \| (.+) \|$").unwrap();
    let date = "2026-06-04 12:30 UTC";
    let read = |line: &str| -> Option<Option<Timestamp>> {
        let (caps, group) = match five.captures(line) {
            Some(caps) => (caps, 4),
            None => (four.captures(line)?, 3),
        };
        caps[1].parse::<u32>().ok()?;
        Some(Timestamp::parse_human(caps[group].trim()))
    };
    let mut rows = 0;
    let mut dates = 0;
    for tail in texts(&["|", " ", " | ", "x", date], 6) {
        for head in ["| 1 | content |", "| 1 | content"] {
            let line = format!("{head}{tail}");
            let body = format!("### Revision history\n{line}\n");
            let parsed = RevisionHistoryComment::parse(&body, "s", "o", "r");
            let expected = read(&line);
            assert_eq!(parsed.is_some(), expected.is_some(), "{line:?}");
            if let (Some(h), Some(time)) = (parsed, expected) {
                rows += 1;
                dates += usize::from(time.is_some());
                assert_eq!(h.entries.len(), 1);
                assert_eq!(h.entries[0].timestamp, time, "{line:?}");
                assert_eq!(h.entries[0].number, 1);
            }
        }
    }
    assert!(rows > 100 && dates > 10, "{rows} {dates}");
    for number in ["0", "007", "4294967295", "4294967296", "٣", "1٣", "x", "", "-1", "+1"] {
        for kind in ["content", "a_1", "é", "a b", "", "a-b", "日本"] {
            let line = format!("| {number} | {kind} | c | {date} |");
            let body = format!("### Revision history\n{line}\n");
            let parsed = RevisionHistoryComment::parse(&body, "s", "o", "r");
            assert_eq!(parsed.is_some(), read(&line).is_some(), "{line:?}");
        }
    }
}

#[test]
fn markers_are_those_of_the_pattern() {
    let marker =
        Regex::new(r"^<!-- mergify\-revision\-data: (?P<payload>\{.*\}) \-\->$").unwrap();
    let row = "| 1 | content | c | 2026-06-04 12:30 UTC |";
    let start = "<!-- mergify-revision-data: ";
    let good = "{\"schema_version\":1,\"entries\":[]}";
    for line in texts(&[start, good, "{", "}", " -->", " "], 4) {
        let body = format!("### Revision history\n{row}\n{line}\n");
        let parsed = RevisionHistoryComment::parse(&body, "s", "o", "r");
        let corrupt = match marker.captures(&line) {
            Some(caps) => match serde_json::from_str::<serde_json::Value>(&caps["payload"]) {
                Ok(v) => {
                    v.get("schema_version").and_then(serde_json::Value::as_u64) != Some(1)
                        || !v.get("entries").is_some_and(serde_json::Value::is_array)
                }
                Err(_) => true,
            },
            None => line.starts_with(start),
        };
        assert_eq!(parsed.is_none(), corrupt, "{line:?}");
    }
}

#[test]
fn trailers_are_those_of_the_pattern() {
    let trailer = Regex::new(r"Change-Id: (I[0-9a-z]{40})").unwrap();
    let full = Regex::new(r"^I[0-9a-f]{40}$").unwrap();
    let short = Regex::new(r"--([0-9a-f]{8})$").unwrap();
    let forty = "0123456789abcdef0123456789abcdef01234567";
    let thirty_nine = "z23456789abcdef0123456789abcdef01234567";
    for t in texts(&["Change-Id: ", "I", forty, thirty_nine, "\n"], 5) {
        let expected = trailer
            .captures_iter(&t)
            .last()
            .map(|c| c.get(1).unwrap().as_str());
        assert_eq!(extract_from_message(&t), expected, "{t:?}");
        assert_eq!(is_full(&t), full.is_match(&t), "{t:?}");
    }
    for t in texts(&["-", "--", "abcd1234", "abcd123", "I", "G", "\n"], 4) {
        let expected = short.captures(&t).map(|c| c.get(1).unwrap().as_str());
        assert_eq!(extract_from_branch_segment(&t), expected, "{t:?}");
        let prefix = Regex::new(r"^I[0-9a-f]+$").unwrap();
        assert_eq!(is_prefix(&t), prefix.is_match(&t), "{t:?}");
    }
}

#[test]
fn headers_are_those_of_the_patterns() {
    let depends_on = Regex::new(r"Depends-On: \(#[0-9]*\)|Depends-On: #[0-9]*").unwrap();
    let change_id = Regex::new(r"Change-Id: I[0-9a-z]{40}").unwrap();
    let id = "Change-Id: I0123456789abcdef0123456789abcdef01234567";
    for t in texts(&["Depends-On: ", "(#", "#", "12", ")", id, "\n"], 5) {
        let mut expected = change_id.replace_all(&t, "").into_owned();
        expected.truncate(expected.trim_end_matches('\n').len());
        expected = depends_on.replace_all(&expected, "").into_owned();
        expected.truncate(expected.trim_end_matches('\n').len());
        assert_eq!(format_pull_description(&t, None), expected, "{t:?}");
        assert_eq!(
            format_pull_description(&t, Some(7)),
            expected + "\n\nDepends-On: #7",
            "{t:?}"
        );
    }
}
