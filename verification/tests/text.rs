use mergify_stack::change_id::extract_from_message;
use mergify_stack::json::{EntryKey, pointer_of, quote_json, quote_json_opt};
use mergify_stack::text::{cut_to, first_chars_of, is_white_space, lines_of, trimmed};
use mergify_stack::timestamp::{TIMESTAMP_HUMAN_FMT, TIMESTAMP_ISO_FMT, Timestamp};

fn all_chars() -> Vec<char> {
    (0..=0x0010_ffffu32).filter_map(char::from_u32).collect()
}

#[test]
fn white_space_is_that_of_the_standard_library() {
    for c in all_chars() {
        assert_eq!(is_white_space(c), c.is_whitespace(), "{c:?}");
    }
}

#[test]
fn trimming_is_that_of_the_standard_library() {
    for s in ["", "  ", " a b\t\n", "\u{3000}x\u{85}", "\u{a0}", "é "] {
        assert_eq!(trimmed(s), s.trim());
    }
}

#[test]
fn lines_are_those_of_the_standard_library() {
    for s in ["", "\n", "a", "a\n", "a\nb", "a\r\nb\r\n", "\r\n\n", "a\rb\n", "x\r"] {
        let expected: Vec<&str> = s.lines().collect();
        assert_eq!(lines_of(s), expected, "{s:?}");
    }
}

#[test]
fn text_is_cut_at_bytes_or_characters() {
    assert_eq!(cut_to("abcdef", 3), "abc");
    assert_eq!(cut_to("ab", 3), "ab");
    assert_eq!(first_chars_of("éàü", 2), "éà");
}

#[test]
fn json_strings_are_those_of_serde() {
    for s in ["", "plain", "q\"b\\s/", "\n\r\t\u{8}\u{c}\u{0}\u{1f}\u{7f}", "é日🎉\u{2028}"] {
        assert_eq!(quote_json(s), serde_json::to_string(s).unwrap());
    }
    for c in all_chars().into_iter().filter(|c| (*c as u32) < 0x3000) {
        let s = c.to_string();
        assert_eq!(quote_json(&s), serde_json::to_string(&s).unwrap());
    }
    assert_eq!(
        quote_json("a\"\\/\u{8}\t\n\u{c}\r\u{0}\u{1f}\u{7f}é"),
        "\"a\\\"\\\\/\\b\\t\\n\\f\\r\\u0000\\u001f\u{7f}é\""
    );
    for n in 0..0x20u32 {
        let c = char::from_u32(n).unwrap();
        let expected = match n {
            8 => "\"\\b\"".to_string(),
            9 => "\"\\t\"".to_string(),
            10 => "\"\\n\"".to_string(),
            12 => "\"\\f\"".to_string(),
            13 => "\"\\r\"".to_string(),
            _ => format!("\"\\u{n:04x}\""),
        };
        assert_eq!(quote_json(&c.to_string()), expected);
    }
    assert_eq!(quote_json_opt(None), "null");
    assert_eq!(quote_json_opt(Some("a")), "\"a\"");
}

#[test]
fn pointers_lead_into_the_entries() {
    let value: serde_json::Value =
        serde_json::from_str("{\"entries\":[{},{\"old_sha\":\"x\"}]}").unwrap();
    let pointer = pointer_of(1, EntryKey::OldSha);
    assert_eq!(pointer, "/entries/1/old_sha");
    assert_eq!(
        value.pointer(&pointer),
        Some(&serde_json::Value::String("x".to_string()))
    );
}

#[test]
fn times_are_those_of_chrono() {
    for secs in [0i64, 1_780_576_200, 951_782_400, -1, 253_402_300_799] {
        let t = Timestamp::new(secs, 0).unwrap();
        let c = chrono::DateTime::from_timestamp(secs, 0).unwrap();
        assert_eq!(t.human(), c.format(TIMESTAMP_HUMAN_FMT).to_string());
        assert_eq!(t.iso(), c.format(TIMESTAMP_ISO_FMT).to_string());
        assert_eq!(Timestamp::parse_iso(&t.iso()), Some(t));
    }
    let t = Timestamp::new(1_780_576_200, 0).unwrap();
    assert_eq!(t.human(), "2026-06-04 12:30 UTC");
    assert_eq!(t.iso(), "2026-06-04T12:30:00Z");
    assert_eq!(Timestamp::parse_human("2026-06-04 12:30 UTC"), Some(t));
    assert_eq!(Timestamp::parse_iso("yesterday"), None);
    assert_eq!(Timestamp::parse_human("2026-06-04"), None);
    assert_eq!(Timestamp::new(i64::MAX, 0), None);
}

#[test]
fn a_trailer_id_ends_where_its_digits_end() {
    let id = "I0123456789abcdef0123456789abcdef01234567";
    let message = format!("s\n\nChange-Id: {id}\nSigned-off-by: me\n");
    assert_eq!(extract_from_message(&message), Some(id));
}
