use mergify_stack::change_id::{
    extract_from_branch_segment, extract_from_message, is_full, is_prefix, strip_branch_suffix,
};

#[test]
fn is_full_accepts_well_formed_id() {
    let id = "I0123456789abcdef0123456789abcdef01234567";
    assert!(is_full(id));
}

#[test]
fn is_full_rejects_uppercase_hex_and_wrong_length_and_wrong_prefix() {
    // Hex chars must be lowercase.
    assert!(!is_full("I0123456789ABCDEF0123456789abcdef01234567"));
    // Off-by-one: 39 hex.
    assert!(!is_full("I0123456789abcdef0123456789abcdef0123456"));
    // Off-by-one: 41 hex.
    assert!(!is_full("I0123456789abcdef0123456789abcdef012345678"));
    // Missing leading I.
    assert!(!is_full("0123456789abcdef0123456789abcdef01234567"));
    // Empty.
    assert!(!is_full(""));
}

#[test]
fn is_prefix_accepts_partial_id_with_at_least_one_hex() {
    assert!(is_prefix("Ia"));
    assert!(is_prefix("I0"));
    assert!(is_prefix("Iabc123"));
}

#[test]
fn is_prefix_rejects_bare_i_and_non_hex_chars() {
    assert!(!is_prefix("I"));
    // Non-hex after the I.
    assert!(!is_prefix("Ig"));
    assert!(!is_prefix("Iaz"));
    // Empty.
    assert!(!is_prefix(""));
    // No leading I.
    assert!(!is_prefix("abc"));
}

#[test]
fn extract_from_message_returns_last_trailer_when_multiple() {
    let msg = "subject\n\nChange-Id: Iaaaaaaaaaaaaaaaaaaaaaaaaaaaaaaaaaaaaaaaa\nChange-Id: Ibbbbbbbbbbbbbbbbbbbbbbbbbbbbbbbbbbbbbbbb\n";
    assert_eq!(
        extract_from_message(msg),
        Some("Ibbbbbbbbbbbbbbbbbbbbbbbbbbbbbbbbbbbbbbbb"),
    );
}

#[test]
fn extract_from_message_returns_none_when_missing() {
    assert_eq!(extract_from_message("subject\n\nbody"), None);
}

#[test]
fn extract_from_message_uses_loose_pattern_so_callers_can_flag_typos() {
    let msg = "Change-Id: Igggggggggggggggggggggggggggggggggggggggg";
    let extracted = extract_from_message(msg).expect("loose match");
    assert!(!is_full(extracted));
}

#[test]
fn extract_from_branch_segment_returns_full_id_for_old_style() {
    let id = "I0123456789abcdef0123456789abcdef01234567";
    assert_eq!(extract_from_branch_segment(id), Some(id));
}

#[test]
fn extract_from_branch_segment_returns_short_tail_for_new_style() {
    assert_eq!(
        extract_from_branch_segment("my-slug--abcd1234"),
        Some("abcd1234"),
    );
}

#[test]
fn extract_from_branch_segment_returns_none_for_unrelated_segments() {
    assert_eq!(extract_from_branch_segment(""), None);
    assert_eq!(extract_from_branch_segment("plain-segment"), None);
    // Has the right shape but wrong length on the short tail.
    assert_eq!(extract_from_branch_segment("slug--abcd123"), None);
    assert_eq!(extract_from_branch_segment("slug--abcd12345"), None);
}

#[test]
fn strip_branch_suffix_takes_off_a_segment_that_names_a_change() {
    assert_eq!(
        strip_branch_suffix("stack/me/topic/I0123456789abcdef0123456789abcdef01234567"),
        "stack/me/topic"
    );
    assert_eq!(
        strip_branch_suffix("stack/me/topic/feat-x--abcd1234"),
        "stack/me/topic"
    );
}

#[test]
fn strip_branch_suffix_leaves_other_names_alone() {
    assert_eq!(strip_branch_suffix("stack/me/topic"), "stack/me/topic");
    assert_eq!(strip_branch_suffix("feat-x--abcd1234"), "feat-x--abcd1234");
    assert_eq!(strip_branch_suffix(""), "");
    assert_eq!(strip_branch_suffix("a/x--ABCD1234"), "a/x--ABCD1234");
}

#[test]
fn a_full_id_is_a_prefix_and_the_stem_of_its_branch_is_the_stack() {
    let id = "I0123456789abcdef0123456789abcdef01234567";
    assert!(is_full(id) && is_prefix(id));
    assert_eq!(strip_branch_suffix(&format!("stack/{id}")), "stack");
}
