use mergify_stack::change_type::{
    ChangeType, detect_change_type, fetch_failure, fetch_old_pr_heads, git_patch_id,
};
use mergify_stack::error::CliError;
use mergify_stack::json::quote_json;

#[test]
fn wire_form_round_trips() {
    for ct in [
        ChangeType::Initial,
        ChangeType::Rebase,
        ChangeType::Content,
        ChangeType::Unknown,
    ] {
        assert_eq!(ChangeType::from_str_lossy(ct.as_str()), ct);
    }
    // Anything unknown coerces to Unknown.
    assert_eq!(ChangeType::from_str_lossy("garbage"), ChangeType::Unknown);
    assert_eq!(ChangeType::from_str_lossy(""), ChangeType::Unknown);
}

#[test]
fn serde_uses_lowercase_strings() {
    assert_eq!(quote_json(ChangeType::Rebase.as_str()), "\"rebase\"");
    assert_eq!(ChangeType::from_str_lossy("content"), ChangeType::Content);
}

#[test]
fn detect_rebase_when_diff_unchanged() {
    // Two commits with the same diff: git gives them the same patch id, each
    // followed by the commit.
    let old = git_patch_id(
        true,
        Ok("53bd16c0ed5aee1d0cc3b3ce6b8e6d6ad7a1b2c3 1111111111111111111111111111111111111111\n".to_string()),
        "",
        "1111111111111111111111111111111111111111",
    );
    let new = git_patch_id(
        true,
        Ok("53bd16c0ed5aee1d0cc3b3ce6b8e6d6ad7a1b2c3 2222222222222222222222222222222222222222\n".to_string()),
        "",
        "2222222222222222222222222222222222222222",
    );
    assert_eq!(detect_change_type(&old, &new), ChangeType::Rebase);
}

#[test]
fn detect_content_when_diff_differs() {
    let old = git_patch_id(true, Ok("aaaa 1111\n".to_string()), "", "1111");
    let new = git_patch_id(true, Ok("bbbb 2222\n".to_string()), "", "2222");
    assert_eq!(detect_change_type(&old, &new), ChangeType::Content);
}

#[test]
fn detect_unknown_when_sha_missing() {
    let old = git_patch_id(false, Ok("".to_string()), "fatal: bad object deadbeef", "deadbeef");
    let new = git_patch_id(false, Ok("".to_string()), "fatal: bad object cafef00d", "cafef00d");
    assert!(old.is_err() && new.is_err());
    assert_eq!(detect_change_type(&old, &new), ChangeType::Unknown);
}

#[test]
fn one_known_patch_id_is_not_enough() {
    let known: Result<String, CliError> = Ok("aaaa".to_string());
    let missing: Result<String, CliError> = Err(CliError::Generic("gone".to_string()));
    assert_eq!(detect_change_type(&known, &missing), ChangeType::Unknown);
    assert_eq!(detect_change_type(&missing, &known), ChangeType::Unknown);
}

#[test]
fn fetch_old_pr_heads_empty_is_noop() {
    assert_eq!(fetch_old_pr_heads("origin", &vec![]), None);
}

#[test]
fn fetch_old_pr_heads_names_every_pull_request() {
    let args = fetch_old_pr_heads("origin", &vec![7, 12]).unwrap();
    assert_eq!(args[0], "fetch");
    assert!(args.iter().any(|a| a == "origin"), "{args:?}");
    assert!(args.iter().any(|a| a.contains("pull/7/head")), "{args:?}");
    assert!(args.iter().any(|a| a.contains("pull/12/head")), "{args:?}");
    assert_eq!(
        fetch_failure(&args, "exit status: 128"),
        CliError::Generic(
            "`git fetch origin refs/pull/7/head refs/pull/12/head` exited exit status: 128"
                .to_string()
        )
    );
}

#[test]
fn a_patch_id_is_the_first_word_of_the_output() {
    let ok = |s: &str| Ok(s.to_string());
    assert_eq!(git_patch_id(true, ok("  p1 c1\n"), "", "c1"), Ok("p1".to_string()));
    let error = |s: &str| Err(CliError::Generic(s.to_string()));
    assert_eq!(
        git_patch_id(true, ok(" \n"), "", "c1"),
        error("`git patch-id` printed no patch-id for c1")
    );
    assert_eq!(
        git_patch_id(false, ok(""), "", "c1"),
        error("`git patch-id` failed for c1")
    );
    assert_eq!(
        git_patch_id(true, Err("bad byte".to_string()), "", "c1"),
        error("`git patch-id` output is not UTF-8: bad byte")
    );
}
