use mergify_stack::error::CliError;
use mergify_stack::replay::{
    TreeEntry, compute_merged_tree, compute_tree_delta, diff_tree_args, merge_tree_args,
    mode_to_type, replay_for_revision, replay_message, upload_replay_commit,
};

const NONE: &str = "0000000000000000000000000000000000000000";
const ONE: &str = "1111111111111111111111111111111111111111";
const TWO: &str = "2222222222222222222222222222222222222222";

fn record(old_mode: &str, new_mode: &str, old: &str, new: &str, status: &str, path: &[u8]) -> Vec<u8> {
    let mut out = format!(":{old_mode} {new_mode} {old} {new} {status}\0").into_bytes();
    out.extend_from_slice(path);
    out.push(0);
    out
}

fn one_entry() -> Vec<TreeEntry> {
    vec![TreeEntry {
        path: "src/a.py".into(),
        mode: "100644".into(),
        type_: "blob".into(),
        sha: Some("bbb2222".into()),
    }]
}

#[test]
fn mode_to_type_maps_known_modes() {
    assert_eq!(mode_to_type("160000"), "commit");
    assert_eq!(mode_to_type("040000"), "tree");
    assert_eq!(mode_to_type("100644"), "blob");
    assert_eq!(mode_to_type("100755"), "blob");
    assert_eq!(mode_to_type(""), "blob");
    assert_eq!(mode_to_type("garbage"), "blob");
}

#[test]
fn compute_tree_delta_parses_modifications_and_deletions() {
    let mut out = record("000000", "100644", NONE, ONE, "A", b"added.txt");
    out.extend(record("100644", "000000", ONE, NONE, "D", b"deleted.txt"));
    out.extend(record("100644", "100644", ONE, TWO, "M", b"modified.txt"));
    out.extend(record("100644", "100755", ONE, ONE, "T", b"type-change.txt"));
    let entries = compute_tree_delta(&out).unwrap();
    assert_eq!(entries.len(), 4);

    let a = &entries[0];
    assert_eq!(a.path, "added.txt");
    assert_eq!(a.mode, "100644");
    assert!(a.sha.is_some());

    let d = &entries[1];
    assert_eq!(d.path, "deleted.txt");
    assert_eq!(d.type_, "blob");
    assert_eq!(d.mode, "100644");
    assert!(d.sha.is_none(), "deletions get null sha");

    let m = &entries[2];
    assert_eq!(m.path, "modified.txt");
    assert_eq!(m.type_, "blob");
    assert_eq!(m.mode, "100644");
    assert_eq!(m.sha.as_deref(), Some(TWO));

    let t = &entries[3];
    assert_eq!(t.path, "type-change.txt");
    assert_eq!(t.mode, "100755", "type change exposes the new mode");
}

#[test]
fn compute_tree_delta_preserves_paths_git_would_quote() {
    let awkward = ["caché.txt", "quote\"and\\slash.txt", "ends in a space "];
    let mut out = Vec::new();
    for name in awkward {
        out.extend(record("000000", "100644", NONE, ONE, "A", name.as_bytes()));
    }
    let paths: Vec<String> = compute_tree_delta(&out)
        .unwrap()
        .into_iter()
        .map(|e| e.path)
        .collect();
    assert_eq!(paths, awkward);
}

#[test]
fn compute_tree_delta_errors_on_non_utf8_path() {
    let out = record("000000", "100644", NONE, ONE, "A", b"latin1-\xe9.txt");
    let err = compute_tree_delta(&out).unwrap_err();
    let msg = err.message();
    assert!(msg.contains("not valid UTF-8"), "{msg}");
    assert!(msg.contains(".txt"), "the offending entry is named: {msg}");
    assert!(
        msg.contains(&String::from_utf8_lossy(b"latin1-\xe9.txt").escape_debug().to_string()),
        "{msg}"
    );
}

#[test]
fn compute_tree_delta_empty_when_no_diff() {
    assert!(compute_tree_delta(b"").unwrap().is_empty());
}

#[test]
fn compute_merged_tree_isolates_the_amendment_when_base_unchanged() {
    assert_eq!(
        merge_tree_args("parent_old", "parent_new", "new"),
        vec![
            "merge-tree",
            "--write-tree",
            "--merge-base=parent_new",
            "parent_old",
            "new"
        ]
    );
    let merged =
        compute_merged_tree(Some("base".to_string()), Some("tree_sha\nmore\n".to_string()))
            .expect("clean merge");
    assert_eq!(merged.parent_old_sha, "base");
    assert_eq!(merged.tree_sha, "tree_sha");
    assert_eq!(
        diff_tree_args("base_tree", "tree_sha"),
        vec![
            "diff-tree",
            "-r",
            "--raw",
            "-z",
            "--no-renames",
            "base_tree",
            "tree_sha"
        ]
    );
}

#[test]
fn compute_merged_tree_returns_none_on_missing_parent() {
    assert!(compute_merged_tree(None, None).is_none());
    assert!(compute_merged_tree(None, Some("tree".to_string())).is_none());
}

#[test]
fn compute_merged_tree_returns_none_on_conflict() {
    assert!(compute_merged_tree(Some("parent".to_string()), None).is_none());
    assert!(compute_merged_tree(Some("parent".to_string()), Some(String::new())).is_none());
}

#[test]
fn upload_replay_commit_chains_tree_then_commit() {
    let tree = replay_for_revision(
        "o",
        "r",
        "parent_old_tree_sha".to_string(),
        Ok(one_entry()),
    )
    .unwrap();
    assert_eq!(tree.path, "/repos/o/r/git/trees");
    assert_eq!(tree.base_tree, "parent_old_tree_sha");
    assert_eq!(tree.tree, one_entry());
    let commit = upload_replay_commit(
        "o",
        "r",
        "abc1234deadbeef",
        "def5678cafef00d",
        Some("server_tree".to_string()),
    )
    .unwrap();
    assert_eq!(commit.path, "/repos/o/r/git/commits");
    assert_eq!(commit.tree, "server_tree");
    assert_eq!(commit.parents, vec!["abc1234deadbeef"]);
    assert_eq!(commit.message, "mergify-cli: replay def5678 on abc1234");
    assert_eq!(
        replay_message("def5678cafef00d", "abc"),
        "mergify-cli: replay def5678 on abc"
    );
}

#[test]
fn upload_replay_commit_returns_none_when_tree_post_fails() {
    assert!(upload_replay_commit("o", "r", "old", "new", None).is_none());
}

#[test]
fn replay_for_revision_returns_none_when_diff_is_empty() {
    let base = "base".to_string();
    assert!(replay_for_revision("o", "r", base.clone(), Ok(vec![])).is_none());
    assert!(
        replay_for_revision("o", "r", base, Err(CliError::Generic("x".to_string()))).is_none()
    );
}
