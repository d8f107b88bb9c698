use mergify_stack::error::CliError;
use mergify_stack::git::{
    compute_base_commit_sha, git_failure, git_output, git_silent, git_text, needs_merge_base, notes_rewrite_config,
    rebase_args, rebase_outcome, shell_quote,
};

fn args(v: &[&str]) -> Vec<String> {
    v.iter().map(|s| s.to_string()).collect()
}

#[test]
fn run_git_capture_returns_trimmed_stdout() {
    let out = git_output(
        &args(&["rev-parse", "HEAD"]),
        true,
        b"0123456789abcdef0123456789abcdef01234567\n",
        b"",
    )
    .unwrap();
    assert_eq!(out.len(), 40, "SHA1 hex without trailing newline");
}

#[test]
fn run_git_capture_surfaces_stderr_on_failure() {
    let err = git_output(
        &args(&["rev-parse", "--verify", "no-such-ref"]),
        false,
        b"",
        b"fatal: Needed a single revision\n",
    )
    .unwrap_err();
    let CliError::Generic(msg) = err else {
        panic!("expected Generic");
    };
    assert!(msg.contains("fatal"), "stderr passed through: {msg}");
}

#[test]
fn a_silent_failure_names_the_call() {
    assert_eq!(
        git_failure(&args(&["fetch", "origin"]), " \n"),
        CliError::Generic("`git fetch origin` failed".to_string())
    );
}

#[test]
fn rebase_failure_without_conflict_is_generic_not_conflict() {
    let err = rebase_outcome(false, false, "fatal: invalid upstream 'no-such-base'\n").unwrap_err();
    match err {
        CliError::Generic(msg) => {
            assert!(msg.contains("rebase failed"), "got: {msg}");
        }
        other => panic!("expected Generic, got: {other:?}"),
    }
}

#[test]
fn rebase_that_stopped_is_a_conflict() {
    assert!(matches!(
        rebase_outcome(false, true, "CONFLICT (content)\n"),
        Err(CliError::Conflict(_))
    ));
    assert_eq!(rebase_outcome(true, false, ""), Ok(()));
}

#[test]
fn a_rebase_carries_the_notes_along() {
    let config = notes_rewrite_config();
    let rebase = rebase_args("main", true);
    assert_eq!(rebase[..config.len()], config[..]);
    assert!(rebase.iter().any(|a| a == "--reapply-cherry-picks"));
    assert!(!rebase_args("main", false).iter().any(|a| a == "--reapply-cherry-picks"));
    assert_eq!(rebase.last().unwrap(), "main");
    assert!(config.iter().any(|a| a == "notes.rewriteRef=refs/notes/mergify/stack"));
}

#[test]
fn shell_quote_escapes_embedded_single_quotes() {
    assert_eq!(shell_quote("simple"), "'simple'");
    assert_eq!(shell_quote("with 'quote'"), r"'with '\''quote'\'''");
    // Empty input still produces a valid empty-quoted token.
    assert_eq!(shell_quote(""), "''");
}

#[test]
fn the_fork_point_is_the_base_where_git_knows_it() {
    let known: Result<String, CliError> = Ok("abc".to_string());
    assert!(!needs_merge_base(&known));
    assert_eq!(
        compute_base_commit_sha(known, Ok(String::new()), "origin/main", "topic"),
        Ok("abc".to_string())
    );
    let missing: Result<String, CliError> = Err(CliError::Generic("no".to_string()));
    assert!(needs_merge_base(&missing));
    assert_eq!(
        compute_base_commit_sha(missing, Ok("def".to_string()), "origin/main", "topic"),
        Ok("def".to_string())
    );
    assert!(matches!(
        compute_base_commit_sha(Ok(String::new()), Ok(String::new()), "origin/main", "topic"),
        Err(CliError::StackNotFound(_))
    ));
}

#[test]
fn output_that_is_not_text_is_an_error() {
    let call = args(&["show", "x"]);
    let bad = b"caf\xe9\n";
    let why = String::from_utf8(bad.to_vec()).unwrap_err().to_string();
    let expected = Err(CliError::Generic(format!(
        "`git show x` output is not UTF-8: {why}"
    )));
    assert_eq!(git_output(&call, true, bad, b""), expected);
    assert_eq!(git_text(&call, true, Err(why), ""), expected);
    // What git complains about is shown as far as it is text.
    assert_eq!(
        git_silent(&call, false, bad),
        Err(CliError::Generic("caf\u{fffd}".to_string()))
    );
    assert_eq!(git_silent(&call, true, bad), Ok(()));
}
