use mergify_stack::commands::setup::{
    FileState, HookAction, HookFiles, NOTES_DISPLAY_REF, WrapperStatus, ensure_notes_display_ref,
    ensure_notes_rewrite_ref, hook_names, install, setting_args, status,
};

fn fresh() -> Vec<HookFiles> {
    hook_names()
        .into_iter()
        .map(|name| HookFiles {
            hook_name: name.to_string(),
            wrapper_path: format!(".git/hooks/{name}"),
            script_path: format!(".git/hooks/mergify-hooks/{name}.sh"),
            wrapper: FileState::Absent,
            script: FileState::Absent,
            new_script: format!("#!/bin/sh\n# {name}\n"),
        })
        .collect()
}

/// The files after an installation.
fn after(mut hooks: Vec<HookFiles>, force: bool) -> Vec<HookFiles> {
    let todo = install(&hooks, force);
    for (h, t) in hooks.iter_mut().zip(todo) {
        if t.write_script {
            h.script = FileState::Content(h.new_script.clone());
        }
        if t.write_wrapper {
            h.wrapper = FileState::Content(format!(
                "#!/bin/sh\n. \"$(dirname \"$0\")/mergify-hooks/{}.sh\"\n",
                h.hook_name
            ));
        }
    }
    hooks
}

fn with_commit_msg(content: &str) -> Vec<HookFiles> {
    let mut hooks = fresh();
    hooks[0].wrapper = FileState::Content(content.to_string());
    hooks
}

#[test]
fn status_reports_all_missing_in_fresh_repo() {
    let s = status(&fresh());
    assert_eq!(s.git_hooks.len(), hook_names().len());
    for h in &s.git_hooks {
        assert_eq!(h.wrapper_status, WrapperStatus::Missing);
        assert!(!h.script_installed);
    }
}

#[test]
fn install_writes_wrappers_and_scripts() {
    let logs = install(&fresh(), false);
    assert_eq!(logs.len(), hook_names().len());
    assert!(ensure_notes_display_ref("").is_some());
    let s = status(&after(fresh(), false));
    for h in &s.git_hooks {
        assert_eq!(h.wrapper_status, WrapperStatus::Installed);
        assert!(h.script_installed);
        assert!(!h.script_needs_update);
    }
}

#[test]
fn install_is_idempotent() {
    let installed = after(fresh(), false);
    assert!(ensure_notes_display_ref("refs/notes/mergify/*\n").is_none());
    for log in install(&installed, false) {
        assert!(!log.write_script && !log.write_wrapper);
        assert_eq!(
            log.actions,
            vec![
                HookAction::ScriptUpToDate,
                HookAction::WrapperAlreadyInstalled
            ]
        );
    }
}

#[test]
fn legacy_wrapper_needs_force() {
    let hooks =
        with_commit_msg("#!/bin/sh\n# legacy\nrandom=$(date +%s)\necho \"Change-Id: I${random}\"\n");
    assert_eq!(hooks[0].hook_name, "commit-msg");
    let commit_msg = &install(&hooks, false)[0];
    assert!(
        commit_msg
            .actions
            .iter()
            .any(|a| matches!(a, HookAction::WrapperLegacyNeedsForce))
    );
    assert!(!commit_msg.write_wrapper);
    let commit_msg = &install(&hooks, true)[0];
    assert!(
        commit_msg
            .actions
            .iter()
            .any(|a| matches!(a, HookAction::WrapperMigrated))
    );
    assert!(commit_msg.write_wrapper);
}

#[test]
fn user_wrapper_is_left_alone() {
    let user_content = "#!/bin/sh\necho 'my custom hook'\n";
    for force in [false, true] {
        let hooks = after(with_commit_msg(user_content), force);
        assert_eq!(
            hooks[0].wrapper,
            FileState::Content(user_content.to_string())
        );
    }
}

#[test]
fn install_adds_notes_display_ref() {
    assert_eq!(
        setting_args("notes.displayRef"),
        vec!["config", "--local", "--get-all", "notes.displayRef"]
    );
    let args = ensure_notes_display_ref("refs/notes/other\n").unwrap();
    assert_eq!(NOTES_DISPLAY_REF, "refs/notes/mergify/*");
    assert_eq!(args.last().unwrap(), NOTES_DISPLAY_REF);
}

#[test]
fn install_adds_notes_rewrite_ref_once() {
    let args = ensure_notes_rewrite_ref("").unwrap();
    assert_eq!(args.last().unwrap(), "refs/notes/mergify/stack");
    assert!(ensure_notes_rewrite_ref("refs/notes/mergify/stack\n").is_none());
}

#[test]
fn a_changed_script_is_updated() {
    let mut hooks = after(fresh(), false);
    hooks[1].new_script = "#!/bin/sh\n# newer\n".to_string();
    let log = &install(&hooks, false)[1];
    assert_eq!(log.actions[0], HookAction::ScriptUpdated);
    assert!(log.write_script && !log.write_wrapper);
    assert!(status(&hooks).git_hooks[1].script_needs_update);
}

#[test]
fn a_fresh_installation_is_complete() {
    let s = status(&after(fresh(), false));
    let names: Vec<&str> = s.git_hooks.iter().map(|h| h.hook_name.as_str()).collect();
    assert_eq!(
        names,
        ["commit-msg", "post-commit", "pre-push", "prepare-commit-msg"]
    );
    for h in status(&fresh()).git_hooks {
        assert!(!h.script_installed && h.script_needs_update);
    }
}
