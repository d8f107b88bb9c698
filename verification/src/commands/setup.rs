//! `stack setup`: the git hooks that stacks depend on.
//!
//! Every hook is a managed script, which is always brought up to date, and a
//! wrapper that runs it. A wrapper belongs to the user: it is written where
//! there is none, and replaced only on request where it is one of an older
//! layout. A hook of the user's own is left alone.
use crate::local_commits::STACK_NOTES_REF;
use crate::text;
use vstd::prelude::*;

verus! {

/// The notes that `git log` shows.
pub const NOTES_DISPLAY_REF: &'static str = "refs/notes/mergify/*";

/// The names of the hooks.
pub open spec fn all_hooks() -> Seq<Seq<char>> {
    seq!["commit-msg"@, "post-commit"@, "pre-push"@, "prepare-commit-msg"@]
}

/// The names of the hooks.
pub fn hook_names() -> (r: Vec<&'static str>)
    ensures
        text::str_texts(r@) == all_hooks(),
{
    let mut v: Vec<&'static str> = Vec::new();
    v.push("commit-msg");
    v.push("post-commit");
    v.push("pre-push");
    v.push("prepare-commit-msg");
    proof {
        assert(text::str_texts(v@) =~= all_hooks());
    }
    v
}

/// What is known of a wrapper.
#[derive(Debug, Clone, Copy, PartialEq, Eq, Structural)]
pub enum WrapperStatus {
    /// There is none.
    Missing,
    /// It is one of an older layout.
    Legacy,
    /// It is there, be it ours or one of the user's own.
    Installed,
}

/// The state of a hook.
#[derive(Debug, Clone, PartialEq, Eq)]
pub struct HookStatus {
    pub hook_name: String,
    pub wrapper_status: WrapperStatus,
    pub script_installed: bool,
    pub script_needs_update: bool,
    pub wrapper_path: String,
    pub script_path: String,
}

/// The state of a hook as the contracts see it.
pub struct HookStatusView {
    pub hook_name: Seq<char>,
    pub wrapper_status: WrapperStatus,
    pub script_installed: bool,
    pub script_needs_update: bool,
    pub wrapper_path: Seq<char>,
    pub script_path: Seq<char>,
}

impl View for HookStatus {
    type V = HookStatusView;

    open spec fn view(&self) -> HookStatusView {
        HookStatusView {
            hook_name: self.hook_name@,
            wrapper_status: self.wrapper_status,
            script_installed: self.script_installed,
            script_needs_update: self.script_needs_update,
            wrapper_path: self.wrapper_path@,
            script_path: self.script_path@,
        }
    }
}

/// The state of all hooks.
#[derive(Debug, Clone, PartialEq, Eq)]
pub struct HooksStatus {
    pub git_hooks: Vec<HookStatus>,
}

/// What an installation did to a hook.
#[derive(Debug, Clone, Copy, PartialEq, Eq, Structural)]
pub enum HookAction {
    ScriptInstalled,
    ScriptUpdated,
    ScriptUpToDate,
    WrapperInstalled,
    WrapperMigrated,
    WrapperLegacyNeedsForce,
    WrapperAlreadyInstalled,
}

/// What an installation did to one hook.
#[derive(Debug, Clone, PartialEq, Eq)]
pub struct InstallLog {
    pub hook_name: String,
    pub actions: Vec<HookAction>,
}

/// What an installation did.
#[derive(Debug, Clone, PartialEq, Eq)]
pub struct InstallOutcome {
    pub logs: Vec<InstallLog>,
    pub notes_display_ref_added: bool,
    pub notes_rewrite_ref_added: bool,
}

/// What is at a path.
#[derive(Debug, Clone, PartialEq, Eq)]
pub enum FileState {
    Absent,
    /// Something that cannot be read as text.
    Unreadable,
    Content(String),
}

/// What is at a path, as the contracts see it.
pub enum FileView {
    Absent,
    Unreadable,
    Content(Seq<char>),
}

impl View for FileState {
    type V = FileView;

    open spec fn view(&self) -> FileView {
        match self {
            FileState::Absent => FileView::Absent,
            FileState::Unreadable => FileView::Unreadable,
            FileState::Content(s) => FileView::Content(s@),
        }
    }
}

/// A hook and what is there of it.
#[derive(Debug, Clone, PartialEq, Eq)]
pub struct HookFiles {
    pub hook_name: String,
    pub wrapper_path: String,
    pub script_path: String,
    pub wrapper: FileState,
    pub script: FileState,
    /// The managed script as it should be.
    pub new_script: String,
}

/// Whether a wrapper runs the managed script of a hook.
pub open spec fn runs_script(content: Seq<char>, hook: Seq<char>) -> bool {
    text::contains_text(content, "mergify-hooks"@) && text::contains_text(content, hook + ".sh"@)
}

/// Whether a wrapper is one of an older layout.
pub open spec fn is_legacy(content: Seq<char>, hook: Seq<char>) -> bool {
    ||| hook == "commit-msg"@ && text::contains_text(content, "Change-Id: I${random}"@)
    ||| hook == "prepare-commit-msg"@ && text::contains_text(content, "is_amend_with_m_flag"@)
}

/// What is known of a wrapper.
pub open spec fn status_of(wrapper: FileView, hook: Seq<char>) -> WrapperStatus {
    match wrapper {
        FileView::Content(c) => if !runs_script(c, hook) && is_legacy(c, hook) {
            WrapperStatus::Legacy
        } else {
            WrapperStatus::Installed
        },
        _ => WrapperStatus::Missing,
    }
}

/// What is known of the wrapper of a hook.
pub fn wrapper_status(wrapper: &FileState, hook: &str) -> (r: WrapperStatus)
    ensures
        r == status_of(wrapper@, hook@),
{
    match wrapper {
        FileState::Content(c) => {
            let mut script = hook.to_owned();
            script.append(".sh");
            if text::contains(c.as_str(), "mergify-hooks") && text::contains(c.as_str(), script.as_str()) {
                return WrapperStatus::Installed;
            }
            if text::same(hook, "commit-msg") && text::contains(c.as_str(), "Change-Id: I${random}") {
                return WrapperStatus::Legacy;
            }
            if text::same(hook, "prepare-commit-msg") && text::contains(c.as_str(), "is_amend_with_m_flag") {
                return WrapperStatus::Legacy;
            }
            WrapperStatus::Installed
        },
        _ => WrapperStatus::Missing,
    }
}

/// Whether a script is not as it should be.
pub open spec fn differs(script: FileView, new_script: Seq<char>) -> bool {
    script != FileView::Content(new_script)
}

/// Whether a script is not as it should be.
pub fn script_differs(script: &FileState, new_script: &str) -> (r: bool)
    ensures
        r == differs(script@, new_script@),
{
    match script {
        FileState::Content(s) => !text::same(s.as_str(), new_script),
        _ => true,
    }
}

/// The state of a hook.
pub open spec fn hook_status(h: HookFiles) -> HookStatusView {
    HookStatusView {
        hook_name: h.hook_name@,
        wrapper_status: status_of(h.wrapper@, h.hook_name@),
        script_installed: h.script@ != FileView::Absent,
        script_needs_update: differs(h.script@, h.new_script@),
        wrapper_path: h.wrapper_path@,
        script_path: h.script_path@,
    }
}

/// The state of every hook.
pub fn status(hooks: &Vec<HookFiles>) -> (r: HooksStatus)
    ensures
        r.git_hooks@.map_values(|s: HookStatus| s@) == hooks@.map_values(
            |h: HookFiles| hook_status(h),
        ),
{
    let ghost goal = hooks@.map_values(|h: HookFiles| hook_status(h));
    let mut git_hooks: Vec<HookStatus> = Vec::new();
    let mut i: usize = 0;
    while i < hooks.len()
        invariant
            i <= hooks.len(),
            git_hooks.len() == i,
            goal == hooks@.map_values(|h: HookFiles| hook_status(h)),
            forall|j: int| 0 <= j < i ==> (#[trigger] git_hooks@[j])@ == goal[j],
        decreases hooks.len() - i,
    {
        let h = &hooks[i];
        let script_installed: bool = match h.script {
            FileState::Absent => false,
            _ => true,
        };
        git_hooks.push(
            HookStatus {
                hook_name: h.hook_name.clone(),
                wrapper_status: wrapper_status(&h.wrapper, h.hook_name.as_str()),
                script_installed,
                script_needs_update: script_differs(&h.script, h.new_script.as_str()),
                wrapper_path: h.wrapper_path.clone(),
                script_path: h.script_path.clone(),
            },
        );
        i += 1;
    }
    proof {
        assert(git_hooks@.map_values(|s: HookStatus| s@) =~= goal);
    }
    HooksStatus { git_hooks }
}

/// What an installation has to do for a hook.
#[derive(Debug, Clone, PartialEq, Eq)]
pub struct HookInstall {
    pub write_script: bool,
    pub write_wrapper: bool,
    pub actions: Vec<HookAction>,
}

/// What happens to the script of a hook.
pub open spec fn script_action(script: FileView, new_script: Seq<char>) -> HookAction {
    if script == FileView::Absent {
        HookAction::ScriptInstalled
    } else if differs(script, new_script) {
        HookAction::ScriptUpdated
    } else {
        HookAction::ScriptUpToDate
    }
}

/// What happens to the wrapper of a hook.
pub open spec fn wrapper_action(status: WrapperStatus, force: bool) -> HookAction {
    match status {
        WrapperStatus::Missing => HookAction::WrapperInstalled,
        WrapperStatus::Legacy => if force {
            HookAction::WrapperMigrated
        } else {
            HookAction::WrapperLegacyNeedsForce
        },
        WrapperStatus::Installed => HookAction::WrapperAlreadyInstalled,
    }
}

/// Whether an action writes a file.
pub open spec fn writes(a: HookAction) -> bool {
    ||| a == HookAction::ScriptInstalled
    ||| a == HookAction::ScriptUpdated
    ||| a == HookAction::WrapperInstalled
    ||| a == HookAction::WrapperMigrated
}

/// What an installation has to do for a hook. The script is written where it
/// is not as it should be; the wrapper where there is none, and with `force`
/// where it is one of an older layout.
pub fn install_single_hook(
    wrapper: &FileState,
    script: &FileState,
    hook: &str,
    new_script: &str,
    force: bool,
) -> (r: HookInstall)
    ensures
        r.actions@ == seq![
            script_action(script@, new_script@),
            wrapper_action(status_of(wrapper@, hook@), force),
        ],
        r.write_script == writes(script_action(script@, new_script@)),
        r.write_wrapper == writes(wrapper_action(status_of(wrapper@, hook@), force)),
{
    let mut actions: Vec<HookAction> = Vec::new();
    let absent: bool = match script {
        FileState::Absent => true,
        _ => false,
    };
    let write_script: bool = if absent {
        actions.push(HookAction::ScriptInstalled);
        true
    } else if script_differs(script, new_script) {
        actions.push(HookAction::ScriptUpdated);
        true
    } else {
        actions.push(HookAction::ScriptUpToDate);
        false
    };
    let write_wrapper: bool = match wrapper_status(wrapper, hook) {
        WrapperStatus::Missing => {
            actions.push(HookAction::WrapperInstalled);
            true
        },
        WrapperStatus::Legacy => {
            if force {
                actions.push(HookAction::WrapperMigrated);
                true
            } else {
                actions.push(HookAction::WrapperLegacyNeedsForce);
                false
            }
        },
        WrapperStatus::Installed => {
            actions.push(HookAction::WrapperAlreadyInstalled);
            false
        },
    };
    proof {
        assert(actions@ =~= seq![
            script_action(script@, new_script@),
            wrapper_action(status_of(wrapper@, hook@), force),
        ]);
    }
    HookInstall { write_script, write_wrapper, actions }
}

/// What an installation has to do for every hook.
pub fn install(hooks: &Vec<HookFiles>, force: bool) -> (r: Vec<HookInstall>)
    ensures
        r.len() == hooks.len(),
        forall|i: int|
            0 <= i < hooks.len() ==> {
                let h = hooks@[i];
                let a = script_action(h.script@, h.new_script@);
                let b = wrapper_action(status_of(h.wrapper@, h.hook_name@), force);
                &&& (#[trigger] r@[i]).actions@ == seq![a, b]
                &&& r@[i].write_script == writes(a)
                &&& r@[i].write_wrapper == writes(b)
            },
{
    let mut out: Vec<HookInstall> = Vec::new();
    let mut i: usize = 0;
    while i < hooks.len()
        invariant
            i <= hooks.len(),
            out.len() == i,
            forall|j: int|
                0 <= j < i ==> {
                    let h = hooks@[j];
                    let a = script_action(h.script@, h.new_script@);
                    let b = wrapper_action(status_of(h.wrapper@, h.hook_name@), force);
                    &&& (#[trigger] out@[j]).actions@ == seq![a, b]
                    &&& out@[j].write_script == writes(a)
                    &&& out@[j].write_wrapper == writes(b)
                },
        decreases hooks.len() - i,
    {
        let h = &hooks[i];
        out.push(
            install_single_hook(
                &h.wrapper,
                &h.script,
                h.hook_name.as_str(),
                h.new_script.as_str(),
                force,
            ),
        );
        i += 1;
    }
    out
}

// ---------------------------------------------------------------------------
// The configuration of the notes
// ---------------------------------------------------------------------------

/// Whether a setting has to be added: none of its values, one to a line, is
/// the one that is wanted.
pub fn setting_is_missing(current: &str, desired: &str) -> (r: bool)
    ensures
        r == !text::lines(current@).contains(desired@),
{
    let ls = text::lines_of(current);
    let ghost all = text::texts(ls@);
    let mut i: usize = 0;
    while i < ls.len()
        invariant
            i <= ls.len(),
            all == text::texts(ls@),
            all == text::lines(current@),
            forall|j: int| 0 <= j < i ==> #[trigger] all[j] != desired@,
        decreases ls.len() - i,
    {
        if text::same(ls[i].as_str(), desired) {
            proof {
                assert(all[i as int] == desired@);
            }
            return false;
        }
        i += 1;
    }
    true
}

/// The arguments that read the values of a setting.
pub fn setting_args(key: &str) -> (r: Vec<String>)
    ensures
        text::texts(r@) == seq!["config"@, "--local"@, "--get-all"@, key@],
{
    let mut v: Vec<String> = Vec::new();
    v.push("config".to_owned());
    v.push("--local".to_owned());
    v.push("--get-all".to_owned());
    v.push(key.to_owned());
    proof {
        assert(text::texts(v@) =~= seq!["config"@, "--local"@, "--get-all"@, key@]);
    }
    v
}

/// The arguments that add a value to a setting.
pub open spec fn add_setting(key: Seq<char>, value: Seq<char>) -> Seq<Seq<char>> {
    seq!["config"@, "--local"@, "--add"@, key, value]
}

fn add_setting_args(key: &str, value: &str) -> (r: Vec<String>)
    ensures
        text::texts(r@) == add_setting(key@, value@),
{
    let mut v: Vec<String> = Vec::new();
    v.push("config".to_owned());
    v.push("--local".to_owned());
    v.push("--add".to_owned());
    v.push(key.to_owned());
    v.push(value.to_owned());
    proof {
        assert(text::texts(v@) =~= add_setting(key@, value@));
    }
    v
}

/// The call of git that lets `git log` show the notes, where it does not yet.
pub fn ensure_notes_display_ref(current: &str) -> (r: Option<Vec<String>>)
    ensures
        match r {
            Some(args) => !text::lines(current@).contains(NOTES_DISPLAY_REF@) && text::texts(args@)
                == add_setting("notes.displayRef"@, NOTES_DISPLAY_REF@),
            None => text::lines(current@).contains(NOTES_DISPLAY_REF@),
        },
{
    if setting_is_missing(current, NOTES_DISPLAY_REF) {
        Some(add_setting_args("notes.displayRef", NOTES_DISPLAY_REF))
    } else {
        None
    }
}

/// The call of git that lets a commit keep its note when it is rewritten,
/// where it does not yet.
pub fn ensure_notes_rewrite_ref(current: &str) -> (r: Option<Vec<String>>)
    ensures
        match r {
            Some(args) => !text::lines(current@).contains(STACK_NOTES_REF@) && text::texts(args@)
                == add_setting("notes.rewriteRef"@, STACK_NOTES_REF@),
            None => text::lines(current@).contains(STACK_NOTES_REF@),
        },
{
    if setting_is_missing(current, STACK_NOTES_REF) {
        Some(add_setting_args("notes.rewriteRef", STACK_NOTES_REF))
    } else {
        None
    }
}

// ---------------------------------------------------------------------------
// Laws
// ---------------------------------------------------------------------------

/// The script of a hook after an installation.
pub open spec fn script_after(script: FileView, new_script: Seq<char>) -> FileView {
    if writes(script_action(script, new_script)) {
        FileView::Content(new_script)
    } else {
        script
    }
}

/// The wrapper of a hook after an installation.
pub open spec fn wrapper_after(
    wrapper: FileView,
    hook: Seq<char>,
    new_wrapper: Seq<char>,
    force: bool,
) -> FileView {
    if writes(wrapper_action(status_of(wrapper, hook), force)) {
        FileView::Content(new_wrapper)
    } else {
        wrapper
    }
}

/// What is there of a hook after an installation.
pub open spec fn files_after(
    before: HookFiles,
    after: HookFiles,
    new_wrapper: Seq<char>,
    force: bool,
) -> bool {
    &&& after.hook_name@ == before.hook_name@
    &&& after.new_script@ == before.new_script@
    &&& after.script@ == script_after(before.script@, before.new_script@)
    &&& after.wrapper@ == wrapper_after(before.wrapper@, before.hook_name@, new_wrapper, force)
}

/// Right after an installation where there were no hooks, the status names all
/// of them, each with its wrapper in place and its script there and up to date.
pub proof fn law_fresh_install_is_complete(
    before: Seq<HookFiles>,
    after: Seq<HookFiles>,
    new_wrappers: Seq<Seq<char>>,
    force: bool,
)
    requires
        before.map_values(|h: HookFiles| h.hook_name@) == all_hooks(),
        after.len() == before.len(),
        new_wrappers.len() == before.len(),
        forall|i: int|
            0 <= i < before.len() ==> {
                &&& (#[trigger] before[i]).script@ == FileView::Absent
                &&& before[i].wrapper@ == FileView::Absent
                &&& runs_script(new_wrappers[i], before[i].hook_name@)
                &&& files_after(before[i], after[i], new_wrappers[i], force)
            },
    ensures
        ({
            let found = after.map_values(|h: HookFiles| hook_status(h));
            &&& found.map_values(|s: HookStatusView| s.hook_name) == all_hooks()
            &&& forall|i: int|
                0 <= i < found.len() ==> {
                    &&& (#[trigger] found[i]).wrapper_status == WrapperStatus::Installed
                    &&& found[i].script_installed
                    &&& !found[i].script_needs_update
                }
        }),
{
    let names = before.map_values(|h: HookFiles| h.hook_name@);
    let found = after.map_values(|h: HookFiles| hook_status(h));
    assert forall|i: int| 0 <= i < found.len() implies {
        &&& (#[trigger] found[i]).wrapper_status == WrapperStatus::Installed
        &&& found[i].script_installed
        &&& !found[i].script_needs_update
        &&& found[i].hook_name == all_hooks()[i]
    } by {
        assert(names[i] == before[i].hook_name@);
        assert(files_after(before[i], after[i], new_wrappers[i], force));
    }
    assert(names.len() == before.len());
    assert(found.map_values(|s: HookStatusView| s.hook_name) =~= all_hooks());
}

/// A script that is not there always has to be written.
pub proof fn law_absent_script_needs_update(h: HookFiles)
    ensures
        !hook_status(h).script_installed ==> hook_status(h).script_needs_update,
{
}

/// A second installation has nothing to do: it finds the script up to date,
/// and the wrapper as the first one left it.
pub proof fn law_install_is_idempotent(
    wrapper: FileView,
    script: FileView,
    hook: Seq<char>,
    new_script: Seq<char>,
    new_wrapper: Seq<char>,
    force: bool,
)
    requires
        runs_script(new_wrapper, hook),
    ensures
        script_action(script_after(script, new_script), new_script) == HookAction::ScriptUpToDate,
        !writes(
            wrapper_action(
                status_of(wrapper_after(wrapper, hook, new_wrapper, force), hook),
                force,
            ),
        ),
{
}

/// A wrapper of the user's own is left alone, with `force` or without.
pub proof fn law_user_wrapper_is_left_alone(
    content: Seq<char>,
    hook: Seq<char>,
    new_wrapper: Seq<char>,
    force: bool,
)
    requires
        !is_legacy(content, hook),
    ensures
        wrapper_after(FileView::Content(content), hook, new_wrapper, force) == FileView::Content(
            content,
        ),
{
}

/// Without `force` no wrapper that is there is replaced.
pub proof fn law_only_force_replaces(
    content: Seq<char>,
    hook: Seq<char>,
    new_wrapper: Seq<char>,
)
    ensures
        wrapper_after(FileView::Content(content), hook, new_wrapper, false) == FileView::Content(
            content,
        ),
{
}

/// There are four hooks.
pub proof fn law_hooks_are_these()
    ensures
        all_hooks() == seq!["commit-msg"@, "post-commit"@, "pre-push"@, "prepare-commit-msg"@],
{
}

/// A wrapper that cannot be read counts as none. One that is there is in place,
/// unless it does not run the managed script and is known from an older layout.
pub proof fn law_wrapper_status_reads(content: Seq<char>, hook: Seq<char>)
    ensures
        ({
            let runs = text::contains_text(content, "mergify-hooks"@) && text::contains_text(
                content,
                hook + ".sh"@,
            );
            let old = (hook == "commit-msg"@ && text::contains_text(
                content,
                "Change-Id: I${random}"@,
            )) || (hook == "prepare-commit-msg"@ && text::contains_text(
                content,
                "is_amend_with_m_flag"@,
            ));
            &&& status_of(FileView::Absent, hook) == WrapperStatus::Missing
            &&& status_of(FileView::Unreadable, hook) == WrapperStatus::Missing
            &&& runs ==> status_of(FileView::Content(content), hook) == WrapperStatus::Installed
            &&& !runs && old ==> status_of(FileView::Content(content), hook) == WrapperStatus::Legacy
            &&& !runs && !old ==> status_of(FileView::Content(content), hook)
                == WrapperStatus::Installed
        }),
{
}

/// The script is always brought up to date; a wrapper is written where there is
/// none, and replaced only with `force` and only where it is of an older layout.
pub proof fn law_installation_writes_what_is_missing(
    script: FileView,
    new_script: Seq<char>,
    status: WrapperStatus,
    force: bool,
)
    ensures
        script == FileView::Absent ==> script_action(script, new_script)
            == HookAction::ScriptInstalled,
        script == FileView::Content(new_script) ==> script_action(script, new_script)
            == HookAction::ScriptUpToDate,
        script != FileView::Absent && script != FileView::Content(new_script) ==> script_action(
            script,
            new_script,
        ) == HookAction::ScriptUpdated,
        writes(script_action(script, new_script)) <==> script != FileView::Content(new_script),
        wrapper_action(WrapperStatus::Missing, force) == HookAction::WrapperInstalled,
        wrapper_action(WrapperStatus::Legacy, true) == HookAction::WrapperMigrated,
        wrapper_action(WrapperStatus::Legacy, false) == HookAction::WrapperLegacyNeedsForce,
        wrapper_action(WrapperStatus::Installed, force) == HookAction::WrapperAlreadyInstalled,
        writes(wrapper_action(status, force)) <==> status == WrapperStatus::Missing || (status
            == WrapperStatus::Legacy && force),
{
}

/// The status of a hook is read off its own files.
pub proof fn law_status_is_read_off_the_files(h: HookFiles)
    ensures
        ({
            let s = hook_status(h);
            &&& s.hook_name == h.hook_name@
            &&& s.wrapper_path == h.wrapper_path@
            &&& s.script_path == h.script_path@
            &&& s.wrapper_status == status_of(h.wrapper@, h.hook_name@)
            &&& s.script_installed <==> h.script@ != FileView::Absent
            &&& s.script_needs_update <==> h.script@ != FileView::Content(h.new_script@)
        }),
{
}

/// A setting is added to what is there, in the repository alone.
pub proof fn law_setting_is_added(key: Seq<char>, value: Seq<char>)
    ensures
        add_setting(key, value) == seq!["config"@, "--local"@, "--add"@, key, value],
{
}

/// What is installed is what is written, and each hook for itself.
pub proof fn law_hooks_are_installed_one_by_one(
    hooks: &Vec<HookFiles>,
    force: bool,
    all: Vec<HookInstall>,
    i: int,
    hook: &str,
    new_script: &str,
    one: HookInstall,
)
    requires
        call_ensures(install, (hooks, force), all),
        0 <= i < hooks@.len(),
        hook@ == hooks@[i].hook_name@,
        new_script@ == hooks@[i].new_script@,
        call_ensures(
            install_single_hook,
            (&hooks@[i].wrapper, &hooks@[i].script, hook, new_script, force),
            one,
        ),
    ensures
        all@.len() == hooks@.len(),
        all@[i].actions@ == one.actions@,
        all@[i].write_script == one.write_script,
        all@[i].write_wrapper == one.write_wrapper,
{
}

/// The notes are shown and rewritten once: a setting that is there is not added
/// again.
pub proof fn law_settings_are_added_once(
    current: &str,
    display: Option<Vec<String>>,
    rewrite: Option<Vec<String>>,
    missing: bool,
    desired: &str,
)
    requires
        call_ensures(ensure_notes_display_ref, (current,), display),
        call_ensures(ensure_notes_rewrite_ref, (current,), rewrite),
        call_ensures(setting_is_missing, (current, desired), missing),
    ensures
        missing <==> forall|i: int|
            0 <= i < text::lines(current@).len() ==> #[trigger] text::lines(current@)[i] != desired@,
        display is None <==> exists|i: int|
            0 <= i < text::lines(current@).len() && #[trigger] text::lines(current@)[i]
                == NOTES_DISPLAY_REF@,
        rewrite is None <==> exists|i: int|
            0 <= i < text::lines(current@).len() && #[trigger] text::lines(current@)[i]
                == STACK_NOTES_REF@,
{
    assert(text::lines(current@).contains(desired@) <==> exists|i: int|
        0 <= i < text::lines(current@).len() && #[trigger] text::lines(current@)[i] == desired@);
}

} // verus!
