//! Stacked pull requests: the rules behind `mergify stack`.
pub mod approvals;
pub mod change_id;
pub mod change_type;
pub mod changes;
pub mod commands;
pub mod comment_upsert;
pub mod error;
pub mod git;
pub mod json;
pub mod local_commits;
pub mod match_commit;
pub mod native_stack;
pub mod notes_push;
pub mod outside;
pub mod plan;
pub mod plan_display;
pub mod pr_upsert;
pub mod progress;
pub mod pull;
pub mod push_helpers;
pub mod rebase_log;
pub mod rebase_todo;
pub mod remote_changes;
pub mod replay;
pub mod revision_history;
pub mod sequence_editor;
pub mod text;
pub mod timestamp;
