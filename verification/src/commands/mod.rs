//! What the stack commands decide.
pub mod checkout;
pub mod drop;
pub mod edit;
pub mod fixup;
pub mod list;
pub mod move_cmd;
pub mod new;
pub mod note;
pub mod open;
pub mod push;
pub mod reorder;
pub mod reword;
pub mod setup;
pub mod squash;
