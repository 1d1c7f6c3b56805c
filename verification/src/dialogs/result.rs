//! What a dialog comes to.

use vstd::prelude::*;

use crate::render::model::ConfirmChoice;

verus! {

/// A permission that holds for the session: a tool, and what it may do.
pub struct PermissionEntry {
    pub tool: String,
    pub pattern: String,
}

/// A permission that holds for the workspace: a tool, and what it may do;
/// everything when there is no pattern.
pub struct Rule {
    pub tool: String,
    pub patterns: Vec<String>,
}

/// What a dialog comes to.
pub enum DialogResult {
    Dismissed,
    Confirm {
        choice: ConfirmChoice,
        message: Option<String>,
        tool_name: String,
        request_id: u64,
    },
    Question { answer: Option<String>, request_id: u64 },
    Rewind { block_idx: Option<usize>, restore_vim_insert: bool },
    Resume { session_id: Option<String> },
    PsClosed,
    AgentsClosed,
    PermissionsClosed {
        session_remaining: Vec<PermissionEntry>,
        workspace_remaining: Vec<Rule>,
    },
}

} // verus!
