//! What is shown: the blocks of a conversation and what goes on in it.

use vstd::prelude::*;

use crate::json::Json;
use crate::render::diff;
use crate::render::highlight::Assets;
use crate::render::out;
use crate::render::out::{Canvas, Command, RenderOut};
use crate::render::styled::Env;

verus! {

#[derive(Clone, Copy, Debug, PartialEq, Eq, Structural)]
pub enum ToolStatus {
    Pending,
    Confirm,
    Success,
    Failed,
    Denied,
}

#[derive(Clone, Copy, Debug, PartialEq, Eq, Structural)]
pub enum AgentBlockStatus {
    Running,
    Done,
    Error,
}

#[derive(Clone, Copy, Debug, PartialEq, Eq, Structural)]
pub enum ApprovalScope {
    Session,
    Workspace,
}

#[derive(Clone, Debug, PartialEq)]
pub enum ConfirmChoice {
    Yes,
    YesAutoApply,
    No,
    Always(ApprovalScope),
    AlwaysPatterns(Vec<String>, ApprovalScope),
    AlwaysDir(String, ApprovalScope),
}

/// What the status bar says of the work that goes on; times in milliseconds.
#[derive(Clone, Copy, Debug, PartialEq, Eq, Structural)]
pub enum Throbber {
    Working,
    Retrying { delay: u64, attempt: u32 },
    Compacting,
    Done,
    Interrupted,
}

/// A short message above the prompt.
pub struct Notification {
    pub message: String,
    pub is_error: bool,
}

/// A change of one cell of a notebook.
pub struct NotebookRenderData {
    pub title: String,
    pub edit_mode: String,
    pub path: String,
    pub old_source: String,
    pub new_source: String,
    /// The extension by which the cell is highlighted.
    pub syntax_ext: String,
}

/// A difference that was rendered before.
pub struct CachedInlineDiff {
    pub commands: Vec<Command<String>>,
    pub rows: u16,
}

impl CachedInlineDiff {
    /// The commands and rows.
    pub open spec fn shows(self, cmds: Seq<Command<Seq<char>>>, rows: u16) -> bool {
        out::commands_view(self.commands@) == cmds && self.rows == rows
    }
}

pub struct CachedNotebookEdit {
    pub data: NotebookRenderData,
    pub diff: Option<CachedInlineDiff>,
}

pub enum ToolOutputRenderCache {
    InlineDiff(CachedInlineDiff),
    NotebookEdit(CachedNotebookEdit),
}

/// What a tool returned.
pub struct ToolOutput {
    pub content: String,
    pub is_error: bool,
    /// The change of a notebook, where the tool made one.
    pub notebook: Option<NotebookRenderData>,
    pub render_cache: Option<ToolOutputRenderCache>,
}

/// A tool call of an agent.
pub struct AgentToolEntry {
    pub call_id: String,
    pub tool_name: String,
    pub summary: String,
    pub status: ToolStatus,
    pub elapsed_ms: Option<u64>,
}

/// A command that runs.
pub struct ActiveExec {
    pub command: String,
    pub output: String,
    pub start_ms: u64,
    pub finished: bool,
    pub exit_code: Option<i32>,
}

/// An agent that runs while its parent waits.
pub struct ActiveAgent {
    pub agent_id: String,
    pub slug: Option<String>,
    pub tool_calls: Vec<AgentToolEntry>,
    pub status: AgentBlockStatus,
    pub start_ms: u64,
    /// How long the agent ran, once it has finished.
    pub final_elapsed_ms: Option<u64>,
}

/// A tool call that runs.
pub struct ActiveTool {
    pub call_id: String,
    pub name: String,
    pub summary: String,
    pub args: Vec<(String, Json)>,
    pub status: ToolStatus,
    pub output: Option<ToolOutput>,
    pub user_message: Option<String>,
    pub start_ms: u64,
}

/// A part of the conversation; times in milliseconds.
pub enum Block {
    User { text: String, image_labels: Vec<String> },
    Thinking { content: String },
    Text { content: String },
    /// A line of a code block.
    CodeLine { content: String, lang: String },
    ToolCall {
        call_id: String,
        name: String,
        summary: String,
        args: Vec<(String, Json)>,
        status: ToolStatus,
        elapsed: Option<u64>,
        output: Option<ToolOutput>,
        user_message: Option<String>,
    },
    Confirm { tool: String, desc: String, choice: Option<ConfirmChoice> },
    Hint { content: String },
    Exec { command: String, output: String },
    Compacted { summary: String },
    AgentMessage { from_id: String, from_slug: String, content: String },
    Agent {
        agent_id: String,
        slug: Option<String>,
        blocking: bool,
        tool_calls: Vec<AgentToolEntry>,
        status: AgentBlockStatus,
        elapsed: Option<u64>,
    },
}

/// A session that can be resumed.
pub struct ResumeEntry {
    pub id: String,
    pub title: String,
    pub subtitle: Option<String>,
    pub updated_at_ms: u64,
    pub created_at_ms: u64,
    pub cwd: Option<String>,
    pub parent_id: Option<String>,
    /// How deep the session is nested under its parents.
    pub depth: usize,
}

/// The characters of an optional text.
pub open spec fn opt_view(s: Option<String>) -> Option<Seq<char>> {
    match s {
        Some(t) => Some(t@),
        None => None,
    }
}

/// Milliseconds since `start`.
pub open spec fn since(now: u64, start: u64) -> u64 {
    if now >= start {
        (now - start) as u64
    } else {
        0
    }
}

/// Number of the spinner's frame after `ms` milliseconds.
pub open spec fn frame_number(ms: u64) -> u64 {
    ms / 150 % 4
}

/// The spinner after `ms` milliseconds.
pub open spec fn spinner_at(ms: u64) -> Seq<char> {
    let i = frame_number(ms);
    if i == 0 {
        "\u{273f}"@
    } else if i == 1 {
        "\u{2740}"@
    } else if i == 2 {
        "\u{273e}"@
    } else {
        "\u{2741}"@
    }
}

/// The spinner after `ms` milliseconds.
pub fn spinner_frame(ms: u64) -> (r: &'static str)
    ensures
        r@ == spinner_at(ms),
{
    let i: u64 = ms / 150 % 4;
    if i == 0 {
        "\u{273f}"
    } else if i == 1 {
        "\u{2740}"
    } else if i == 2 {
        "\u{273e}"
    } else {
        "\u{2741}"
    }
}

/// What a difference shows on an empty canvas.
pub open spec fn diff_alone(
    env: Env,
    old_text: Seq<char>,
    new_text: Seq<char>,
    path: Seq<char>,
    anchor: Seq<char>,
    ext: Option<Seq<char>>,
) -> (Canvas, u16) {
    diff::inline_diff(
        Canvas::blank(),
        env.file(path),
        old_text,
        new_text,
        match ext {
            Some(e) => e,
            None => diff::file_extension(path),
        },
        anchor,
        0,
        0,
        env.term_width,
    )
}

/// Renders a difference for later.
pub fn build_inline_diff_cache_ext(
    assets: &Assets,
    env: &Env,
    old_text: &str,
    new_text: &str,
    path: &str,
    anchor: &str,
    ext: Option<&str>,
) -> (r: CachedInlineDiff)
    ensures
        ({
            let d = diff_alone(
                *env,
                old_text@,
                new_text@,
                path@,
                anchor@,
                match ext {
                    Some(e) => Some(e@),
                    None => None,
                },
            );
            r.shows(d.0.cmds, d.1)
        }),
{
    let mut buf = RenderOut::buffer();
    let rows: u16 = match ext {
        Some(e) => diff::print_inline_diff_ext(
            &mut buf,
            assets,
            env,
            old_text,
            new_text,
            path,
            e,
            anchor,
            0,
            0,
        ),
        None => diff::print_inline_diff(
            &mut buf,
            assets,
            env,
            old_text,
            new_text,
            path,
            anchor,
            0,
            0,
        ),
    };
    CachedInlineDiff { commands: buf.into_commands(), rows }
}

/// Shows a difference that was rendered before.
pub fn print_cached_inline_diff(out: &mut RenderOut, cache: &CachedInlineDiff) -> (r: u16)
    ensures
        final(out)@ == old(out)@.append(out::commands_view(cache.commands@)),
        r == cache.rows,
{
    out.append(&cache.commands);
    cache.rows
}

} // verus!
