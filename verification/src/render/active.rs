//! Tools, agents and blocks on the screen.

use vstd::prelude::*;

use crate::json::Json;
use crate::render::highlight::Assets;
use crate::render::history::HistoryView;
use crate::render::model;
use crate::render::model::{
    ActiveAgent, ActiveTool, AgentBlockStatus, AgentToolEntry, Block, ToolOutput, ToolStatus,
};
use crate::render::out;
use crate::render::out::{Canvas, ClearType, Command, RenderOut};
use crate::render::screen;
use crate::render::screen::{
    begin_frame, end_frame, PromptState, Screen, Term, MAX_REDRAW_LINES,
};
use crate::render::stream;
use crate::render::styled::Env;
use crate::render::tools;
use crate::render::tools::is_timed_tool;
use crate::render::working::WorkingState;
use crate::text::{char_count, same_text};

verus! {

// ── Finding ──────────────────────────────────────────────────────────────

/// The first tool from `k` on with the id.
pub open spec fn tool_from(ts: Seq<ActiveTool>, k: int, id: Seq<char>) -> Option<int>
    decreases ts.len() - k,
{
    if k < 0 || k >= ts.len() {
        None
    } else if ts[k].call_id@ == id {
        Some(k)
    } else {
        tool_from(ts, k + 1, id)
    }
}

/// The tool that a call is about: the last one when the id is empty.
pub open spec fn tool_index(ts: Seq<ActiveTool>, id: Seq<char>) -> Option<int> {
    if id.len() == 0 {
        if ts.len() > 0 {
            Some(ts.len() - 1)
        } else {
            None
        }
    } else {
        tool_from(ts, 0, id)
    }
}

/// The first agent from `k` on with the id.
pub open spec fn agent_from(xs: Seq<ActiveAgent>, k: int, id: Seq<char>) -> Option<int>
    decreases xs.len() - k,
{
    if k < 0 || k >= xs.len() {
        None
    } else if xs[k].agent_id@ == id {
        Some(k)
    } else {
        agent_from(xs, k + 1, id)
    }
}

fn find_tool(ts: &Vec<ActiveTool>, id: &str) -> (r: Option<usize>)
    ensures
        match r {
            Some(i) => i < ts@.len() && tool_index(ts@, id@) == Some(i as int),
            None => tool_index(ts@, id@) is None,
        },
{
    let total: usize = ts.len();
    if char_count(id) == 0 {
        return if total > 0 {
            Some(total - 1)
        } else {
            None
        };
    }
    let mut i: usize = 0;
    while i < total
        invariant
            total == ts@.len(),
            i <= total,
            id@.len() > 0,
            tool_from(ts@, 0, id@) == tool_from(ts@, i as int, id@),
        decreases total - i,
    {
        if same_text(ts[i].call_id.as_str(), id) {
            return Some(i);
        }
        i = i + 1;
    }
    None
}

fn find_agent(xs: &Vec<ActiveAgent>, id: &str) -> (r: Option<usize>)
    ensures
        match r {
            Some(i) => i < xs@.len() && agent_from(xs@, 0, id@) == Some(i as int),
            None => agent_from(xs@, 0, id@) is None,
        },
{
    let total: usize = xs.len();
    let mut i: usize = 0;
    while i < total
        invariant
            total == xs@.len(),
            i <= total,
            agent_from(xs@, 0, id@) == agent_from(xs@, i as int, id@),
        decreases total - i,
    {
        if same_text(xs[i].agent_id.as_str(), id) {
            return Some(i);
        }
        i = i + 1;
    }
    None
}

// ── What becomes of tools and agents ─────────────────────────────────────

/// How long a tool has run, where that is shown.
pub open spec fn tool_elapsed(t: ActiveTool, now: u64) -> Option<u64> {
    if tools::timed_tool(t.name@) {
        Some(model::since(now, t.start_ms))
    } else {
        None
    }
}

/// How long a call took when it ended with `status`.
pub open spec fn final_elapsed(
    t: ActiveTool,
    status: ToolStatus,
    given: Option<u64>,
    now: u64,
) -> Option<u64> {
    if status == ToolStatus::Denied {
        None
    } else if given is Some {
        given
    } else {
        tool_elapsed(t, now)
    }
}

/// The block of a tool that is stopped as it is.
pub open spec fn tool_block(t: ActiveTool, status: ToolStatus, now: u64) -> Block {
    Block::ToolCall {
        call_id: t.call_id,
        name: t.name,
        summary: t.summary,
        args: t.args,
        status,
        elapsed: final_elapsed(t, status, None, now),
        output: t.output,
        user_message: t.user_message,
    }
}

/// Whether a block is that of a tool that ended.
pub open spec fn is_ended_tool(
    b: Block,
    t: ActiveTool,
    id: Seq<char>,
    status: ToolStatus,
    elapsed: Option<u64>,
    output: Option<ToolOutput>,
) -> bool {
    match b {
        Block::ToolCall {
            call_id,
            name,
            summary,
            args,
            status: s,
            elapsed: e,
            output: o,
            user_message,
        } => {
            &&& call_id@ == id
            &&& name == t.name
            &&& summary == t.summary
            &&& args == t.args
            &&& s == status
            &&& e == elapsed
            &&& o == output
            &&& user_message == t.user_message
        },
        _ => false,
    }
}

/// An agent that ended: one that still counts as running has succeeded.
pub open spec fn ended_agent(a: ActiveAgent, now: u64) -> ActiveAgent {
    if a.status == AgentBlockStatus::Running {
        ActiveAgent {
            status: AgentBlockStatus::Done,
            final_elapsed_ms: Some(model::since(now, a.start_ms)),
            ..a
        }
    } else {
        a
    }
}

/// How long an agent has run.
pub open spec fn agent_elapsed(a: ActiveAgent, now: u64) -> u64 {
    match a.final_elapsed_ms {
        Some(e) => e,
        None => model::since(now, a.start_ms),
    }
}

/// The block of an agent that ended.
pub open spec fn agent_block(a: ActiveAgent, now: u64) -> Block {
    let e = ended_agent(a, now);
    Block::Agent {
        agent_id: e.agent_id,
        slug: e.slug,
        blocking: true,
        tool_calls: e.tool_calls,
        status: e.status,
        elapsed: Some(agent_elapsed(e, now)),
    }
}

/// The first `n` of the blocks are added.
pub open spec fn with_blocks(h: HistoryView, bs: Seq<Block>, n: int) -> HistoryView
    decreases n,
{
    if n <= 0 {
        h
    } else {
        with_blocks(h, bs, n - 1).pushed(bs[n - 1])
    }
}

/// The blocks of agents that ended.
pub open spec fn agent_blocks(xs: Seq<ActiveAgent>, now: u64) -> Seq<Block> {
    Seq::new(xs.len(), |i: int| agent_block(xs[i], now))
}

/// The blocks of tools that are stopped.
pub open spec fn tool_blocks(ts: Seq<ActiveTool>, status: ToolStatus, now: u64) -> Seq<Block> {
    Seq::new(ts.len(), |i: int| tool_block(ts[i], status, now))
}

/// Whether `b` is the output `a` with a chunk added in lines of its own.
pub open spec fn output_added(a: Option<ToolOutput>, chunk: Seq<char>, b: Option<ToolOutput>) -> bool {
    match (a, b) {
        (Some(x), Some(y)) => {
            &&& y == (ToolOutput { content: y.content, ..x })
            &&& y.content@ == stream::below(x.content@, chunk)
        },
        (None, Some(y)) => {
            &&& y.content@ == chunk
            &&& !y.is_error
            &&& y.notebook is None
            &&& y.render_cache is None
        },
        _ => false,
    }
}

fn add_output(o: Option<ToolOutput>, chunk: &str) -> (r: Option<ToolOutput>)
    ensures
        output_added(o, chunk@, r),
{
    match o {
        Some(x) => {
            let mut x = x;
            if char_count(x.content.as_str()) > 0 {
                x.content.push('\n');
            }
            x.content.append(chunk);
            Some(x)
        },
        None => Some(
            ToolOutput {
                content: chunk.to_owned(),
                is_error: false,
                notebook: None,
                render_cache: None,
            },
        ),
    }
}

/// The last block, when it is a tool call.
pub open spec fn last_tool(h: HistoryView) -> Option<Block> {
    if h.blocks.len() > 0 && h.blocks.last() is ToolCall {
        Some(h.blocks.last())
    } else {
        None
    }
}

/// The history with another last block.
pub open spec fn with_last(h: HistoryView, b: Block) -> HistoryView {
    HistoryView { blocks: h.blocks.update(h.blocks.len() - 1, b), ..h }
}

/// Whether `b` is the tool call `a` with another status, output and message.
pub open spec fn same_call(
    a: Block,
    b: Block,
    status: ToolStatus,
    output: Option<ToolOutput>,
    message: Option<String>,
) -> bool {
    match a {
        Block::ToolCall { call_id, name, summary, args, elapsed, .. } => b == (Block::ToolCall {
            call_id,
            name,
            summary,
            args,
            status,
            elapsed,
            output,
            user_message: message,
        }),
        _ => false,
    }
}

/// The status, output and message of a tool call.
pub open spec fn call_parts(b: Block) -> (ToolStatus, Option<ToolOutput>, Option<String>) {
    match b {
        Block::ToolCall { status, output, user_message, .. } => (status, output, user_message),
        _ => (ToolStatus::Pending, None, None),
    }
}

/// What putting out pending blocks leaves: the history, the canvas and the
/// prompt.
pub open spec fn pending_put_out(
    h: HistoryView,
    prompt: PromptState,
    show_thinking: bool,
    m: Canvas,
    term: Term,
    env: Env,
) -> (HistoryView, Canvas, PromptState) {
    let m = screen::frame_begun(m).queue(Command::Hide);
    let row = screen::row_or(prompt.anchor_row, if prompt.drawn {
        0
    } else {
        term.cursor_y
    });
    let m = if prompt.drawn {
        m.queue(Command::MoveTo(0, row)).queue(Command::Clear(ClearType::FromCursorDown))
    } else {
        m
    };
    let (h, d) = h.rendered(m, term.width as usize, show_thinking, env);
    (
        h,
        screen::frame_ended(d.canvas),
        PromptState {
            drawn: false,
            prev_rows: if prompt.drawn {
                0
            } else {
                prompt.prev_rows
            },
            anchor_row: Some(
                screen::lower(
                    out::rows_plus(row, d.rows),
                    screen::rows_minus(term.height, 1),
                ),
            ),
            ..prompt
        },
    )
}

/// What a redraw leaves: the history, the canvas, and the row behind the
/// blocks.
pub open spec fn redrawn(
    h: HistoryView,
    content_row: Option<u16>,
    show_thinking: bool,
    m: Canvas,
    purge: bool,
    term: Term,
    env: Env,
) -> (HistoryView, Canvas, u16) {
    let m = screen::frame_begun(m).queue(Command::Hide);
    let start = if purge {
        0
    } else {
        screen::row_or(content_row, 0)
    };
    let m = if purge {
        m.queue(Command::MoveTo(0, 0)).queue(Command::Clear(ClearType::All)).queue(
            Command::Clear(ClearType::Purge),
        )
    } else {
        m.queue(Command::MoveTo(0, start))
    };
    let h = HistoryView {
        flushed: h.redraw_from(h.blocks.len() as int, MAX_REDRAW_LINES as int, show_thinking),
        last_block_rows: 0,
        ..h
    };
    let (h, d) = h.rendered(m, term.width as usize, show_thinking, env);
    let end = out::rows_plus(start, d.rows);
    let m = if purge {
        d.canvas
    } else {
        screen::rows_cleared(d.canvas, end as int, term.height as int)
    };
    (h, screen::frame_ended(m), screen::lower(end, screen::rows_minus(term.height, 1)))
}

impl Screen {
    // ── Tools ────────────────────────────────────────────────────────────

    pub fn start_tool(
        &mut self,
        call_id: String,
        name: String,
        summary: String,
        args: Vec<(String, Json)>,
        now: u64,
    )
        ensures
            final(self).active_tools@ == old(self).active_tools@.push(
                ActiveTool {
                    call_id,
                    name,
                    summary,
                    args,
                    status: ToolStatus::Pending,
                    output: None,
                    user_message: None,
                    start_ms: now,
                },
            ),
            *final(self) == (Screen {
                active_tools: final(self).active_tools,
                prompt: old(self).prompt.touched(),
                ..*old(self)
            }),
    {
        self.active_tools.push(
            ActiveTool {
                call_id,
                name,
                summary,
                args,
                status: ToolStatus::Pending,
                output: None,
                user_message: None,
                start_ms: now,
            },
        );
        self.prompt.dirty = true;
    }

    /// Adds output to a tool that runs, or to the last block.
    pub fn append_active_output(&mut self, call_id: &str, chunk: &str)
        ensures
            match tool_index(old(self).active_tools@, call_id@) {
                Some(i) => {
                    let t = old(self).active_tools@[i];
                    &&& exists|o: Option<ToolOutput>|
                        #[trigger] output_added(t.output, chunk@, o) && final(self).active_tools@
                            == old(self).active_tools@.update(i, ActiveTool { output: o, ..t })
                    &&& *final(self) == (Screen {
                        active_tools: final(self).active_tools,
                        prompt: old(self).prompt.touched(),
                        ..*old(self)
                    })
                },
                None => {
                    &&& match last_tool(old(self).history@) {
                        Some(a) => exists|b: Block|
                            same_call(a, b, call_parts(a).0, call_parts(b).1, call_parts(a).2)
                                && output_added(call_parts(a).1, chunk@, call_parts(b).1)
                                && final(self).history@ == (#[trigger] with_last(
                                old(self).history@,
                                b,
                            )),
                        None => final(self).history@ == old(self).history@,
                    }
                    &&& *final(self) == (Screen { history: final(self).history, ..*old(self) })
                },
            },
            old(self).wf() ==> final(self).wf(),
    {
        match find_tool(&self.active_tools, call_id) {
            Some(i) => {
                let t = self.active_tools.remove(i);
                let ghost t0 = t;
                let o = add_output(t.output, chunk);
                let t2 = ActiveTool {
                    call_id: t.call_id,
                    name: t.name,
                    summary: t.summary,
                    args: t.args,
                    status: t.status,
                    output: o,
                    user_message: t.user_message,
                    start_ms: t.start_ms,
                };
                self.active_tools.insert(i, t2);
                assert(self.active_tools@ =~= old(self).active_tools@.update(
                    i as int,
                    ActiveTool { output: o, ..t0 },
                ));
                self.prompt.dirty = true;
            },
            None => {
                self.change_last_call(ChangeCall::Output, chunk);
            },
        }
    }

    /// Sets the status of a tool that runs, or of the last block.  The clock
    /// starts anew when the user approved.
    pub fn set_active_status(&mut self, call_id: &str, status: ToolStatus, now: u64)
        ensures
            match tool_index(old(self).active_tools@, call_id@) {
                Some(i) => {
                    let t = old(self).active_tools@[i];
                    let approved = t.status == ToolStatus::Confirm && status
                        == ToolStatus::Pending;
                    &&& final(self).active_tools@ == old(self).active_tools@.update(
                        i,
                        ActiveTool {
                            status,
                            start_ms: if approved {
                                now
                            } else {
                                t.start_ms
                            },
                            ..t
                        },
                    )
                    &&& *final(self) == (Screen {
                        active_tools: final(self).active_tools,
                        prompt: old(self).prompt.touched(),
                        ..*old(self)
                    })
                },
                None => {
                    &&& match last_tool(old(self).history@) {
                        Some(a) => exists|b: Block|
                            same_call(a, b, status, call_parts(a).1, call_parts(a).2)
                                && final(self).history@ == (#[trigger] with_last(
                                old(self).history@,
                                b,
                            )),
                        None => final(self).history@ == old(self).history@,
                    }
                    &&& *final(self) == (Screen { history: final(self).history, ..*old(self) })
                },
            },
            old(self).wf() ==> final(self).wf(),
    {
        match find_tool(&self.active_tools, call_id) {
            Some(i) => {
                let t = self.active_tools.remove(i);
                let ghost t0 = t;
                let mut t = t;
                if t.status == ToolStatus::Confirm && status == ToolStatus::Pending {
                    t.start_ms = now;
                }
                t.status = status;
                self.active_tools.insert(i, t);
                assert(self.active_tools@ =~= old(self).active_tools@.update(i as int, t));
                self.prompt.dirty = true;
            },
            None => {
                self.change_last_call(ChangeCall::Status(status), "");
            },
        }
    }

    /// Sets the user's message on a tool that runs, or on the last block.
    pub fn set_active_user_message(&mut self, call_id: &str, msg: String)
        ensures
            match tool_index(old(self).active_tools@, call_id@) {
                Some(i) => {
                    &&& final(self).active_tools@ == old(self).active_tools@.update(
                        i,
                        ActiveTool {
                            user_message: Some(msg),
                            ..old(self).active_tools@[i]
                        },
                    )
                    &&& *final(self) == (Screen {
                        active_tools: final(self).active_tools,
                        prompt: old(self).prompt.touched(),
                        ..*old(self)
                    })
                },
                None => {
                    &&& match last_tool(old(self).history@) {
                        Some(a) => exists|b: Block|
                            same_call(a, b, call_parts(a).0, call_parts(a).1, Some(msg))
                                && final(self).history@ == (#[trigger] with_last(
                                old(self).history@,
                                b,
                            )),
                        None => final(self).history@ == old(self).history@,
                    }
                    &&& *final(self) == (Screen { history: final(self).history, ..*old(self) })
                },
            },
            old(self).wf() ==> final(self).wf(),
    {
        match find_tool(&self.active_tools, call_id) {
            Some(i) => {
                let t = self.active_tools.remove(i);
                let mut t = t;
                t.user_message = Some(msg);
                self.active_tools.insert(i, t);
                assert(self.active_tools@ =~= old(self).active_tools@.update(i as int, t));
                self.prompt.dirty = true;
            },
            None => {
                self.change_last_call(ChangeCall::Message(msg), "");
            },
        }
    }

    /// Ends a tool: it becomes a block, or the last block is brought up to
    /// date.
    pub fn finish_tool(
        &mut self,
        call_id: &str,
        status: ToolStatus,
        output: Option<ToolOutput>,
        engine_elapsed: Option<u64>,
        now: u64,
    )
        ensures
            match tool_index(old(self).active_tools@, call_id@) {
                Some(i) => {
                    let t = old(self).active_tools@[i];
                    &&& final(self).active_tools@ == old(self).active_tools@.remove(i)
                    &&& exists|b: Block|
                        is_ended_tool(
                            b,
                            t,
                            call_id@,
                            status,
                            final_elapsed(t, status, engine_elapsed, now),
                            output,
                        ) && final(self).history@ == (#[trigger] old(self).history@.pushed(b))
                    &&& *final(self) == (Screen {
                        history: final(self).history,
                        active_tools: final(self).active_tools,
                        prompt: old(self).prompt.touched(),
                        ..*old(self)
                    })
                },
                None => {
                    &&& match last_tool(old(self).history@) {
                        Some(a) => exists|b: Block|
                            same_call(a, b, status, output, call_parts(a).2)
                                && final(self).history@ == (#[trigger] with_last(
                                old(self).history@,
                                b,
                            )),
                        None => final(self).history@ == old(self).history@,
                    }
                    &&& *final(self) == (Screen { history: final(self).history, ..*old(self) })
                },
            },
            old(self).wf() ==> final(self).wf(),
    {
        match find_tool(&self.active_tools, call_id) {
            Some(i) => {
                let t = self.active_tools.remove(i);
                let elapsed: Option<u64> = if status == ToolStatus::Denied {
                    None
                } else if engine_elapsed.is_some() {
                    engine_elapsed
                } else if is_timed_tool(t.name.as_str()) {
                    Some(now.saturating_sub(t.start_ms))
                } else {
                    None
                };
                let b = Block::ToolCall {
                    call_id: call_id.to_owned(),
                    name: t.name,
                    summary: t.summary,
                    args: t.args,
                    status,
                    elapsed,
                    output,
                    user_message: t.user_message,
                };
                self.history.push(b);
                self.prompt.dirty = true;
            },
            None => {
                self.change_last_call(ChangeCall::End(status, output), "");
            },
        }
    }

    fn change_last_call(&mut self, change: ChangeCall, chunk: &str)
        ensures
            match last_tool(old(self).history@) {
                Some(a) => exists|b: Block|
                    changed(a, b, change, chunk@) && final(self).history@ == (
                    #[trigger] with_last(old(self).history@, b)),
                None => final(self).history@ == old(self).history@,
            },
            *final(self) == (Screen { history: final(self).history, ..*old(self) }),
            old(self).wf() ==> final(self).wf(),
    {
        let n: usize = self.history.blocks.len();
        if n == 0 {
            return;
        }
        let is_call = match &self.history.blocks[n - 1] {
            Block::ToolCall { .. } => true,
            _ => false,
        };
        if !is_call {
            return;
        }
        let ghost h0 = self.history@;
        let last = self.history.blocks.remove(n - 1);
        let ghost a = last;
        let b = apply_change(last, change, chunk);
        self.history.blocks.push(b);
        assert(self.history@.blocks =~= with_last(h0, b).blocks);
        assert(self.history@ == with_last(h0, b));
    }

    // ── Agents ───────────────────────────────────────────────────────────

    pub fn start_active_agent(&mut self, agent_id: String, now: u64)
        ensures
            exists|a: ActiveAgent|
                {
                    &&& final(self).active_agents@ == #[trigger] old(self).active_agents@.push(a)
                    &&& a.tool_calls@.len() == 0
                    &&& a == (ActiveAgent {
                        agent_id,
                        slug: None,
                        tool_calls: a.tool_calls,
                        status: AgentBlockStatus::Running,
                        start_ms: now,
                        final_elapsed_ms: None,
                    })
                },
            *final(self) == (Screen {
                active_agents: final(self).active_agents,
                prompt: old(self).prompt.touched(),
                ..*old(self)
            }),
    {
        let a = ActiveAgent {
            agent_id,
            slug: None,
            tool_calls: Vec::new(),
            status: AgentBlockStatus::Running,
            start_ms: now,
            final_elapsed_ms: None,
        };
        self.active_agents.push(a);
        self.prompt.dirty = true;
    }

    /// Brings an agent up to date; the clock stops when it ends.
    pub fn update_active_agent(
        &mut self,
        agent_id: &str,
        slug: Option<String>,
        tool_calls: Vec<AgentToolEntry>,
        status: AgentBlockStatus,
        now: u64,
    )
        ensures
            match agent_from(old(self).active_agents@, 0, agent_id@) {
                Some(i) => {
                    let a = old(self).active_agents@[i];
                    let ends = status != AgentBlockStatus::Running && a.status
                        == AgentBlockStatus::Running;
                    &&& final(self).active_agents@ == old(self).active_agents@.update(
                        i,
                        ActiveAgent {
                            slug,
                            tool_calls,
                            status,
                            final_elapsed_ms: if ends {
                                Some(model::since(now, a.start_ms))
                            } else {
                                a.final_elapsed_ms
                            },
                            ..a
                        },
                    )
                    &&& *final(self) == (Screen {
                        active_agents: final(self).active_agents,
                        prompt: old(self).prompt.touched(),
                        ..*old(self)
                    })
                },
                None => *final(self) == *old(self),
            },
    {
        match find_agent(&self.active_agents, agent_id) {
            Some(i) => {
                let a = self.active_agents.remove(i);
                let mut a = a;
                a.slug = slug;
                a.tool_calls = tool_calls;
                if status != AgentBlockStatus::Running && a.status == AgentBlockStatus::Running {
                    a.final_elapsed_ms = Some(now.saturating_sub(a.start_ms));
                }
                a.status = status;
                self.active_agents.insert(i, a);
                assert(self.active_agents@ =~= old(self).active_agents@.update(i as int, a));
                self.prompt.dirty = true;
            },
            None => {},
        }
    }

    /// Ends all agents with an error.
    pub fn cancel_active_agents(&mut self, now: u64)
        ensures
            final(self).active_agents@ == Seq::new(
                old(self).active_agents@.len(),
                |i: int|
                    ActiveAgent {
                        status: AgentBlockStatus::Error,
                        final_elapsed_ms: Some(
                            model::since(now, old(self).active_agents@[i].start_ms),
                        ),
                        ..old(self).active_agents@[i]
                    },
            ),
            *final(self) == (Screen { active_agents: final(self).active_agents, ..*old(self) }),
    {
        let ghost xs = self.active_agents@;
        let n: usize = self.active_agents.len();
        let mut i: usize = 0;
        while i < n
            invariant
                n == xs.len(),
                i <= n,
                self.active_agents@.len() == n,
                xs == old(self).active_agents@,
                *self == (Screen { active_agents: self.active_agents, ..*old(self) }),
                forall|j: int|
                    0 <= j < i ==> #[trigger] self.active_agents@[j] == (ActiveAgent {
                        status: AgentBlockStatus::Error,
                        final_elapsed_ms: Some(model::since(now, xs[j].start_ms)),
                        ..xs[j]
                    }),
                forall|j: int| i <= j < n ==> #[trigger] self.active_agents@[j] == xs[j],
            decreases n - i,
        {
            assert(self.active_agents@[i as int] == xs[i as int]);
            let a = self.active_agents.remove(i);
            let mut a = a;
            a.status = AgentBlockStatus::Error;
            a.final_elapsed_ms = Some(now.saturating_sub(a.start_ms));
            self.active_agents.insert(i, a);
            i = i + 1;
        }
        assert(self.active_agents@ =~= Seq::new(
            xs.len(),
            |i: int|
                ActiveAgent {
                    status: AgentBlockStatus::Error,
                    final_elapsed_ms: Some(model::since(now, xs[i].start_ms)),
                    ..xs[i]
                },
        ));
    }

    /// Turns an agent that ended into a block.
    pub fn finish_active_agent(&mut self, agent_id: &str, now: u64)
        ensures
            match agent_from(old(self).active_agents@, 0, agent_id@) {
                Some(i) => {
                    &&& final(self).active_agents@ == old(self).active_agents@.remove(i)
                    &&& final(self).history@ == old(self).history@.pushed(
                        agent_block(old(self).active_agents@[i], now),
                    )
                    &&& *final(self) == (Screen {
                        history: final(self).history,
                        active_agents: final(self).active_agents,
                        prompt: old(self).prompt.touched(),
                        ..*old(self)
                    })
                },
                None => *final(self) == *old(self),
            },
            old(self).wf() ==> final(self).wf(),
    {
        match find_agent(&self.active_agents, agent_id) {
            Some(i) => {
                let a = self.active_agents.remove(i);
                self.history.push(end_agent(a, now));
                self.prompt.dirty = true;
            },
            None => {},
        }
    }

    /// Turns all agents into blocks.
    pub fn finish_all_active_agents(&mut self, now: u64)
        ensures
            final(self).active_agents@ == Seq::<ActiveAgent>::empty(),
            ({
                let bs = agent_blocks(old(self).active_agents@, now);
                final(self).history@ == with_blocks(old(self).history@, bs, bs.len() as int)
            }),
            *final(self) == (Screen {
                history: final(self).history,
                active_agents: final(self).active_agents,
                prompt: old(self).prompt.touched(),
                ..*old(self)
            }),
            old(self).wf() ==> final(self).wf(),
    {
        let ghost xs = self.active_agents@;
        let ghost bs = agent_blocks(xs, now);
        let ghost h0 = self.history@;
        let mut i: usize = 0;
        let n: usize = self.active_agents.len();
        while i < n
            invariant
                n == xs.len(),
                i <= n,
                xs == old(self).active_agents@,
                bs == agent_blocks(xs, now),
                self.active_agents@ == xs.skip(i as int),
                self.history@ == with_blocks(h0, bs, i as int),
                h0.wf() ==> self.history@.wf(),
                *self == (Screen {
                    history: self.history,
                    active_agents: self.active_agents,
                    ..*old(self)
                }),
            decreases n - i,
        {
            let a = self.active_agents.remove(0);
            assert(xs.skip(i as int)[0] == xs[i as int]);
            assert(self.active_agents@ =~= xs.skip(i + 1));
            self.history.push(end_agent(a, now));
            assert(bs[i as int] == agent_block(xs[i as int], now));
            i = i + 1;
        }
        assert(self.active_agents@ =~= Seq::<ActiveAgent>::empty());
        self.prompt.dirty = true;
    }

    /// Turns everything that runs into blocks; tools end with `status`.
    pub fn commit_active_tools_as(&mut self, status: ToolStatus, now: u64)
        ensures
            final(self).active_agents@ == Seq::<ActiveAgent>::empty(),
            final(self).active_tools@ == Seq::<ActiveTool>::empty(),
            final(self).history@ == old(self).committed(status, now),
            *final(self) == (Screen {
                history: final(self).history,
                active_agents: final(self).active_agents,
                active_tools: final(self).active_tools,
                prompt: old(self).prompt.touched(),
                ..*old(self)
            }),
            old(self).wf() ==> final(self).wf(),
    {
        self.finish_all_active_agents(now);
        let ghost ts = self.active_tools@;
        let ghost bs = tool_blocks(ts, status, now);
        let ghost h0 = self.history@;
        let ghost s0 = *self;
        let mut i: usize = 0;
        let n: usize = self.active_tools.len();
        while i < n
            invariant
                n == ts.len(),
                i <= n,
                bs == tool_blocks(ts, status, now),
                self.active_tools@ == ts.skip(i as int),
                self.history@ == with_blocks(h0, bs, i as int),
                h0.wf() ==> self.history@.wf(),
                *self == (Screen {
                    history: self.history,
                    active_tools: self.active_tools,
                    ..s0
                }),
            decreases n - i,
        {
            let t = self.active_tools.remove(0);
            assert(ts.skip(i as int)[0] == ts[i as int]);
            assert(self.active_tools@ =~= ts.skip(i + 1));
            let elapsed: Option<u64> = if status == ToolStatus::Denied {
                None
            } else if is_timed_tool(t.name.as_str()) {
                Some(now.saturating_sub(t.start_ms))
            } else {
                None
            };
            let b = Block::ToolCall {
                call_id: t.call_id,
                name: t.name,
                summary: t.summary,
                args: t.args,
                status,
                elapsed,
                output: t.output,
                user_message: t.user_message,
            };
            self.history.push(b);
            assert(bs[i as int] == tool_block(ts[i as int], status, now));
            i = i + 1;
        }
        assert(self.active_tools@ =~= Seq::<ActiveTool>::empty());
    }

    /// The history once everything that runs has become blocks.
    pub open spec fn committed(self, status: ToolStatus, now: u64) -> HistoryView {
        let a = agent_blocks(self.active_agents@, now);
        let b = tool_blocks(self.active_tools@, status, now);
        with_blocks(with_blocks(self.history@, a, a.len() as int), b, b.len() as int)
    }

    /// Turns everything that runs into blocks; tools end with an error.
    pub fn commit_active_tools(&mut self, now: u64)
        ensures
            final(self).active_agents@ == Seq::<ActiveAgent>::empty(),
            final(self).active_tools@ == Seq::<ActiveTool>::empty(),
            final(self).history@ == old(self).committed(ToolStatus::Failed, now),
            *final(self) == (Screen {
                history: final(self).history,
                active_agents: final(self).active_agents,
                active_tools: final(self).active_tools,
                prompt: old(self).prompt.touched(),
                ..*old(self)
            }),
            old(self).wf() ==> final(self).wf(),
    {
        self.commit_active_tools_as(ToolStatus::Failed, now);
    }

    // ── Putting out blocks ───────────────────────────────────────────────

    /// Puts out blocks that have not been put out, unless that was put off.
    pub fn render_pending_blocks(
        &mut self,
        out: &mut RenderOut,
        assets: &Assets,
        term: &Term,
        env: &Env,
    )
        requires
            old(self).wf(),
        ensures
            if old(self).defer_pending_render {
                &&& *final(self) == (Screen { defer_pending_render: false, ..*old(self) })
                &&& final(out)@ == old(out)@
            } else if old(self).history@.flushed >= old(self).history@.blocks.len() {
                *final(self) == *old(self) && final(out)@ == old(out)@
            } else {
                let p = pending_put_out(
                    old(self).history@,
                    old(self).prompt,
                    old(self).settings.show_thinking,
                    old(out)@,
                    *term,
                    *env,
                );
                &&& final(self).history@ == p.0
                &&& final(out)@ == p.1
                &&& *final(self) == (Screen {
                    history: final(self).history,
                    prompt: p.2,
                    ..*old(self)
                })
            },
            final(self).wf(),
    {
        if self.defer_pending_render {
            self.defer_pending_render = false;
            return;
        }
        if !self.history.has_unflushed() {
            return;
        }
        begin_frame(out);
        out.queue(Command::Hide);
        let row: u16 = if self.prompt.drawn {
            let row: u16 = match self.prompt.anchor_row {
                Some(r) => r,
                None => 0,
            };
            out.queue(Command::MoveTo(0, row));
            out.queue(Command::Clear(ClearType::FromCursorDown));
            self.prompt.drawn = false;
            self.prompt.prev_rows = 0;
            row
        } else {
            match self.prompt.anchor_row {
                Some(r) => r,
                None => term.cursor_y,
            }
        };
        let rows: u16 = self.history.render(
            out,
            assets,
            term.width as usize,
            self.settings.show_thinking,
            env,
        );
        end_frame(out);
        let end: u16 = row.saturating_add(rows);
        let last: u16 = term.height.saturating_sub(1);
        self.prompt.anchor_row = Some(
            if end < last {
                end
            } else {
                last
            },
        );
    }

    /// Turns tools that run into blocks, and puts out all that is pending.
    pub fn flush_blocks(&mut self, out: &mut RenderOut, assets: &Assets, term: &Term, env: &Env)
        requires
            old(self).wf(),
        ensures
            ({
                let s = *old(self);
                let h = s.committed(ToolStatus::Failed, env.now_ms);
                &&& final(self).active_agents@ == Seq::<ActiveAgent>::empty()
                &&& final(self).active_tools@ == Seq::<ActiveTool>::empty()
                &&& if s.defer_pending_render || h.flushed >= h.blocks.len() {
                    &&& final(self).history@ == h
                    &&& final(out)@ == old(out)@
                    &&& *final(self) == (Screen {
                        history: final(self).history,
                        active_agents: final(self).active_agents,
                        active_tools: final(self).active_tools,
                        defer_pending_render: false,
                        prompt: s.prompt.touched(),
                        ..s
                    })
                } else {
                    let p = pending_put_out(
                        h,
                        s.prompt.touched(),
                        s.settings.show_thinking,
                        old(out)@,
                        *term,
                        *env,
                    );
                    &&& final(self).history@ == p.0
                    &&& final(out)@ == p.1
                    &&& *final(self) == (Screen {
                        history: final(self).history,
                        active_agents: final(self).active_agents,
                        active_tools: final(self).active_tools,
                        prompt: p.2,
                        ..s
                    })
                }
            }),
            final(self).wf(),
    {
        self.commit_active_tools(env.now_ms);
        self.render_pending_blocks(out, assets, term, env);
    }

    /// Draws all blocks anew, as many of the last ones as are kept; with
    /// `purge` the terminal is cleared first, unless that was put off.
    pub fn redraw(
        &mut self,
        out: &mut RenderOut,
        assets: &Assets,
        purge: bool,
        term: &Term,
        env: &Env,
    )
        requires
            old(self).wf(),
        ensures
            ({
                let s = *old(self);
                let purges = purge && !s.defer_redraw;
                let p = redrawn(
                    s.history@,
                    s.content_start_row,
                    s.settings.show_thinking,
                    old(out)@,
                    purges,
                    *term,
                    *env,
                );
                &&& final(self).history@ == p.0
                &&& final(out)@ == p.1
                &&& *final(self) == (Screen {
                    history: final(self).history,
                    defer_redraw: false,
                    has_scrollback: s.has_scrollback && !purges,
                    content_start_row: if purges {
                        Some(0)
                    } else {
                        s.content_start_row
                    },
                    prompt: PromptState {
                        drawn: false,
                        dirty: true,
                        prev_rows: 0,
                        anchor_row: Some(p.2),
                        ..s.prompt
                    },
                    ..s
                })
            }),
            final(self).wf(),
    {
        let purge = if self.defer_redraw {
            self.defer_redraw = false;
            false
        } else {
            purge
        };
        begin_frame(out);
        out.queue(Command::Hide);
        let start: u16 = if purge {
            out.queue(Command::MoveTo(0, 0));
            out.queue(Command::Clear(ClearType::All));
            out.queue(Command::Clear(ClearType::Purge));
            0
        } else {
            let row: u16 = match self.content_start_row {
                Some(r) => r,
                None => 0,
            };
            out.queue(Command::MoveTo(0, row));
            row
        };
        let idx: usize = self.history.redraw_start(
            MAX_REDRAW_LINES,
            self.settings.show_thinking,
        );
        self.history.flushed = idx;
        self.history.last_block_rows = 0;
        let rows: u16 = self.history.render(
            out,
            assets,
            term.width as usize,
            self.settings.show_thinking,
            env,
        );
        let end: u16 = start.saturating_add(rows);
        if !purge {
            screen::clear_rows(out, end, term.height);
        }
        end_frame(out);
        self.prompt.drawn = false;
        self.prompt.dirty = true;
        self.prompt.prev_rows = 0;
        let last: u16 = term.height.saturating_sub(1);
        if purge {
            self.has_scrollback = false;
            self.content_start_row = Some(0);
        }
        self.prompt.anchor_row = Some(
            if end < last {
                end
            } else {
                last
            },
        );
    }

    /// Takes everything away.
    pub fn clear(&mut self, out: &mut RenderOut)
        ensures
            final(out)@ == screen::frame_ended(
                screen::frame_begun(old(out)@).queue(Command::MoveTo(0, 0)).queue(
                    Command::Clear(ClearType::All),
                ).queue(Command::Clear(ClearType::Purge)),
            ),
            final(self).history@ == old(self).history@.cleared(),
            final(self).active_tools@ == Seq::<ActiveTool>::empty(),
            final(self).active_agents@ == Seq::<ActiveAgent>::empty(),
            *final(self) == (Screen {
                history: final(self).history,
                active_thinking: None,
                active_text: None,
                active_tools: final(self).active_tools,
                active_agents: final(self).active_agents,
                active_exec: None,
                prompt: PromptState { anchor_row: Some(0), ..PromptState::initial() },
                working: WorkingState {
                    throbber: None,
                    since: None,
                    final_elapsed: None,
                    tps: None,
                    paused_at: None,
                    ..old(self).working
                },
                context_tokens: None,
                task_label: None,
                has_scrollback: false,
                content_start_row: None,
                ..*old(self)
            }),
            final(self).wf(),
    {
        self.history.clear();
        self.active_thinking = None;
        self.active_text = None;
        self.active_tools.clear();
        self.active_agents.clear();
        self.active_exec = None;
        self.prompt = PromptState::new();
        self.prompt.anchor_row = Some(0);
        self.working.clear();
        self.context_tokens = None;
        self.task_label = None;
        self.has_scrollback = false;
        self.content_start_row = None;
        begin_frame(out);
        out.queue(Command::MoveTo(0, 0));
        out.queue(Command::Clear(ClearType::All));
        out.queue(Command::Clear(ClearType::Purge));
        end_frame(out);
    }

    /// Goes back to the first `block_idx` blocks, and draws them anew.
    pub fn truncate_to(
        &mut self,
        out: &mut RenderOut,
        assets: &Assets,
        block_idx: usize,
        term: &Term,
        env: &Env,
    )
        requires
            old(self).wf(),
        ensures
            ({
                let s = *old(self);
                let purges = !s.defer_redraw;
                let p = redrawn(
                    s.history@.cut(block_idx as int),
                    s.content_start_row,
                    s.settings.show_thinking,
                    old(out)@,
                    purges,
                    *term,
                    *env,
                );
                &&& final(self).history@ == p.0
                &&& final(out)@ == p.1
                &&& final(self).active_tools@ == Seq::<ActiveTool>::empty()
                &&& final(self).active_agents@ == Seq::<ActiveAgent>::empty()
                &&& *final(self) == (Screen {
                    history: final(self).history,
                    active_tools: final(self).active_tools,
                    active_agents: final(self).active_agents,
                    defer_redraw: false,
                    has_scrollback: s.has_scrollback && !purges,
                    content_start_row: if purges {
                        Some(0)
                    } else {
                        s.content_start_row
                    },
                    prompt: PromptState {
                        drawn: false,
                        dirty: true,
                        prev_rows: 0,
                        anchor_row: Some(p.2),
                        ..s.prompt
                    },
                    ..s
                })
            }),
            final(self).wf(),
    {
        self.history.truncate(block_idx);
        self.active_tools.clear();
        self.active_agents.clear();
        self.redraw(out, assets, true, term, env);
    }

    /// Takes up the frame of the spinner.
    pub fn update_spinner(&mut self, now: u64)
        ensures
            *final(self) == old(self).spun(now),
    {
        if self.working.advance_spinner(now) {
            self.prompt.dirty = true;
        }
    }

    /// The spinner's frame is taken up.
    pub open spec fn spun(self, now: u64) -> Screen {
        match self.working.elapsed_at(now) {
            Some(e) => {
                let f = model::frame_number(e);
                Screen {
                    working: WorkingState { last_spinner_frame: f, ..self.working },
                    prompt: if self.working.last_spinner_frame != f {
                        self.prompt.touched()
                    } else {
                        self.prompt
                    },
                    ..self
                }
            },
            None => self,
        }
    }
}

/// A change of the last block.
enum ChangeCall {
    Output,
    Status(ToolStatus),
    Message(String),
    End(ToolStatus, Option<ToolOutput>),
}

/// Whether `b` is the tool call `a` with the change made.
spec fn changed(a: Block, b: Block, c: ChangeCall, chunk: Seq<char>) -> bool {
    match c {
        ChangeCall::Output => {
            &&& same_call(a, b, call_parts(a).0, call_parts(b).1, call_parts(a).2)
            &&& output_added(call_parts(a).1, chunk, call_parts(b).1)
        },
        ChangeCall::Status(s) => same_call(a, b, s, call_parts(a).1, call_parts(a).2),
        ChangeCall::Message(m) => same_call(a, b, call_parts(a).0, call_parts(a).1, Some(m)),
        ChangeCall::End(s, o) => same_call(a, b, s, o, call_parts(a).2),
    }
}

fn apply_change(block: Block, change: ChangeCall, chunk: &str) -> (r: Block)
    ensures
        block is ToolCall ==> changed(block, r, change, chunk@),
{
    match block {
        Block::ToolCall {
            call_id,
            name,
            summary,
            args,
            status,
            elapsed,
            output,
            user_message,
        } => match change {
            ChangeCall::Output => Block::ToolCall {
                call_id,
                name,
                summary,
                args,
                status,
                elapsed,
                output: add_output(output, chunk),
                user_message,
            },
            ChangeCall::Status(s) => Block::ToolCall {
                call_id,
                name,
                summary,
                args,
                status: s,
                elapsed,
                output,
                user_message,
            },
            ChangeCall::Message(m) => Block::ToolCall {
                call_id,
                name,
                summary,
                args,
                status,
                elapsed,
                output,
                user_message: Some(m),
            },
            ChangeCall::End(s, o) => Block::ToolCall {
                call_id,
                name,
                summary,
                args,
                status: s,
                elapsed,
                output: o,
                user_message,
            },
        },
        other => other,
    }
}

fn end_agent(a: ActiveAgent, now: u64) -> (r: Block)
    ensures
        r == agent_block(a, now),
{
    let mut a = a;
    if a.status == AgentBlockStatus::Running {
        a.status = AgentBlockStatus::Done;
        a.final_elapsed_ms = Some(now.saturating_sub(a.start_ms));
    }
    let elapsed: u64 = match a.final_elapsed_ms {
        Some(e) => e,
        None => now.saturating_sub(a.start_ms),
    };
    Block::Agent {
        agent_id: a.agent_id,
        slug: a.slug,
        blocking: true,
        tool_calls: a.tool_calls,
        status: a.status,
        elapsed: Some(elapsed),
    }
}

} // verus!
