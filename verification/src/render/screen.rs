//! The state of the screen.

use vstd::prelude::*;

use crate::render::blocks;
use crate::render::history::{BlockHistory, HistoryView};
use crate::render::input::ViMode;
use crate::render::model::{ActiveAgent, ActiveExec, ActiveTool, Block, Notification, Throbber};
use crate::render::out;
use crate::render::out::{Canvas, ClearType, Color, Command, RenderOut};
use crate::render::prompt;
use crate::render::prompt::BtwBlock;
use crate::render::stream;
use crate::render::stream::{ActiveText, ActiveThinking, Sketch};
use crate::render::tools;
use crate::render::working::{Speed, WorkingState};
use crate::session;
use crate::session::TurnMeta;
use crate::text;
use crate::text::{char_count, ends_with, trim, trim_end};
use crate::theme;
use crate::theme::Theme;

verus! {

#[derive(Clone, Copy, Debug, PartialEq, Eq, Structural)]
pub enum Mode {
    Normal,
    Plan,
    Apply,
    Yolo,
}

#[derive(Clone, Copy, Debug, PartialEq, Eq, Structural)]
pub enum ReasoningEffort {
    Off,
    Low,
    Medium,
    High,
    Max,
}

/// The colour of a reasoning effort.
pub open spec fn effort_color(e: ReasoningEffort, theme: Theme) -> Color {
    match e {
        ReasoningEffort::Off => theme.reason_off_color(),
        ReasoningEffort::Low => Color::AnsiValue(theme::REASON_LOW),
        ReasoningEffort::Medium => Color::AnsiValue(theme::REASON_MED),
        ReasoningEffort::High => Color::AnsiValue(theme::REASON_HIGH),
        ReasoningEffort::Max => Color::AnsiValue(theme::REASON_MAX),
    }
}

/// The colour of a reasoning effort.
pub fn reasoning_color(e: ReasoningEffort, theme: &Theme) -> (r: Color)
    ensures
        r == effort_color(e, *theme),
{
    match e {
        ReasoningEffort::Off => theme::reason_off(theme),
        ReasoningEffort::Low => Color::AnsiValue(theme::REASON_LOW),
        ReasoningEffort::Medium => Color::AnsiValue(theme::REASON_MED),
        ReasoningEffort::High => Color::AnsiValue(theme::REASON_HIGH),
        ReasoningEffort::Max => Color::AnsiValue(theme::REASON_MAX),
    }
}

/// The size of the terminal, and the row of the cursor.
#[derive(Clone, Copy, Debug, PartialEq, Eq, Structural)]
pub struct Term {
    pub width: u16,
    pub height: u16,
    pub cursor_y: u16,
}

/// Where the prompt was drawn.
#[derive(Clone, Copy, Debug, PartialEq, Eq, Structural)]
pub struct PromptState {
    /// The row at which the next frame starts.
    pub anchor_row: Option<u16>,
    pub drawn: bool,
    pub dirty: bool,
    /// Rows that the last frame drew behind the blocks.
    pub prev_rows: u16,
    /// The row at which a dialog starts.
    pub prev_dialog_row: Option<u16>,
    /// The first line of the input that is shown.
    pub input_scroll: usize,
}

impl PromptState {
    pub open spec fn initial() -> PromptState {
        PromptState {
            anchor_row: None,
            drawn: false,
            dirty: true,
            prev_rows: 0,
            prev_dialog_row: None,
            input_scroll: 0,
        }
    }

    /// To be drawn anew.
    pub open spec fn touched(self) -> PromptState {
        PromptState { dirty: true, ..self }
    }

    pub fn new() -> (r: PromptState)
        ensures
            r == PromptState::initial(),
    {
        PromptState {
            anchor_row: None,
            drawn: false,
            dirty: true,
            prev_rows: 0,
            prev_dialog_row: None,
            input_scroll: 0,
        }
    }
}

/// What is shown of a turn's numbers and names.
#[derive(Clone, Copy, Debug, PartialEq, Eq, Structural)]
pub struct Settings {
    pub show_tps: bool,
    pub show_tokens: bool,
    pub show_cost: bool,
    pub show_slug: bool,
    pub show_thinking: bool,
}

/// The state of the screen.
pub struct Screen {
    pub history: BlockHistory,
    pub active_thinking: Option<ActiveThinking>,
    pub active_text: Option<ActiveText>,
    pub active_tools: Vec<ActiveTool>,
    pub active_agents: Vec<ActiveAgent>,
    pub active_exec: Option<ActiveExec>,
    pub prompt: PromptState,
    pub working: WorkingState,
    pub context_tokens: Option<u32>,
    pub context_window: Option<u32>,
    pub model_label: Option<String>,
    pub reasoning_effort: ReasoningEffort,
    /// Content has been scrolled out of the terminal.
    pub has_scrollback: bool,
    /// The row at which the conversation starts.
    pub content_start_row: Option<u16>,
    /// The next call that puts out pending blocks does nothing.
    pub defer_pending_render: bool,
    /// The next redraw does not purge.
    pub defer_redraw: bool,
    /// A dialog waits until the user stops typing.
    pub pending_dialog: bool,
    pub dialog_open: bool,
    pub running_procs: usize,
    pub running_agents: usize,
    pub settings: Settings,
    pub last_vim_enabled: bool,
    pub last_vim_mode: Option<ViMode>,
    pub last_mode: Mode,
    /// Tools that run are shown above the dialog.
    pub show_tool_in_dialog: bool,
    pub btw: Option<BtwBlock>,
    pub notification: Option<Notification>,
    pub task_label: Option<String>,
}

/// Rows that a full redraw renders at most.
pub const MAX_REDRAW_LINES: u16 = 2000;

/// Starts an update that the terminal shows as a whole.
pub open spec fn frame_begun(m: Canvas) -> Canvas {
    m.queue(Command::BeginSynchronizedUpdate)
}

/// Ends an update that the terminal shows as a whole.
pub open spec fn frame_ended(m: Canvas) -> Canvas {
    m.queue(Command::EndSynchronizedUpdate).queue(Command::Flush)
}

/// Starts an update that the terminal shows as a whole.
pub fn begin_frame(out: &mut RenderOut)
    ensures
        final(out)@ == frame_begun(old(out)@),
{
    out.queue(Command::BeginSynchronizedUpdate);
}

/// Ends an update that the terminal shows as a whole.
pub fn end_frame(out: &mut RenderOut)
    ensures
        final(out)@ == frame_ended(old(out)@),
{
    out.queue(Command::EndSynchronizedUpdate);
    out.queue(Command::Flush);
}

/// Clears the rows from `from` up to `to`.
pub open spec fn rows_cleared(m: Canvas, from: int, to: int) -> Canvas
    decreases to - from,
{
    if from >= to {
        m
    } else {
        rows_cleared(m, from, to - 1).queue(Command::MoveTo(0, (to - 1) as u16)).queue(
            Command::Clear(ClearType::CurrentLine),
        )
    }
}

pub(crate) fn clear_rows(out: &mut RenderOut, from: u16, to: u16)
    ensures
        final(out)@ == rows_cleared(old(out)@, from as int, to as int),
{
    let mut row: u16 = from;
    while row < to
        invariant
            from <= row,
            row <= to || row == from,
            out@ == rows_cleared(old(out)@, from as int, row as int),
        decreases to - row,
    {
        out.queue(Command::MoveTo(0, row));
        out.queue(Command::Clear(ClearType::CurrentLine));
        row = row + 1;
    }
}

/// The smaller of two rows.
pub open spec fn lower(a: u16, b: u16) -> u16 {
    if a < b {
        a
    } else {
        b
    }
}

fn min_row(a: u16, b: u16) -> (r: u16)
    ensures
        r == lower(a, b),
{
    if a < b {
        a
    } else {
        b
    }
}

/// A row, or `b` when there is none.
pub open spec fn row_or(a: Option<u16>, b: u16) -> u16 {
    match a {
        Some(r) => r,
        None => b,
    }
}

fn row_or_else(a: Option<u16>, b: u16) -> (r: u16)
    ensures
        r == row_or(a, b),
{
    match a {
        Some(r) => r,
        None => b,
    }
}

/// `a - b`, or zero.
pub open spec fn rows_minus(a: u16, b: u16) -> u16 {
    if a > b {
        (a - b) as u16
    } else {
        0
    }
}

impl Screen {
    pub open spec fn wf(self) -> bool {
        self.history@.wf()
    }

    /// Whether what is kept of the blocks belongs to them.
    pub fn is_wf(&self) -> (r: bool)
        ensures
            r == self.wf(),
    {
        self.history.is_wf()
    }

    pub fn new() -> (r: Screen)
        ensures
            r.wf(),
            r.history@ == HistoryView::empty(),
            r.active_thinking is None,
            r.active_text is None,
            r.active_tools@ == Seq::<ActiveTool>::empty(),
            r.active_agents@ == Seq::<ActiveAgent>::empty(),
            r.active_exec is None,
            r.prompt == PromptState::initial(),
            r.working.throbber is None,
            r.working.since is None,
            r.working.final_elapsed is None,
            r.working.paused_at is None,
            r.working.retry_deadline is None,
            r.working.last_spinner_frame == u64::MAX,
            r.working.tps is None,
            r.context_tokens is None,
            r.context_window is None,
            r.model_label is None,
            r.reasoning_effort == ReasoningEffort::Off,
            !r.has_scrollback,
            r.content_start_row is None,
            !r.defer_pending_render,
            !r.defer_redraw,
            !r.pending_dialog,
            !r.dialog_open,
            r.running_procs == 0,
            r.running_agents == 0,
            r.settings == (Settings {
                show_tps: true,
                show_tokens: true,
                show_cost: true,
                show_slug: true,
                show_thinking: true,
            }),
            !r.last_vim_enabled,
            r.last_vim_mode is None,
            r.last_mode == Mode::Normal,
            !r.show_tool_in_dialog,
            r.btw is None,
            r.notification is None,
            r.task_label is None,
    {
        Screen {
            history: BlockHistory::new(),
            active_thinking: None,
            active_text: None,
            active_tools: Vec::new(),
            active_agents: Vec::new(),
            active_exec: None,
            prompt: PromptState::new(),
            working: WorkingState::new(),
            context_tokens: None,
            context_window: None,
            model_label: None,
            reasoning_effort: ReasoningEffort::Off,
            has_scrollback: false,
            content_start_row: None,
            defer_pending_render: false,
            defer_redraw: false,
            pending_dialog: false,
            dialog_open: false,
            running_procs: 0,
            running_agents: 0,
            settings: Settings {
                show_tps: true,
                show_tokens: true,
                show_cost: true,
                show_slug: true,
                show_thinking: true,
            },
            last_vim_enabled: false,
            last_vim_mode: None,
            last_mode: Mode::Normal,
            show_tool_in_dialog: false,
            btw: None,
            notification: None,
            task_label: None,
        }
    }

    /// Sets the row at which the next frame starts.
    pub fn set_anchor_row(&mut self, row: u16)
        ensures
            *final(self) == (Screen {
                prompt: PromptState { anchor_row: Some(row), ..old(self).prompt },
                ..*old(self)
            }),
    {
        self.prompt.anchor_row = Some(row);
    }

    pub fn block_count(&self) -> (r: usize)
        ensures
            r == self.history@.blocks.len(),
    {
        self.history.blocks.len()
    }

    pub fn blocks(&self) -> (r: &Vec<Block>)
        ensures
            r@ == self.history@.blocks,
    {
        &self.history.blocks
    }

    // ── Side questions and notifications ─────────────────────────────────

    pub fn set_btw(&mut self, question: String, image_labels: Vec<String>)
        ensures
            *final(self) == (Screen {
                btw: final(self).btw,
                prompt: old(self).prompt.touched(),
                ..*old(self)
            }),
            final(self).btw is Some,
            final(self).btw->0@ == (prompt::BtwView {
                question: question@,
                labels: text::texts(image_labels@),
                response: None,
                wrapped: seq![],
                scroll: 0,
                width: 0,
            }),
    {
        self.btw = Some(BtwBlock::new(question, image_labels));
        self.prompt.dirty = true;
    }

    pub fn set_btw_response(&mut self, content: String)
        ensures
            match old(self).btw {
                Some(b) => {
                    &&& *final(self) == (Screen {
                        btw: final(self).btw,
                        prompt: old(self).prompt.touched(),
                        ..*old(self)
                    })
                    &&& final(self).btw is Some
                    &&& final(self).btw->0@ == (prompt::BtwView {
                        response: Some(content@),
                        wrapped: seq![],
                        scroll: 0,
                        width: 0,
                        ..b@
                    })
                },
                None => *final(self) == *old(self),
            },
    {
        match self.btw.take() {
            Some(b) => {
                let mut b = b;
                b.answer(content);
                self.btw = Some(b);
                self.prompt.dirty = true;
            },
            None => {},
        }
    }

    pub fn dismiss_btw(&mut self)
        ensures
            *final(self) == (if old(self).btw is Some {
                Screen { btw: None, prompt: old(self).prompt.touched(), ..*old(self) }
            } else {
                *old(self)
            }),
    {
        if self.btw.is_some() {
            self.btw = None;
            self.prompt.dirty = true;
        }
    }

    pub fn has_btw(&self) -> (r: bool)
        ensures
            r == self.btw is Some,
    {
        self.btw.is_some()
    }

    /// Scrolls the answer to a side question; the result is whether it moved.
    pub fn btw_scroll(&mut self, delta: isize, term: &Term) -> (r: bool)
        ensures
            match old(self).btw {
                None => !r && *final(self) == *old(self),
                Some(b) => {
                    let room = tools::at_least_one(prompt::btw_room(term.height as int));
                    let to = if b@.wrapped.len() == 0 {
                        b@.scroll
                    } else {
                        prompt::scrolled(b@, delta as int, room)
                    };
                    &&& r == (to != b@.scroll)
                    &&& final(self).btw is Some
                    &&& final(self).btw->0@ == (prompt::BtwView { scroll: to, ..b@ })
                    &&& *final(self) == (Screen {
                        btw: final(self).btw,
                        prompt: if r {
                            old(self).prompt.touched()
                        } else {
                            old(self).prompt
                        },
                        ..*old(self)
                    })
                },
            },
    {
        match self.btw.take() {
            None => false,
            Some(b) => {
                let mut b = b;
                let moved = b.scroll(delta, term.height as usize);
                self.btw = Some(b);
                if moved {
                    self.prompt.dirty = true;
                }
                moved
            },
        }
    }

    pub fn notify(&mut self, message: String)
        ensures
            *final(self) == (Screen {
                notification: Some(Notification { message, is_error: false }),
                prompt: old(self).prompt.touched(),
                ..*old(self)
            }),
    {
        self.notification = Some(Notification { message, is_error: false });
        self.prompt.dirty = true;
    }

    pub fn notify_error(&mut self, message: String)
        ensures
            *final(self) == (Screen {
                notification: Some(Notification { message, is_error: true }),
                prompt: old(self).prompt.touched(),
                ..*old(self)
            }),
    {
        self.notification = Some(Notification { message, is_error: true });
        self.prompt.dirty = true;
    }

    pub fn dismiss_notification(&mut self)
        ensures
            *final(self) == (if old(self).notification is Some {
                Screen { notification: None, prompt: old(self).prompt.touched(), ..*old(self) }
            } else {
                *old(self)
            }),
    {
        if self.notification.is_some() {
            self.notification = None;
            self.prompt.dirty = true;
        }
    }

    pub fn has_notification(&self) -> (r: bool)
        ensures
            r == self.notification is Some,
    {
        self.notification.is_some()
    }

    // ── Settings and labels ──────────────────────────────────────────────

    pub fn apply_settings(&mut self, s: Settings)
        ensures
            *final(self) == (Screen {
                settings: s,
                prompt: old(self).prompt.touched(),
                ..*old(self)
            }),
    {
        self.settings = s;
        self.prompt.dirty = true;
    }

    pub fn set_running_procs(&mut self, count: usize)
        ensures
            *final(self) == (if count == old(self).running_procs {
                *old(self)
            } else {
                Screen {
                    running_procs: count,
                    prompt: old(self).prompt.touched(),
                    ..*old(self)
                }
            }),
    {
        if count != self.running_procs {
            self.running_procs = count;
            self.prompt.dirty = true;
        }
    }

    pub fn set_agent_count(&mut self, count: usize)
        ensures
            *final(self) == (if count == old(self).running_agents {
                *old(self)
            } else {
                Screen {
                    running_agents: count,
                    prompt: old(self).prompt.touched(),
                    ..*old(self)
                }
            }),
    {
        if count != self.running_agents {
            self.running_agents = count;
            self.prompt.dirty = true;
        }
    }

    pub fn set_show_tool_in_dialog(&mut self, show: bool)
        ensures
            *final(self) == (Screen {
                show_tool_in_dialog: show,
                prompt: old(self).prompt.touched(),
                ..*old(self)
            }),
    {
        self.show_tool_in_dialog = show;
        self.prompt.dirty = true;
    }

    pub fn set_context_tokens(&mut self, tokens: u32)
        ensures
            *final(self) == (Screen {
                context_tokens: Some(tokens),
                prompt: old(self).prompt.touched(),
                ..*old(self)
            }),
    {
        self.context_tokens = Some(tokens);
        self.prompt.dirty = true;
    }

    pub fn set_context_window(&mut self, window: u32)
        ensures
            *final(self) == (Screen {
                context_window: Some(window),
                prompt: old(self).prompt.touched(),
                ..*old(self)
            }),
    {
        self.context_window = Some(window);
        self.prompt.dirty = true;
    }

    pub fn clear_context_tokens(&mut self)
        ensures
            *final(self) == (Screen {
                context_tokens: None,
                prompt: old(self).prompt.touched(),
                ..*old(self)
            }),
    {
        self.context_tokens = None;
        self.prompt.dirty = true;
    }

    pub fn context_tokens(&self) -> (r: Option<u32>)
        ensures
            r == self.context_tokens,
    {
        self.context_tokens
    }

    pub fn set_model_label(&mut self, label: String)
        ensures
            *final(self) == (Screen {
                model_label: Some(label),
                prompt: old(self).prompt.touched(),
                ..*old(self)
            }),
    {
        self.model_label = Some(label);
        self.prompt.dirty = true;
    }

    /// Sets the name of the task; a blank one takes it away.
    pub fn set_task_label(&mut self, label: String)
        ensures
            *final(self) == (Screen {
                task_label: if text::trimmed(label@).len() == 0 {
                    None
                } else {
                    Some(label)
                },
                prompt: old(self).prompt.touched(),
                ..*old(self)
            }),
    {
        let t = trim(label.as_str());
        if char_count(t.as_str()) == 0 {
            self.task_label = None;
        } else {
            self.task_label = Some(label);
        }
        self.prompt.dirty = true;
    }

    pub fn clear_task_label(&mut self)
        ensures
            *final(self) == (Screen {
                task_label: None,
                prompt: old(self).prompt.touched(),
                ..*old(self)
            }),
    {
        self.task_label = None;
        self.prompt.dirty = true;
    }

    pub fn set_reasoning_effort(&mut self, effort: ReasoningEffort)
        ensures
            *final(self) == (Screen {
                reasoning_effort: effort,
                prompt: old(self).prompt.touched(),
                ..*old(self)
            }),
    {
        self.reasoning_effort = effort;
        self.prompt.dirty = true;
    }

    // ── Work ─────────────────────────────────────────────────────────────

    pub fn working_throbber(&self) -> (r: Option<Throbber>)
        ensures
            r == self.working.throbber,
    {
        self.working.throbber
    }

    pub fn set_throbber(&mut self, state: Throbber, now: u64)
        ensures
            *final(self) == (Screen {
                working: old(self).working.with_throbber(state, now),
                prompt: old(self).prompt.touched(),
                ..*old(self)
            }),
    {
        self.working.set_throbber(state, now);
        self.prompt.dirty = true;
    }

    /// Takes the average speed.
    pub fn set_tps(&mut self, tps: Option<Speed>)
        ensures
            *final(self) == (Screen {
                working: WorkingState { tps, ..old(self).working },
                prompt: old(self).prompt.touched(),
                ..*old(self)
            }),
    {
        self.working.set_tps(tps);
        self.prompt.dirty = true;
    }

    pub fn clear_throbber(&mut self)
        ensures
            *final(self) == (Screen {
                working: WorkingState {
                    throbber: None,
                    since: None,
                    final_elapsed: None,
                    tps: None,
                    paused_at: None,
                    ..old(self).working
                },
                prompt: old(self).prompt.touched(),
                ..*old(self)
            }),
    {
        self.working.clear();
        self.prompt.dirty = true;
    }

    /// How long the turn took, how fast it was, and whether it was
    /// interrupted; nothing before there was one.
    pub fn turn_meta(&self, now: u64) -> (r: Option<TurnMeta>)
        ensures
            match r {
                Some(t) => self.working.meta_at(now) == Some(session::turn_view(t)),
                None => self.working.meta_at(now) is None,
            },
    {
        self.working.turn_meta(now)
    }

    /// Takes up how a turn ended; its speed, if it has one, is `words` in
    /// words.
    pub fn restore_from_turn_meta(&mut self, meta: &TurnMeta, words: String)
        ensures
            *final(self) == (Screen {
                working: old(self).working.restored(session::turn_view(*meta), words),
                prompt: old(self).prompt.touched(),
                ..*old(self)
            }),
    {
        self.working.restore_from_turn_meta(meta, words);
        self.prompt.dirty = true;
    }

    pub fn set_pending_dialog(&mut self, pending: bool)
        ensures
            *final(self) == (Screen {
                pending_dialog: pending,
                prompt: old(self).prompt.touched(),
                ..*old(self)
            }),
    {
        self.pending_dialog = pending;
        self.prompt.dirty = true;
    }

    /// Opens or closes the dialog; the clock stands while one is open.
    pub fn set_dialog_open(&mut self, open: bool, now: u64)
        ensures
            *final(self) == (if open == old(self).dialog_open {
                *old(self)
            } else {
                Screen {
                    dialog_open: open,
                    working: if open {
                        old(self).working.paused(now)
                    } else {
                        old(self).working.resumed(now)
                    },
                    prompt: old(self).prompt.touched(),
                    ..*old(self)
                }
            }),
    {
        if open == self.dialog_open {
            return;
        }
        self.dialog_open = open;
        if open {
            self.working.pause(now);
        } else {
            self.working.resume(now);
        }
        self.prompt.dirty = true;
    }

    pub fn mark_dirty(&mut self)
        ensures
            *final(self) == (Screen { prompt: old(self).prompt.touched(), ..*old(self) }),
    {
        self.prompt.dirty = true;
    }

    pub fn is_dirty(&self) -> (r: bool)
        ensures
            r == (self.prompt.dirty || self.history@.flushed < self.history@.blocks.len()),
    {
        self.prompt.dirty || self.history.has_unflushed()
    }

    /// Asks for the cursor of the input to be in the middle.
    pub fn center_input_scroll(&mut self)
        ensures
            *final(self) == (Screen {
                prompt: PromptState { input_scroll: usize::MAX, dirty: true, ..old(self).prompt },
                ..*old(self)
            }),
    {
        self.prompt.input_scroll = usize::MAX;
        self.prompt.dirty = true;
    }

    pub fn has_history(&self) -> (r: bool)
        ensures
            r == (self.history@.blocks.len() > 0),
    {
        self.history.blocks.len() > 0
    }

    /// Whether there is anything above the prompt.
    pub open spec fn content_above(self) -> bool {
        self.history@.blocks.len() > 0 || self.active_thinking is Some || self.active_text is Some
            || self.active_tools@.len() > 0 || self.active_agents@.len() > 0
            || self.active_exec is Some
    }

    pub fn has_content(&self) -> (r: bool)
        ensures
            r == self.content_above(),
    {
        self.history.blocks.len() > 0 || self.active_thinking.is_some()
            || self.active_text.is_some() || self.active_tools.len() > 0
            || self.active_agents.len() > 0 || self.active_exec.is_some()
    }

    /// Whether a frame has anything to draw.
    pub open spec fn wants_draw(self, is_dialog: bool) -> bool {
        self.history@.flushed < self.history@.blocks.len() || (self.prompt.dirty && (!is_dialog
            || self.show_tool_in_dialog))
    }

    pub fn needs_draw(&self, is_dialog: bool) -> (r: bool)
        ensures
            r == self.wants_draw(is_dialog),
    {
        let new_blocks = self.history.has_unflushed();
        if is_dialog {
            new_blocks || (self.show_tool_in_dialog && self.prompt.dirty)
        } else {
            new_blocks || self.prompt.dirty
        }
    }

    /// Asks for the prompt to be drawn anew.
    pub fn erase_prompt(&mut self)
        ensures
            *final(self) == (if old(self).prompt.drawn {
                Screen {
                    prompt: PromptState { drawn: false, dirty: true, ..old(self).prompt },
                    ..*old(self)
                }
            } else {
                *old(self)
            }),
    {
        if self.prompt.drawn {
            self.prompt.drawn = false;
            self.prompt.dirty = true;
        }
    }

    // ── Dialogs ──────────────────────────────────────────────────────────

    /// The row at which a dialog starts.
    pub fn dialog_row(&self) -> (r: u16)
        ensures
            r == row_or(self.prompt.prev_dialog_row, 0),
    {
        row_or_else(self.prompt.prev_dialog_row, 0)
    }

    /// Follows a dialog that scrolled the terminal to make room.
    pub fn sync_dialog_anchor(&mut self, actual: Option<u16>)
        ensures
            *final(self) == (match actual {
                None => *old(self),
                Some(a) => {
                    let expected = row_or(old(self).prompt.prev_dialog_row, a);
                    if a >= expected {
                        *old(self)
                    } else {
                        Screen {
                            has_scrollback: true,
                            prompt: PromptState {
                                anchor_row: match old(self).prompt.anchor_row {
                                    Some(r) => Some(rows_minus(r, (expected - a) as u16)),
                                    None => None,
                                },
                                prev_dialog_row: Some(a),
                                ..old(self).prompt
                            },
                            ..*old(self)
                        }
                    }
                },
            }),
    {
        match actual {
            None => {},
            Some(a) => {
                let expected: u16 = row_or_else(self.prompt.prev_dialog_row, a);
                if a < expected {
                    let deficit: u16 = expected - a;
                    match self.prompt.anchor_row {
                        Some(r) => {
                            self.prompt.anchor_row = Some(r.saturating_sub(deficit));
                        },
                        None => {},
                    }
                    self.has_scrollback = true;
                    self.prompt.prev_dialog_row = Some(a);
                }
            },
        }
    }

    /// The first row that is cleared when a dialog goes.
    pub open spec fn cleared_from(self, dialog_anchor: Option<u16>) -> u16 {
        let row = row_or(dialog_anchor, 0);
        if self.show_tool_in_dialog {
            lower(row_or(self.prompt.anchor_row, row), row)
        } else {
            row
        }
    }

    /// Takes a dialog away: its rows are cleared, and the prompt is drawn
    /// anew where it was, or where the dialog was if that scrolled the
    /// terminal.
    pub fn clear_dialog_area(
        &mut self,
        out: &mut RenderOut,
        dialog_anchor: Option<u16>,
        term: &Term,
    )
        ensures
            ({
                let s = *old(self);
                let row = row_or(dialog_anchor, 0);
                let from = s.cleared_from(dialog_anchor);
                let scrolled = row_or(s.prompt.anchor_row, row) == 0 && s.has_scrollback;
                let moved = scrolled || s.prompt.anchor_row is None;
                &&& final(out)@ == frame_ended(
                    rows_cleared(frame_begun(old(out)@), from as int, term.height as int),
                )
                &&& final(self).history@ == (HistoryView {
                    suppress: s.history@.suppress || scrolled,
                    ..s.history@
                })
                &&& *final(self) == (Screen {
                    history: final(self).history,
                    defer_pending_render: true,
                    defer_redraw: true,
                    show_tool_in_dialog: false,
                    prompt: PromptState {
                        anchor_row: if moved {
                            Some(from)
                        } else {
                            s.prompt.anchor_row
                        },
                        prev_rows: if moved {
                            0
                        } else {
                            s.prompt.prev_rows
                        },
                        drawn: false,
                        dirty: true,
                        prev_dialog_row: None,
                        ..s.prompt
                    },
                    ..s
                })
            }),
    {
        let row: u16 = row_or_else(dialog_anchor, 0);
        let screen_anchor: u16 = row_or_else(self.prompt.anchor_row, row);
        let from: u16 = if self.show_tool_in_dialog {
            min_row(screen_anchor, row)
        } else {
            row
        };
        begin_frame(out);
        clear_rows(out, from, term.height);
        let scrolled = screen_anchor == 0 && self.has_scrollback;
        if scrolled {
            self.history.suppress_leading_gap = true;
        }
        self.defer_pending_render = true;
        self.defer_redraw = true;
        self.show_tool_in_dialog = false;
        if scrolled || self.prompt.anchor_row.is_none() {
            self.prompt.anchor_row = Some(from);
            self.prompt.prev_rows = 0;
        }
        self.prompt.drawn = false;
        self.prompt.dirty = true;
        self.prompt.prev_dialog_row = None;
        end_frame(out);
    }

    /// Goes to the line behind the prompt, so that a shell goes on there.
    pub fn move_cursor_past_prompt(&self, out: &mut RenderOut, clear_below: bool, term: &Term)
        ensures
            final(out)@ == (if self.prompt.drawn {
                let last = out::rows_plus(
                    row_or(self.prompt.anchor_row, 0),
                    rows_minus(self.prompt.prev_rows, 1),
                );
                let m = old(out)@.queue(
                    Command::MoveTo(0, lower(last, rows_minus(term.height, 1))),
                ).print("\r\n\r\n"@);
                let m = if clear_below {
                    m.queue(Command::Clear(ClearType::FromCursorDown))
                } else {
                    m
                };
                m.queue(Command::Flush)
            } else {
                old(out)@
            }),
    {
        if !self.prompt.drawn {
            return;
        }
        let anchor: u16 = row_or_else(self.prompt.anchor_row, 0);
        let last: u16 = anchor.saturating_add(self.prompt.prev_rows.saturating_sub(1));
        out.queue(Command::MoveTo(0, min_row(last, term.height.saturating_sub(1))));
        out.print("\r\n\r\n");
        if clear_below {
            out.queue(Command::Clear(ClearType::FromCursorDown));
        }
        out.queue(Command::Flush);
    }

    // ── Blocks ───────────────────────────────────────────────────────────

    pub fn begin_turn(&mut self)
        ensures
            final(self).history@ == (HistoryView { last_block_rows: 0, ..old(self).history@ }),
            final(self).active_tools@ == Seq::<ActiveTool>::empty(),
            *final(self) == (Screen {
                history: final(self).history,
                active_tools: final(self).active_tools,
                ..*old(self)
            }),
    {
        self.history.last_block_rows = 0;
        self.active_tools.clear();
    }

    /// The text of a block that is trimmed when it is added.
    pub open spec fn tidy(b: Block) -> Option<Seq<char>> {
        match b {
            Block::Text { content } => Some(text::trimmed(content@)),
            Block::AgentMessage { from_id: _, from_slug: _, content } => Some(
                text::trimmed(content@),
            ),
            Block::Thinking { content } => Some(text::trimmed(content@)),
            Block::Compacted { summary } => Some(text::trimmed(summary@)),
            _ => None,
        }
    }

    /// Whether `b` is `a` with its text trimmed.
    pub open spec fn is_tidied(a: Block, b: Block) -> bool {
        match (a, b) {
            (Block::Text { content }, Block::Text { content: t }) => t@ == text::trimmed(content@),
            (
                Block::AgentMessage { from_id, from_slug, content },
                Block::AgentMessage { from_id: i, from_slug: s, content: t },
            ) => i == from_id && s == from_slug && t@ == text::trimmed(content@),
            (Block::Thinking { content }, Block::Thinking { content: t }) => t@ == text::trimmed(
                content@,
            ),
            (Block::Compacted { summary }, Block::Compacted { summary: t }) => t@ == text::trimmed(
                summary@,
            ),
            _ => Screen::tidy(a) is None && b == a,
        }
    }

    /// Adds a block: text is trimmed, and blank text is not added.
    pub fn push(&mut self, block: Block)
        ensures
            ({
                let blank = match Screen::tidy(block) {
                    Some(t) => t.len() == 0,
                    None => false,
                };
                if blank {
                    *final(self) == *old(self)
                } else {
                    &&& exists|b: Block|
                        Screen::is_tidied(block, b) && final(self).history@ == (
                        #[trigger] old(self).history@.pushed(b))
                    &&& *final(self) == (Screen {
                        history: final(self).history,
                        prompt: old(self).prompt.touched(),
                        ..*old(self)
                    })
                }
            }),
            old(self).wf() ==> final(self).wf(),
    {
        let ghost a = block;
        let b = match block {
            Block::Text { content } => {
                let t = trim(content.as_str());
                if char_count(t.as_str()) == 0 {
                    return;
                }
                Block::Text { content: t }
            },
            Block::AgentMessage { from_id, from_slug, content } => {
                let t = trim(content.as_str());
                if char_count(t.as_str()) == 0 {
                    return;
                }
                Block::AgentMessage { from_id, from_slug, content: t }
            },
            Block::Thinking { content } => {
                let t = trim(content.as_str());
                if char_count(t.as_str()) == 0 {
                    return;
                }
                Block::Thinking { content: t }
            },
            Block::Compacted { summary } => {
                let t = trim(summary.as_str());
                if char_count(t.as_str()) == 0 {
                    return;
                }
                Block::Compacted { summary: t }
            },
            other => other,
        };
        assert(Screen::is_tidied(a, b));
        self.history.push(b);
        self.prompt.dirty = true;
    }

    /// The messages of the user, with the numbers of their blocks.
    pub open spec fn turns(blocks: Seq<Block>, n: int) -> Seq<(int, Seq<char>)>
        decreases n,
    {
        if n <= 0 {
            seq![]
        } else {
            match blocks[n - 1] {
                Block::User { text: t, image_labels: _ } => Screen::turns(blocks, n - 1).push(
                    (n - 1, t@),
                ),
                _ => Screen::turns(blocks, n - 1),
            }
        }
    }

    /// The messages of the user, with the numbers of their blocks.
    pub fn user_turns(&self) -> (r: Vec<(usize, String)>)
        ensures
            Seq::new(r@.len(), |i: int| (r@[i].0 as int, r@[i].1@)) == Screen::turns(
                self.history@.blocks,
                self.history@.blocks.len() as int,
            ),
    {
        let blocks = &self.history.blocks;
        let mut r: Vec<(usize, String)> = Vec::new();
        let mut i: usize = 0;
        assert(Seq::new(r@.len(), |i: int| (r@[i].0 as int, r@[i].1@)) =~= seq![]);
        while i < blocks.len()
            invariant
                i <= blocks@.len(),
                Seq::new(r@.len(), |i: int| (r@[i].0 as int, r@[i].1@)) == Screen::turns(
                    blocks@,
                    i as int,
                ),
            decreases blocks@.len() - i,
        {
            match &blocks[i] {
                Block::User { text: t, image_labels: _ } => {
                    let ghost before = Seq::new(
                        r@.len(),
                        |i: int| (r@[i].0 as int, r@[i].1@),
                    );
                    let c = t.clone();
                    r.push((i, c));
                    assert(Seq::new(r@.len(), |i: int| (r@[i].0 as int, r@[i].1@)) =~= before.push(
                        (i as int, c@),
                    ));
                },
                _ => {},
            }
            i = i + 1;
        }
        r
    }

    // ── Streaming ────────────────────────────────────────────────────────

    /// The thoughts that come in, as they stand.
    pub open spec fn think_state(self) -> stream::ThinkState {
        match self.active_thinking {
            Some(a) => a.state(seq![]),
            None => stream::ThinkState { line: seq![], paragraph: seq![], new: seq![] },
        }
    }

    /// Takes a piece of thoughts.
    pub fn append_streaming_thinking(&mut self, delta: &str)
        ensures
            ({
                let s = stream::think_chars(
                    old(self).think_state(),
                    delta@,
                    delta@.len() as int,
                );
                &&& final(self).active_thinking is Some
                &&& final(self).active_thinking->0.state(s.new) == s
                &&& stream::grown(old(self).history@, final(self).history@, s.new)
                &&& *final(self) == (Screen {
                    history: final(self).history,
                    active_thinking: final(self).active_thinking,
                    prompt: old(self).prompt.touched(),
                    ..*old(self)
                })
            }),
            old(self).wf() ==> final(self).wf(),
    {
        let mut a = match self.active_thinking.take() {
            Some(a) => a,
            None => ActiveThinking::new(),
        };
        let ghost h0 = self.history@;
        let ghost s = stream::think_chars(a.state(seq![]), delta@, delta@.len() as int);
        a.feed(&mut self.history, delta);
        proof {
            if h0.wf() {
                stream::lemma_grown_wf(h0, self.history@, s.new);
            }
        }
        self.active_thinking = Some(a);
        self.prompt.dirty = true;
    }

    /// What thoughts that end leave.
    pub open spec fn think_left(self) -> Seq<Sketch> {
        match self.active_thinking {
            Some(a) => stream::think_rest(a.current_line@, a.paragraph@),
            None => seq![],
        }
    }

    /// Ends the thoughts.
    pub fn flush_streaming_thinking(&mut self)
        ensures
            stream::grown(old(self).history@, final(self).history@, old(self).think_left()),
            *final(self) == (Screen {
                history: final(self).history,
                active_thinking: None,
                prompt: if old(self).active_thinking is Some {
                    old(self).prompt.touched()
                } else {
                    old(self).prompt
                },
                ..*old(self)
            }),
            old(self).wf() ==> final(self).wf(),
    {
        let ghost h0 = self.history@;
        let ghost left = self.think_left();
        match self.active_thinking.take() {
            Some(a) => {
                a.finish(&mut self.history);
                self.prompt.dirty = true;
            },
            None => {
                proof {
                    stream::lemma_grown_none(h0);
                }
            },
        }
        proof {
            if h0.wf() {
                stream::lemma_grown_wf(h0, self.history@, left);
            }
        }
    }

    /// The text that comes in, as it stands.
    pub open spec fn text_state(self) -> stream::TextState {
        match self.active_text {
            Some(a) => a.state(seq![]),
            None => stream::TextState {
                line: seq![],
                paragraph: seq![],
                code: None,
                table: seq![],
                data_rows: 0,
                new: seq![],
            },
        }
    }

    /// Takes a piece of text, which ends the thoughts.
    pub fn append_streaming_text(&mut self, delta: &str)
        ensures
            ({
                let s = stream::text_chars(
                    old(self).text_state(),
                    delta@,
                    delta@.len() as int,
                );
                &&& final(self).active_text is Some
                &&& final(self).active_text->0.state(s.new) == s
                &&& stream::grown(
                    old(self).history@,
                    final(self).history@,
                    old(self).think_left() + s.new,
                )
                &&& *final(self) == (Screen {
                    history: final(self).history,
                    active_thinking: None,
                    active_text: final(self).active_text,
                    prompt: old(self).prompt.touched(),
                    ..*old(self)
                })
            }),
            old(self).wf() ==> final(self).wf(),
    {
        let ghost h0 = self.history@;
        let ghost left = self.think_left();
        self.flush_streaming_thinking();
        let ghost h1 = self.history@;
        let mut a = match self.active_text.take() {
            Some(a) => a,
            None => ActiveText::new(),
        };
        let ghost s = stream::text_chars(a.state(seq![]), delta@, delta@.len() as int);
        a.feed(&mut self.history, delta);
        proof {
            stream::lemma_grown_twice(h0, h1, self.history@, left, s.new);
            if h0.wf() {
                stream::lemma_grown_wf(h0, self.history@, left + s.new);
            }
        }
        self.active_text = Some(a);
        self.prompt.dirty = true;
    }

    /// What text that ends leaves.
    pub open spec fn text_left(self) -> Seq<Sketch> {
        match self.active_text {
            Some(a) => stream::text_end(a.state(seq![])).new,
            None => seq![],
        }
    }

    /// Ends thoughts and text.
    pub fn flush_streaming_text(&mut self)
        ensures
            stream::grown(
                old(self).history@,
                final(self).history@,
                old(self).think_left() + old(self).text_left(),
            ),
            *final(self) == (Screen {
                history: final(self).history,
                active_thinking: None,
                active_text: None,
                prompt: if old(self).active_thinking is Some || old(self).active_text is Some {
                    old(self).prompt.touched()
                } else {
                    old(self).prompt
                },
                ..*old(self)
            }),
            old(self).wf() ==> final(self).wf(),
    {
        let ghost h0 = self.history@;
        let ghost left = self.think_left();
        let ghost more = self.text_left();
        self.flush_streaming_thinking();
        let ghost h1 = self.history@;
        match self.active_text.take() {
            Some(a) => {
                a.finish(&mut self.history);
                self.prompt.dirty = true;
            },
            None => {
                proof {
                    stream::lemma_grown_none(h1);
                }
            },
        }
        proof {
            stream::lemma_grown_twice(h0, h1, self.history@, left, more);
            if h0.wf() {
                stream::lemma_grown_wf(h0, self.history@, left + more);
            }
        }
    }

    // ── Commands that run ────────────────────────────────────────────────

    pub fn start_exec(&mut self, command: String, now: u64)
        ensures
            *final(self) == (Screen {
                active_exec: final(self).active_exec,
                prompt: old(self).prompt.touched(),
                ..*old(self)
            }),
            final(self).active_exec is Some,
            final(self).active_exec->0 == (ActiveExec {
                command,
                output: final(self).active_exec->0.output,
                start_ms: now,
                finished: false,
                exit_code: None,
            }),
            final(self).active_exec->0.output@ == Seq::<char>::empty(),
    {
        let output = String::new();
        assert(output@ =~= Seq::<char>::empty());
        self.active_exec = Some(
            ActiveExec { command, output, start_ms: now, finished: false, exit_code: None },
        );
        self.prompt.dirty = true;
    }

    /// Output with a chunk added, in a line of its own.
    pub open spec fn output_with(output: Seq<char>, chunk: Seq<char>) -> Seq<char> {
        if output.len() > 0 && output.last() != '\n' {
            output.push('\n') + chunk
        } else {
            output + chunk
        }
    }

    pub fn append_exec_output(&mut self, chunk: &str)
        ensures
            match old(self).active_exec {
                Some(e) => {
                    &&& final(self).active_exec is Some
                    &&& final(self).active_exec->0 == (ActiveExec {
                        output: final(self).active_exec->0.output,
                        ..e
                    })
                    &&& final(self).active_exec->0.output@ == Screen::output_with(
                        e.output@,
                        chunk@,
                    )
                    &&& *final(self) == (Screen {
                        active_exec: final(self).active_exec,
                        prompt: old(self).prompt.touched(),
                        ..*old(self)
                    })
                },
                None => *final(self) == *old(self),
            },
    {
        match self.active_exec.take() {
            Some(e) => {
                let mut e = e;
                let ghost before = e.output@;
                proof {
                    reveal_strlit("\n");
                    assert("\n"@ =~= seq!['\n']);
                    if before.len() > 0 {
                        let tail = before.skip(before.len() - 1);
                        assert(tail =~= seq![before.last()]);
                        assert(tail[0] == before.last());
                        assert(text::has_suffix(before, "\n"@) <==> before.last() == '\n');
                    }
                }
                if char_count(e.output.as_str()) > 0 && !ends_with(e.output.as_str(), "\n") {
                    e.output.push('\n');
                }
                e.output.append(chunk);
                self.active_exec = Some(e);
                self.prompt.dirty = true;
            },
            None => {},
        }
    }

    pub fn finish_exec(&mut self, exit_code: Option<i32>)
        ensures
            *final(self) == (match old(self).active_exec {
                Some(e) => Screen {
                    active_exec: Some(ActiveExec { finished: true, exit_code, ..e }),
                    prompt: old(self).prompt.touched(),
                    ..*old(self)
                },
                None => *old(self),
            }),
    {
        match self.active_exec.take() {
            Some(e) => {
                let mut e = e;
                e.finished = true;
                e.exit_code = exit_code;
                self.active_exec = Some(e);
                self.prompt.dirty = true;
            },
            None => {},
        }
    }

    /// Turns the command that runs into a block.
    pub fn commit_exec(&mut self)
        ensures
            match old(self).active_exec {
                Some(e) => {
                    &&& exists|b: Block|
                        (match b {
                            Block::Exec { command, output } => command == e.command && output@
                                == text::trim_back(e.output@),
                            _ => false,
                        }) && final(self).history@ == (#[trigger] old(self).history@.pushed(b))
                    &&& *final(self) == (Screen {
                        history: final(self).history,
                        active_exec: None,
                        prompt: old(self).prompt.touched(),
                        ..*old(self)
                    })
                },
                None => *final(self) == *old(self),
            },
            old(self).wf() ==> final(self).wf(),
    {
        match self.active_exec.take() {
            Some(e) => {
                let t = trim_end(e.output.as_str());
                let b = Block::Exec { command: e.command, output: t };
                self.history.push(b);
                self.prompt.dirty = true;
            },
            None => {},
        }
    }

    pub fn has_active_exec(&self) -> (r: bool)
        ensures
            r == self.active_exec is Some,
    {
        self.active_exec.is_some()
    }
}

} // verus!
