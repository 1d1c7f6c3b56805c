//! A frame: the blocks, what is still on its way, and the prompt.

use vstd::prelude::*;

use crate::render::active;
use crate::render::blocks;
use crate::render::blocks::{
    animated_dots, collect_trailing_thinking, gap_between, render_active_exec, render_agent_block,
    render_block, render_thinking_summary, thinking_summary, Element, Kind,
};
use crate::render::highlight;
use crate::render::highlight::Assets;
use crate::render::history::HistoryView;
use crate::render::markdown;
use crate::render::model;
use crate::render::model::{ActiveAgent, ActiveExec, ActiveTool, Block};
use crate::render::out;
use crate::render::out::{crlfs, Canvas, ClearType, Command, Drawn, RenderOut};
use crate::render::screen;
use crate::render::screen::{begin_frame, end_frame, PromptState, Screen, Term};
use crate::render::sections;
use crate::render::sections::{FramePrompt, Sections};
use crate::render::stream;
use crate::render::stream::{ActiveText, ActiveThinking};
use crate::render::styled::Env;
use crate::render::tools;
use crate::render::tools::render_tool;
use crate::text;
use crate::text::{cat3, char_count, number, starts_with, trim, trim_start};

verus! {

// ── What is still on its way ─────────────────────────────────────────────

/// A block that is shown before it is complete.
pub enum Overlay {
    Thinking(Seq<char>),
    Hint(Seq<char>),
    CodeLine(Seq<char>, Seq<char>),
    Text(Seq<char>),
}

/// Whether a block is the one to be shown.
pub open spec fn is_overlay(b: Block, o: Overlay) -> bool {
    match (b, o) {
        (Block::Thinking { content }, Overlay::Thinking(t)) => content@ == t,
        (Block::Hint { content }, Overlay::Hint(t)) => content@ == t,
        (Block::CodeLine { content, lang }, Overlay::CodeLine(t, l)) => content@ == t && lang@
            == l,
        (Block::Text { content }, Overlay::Text(t)) => content@ == t,
        _ => false,
    }
}

/// What decides about the gaps around an overlay.
pub open spec fn overlay_kind(o: Overlay) -> Kind {
    match o {
        Overlay::Thinking(_) => Kind::Thinking,
        Overlay::Hint(_) => Kind::Apart,
        Overlay::CodeLine(_, _) => Kind::CodeLine,
        Overlay::Text(t) => Kind::Text(blocks::ends_with_heading(t)),
    }
}

/// Draws an overlay as the block that it will be.
pub open spec fn overlay_drawn(
    m: Canvas,
    o: Overlay,
    width: usize,
    show_thinking: bool,
    env: Env,
) -> Drawn {
    match o {
        Overlay::Thinking(t) => blocks::thinking_block(m, t, width as int, show_thinking),
        Overlay::Hint(t) => blocks::hint_block(m, t),
        Overlay::CodeLine(t, l) => {
            let c = highlight::code_block(
                m,
                seq![t],
                l,
                width as int,
                false,
                highlight::code_look(env.theme, None),
            );
            Drawn { canvas: c.0, rows: c.1 }
        },
        Overlay::Text(t) => {
            let md = markdown::markdown(m, t, blocks::block_look(width, false, env));
            Drawn { canvas: md.0, rows: md.1 }
        },
    }
}

proof fn lemma_overlay(m: Canvas, b: Block, o: Overlay, width: usize, show_thinking: bool, env: Env)
    requires
        is_overlay(b, o),
    ensures
        blocks::block_drawn(m, b, width, show_thinking, env) == overlay_drawn(
            m,
            o,
            width,
            show_thinking,
            env,
        ),
        blocks::block_kind(b) == overlay_kind(o),
{
    reveal(blocks::block_drawn);
}

/// An unfinished line behind an unfinished paragraph.
pub open spec fn unfinished(paragraph: Seq<char>, line: Seq<char>) -> Seq<char> {
    if line.len() == 0 {
        paragraph
    } else {
        stream::below(paragraph, line)
    }
}

fn join_unfinished(paragraph: &str, line: &str) -> (r: String)
    ensures
        r@ == unfinished(paragraph@, line@),
{
    let mut s: String = paragraph.to_owned();
    if char_count(line) > 0 {
        if char_count(paragraph) > 0 {
            s.push('\n');
        }
        s.append(line);
    }
    s
}

/// Empty lines between the blocks and what stands below them.
pub open spec fn gap_under(bs: Seq<Block>, below: Kind) -> u16 {
    if bs.len() > 0 {
        blocks::gap(blocks::block_kind(bs.last()), below)
    } else {
        0
    }
}

fn find_gap_under(bs: &Vec<Block>, below: &Element) -> (r: u16)
    ensures
        r == gap_under(bs@, blocks::kind_of(*below)),
{
    let n: usize = bs.len();
    if n > 0 {
        gap_between(&Element::Block(&bs[n - 1]), below)
    } else {
        0
    }
}

/// Thoughts that are still on their way, as a block; none when only their
/// summary is shown.
pub open spec fn thinking_overlay(at: Option<ActiveThinking>, show_thinking: bool) -> Seq<Overlay> {
    match at {
        Some(a) => {
            let t = unfinished(a.paragraph@, a.current_line@);
            if show_thinking && text::trimmed(t).len() > 0 {
                seq![Overlay::Thinking(t)]
            } else {
                seq![]
            }
        },
        None => seq![],
    }
}

/// Text that is still on its way, as a block.
pub open spec fn text_overlay(at: Option<ActiveText>, now_ms: u64) -> Seq<Overlay> {
    match at {
        Some(a) => {
            let t = unfinished(a.paragraph@, a.current_line@);
            if a.table_rows@.len() > 0 || text::has_prefix(
                text::trim_front(a.current_line@),
                "|"@,
            ) {
                seq![
                    Overlay::Hint(
                        (" building table ("@ + text::dec(a.table_data_rows as nat) + " rows)"@)
                            + blocks::dots_at(now_ms),
                    ),
                ]
            } else if a.in_code_block is Some && a.current_line@.len() > 0 {
                seq![Overlay::CodeLine(a.current_line@, a.in_code_block->0@)]
            } else if text::trimmed(t).len() > 0 {
                seq![Overlay::Text(t)]
            } else {
                seq![]
            }
        },
        None => seq![],
    }
}

/// Whether the blocks are those to be shown.
pub open spec fn are_overlays(bs: Seq<Block>, os: Seq<Overlay>) -> bool {
    bs.len() == os.len() && forall|i: int|
        0 <= i < bs.len() ==> is_overlay(#[trigger] bs[i], os[i])
}

/// Draws the first `n` overlays below the blocks `bs`.
pub open spec fn overlays_drawn(
    d: Drawn,
    bs: Seq<Block>,
    os: Seq<Overlay>,
    n: int,
    width: usize,
    show_thinking: bool,
    env: Env,
) -> Drawn
    decreases n,
{
    if n <= 0 {
        d
    } else {
        let a = overlays_drawn(d, bs, os, n - 1, width, show_thinking, env);
        let k = overlay_kind(os[n - 1]);
        let gap = if n == 1 {
            gap_under(bs, k)
        } else {
            blocks::gap(overlay_kind(os[n - 2]), k)
        };
        let b = overlay_drawn(a.canvas.crlfs(gap as int), os[n - 1], width, show_thinking, env);
        Drawn { canvas: b.canvas, rows: out::rows_plus(a.rows, out::rows_plus(gap, b.rows)) }
    }
}

/// The last of the first `n` blocks that is no thought.
pub open spec fn last_no_thought(bs: Seq<Block>, n: int) -> Option<Block>
    decreases n,
{
    if n <= 0 {
        None
    } else if blocks::is_thinking(bs[n - 1]) {
        last_no_thought(bs, n - 1)
    } else {
        Some(bs[n - 1])
    }
}

/// Empty lines before a summary of thoughts; hidden thoughts do not count.
pub open spec fn summary_gap(bs: Seq<Block>) -> u16 {
    match last_no_thought(bs, bs.len() as int) {
        Some(b) => blocks::gap(blocks::block_kind(b), Kind::Thinking),
        None => if bs.len() == 0 {
            0
        } else {
            1
        },
    }
}

/// The summary of hidden thoughts while more are on their way.
pub open spec fn summary_drawn(
    m: Canvas,
    bs: Seq<Block>,
    at: Option<ActiveThinking>,
    show_thinking: bool,
    width: usize,
    now_ms: u64,
) -> Drawn {
    if at is Some && !show_thinking {
        let t = unfinished(at->0.paragraph@, at->0.current_line@);
        let old = blocks::trailing_thoughts(bs);
        let all = if text::trimmed(t).len() > 0 {
            stream::below(old, t)
        } else {
            old
        };
        if all.len() > 0 {
            let s = blocks::thought_summary(all);
            let gap = summary_gap(bs);
            let r = blocks::thinking_row(
                m.crlfs(gap as int),
                width as int,
                s.0,
                s.1 as nat,
                blocks::dots_at(now_ms),
            );
            Drawn { canvas: r.canvas, rows: out::rows_plus(gap, r.rows) }
        } else {
            out::drawn(m)
        }
    } else {
        out::drawn(m)
    }
}

/// Draws what is still on its way.
#[verifier::opaque]
pub open spec fn streamed(
    m: Canvas,
    bs: Seq<Block>,
    thinking: Option<ActiveThinking>,
    writing: Option<ActiveText>,
    show_thinking: bool,
    width: usize,
    env: Env,
) -> Drawn {
    let d = summary_drawn(m, bs, thinking, show_thinking, width, env.now_ms);
    let os = thinking_overlay(thinking, show_thinking) + text_overlay(writing, env.now_ms);
    overlays_drawn(d, bs, os, os.len() as int, width, show_thinking, env)
}

// ── What runs ────────────────────────────────────────────────────────────

/// Draws the first `n` tools that run; `apart` when something stands right
/// above them.
pub open spec fn tools_drawn(
    d: Drawn,
    bs: Seq<Block>,
    ts: Seq<ActiveTool>,
    n: int,
    apart: bool,
    width: usize,
    env: Env,
) -> Drawn
    decreases n,
{
    if n <= 0 {
        d
    } else {
        let a = tools_drawn(d, bs, ts, n - 1, apart, width, env);
        let gap = if n > 1 {
            blocks::gap(Kind::RunningTool, Kind::RunningTool)
        } else if apart {
            1
        } else {
            gap_under(bs, Kind::RunningTool)
        };
        let t = ts[n - 1];
        let b = tools::tool_drawn(
            a.canvas.crlfs(gap as int),
            t.name@,
            t.summary@,
            t.args@,
            t.status,
            Some(model::since(env.now_ms, t.start_ms)),
            t.output,
            model::opt_view(t.user_message),
            width,
            env,
        );
        Drawn { canvas: b.canvas, rows: out::rows_plus(a.rows, out::rows_plus(gap, b.rows)) }
    }
}

/// Draws the first `n` agents; `apart` when tools stand above them.
pub open spec fn agents_drawn(
    d: Drawn,
    bs: Seq<Block>,
    xs: Seq<ActiveAgent>,
    n: int,
    apart: bool,
    width: usize,
    now_ms: u64,
) -> Drawn
    decreases n,
{
    if n <= 0 {
        d
    } else {
        let a = agents_drawn(d, bs, xs, n - 1, apart, width, now_ms);
        let gap = if n > 1 || apart {
            1
        } else {
            gap_under(bs, Kind::RunningTool)
        };
        let x = xs[n - 1];
        let b = blocks::agent_block(
            a.canvas.crlfs(gap as int),
            x.agent_id@,
            model::opt_view(x.slug),
            true,
            x.tool_calls@,
            x.status,
            Some(active::agent_elapsed(x, now_ms)),
            width as int,
        );
        Drawn { canvas: b.canvas, rows: out::rows_plus(a.rows, out::rows_plus(gap, b.rows)) }
    }
}

/// Draws the command that runs; `apart` when tools or agents stand above it.
pub open spec fn exec_drawn(
    d: Drawn,
    bs: Seq<Block>,
    exec: Option<ActiveExec>,
    apart: bool,
    width: usize,
    env: Env,
) -> Drawn {
    match exec {
        Some(e) => {
            let gap = if apart {
                1
            } else {
                gap_under(bs, Kind::Apart)
            };
            let b = blocks::active_exec_drawn(d.canvas.crlfs(gap as int), e, width as int, env);
            Drawn { canvas: b.canvas, rows: out::rows_plus(d.rows, out::rows_plus(gap, b.rows)) }
        },
        None => d,
    }
}

/// Draws what runs: tools, agents and a command.
#[verifier::opaque]
pub open spec fn running(
    m: Canvas,
    bs: Seq<Block>,
    ts: Seq<ActiveTool>,
    xs: Seq<ActiveAgent>,
    exec: Option<ActiveExec>,
    apart: bool,
    width: usize,
    env: Env,
) -> Drawn {
    let d = tools_drawn(out::drawn(m), bs, ts, ts.len() as int, apart, width, env);
    let d = agents_drawn(d, bs, xs, xs.len() as int, ts.len() > 0, width, env.now_ms);
    exec_drawn(d, bs, exec, ts.len() > 0 || xs.len() > 0, width, env)
}

impl Screen {
    /// Empty lines before a summary of thoughts; hidden thoughts do not count.
    pub fn thinking_summary_gap(&self) -> (r: u16)
        ensures
            r == summary_gap(self.history@.blocks),
    {
        let bs = &self.history.blocks;
        let n: usize = bs.len();
        let mut i: usize = n;
        while i > 0
            invariant
                bs == self.history.blocks,
                n == bs@.len(),
                i <= n,
                last_no_thought(bs@, n as int) == last_no_thought(bs@, i as int),
            decreases i,
        {
            let b = &bs[i - 1];
            let thought = match b {
                Block::Thinking { content: _ } => true,
                _ => false,
            };
            if !thought {
                let below = Block::Thinking { content: String::new() };
                return gap_between(&Element::Block(b), &Element::Block(&below));
            }
            i = i - 1;
        }
        if n == 0 {
            0
        } else {
            1
        }
    }

    fn draw_summary(&self, out: &mut RenderOut, width: usize, env: &Env) -> (r: u16)
        ensures
            (Drawn { canvas: final(out)@, rows: r }) == summary_drawn(
                old(out)@,
                self.history@.blocks,
                self.active_thinking,
                self.settings.show_thinking,
                width,
                env.now_ms,
            ),
    {
        match &self.active_thinking {
            Some(at) => {
                if !self.settings.show_thinking {
                    let t = join_unfinished(at.paragraph.as_str(), at.current_line.as_str());
                    let mut all = collect_trailing_thinking(&self.history.blocks);
                    let ghost was = all@;
                    if char_count(trim(t.as_str()).as_str()) > 0 {
                        if char_count(all.as_str()) > 0 {
                            all.push('\n');
                        }
                        all.append(t.as_str());
                        assert(all@ == stream::below(was, t@));
                    }
                    if char_count(all.as_str()) > 0 {
                        let (label, count) = thinking_summary(all.as_str());
                        let gap: u16 = self.thinking_summary_gap();
                        crlfs(out, gap);
                        let rows: u16 = render_thinking_summary(
                            out,
                            width,
                            label.as_str(),
                            count,
                            animated_dots(env.now_ms),
                        );
                        return gap.saturating_add(rows);
                    }
                }
            },
            None => {},
        }
        0
    }

    fn find_overlays(&self, now_ms: u64) -> (r: Vec<Block>)
        ensures
            are_overlays(
                r@,
                thinking_overlay(self.active_thinking, self.settings.show_thinking)
                    + text_overlay(self.active_text, now_ms),
            ),
    {
        let mut v: Vec<Block> = Vec::new();
        match &self.active_thinking {
            Some(at) => {
                let t = join_unfinished(at.paragraph.as_str(), at.current_line.as_str());
                if self.settings.show_thinking && char_count(trim(t.as_str()).as_str()) > 0 {
                    v.push(Block::Thinking { content: t });
                }
            },
            None => {},
        }
        match &self.active_text {
            Some(at) => {
                if at.table_rows.len() > 0 || starts_with(
                    trim_start(at.current_line.as_str()).as_str(),
                    "|",
                ) {
                    let mut content = cat3(
                        " building table (",
                        number(at.table_data_rows as u64).as_str(),
                        " rows)",
                    );
                    content.append(animated_dots(now_ms));
                    v.push(Block::Hint { content });
                } else if at.in_code_block.is_some() && char_count(at.current_line.as_str()) > 0 {
                    let lang: String = match &at.in_code_block {
                        Some(l) => l.as_str().to_owned(),
                        None => String::new(),
                    };
                    v.push(
                        Block::CodeLine { content: at.current_line.as_str().to_owned(), lang },
                    );
                } else {
                    let t = join_unfinished(at.paragraph.as_str(), at.current_line.as_str());
                    if char_count(trim(t.as_str()).as_str()) > 0 {
                        v.push(Block::Text { content: t });
                    }
                }
            },
            None => {},
        }
        v
    }

    fn draw_streamed(&self, out: &mut RenderOut, assets: &Assets, width: usize, env: &Env) -> (r:
        u16)
        ensures
            (Drawn { canvas: final(out)@, rows: r }) == streamed(
                old(out)@,
                self.history@.blocks,
                self.active_thinking,
                self.active_text,
                self.settings.show_thinking,
                width,
                *env,
            ),
    {
        proof {
            reveal(streamed);
        }
        let mut rows: u16 = self.draw_summary(out, width, env);
        let ghost d = Drawn { canvas: out@, rows };
        let v = self.find_overlays(env.now_ms);
        let ghost os = thinking_overlay(self.active_thinking, self.settings.show_thinking)
            + text_overlay(self.active_text, env.now_ms);
        let ghost bs = self.history@.blocks;
        let show = self.settings.show_thinking;
        let n: usize = v.len();
        let mut i: usize = 0;
        while i < n
            invariant
                n == v@.len(),
                i <= n,
                bs == self.history@.blocks,
                show == self.settings.show_thinking,
                are_overlays(v@, os),
                (Drawn { canvas: out@, rows }) == overlays_drawn(
                    d,
                    bs,
                    os,
                    i as int,
                    width,
                    show,
                    *env,
                ),
            decreases n - i,
        {
            let b = &v[i];
            assert(is_overlay(v@[i as int], os[i as int]));
            let gap: u16 = if i == 0 {
                find_gap_under(&self.history.blocks, &Element::Block(b))
            } else {
                assert(is_overlay(v@[i - 1], os[i - 1]));
                gap_between(&Element::Block(&v[i - 1]), &Element::Block(b))
            };
            proof {
                lemma_overlay(out@.crlfs(gap as int), *b, os[i as int], width, show, *env);
                if i > 0 {
                    lemma_overlay(out@, v@[i - 1], os[i - 1], width, show, *env);
                }
            }
            crlfs(out, gap);
            let k: u16 = render_block(out, assets, b, width, show, env);
            rows = rows.saturating_add(gap.saturating_add(k));
            i = i + 1;
        }
        rows
    }

    fn draw_tools(
        &self,
        out: &mut RenderOut,
        assets: &Assets,
        apart: bool,
        width: usize,
        env: &Env,
    ) -> (r: u16)
        ensures
            (Drawn { canvas: final(out)@, rows: r }) == tools_drawn(
                out::drawn(old(out)@),
                self.history@.blocks,
                self.active_tools@,
                self.active_tools@.len() as int,
                apart,
                width,
                *env,
            ),
    {
        let ghost d = out::drawn(out@);
        let ghost bs = self.history@.blocks;
        let n: usize = self.active_tools.len();
        let mut rows: u16 = 0;
        let mut i: usize = 0;
        while i < n
            invariant
                n == self.active_tools@.len(),
                i <= n,
                bs == self.history@.blocks,
                (Drawn { canvas: out@, rows }) == tools_drawn(
                    d,
                    bs,
                    self.active_tools@,
                    i as int,
                    apart,
                    width,
                    *env,
                ),
            decreases n - i,
        {
            let t = &self.active_tools[i];
            let gap: u16 = if i > 0 {
                gap_between(&Element::ActiveTool, &Element::ActiveTool)
            } else if apart {
                1
            } else {
                find_gap_under(&self.history.blocks, &Element::ActiveTool)
            };
            crlfs(out, gap);
            let k: u16 = render_tool(
                out,
                assets,
                t.name.as_str(),
                t.summary.as_str(),
                &t.args,
                t.status,
                Some(env.now_ms.saturating_sub(t.start_ms)),
                &t.output,
                &t.user_message,
                width,
                env,
            );
            rows = rows.saturating_add(gap.saturating_add(k));
            i = i + 1;
        }
        rows
    }

    /// Rows that the tools take when they are drawn, gaps included.
    pub open spec fn running_rows(self, width: usize, env: Env) -> u16 {
        tools_drawn(
            out::drawn(Canvas::blank()),
            self.history@.blocks,
            self.active_tools@,
            self.active_tools@.len() as int,
            false,
            width,
            env,
        ).rows
    }

    /// Rows that the tools take when they are drawn, gaps included.
    pub fn active_tool_rows(&self, assets: &Assets, term: &Term, env: &Env) -> (r: u16)
        ensures
            r == self.running_rows(term.width as usize, *env),
    {
        let mut buf = RenderOut::buffer();
        self.draw_tools(&mut buf, assets, false, term.width as usize, env)
    }

    /// Whether the tools fit above a dialog.
    pub fn tool_overlay_fits_with_dialog(
        &self,
        dialog_height: u16,
        assets: &Assets,
        term: &Term,
        env: &Env,
    ) -> (r: bool)
        ensures
            ({
                let rows = self.running_rows(term.width as usize, *env);
                r == (rows == 0 || rows + 1 + dialog_height <= term.height)
            }),
    {
        let rows: u16 = self.active_tool_rows(assets, term, env);
        if rows == 0 {
            return true;
        }
        rows as u32 + 1 + dialog_height as u32 <= term.height as u32
    }

    fn draw_agents(&self, out: &mut RenderOut, rows: u16, width: usize, env: &Env) -> (r: u16)
        ensures
            (Drawn { canvas: final(out)@, rows: r }) == agents_drawn(
                (Drawn { canvas: old(out)@, rows }),
                self.history@.blocks,
                self.active_agents@,
                self.active_agents@.len() as int,
                self.active_tools@.len() > 0,
                width,
                env.now_ms,
            ),
    {
        let ghost d = Drawn { canvas: out@, rows };
        let ghost bs = self.history@.blocks;
        let apart = self.active_tools.len() > 0;
        let n: usize = self.active_agents.len();
        let mut rows: u16 = rows;
        let mut i: usize = 0;
        while i < n
            invariant
                n == self.active_agents@.len(),
                i <= n,
                bs == self.history@.blocks,
                (Drawn { canvas: out@, rows }) == agents_drawn(
                    d,
                    bs,
                    self.active_agents@,
                    i as int,
                    apart,
                    width,
                    env.now_ms,
                ),
            decreases n - i,
        {
            let x = &self.active_agents[i];
            let gap: u16 = if i > 0 || apart {
                1
            } else {
                find_gap_under(&self.history.blocks, &Element::ActiveTool)
            };
            crlfs(out, gap);
            let elapsed: u64 = match x.final_elapsed_ms {
                Some(e) => e,
                None => env.now_ms.saturating_sub(x.start_ms),
            };
            let k: u16 = render_agent_block(
                out,
                x.agent_id.as_str(),
                &x.slug,
                true,
                &x.tool_calls,
                x.status,
                Some(elapsed),
                width,
            );
            rows = rows.saturating_add(gap.saturating_add(k));
            i = i + 1;
        }
        rows
    }

    fn draw_running(
        &self,
        out: &mut RenderOut,
        assets: &Assets,
        apart: bool,
        width: usize,
        env: &Env,
    ) -> (r: u16)
        ensures
            (Drawn { canvas: final(out)@, rows: r }) == running(
                old(out)@,
                self.history@.blocks,
                self.active_tools@,
                self.active_agents@,
                self.active_exec,
                apart,
                width,
                *env,
            ),
    {
        proof {
            reveal(running);
        }
        let rows: u16 = self.draw_tools(out, assets, apart, width, env);
        let rows: u16 = self.draw_agents(out, rows, width, env);
        match &self.active_exec {
            Some(e) => {
                let gap: u16 = if self.active_tools.len() > 0 || self.active_agents.len() > 0 {
                    1
                } else {
                    find_gap_under(&self.history.blocks, &Element::ActiveExec)
                };
                crlfs(out, gap);
                let k: u16 = render_active_exec(out, e, width, env);
                rows.saturating_add(gap.saturating_add(k))
            },
            None => rows,
        }
    }
}

// ── The content of a frame ───────────────────────────────────────────────

/// What a frame shows above the prompt.
pub struct Content {
    pub canvas: Canvas,
    pub history: HistoryView,
    /// The row at which the frame starts.
    pub start: u16,
    pub blocks: u16,
    pub streaming: u16,
    pub active: u16,
    /// Rows of the last frame that may still be in the way.
    pub prev: u16,
}

impl Content {
    /// All rows, with `gap` below them.
    pub open spec fn total(self, gap: u16) -> u16 {
        out::rows_plus(
            out::rows_plus(out::rows_plus(self.blocks, self.streaming), self.active),
            gap,
        )
    }

    /// The rows behind the blocks, with `gap` below them, and `row` added.
    pub open spec fn volatile(self, row: u16, gap: u16) -> u16 {
        out::rows_plus(out::rows_plus(out::rows_plus(row, self.streaming), self.active), gap)
    }
}

impl Screen {
    /// Draws the blocks, what is on its way and what runs.
    #[verifier::opaque]
    pub open spec fn content(
        self,
        m: Canvas,
        is_dialog: bool,
        width: usize,
        term: Term,
        env: Env,
    ) -> Content {
        let start = screen::row_or(self.prompt.anchor_row, term.cursor_y);
        let m = m.queue(Command::Hide);
        let m = if self.prompt.drawn || self.prompt.anchor_row is Some {
            m.queue(Command::MoveTo(0, start))
        } else {
            m
        };
        let m = if is_dialog {
            m.at_row(Some(start))
        } else {
            m
        };
        let (h, d) = self.history@.rendered(m, width, self.settings.show_thinking, env);
        let clears = d.rows > 0 && self.prompt.prev_rows > 0;
        let m = if clears {
            d.canvas.queue(Command::Clear(ClearType::FromCursorDown))
        } else {
            d.canvas
        };
        let s = streamed(
            m,
            h.blocks,
            self.active_thinking,
            self.active_text,
            self.settings.show_thinking,
            width,
            env,
        );
        let a = if !is_dialog || self.show_tool_in_dialog {
            running(
                s.canvas,
                h.blocks,
                self.active_tools@,
                self.active_agents@,
                self.active_exec,
                s.rows > 0,
                width,
                env,
            )
        } else {
            out::drawn(s.canvas)
        };
        Content {
            canvas: a.canvas,
            history: h,
            start,
            blocks: d.rows,
            streaming: s.rows,
            active: a.rows,
            prev: if clears {
                0
            } else {
                self.prompt.prev_rows
            },
        }
    }

    /// Draws the blocks, what is on its way and what runs: the row at which
    /// the frame starts, and the rows of each.
    #[verifier::rlimit(30)]
    fn draw_content(
        &mut self,
        out: &mut RenderOut,
        assets: &Assets,
        is_dialog: bool,
        width: usize,
        term: &Term,
        env: &Env,
    ) -> (r: (u16, u16, u16, u16))
        requires
            old(self).wf(),
        ensures
            ({
                let c = old(self).content(old(out)@, is_dialog, width, *term, *env);
                &&& final(out)@ == c.canvas
                &&& r == (c.start, c.blocks, c.streaming, c.active)
                &&& final(self).history@ == c.history
                &&& *final(self) == (Screen {
                    history: final(self).history,
                    prompt: PromptState {
                        anchor_row: None,
                        prev_rows: c.prev,
                        ..old(self).prompt
                    },
                    ..*old(self)
                })
            }),
            final(self).wf(),
    {
        proof {
            reveal(Screen::content);
        }
        out.queue(Command::Hide);
        let anchor: Option<u16> = self.prompt.anchor_row;
        self.prompt.anchor_row = None;
        let start: u16 = match anchor {
            Some(r) => r,
            None => term.cursor_y,
        };
        if self.prompt.drawn || anchor.is_some() {
            out.queue(Command::MoveTo(0, start));
        }
        if is_dialog {
            out.set_row(Some(start));
        }
        let block_rows: u16 = self.history.render(
            out,
            assets,
            width,
            self.settings.show_thinking,
            env,
        );
        if block_rows > 0 && self.prompt.prev_rows > 0 {
            out.queue(Command::Clear(ClearType::FromCursorDown));
            self.prompt.prev_rows = 0;
        }
        let streaming: u16 = self.draw_streamed(out, assets, width, env);
        let active: u16 = if !is_dialog || self.show_tool_in_dialog {
            self.draw_running(out, assets, streaming > 0, width, env)
        } else {
            0
        };
        (start, block_rows, streaming, active)
    }

    // ── A frame ──────────────────────────────────────────────────────────

    /// Whether there is anything above the prompt, with the blocks `bs`.
    pub open spec fn anything_above(self, bs: Seq<Block>) -> bool {
        bs.len() > 0 || self.active_thinking is Some || self.active_text is Some
            || self.active_tools@.len() > 0 || self.active_agents@.len() > 0
            || self.active_exec is Some
    }

    /// The empty line before the prompt.
    pub open spec fn prompt_gap(self, bs: Seq<Block>) -> u16 {
        if self.anything_above(bs) {
            1
        } else {
            0
        }
    }

    /// The prompt of a frame with the content `c`.
    pub open spec fn frame_sections(
        self,
        c: Content,
        p: FramePrompt,
        width: usize,
        term: Term,
        env: Env,
    ) -> Sections {
        let gap = self.prompt_gap(c.history.blocks);
        let pre = c.total(gap);
        self.sections(
            c.canvas.crlfs(gap as int),
            p,
            width,
            screen::rows_minus(c.prev, pre),
            c.start,
            pre,
            term,
            env,
        )
    }

    /// Where a frame leaves the prompt.
    pub open spec fn prompt_after(self, c: Content, s: Sections, term: Term) -> PromptState {
        let gap = self.prompt_gap(c.history.blocks);
        let anchor = if s.scrolled {
            screen::rows_minus(term.height, out::rows_plus(c.volatile(0, gap), s.rows))
        } else {
            out::rows_plus(s.top_row, c.blocks)
        };
        PromptState {
            anchor_row: Some(anchor),
            drawn: true,
            dirty: false,
            prev_rows: out::rows_plus(screen::rows_minus(c.total(gap), c.blocks), s.rows),
            prev_dialog_row: Some(c.volatile(anchor, gap)),
            input_scroll: s.input_scroll as usize,
        }
    }

    /// Draws a frame with the prompt.
    #[verifier::rlimit(60)]
    fn draw_with_prompt(
        &mut self,
        out: &mut RenderOut,
        assets: &Assets,
        width: usize,
        p: &FramePrompt,
        term: &Term,
        env: &Env,
    )
        requires
            old(self).wf(),
        ensures
            ({
                let s0 = *old(self);
                let c = s0.content(old(out)@, false, width, *term, *env);
                let s = s0.frame_sections(c, *p, width, *term, *env);
                &&& final(out)@ == s.canvas.queue(Command::Show)
                &&& final(self).history@ == c.history
                &&& sections::btw_view(final(self).btw) == s.question
                &&& *final(self) == (Screen {
                    history: final(self).history,
                    btw: final(self).btw,
                    prompt: s0.prompt_after(c, s, *term),
                    has_scrollback: s0.has_scrollback || s.scrolled,
                    content_start_row: if s.scrolled || s0.content_start_row is None {
                        Some(s.top_row)
                    } else {
                        s0.content_start_row
                    },
                    ..s0.with_modes(*p)
                })
            }),
            final(self).wf(),
    {
        let ghost s0 = *self;
        let ghost c = s0.content(out@, false, width, *term, *env);
        let (start, block_rows, streaming, active) = self.draw_content(
            out,
            assets,
            false,
            width,
            term,
            env,
        );
        let gap: u16 = if self.has_content() {
            1
        } else {
            0
        };
        assert(gap == s0.prompt_gap(c.history.blocks));
        crlfs(out, gap);
        let pre: u16 = block_rows.saturating_add(streaming).saturating_add(active).saturating_add(
            gap,
        );
        let ghost s1 = *self;
        let ghost m = out@;
        let (top_row, new_rows, scrolled) = self.draw_prompt_sections(
            out,
            assets,
            p,
            width,
            self.prompt.prev_rows.saturating_sub(pre),
            start,
            pre,
            term,
            env,
        );
        proof {
            sections::law_prompt_ignores_history(
                s1,
                s0,
                m,
                *p,
                width,
                screen::rows_minus(c.prev, pre),
                start,
                pre,
                *term,
                *env,
            );
        }
        let scroll: usize = self.prompt.input_scroll;
        let volatile: u16 = streaming.saturating_add(active).saturating_add(gap);
        let anchor: u16 = if scrolled {
            term.height.saturating_sub(volatile.saturating_add(new_rows))
        } else {
            top_row.saturating_add(block_rows)
        };
        if scrolled {
            self.has_scrollback = true;
            self.content_start_row = Some(top_row);
        } else if self.content_start_row.is_none() {
            self.content_start_row = Some(top_row);
        }
        self.prompt = PromptState {
            anchor_row: Some(anchor),
            drawn: true,
            dirty: false,
            prev_rows: pre.saturating_sub(block_rows).saturating_add(new_rows),
            prev_dialog_row: Some(
                anchor.saturating_add(streaming).saturating_add(active).saturating_add(gap),
            ),
            input_scroll: scroll,
        };
        out.queue(Command::Show);
    }

    /// The empty line before a dialog.
    pub open spec fn dialog_gap(c: Content) -> u16 {
        if c.blocks > 0 || c.streaming > 0 || c.active > 0 {
            1
        } else {
            0
        }
    }

    /// The canvas behind a frame that a dialog covers.
    pub open spec fn dialog_canvas(c: Content) -> Canvas {
        if Screen::dialog_gap(c) == 1 && c.canvas.row is Some {
            c.canvas.queue(Command::Clear(ClearType::UntilNewLine)).at_row(
                Some(out::rows_plus(c.canvas.row->0, 1)),
            )
        } else {
            c.canvas
        }
    }

    /// Whether a frame that a dialog covers makes the terminal scroll.
    pub open spec fn dialog_scrolls(c: Content, term: Term) -> bool {
        c.start + c.total(Screen::dialog_gap(c)) > term.height
    }

    /// Where a frame that a dialog covers leaves the prompt.
    pub open spec fn prompt_under_dialog(self, c: Content, term: Term) -> PromptState {
        let gap = Screen::dialog_gap(c);
        let anchor = if Screen::dialog_scrolls(c, term) {
            screen::rows_minus(term.height, c.volatile(0, gap))
        } else {
            out::rows_plus(c.start, c.blocks)
        };
        PromptState {
            anchor_row: Some(anchor),
            drawn: true,
            dirty: false,
            prev_rows: c.volatile(0, gap),
            prev_dialog_row: Some(c.volatile(anchor, gap)),
            input_scroll: self.prompt.input_scroll,
        }
    }

    /// Draws a frame that a dialog covers; the result is whether anything was
    /// drawn, so that the dialog has to be drawn anew.
    #[verifier::rlimit(60)]
    fn draw_under_dialog(
        &mut self,
        out: &mut RenderOut,
        assets: &Assets,
        width: usize,
        term: &Term,
        env: &Env,
    ) -> (r: bool)
        requires
            old(self).wf(),
        ensures
            ({
                let s0 = *old(self);
                let c = s0.content(old(out)@, true, width, *term, *env);
                &&& final(out)@ == Screen::dialog_canvas(c)
                &&& final(self).history@ == c.history
                &&& r == (c.total(Screen::dialog_gap(c)) > 0)
                &&& *final(self) == (Screen {
                    history: final(self).history,
                    prompt: s0.prompt_under_dialog(c, *term),
                    has_scrollback: s0.has_scrollback || Screen::dialog_scrolls(c, *term),
                    ..s0
                })
            }),
            final(self).wf(),
    {
        let (start, block_rows, streaming, active) = self.draw_content(
            out,
            assets,
            true,
            width,
            term,
            env,
        );
        let gap: u16 = if block_rows > 0 || streaming > 0 || active > 0 {
            match out.row() {
                Some(row) => {
                    out.queue(Command::Clear(ClearType::UntilNewLine));
                    out.set_row(Some(row.saturating_add(1)));
                },
                None => {},
            }
            1
        } else {
            0
        };
        let total: u16 = block_rows.saturating_add(streaming).saturating_add(
            active,
        ).saturating_add(gap);
        let scrolled = start as u32 + total as u32 > term.height as u32;
        let volatile: u16 = streaming.saturating_add(active).saturating_add(gap);
        let anchor: u16 = if scrolled {
            term.height.saturating_sub(volatile)
        } else {
            start.saturating_add(block_rows)
        };
        if scrolled {
            self.has_scrollback = true;
        }
        let scroll: usize = self.prompt.input_scroll;
        self.prompt = PromptState {
            anchor_row: Some(anchor),
            drawn: true,
            dirty: false,
            prev_rows: volatile,
            prev_dialog_row: Some(
                anchor.saturating_add(streaming).saturating_add(active).saturating_add(gap),
            ),
            input_scroll: scroll,
        };
        total > 0
    }

    /// What a frame leaves: the screen `after`, the canvas `drawn`, and
    /// whether anything was drawn under a dialog.
    pub open spec fn framed(
        self,
        after: Screen,
        m: Canvas,
        drawn: Canvas,
        shown: bool,
        prompt: Option<&FramePrompt>,
        width: usize,
        term: Term,
        env: Env,
    ) -> bool {
        let s0 = self.spun(env.now_ms);
        if !s0.wants_draw(prompt is None) {
            !shown && after == s0 && drawn == m
        } else {
            match prompt {
                Some(p) => {
                    let c = s0.content(m, false, width, term, env);
                    let s = s0.frame_sections(c, *p, width, term, env);
                    &&& !shown
                    &&& drawn == s.canvas.queue(Command::Show)
                    &&& after.history@ == c.history
                    &&& sections::btw_view(after.btw) == s.question
                    &&& after == (Screen {
                        history: after.history,
                        btw: after.btw,
                        prompt: s0.prompt_after(c, s, term),
                        has_scrollback: s0.has_scrollback || s.scrolled,
                        content_start_row: if s.scrolled || s0.content_start_row is None {
                            Some(s.top_row)
                        } else {
                            s0.content_start_row
                        },
                        ..s0.with_modes(*p)
                    })
                },
                None => {
                    let c = s0.content(m, true, width, term, env);
                    &&& shown == (c.total(Screen::dialog_gap(c)) > 0)
                    &&& drawn == Screen::dialog_canvas(c)
                    &&& after.history@ == c.history
                    &&& after == (Screen {
                        history: after.history,
                        prompt: s0.prompt_under_dialog(c, term),
                        has_scrollback: s0.has_scrollback || Screen::dialog_scrolls(c, term),
                        ..s0
                    })
                },
            }
        }
    }

    /// Draws a frame where there is anything to draw: the blocks that have
    /// not been put out, what is on its way, what runs, and the prompt,
    /// unless a dialog covers it.  The result is whether such a dialog has to
    /// be drawn anew.
    #[verifier::rlimit(60)]
    pub fn draw_frame(
        &mut self,
        out: &mut RenderOut,
        assets: &Assets,
        width: usize,
        prompt: Option<&FramePrompt>,
        term: &Term,
        env: &Env,
    ) -> (r: bool)
        requires
            old(self).wf(),
        ensures
            old(self).framed(
                *final(self),
                old(out)@,
                final(out)@,
                r,
                prompt,
                width,
                *term,
                *env,
            ),
            final(self).wf(),
    {
        self.update_spinner(env.now_ms);
        if !self.needs_draw(prompt.is_none()) {
            return false;
        }
        match prompt {
            Some(p) => {
                self.draw_with_prompt(out, assets, width, p, term, env);
                false
            },
            None => self.draw_under_dialog(out, assets, width, term, env),
        }
    }

    /// Draws a frame with the prompt alone: nothing that is queued, and nothing
    /// that is suggested.
    pub fn draw_prompt(
        &mut self,
        out: &mut RenderOut,
        assets: &Assets,
        width: usize,
        prompt: &FramePrompt,
        term: &Term,
        env: &Env,
    )
        requires
            old(self).wf(),
        ensures
            exists|m: Canvas, none: Vec<String>|
                {
                    &&& none@.len() == 0
                    &&& final(out)@ == screen::frame_ended(m)
                    &&& #[trigger] old(self).framed(
                        *final(self),
                        screen::frame_begun(old(out)@),
                        m,
                        false,
                        Some(&(FramePrompt { queued: &none, prediction: None, ..*prompt })),
                        width,
                        *term,
                        *env,
                    )
                },
            final(self).wf(),
    {
        let none: Vec<String> = Vec::new();
        let alone = FramePrompt { queued: &none, prediction: None, ..*prompt };
        begin_frame(out);
        let _ = self.draw_frame(out, assets, width, Some(&alone), term, env);
        let ghost m = out@;
        end_frame(out);
        assert(none@.len() == 0);
        assert(alone == (FramePrompt { queued: &none, prediction: None, ..*prompt }));
    }
}

/// Where the next frame starts: behind the blocks, whose rows are not drawn
/// again, and before the gap, unless the terminal has scrolled.
pub proof fn law_next_frame_starts_behind_blocks(
    screen: Screen,
    m: Canvas,
    p: FramePrompt,
    width: usize,
    term: Term,
    env: Env,
)
    ensures
        ({
            let c = screen.content(m, false, width, term, env);
            let s = screen.frame_sections(c, p, width, term, env);
            !s.scrolled ==> screen.prompt_after(c, s, term).anchor_row == Some(
                out::rows_plus(c.start, c.blocks),
            )
        }),
{
    reveal(Screen::sections);
    reveal(Screen::body);
}

} // verus!
