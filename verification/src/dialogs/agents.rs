//! The dialog that shows the agents and what they do.

use vstd::prelude::*;

use crate::dialogs::keys::{KeyCode, NavAction};
use crate::dialogs::list;
use crate::dialogs::list::{end_dialog_draw, ListState};
use crate::dialogs::ps;
use crate::dialogs::ps::row_count;
use crate::dialogs::result::DialogResult;
use crate::hints;
use crate::hints::Hints;
use crate::render::bars;
use crate::render::bars::draw_bar;
use crate::render::model::AgentToolEntry;
use crate::render::out;
use crate::render::out::{crlf, Canvas, Color, RenderOut, StyleState};
use crate::render::table;
use crate::render::tools;
use crate::render::tools::wrap_all;
use crate::text;
use crate::text::{align_left, cat, cat3, lines, number, same_text, truncate_str};
use crate::theme;
use crate::utils;
use crate::utils::format_duration;

verus! {

/// What an agent does.
#[derive(Clone, Copy, Debug, PartialEq, Eq, Structural)]
pub enum AgentStatus {
    Working,
    Idle,
}

/// An agent that runs in a process of its own.
pub struct RegistryEntry {
    pub pid: u32,
    pub agent_id: String,
    pub status: AgentStatus,
    pub task_slug: Option<String>,
}

/// What is known of an agent: what it was told, and its tool calls.
pub struct AgentSnapshot {
    pub agent_id: String,
    pub prompt: String,
    pub tool_calls: Vec<AgentToolEntry>,
}

/// What the dialog shows: all agents, or one.
pub enum Page<T> {
    List,
    Detail { agent_id: T, scroll: usize, follow: bool },
}

pub open spec fn page_view(p: Page<String>) -> Page<Seq<char>> {
    match p {
        Page::List => Page::List,
        Page::Detail { agent_id, scroll, follow } => Page::Detail {
            agent_id: agent_id@,
            scroll,
            follow,
        },
    }
}

/// A line about an agent; a tool call goes by its number.
pub enum DetailLine<T> {
    Label(T),
    Text(T),
    Blank,
    ToolCall(usize),
}

pub open spec fn line_view(l: DetailLine<String>) -> DetailLine<Seq<char>> {
    match l {
        DetailLine::Label(t) => DetailLine::Label(t@),
        DetailLine::Text(t) => DetailLine::Text(t@),
        DetailLine::Blank => DetailLine::Blank,
        DetailLine::ToolCall(i) => DetailLine::ToolCall(i),
    }
}

pub open spec fn lines_view(v: Seq<DetailLine<String>>) -> Seq<DetailLine<Seq<char>>> {
    Seq::new(v.len(), |i: int| line_view(v[i]))
}

// ── Lines about an agent ─────────────────────────────────────────────────

/// The first of what is known from `k` on that is about the agent.
pub open spec fn snapshot_from(snaps: Seq<AgentSnapshot>, k: int, id: Seq<char>) -> Option<
    AgentSnapshot,
>
    decreases snaps.len() - k,
{
    if k < 0 || k >= snaps.len() {
        None
    } else if snaps[k].agent_id@ == id {
        Some(snaps[k])
    } else {
        snapshot_from(snaps, k + 1, id)
    }
}

fn find_snapshot<'a>(snaps: &'a Vec<AgentSnapshot>, id: &str) -> (r: Option<&'a AgentSnapshot>)
    ensures
        match r {
            Some(s) => snapshot_from(snaps@, 0, id@) == Some(*s),
            None => snapshot_from(snaps@, 0, id@) is None,
        },
{
    let n: usize = snaps.len();
    let mut i: usize = 0;
    while i < n
        invariant
            n == snaps@.len(),
            i <= n,
            snapshot_from(snaps@, 0, id@) == snapshot_from(snaps@, i as int, id@),
        decreases n - i,
    {
        if same_text(snaps[i].agent_id.as_str(), id) {
            return Some(&snaps[i]);
        }
        i = i + 1;
    }
    None
}

/// The first agent from `k` on with the id.
pub open spec fn entry_from(agents: Seq<RegistryEntry>, k: int, id: Seq<char>) -> Option<
    RegistryEntry,
>
    decreases agents.len() - k,
{
    if k < 0 || k >= agents.len() {
        None
    } else if agents[k].agent_id@ == id {
        Some(agents[k])
    } else {
        entry_from(agents, k + 1, id)
    }
}

fn find_entry<'a>(agents: &'a Vec<RegistryEntry>, id: &str) -> (r: Option<&'a RegistryEntry>)
    ensures
        match r {
            Some(e) => entry_from(agents@, 0, id@) == Some(*e),
            None => entry_from(agents@, 0, id@) is None,
        },
{
    let n: usize = agents.len();
    let mut i: usize = 0;
    while i < n
        invariant
            n == agents@.len(),
            i <= n,
            entry_from(agents@, 0, id@) == entry_from(agents@, i as int, id@),
        decreases n - i,
    {
        if same_text(agents[i].agent_id.as_str(), id) {
            return Some(&agents[i]);
        }
        i = i + 1;
    }
    None
}

/// Lines that each hold a text.
pub open spec fn text_lines(v: Seq<Seq<char>>) -> Seq<DetailLine<Seq<char>>> {
    Seq::new(v.len(), |i: int| DetailLine::Text(v[i]))
}

/// Lines that each hold a tool call.
pub open spec fn call_lines(n: nat) -> Seq<DetailLine<Seq<char>>> {
    Seq::new(n, |i: int| DetailLine::ToolCall(i as usize))
}

/// The lines about an agent: what it was told, and its tool calls.
pub open spec fn detail_of(prompt: Seq<char>, calls: nat, width: int) -> Seq<
    DetailLine<Seq<char>>,
> {
    let ls = text::lines_of(prompt);
    let told = tools::wrapped_all(ls, ls.len() as int, bars::at_least_zero(width - 2));
    seq![DetailLine::Label("Prompt:"@)] + text_lines(told) + seq![DetailLine::Blank] + if calls
        == 0 {
        seq![DetailLine::Text("(no tool calls yet)"@)]
    } else {
        call_lines(calls)
    }
}

/// The lines that are shown of an agent.
pub open spec fn lines_about(snap: Option<AgentSnapshot>, width: int) -> Seq<
    DetailLine<Seq<char>>,
> {
    match snap {
        Some(s) => detail_of(s.prompt@, s.tool_calls@.len(), width),
        None => seq![DetailLine::Text("(agent not tracked)"@)],
    }
}

fn detail_lines(snapshot: &AgentSnapshot, width: usize) -> (r: Vec<DetailLine<String>>)
    ensures
        lines_view(r@) == detail_of(snapshot.prompt@, snapshot.tool_calls@.len(), width as int),
{
    let mut v: Vec<DetailLine<String>> = Vec::new();
    v.push(DetailLine::Label("Prompt:".to_owned()));
    let ls = lines(snapshot.prompt.as_str());
    let told = wrap_all(&ls, width.saturating_sub(2));
    let ghost tv = text::texts(told@);
    let n: usize = told.len();
    let ghost head = seq![DetailLine::Label("Prompt:"@)];
    assert(lines_view(v@) =~= head);
    assert(text_lines(tv.take(0)) =~= seq![]);
    assert(lines_view(v@) =~= head + text_lines(tv.take(0)));
    let mut i: usize = 0;
    while i < n
        invariant
            n == told@.len(),
            tv == text::texts(told@),
            tv.len() == n,
            i <= n,
            lines_view(v@) == head + text_lines(tv.take(i as int)),
        decreases n - i,
    {
        let ghost before = lines_view(v@);
        let t: String = told[i].as_str().to_owned();
        assert(tv[i as int] == t@);
        v.push(DetailLine::Text(t));
        assert(lines_view(v@) =~= before.push(DetailLine::Text(tv[i as int])));
        assert(text_lines(tv.take(i + 1)) =~= text_lines(tv.take(i as int)).push(
            DetailLine::Text(tv[i as int]),
        ));
        assert(lines_view(v@) =~= head + text_lines(tv.take(i + 1)));
        i = i + 1;
    }
    assert(tv.take(n as int) =~= tv);
    let ghost upper = head + text_lines(tv) + seq![DetailLine::<Seq<char>>::Blank];
    v.push(DetailLine::Blank);
    assert(lines_view(v@) =~= upper);
    let calls: usize = snapshot.tool_calls.len();
    if calls == 0 {
        v.push(DetailLine::Text("(no tool calls yet)".to_owned()));
        assert(lines_view(v@) =~= upper + seq![DetailLine::Text("(no tool calls yet)"@)]);
    } else {
        let mut j: usize = 0;
        assert(lines_view(v@) =~= upper + call_lines(0));
        while j < calls
            invariant
                j <= calls,
                lines_view(v@) == upper + call_lines(j as nat),
            decreases calls - j,
        {
            let ghost before = lines_view(v@);
            v.push(DetailLine::ToolCall(j));
            assert(lines_view(v@) =~= before.push(DetailLine::ToolCall(j)));
            assert(lines_view(v@) =~= upper + call_lines((j + 1) as nat));
            j = j + 1;
        }
    }
    v
}

fn lines_shown(snapshot: Option<&AgentSnapshot>, width: usize) -> (r: Vec<DetailLine<String>>)
    ensures
        lines_view(r@) == lines_about(
            match snapshot {
                Some(s) => Some(*s),
                None => None,
            },
            width as int,
        ),
{
    match snapshot {
        Some(s) => detail_lines(s, width),
        None => {
            let mut v: Vec<DetailLine<String>> = Vec::new();
            v.push(DetailLine::Text("(agent not tracked)".to_owned()));
            assert(lines_view(v@) =~= seq![DetailLine::Text("(agent not tracked)"@)]);
            v
        },
    }
}

/// Every tool call is shown in a line of its own.
pub proof fn law_every_call_has_a_line(prompt: Seq<char>, calls: nat, width: int, i: int)
    requires
        0 <= i < calls,
    ensures
        detail_of(prompt, calls, width).len() >= calls,
        detail_of(prompt, calls, width)[detail_of(prompt, calls, width).len() - calls + i]
            == DetailLine::<Seq<char>>::ToolCall(i as usize),
{
}

/// Lines about an agent that fit on half the terminal.
pub open spec fn room_for(height: u16) -> int {
    table::larger(bars::at_least_zero(height as int / 2 - 5), 3)
}

fn max_detail_lines(height: u16) -> (r: usize)
    ensures
        r == room_for(height),
        r <= 32767,
{
    let half: u16 = height / 2;
    let n: u16 = half.saturating_sub(5);
    if n > 3 {
        n as usize
    } else {
        3
    }
}

/// How far the lines can be scrolled.
pub open spec fn last_scroll(total: nat, height: u16) -> int {
    bars::at_least_zero(total as int - room_for(height))
}

// ── Drawing ──────────────────────────────────────────────────────────────

/// The style of an agent's name.
pub open spec fn name_style() -> StyleState {
    StyleState {
        fg: Some(Color::AnsiValue(theme::AGENT)),
        bold: true,
        ..out::plain_style()
    }
}

fn agent_style() -> (r: StyleState)
    ensures
        r == name_style(),
{
    StyleState {
        fg: Some(Color::AnsiValue(theme::AGENT)),
        bg: None,
        bold: true,
        dim: false,
        italic: false,
        crossedout: false,
        underline: false,
    }
}

/// The heading over the lines about an agent.
pub open spec fn heading(m: Canvas, id: Seq<char>, entry: Option<RegistryEntry>) -> Canvas {
    let m = m.print(" "@).push_style(name_style()).print(id).pop_style();
    match entry {
        Some(e) => {
            let m = if e.status == AgentStatus::Idle {
                m.push_fg(Color::AnsiValue(theme::SUCCESS)).print(" \u{2713}"@).pop_style()
            } else {
                m
            };
            match e.task_slug {
                Some(s) => m.push_dim().print(" \u{00b7} "@ + s@).pop_style(),
                None => m,
            }
        },
        None => m,
    }
}

fn draw_heading(out: &mut RenderOut, id: &str, entry: Option<&RegistryEntry>)
    ensures
        final(out)@ == heading(
            old(out)@,
            id@,
            match entry {
                Some(e) => Some(*e),
                None => None,
            },
        ),
{
    out.print(" ");
    out.push_style(agent_style());
    out.print(id);
    out.pop_style();
    match entry {
        Some(e) => {
            if e.status == AgentStatus::Idle {
                out.push_fg(Color::AnsiValue(theme::SUCCESS));
                out.print(" \u{2713}");
                out.pop_style();
            }
            match &e.task_slug {
                Some(s) => {
                    out.push_dim();
                    let t = cat(" \u{00b7} ", s.as_str());
                    out.print(t.as_str());
                    out.pop_style();
                },
                None => {},
            }
        },
        None => {},
    }
}

/// Draws a line about an agent.
pub open spec fn line_drawn(
    m: Canvas,
    line: DetailLine<Seq<char>>,
    calls: Seq<AgentToolEntry>,
    w: int,
) -> Canvas {
    match line {
        DetailLine::Label(t) => m.push_dim().print("  "@ + t).pop_style().crlf(),
        DetailLine::Text(t) => m.print(
            "   "@ + text::clipped(t, bars::at_least_zero(w - 4)),
        ).crlf(),
        DetailLine::Blank => m.crlf(),
        DetailLine::ToolCall(i) => {
            let e = calls[i as int];
            let columns = bars::at_least_zero(w - bars::capped(5 + text::byte_len(e.tool_name@)));
            let m = m.print("  "@).push_dim().print(e.tool_name@).pop_style().print(
                " "@ + text::clipped(e.summary@, columns),
            );
            let m = match e.elapsed_ms {
                Some(ms) => if ms >= 100 {
                    m.push_dim().print(
                        "  "@ + utils::duration_text((ms / 1000) as nat),
                    ).pop_style()
                } else {
                    m
                },
                None => m,
            };
            m.crlf()
        },
    }
}

/// Draws the lines from `from` up to `to`.
pub open spec fn lines_drawn(
    m: Canvas,
    ls: Seq<DetailLine<Seq<char>>>,
    calls: Seq<AgentToolEntry>,
    from: int,
    to: int,
    w: int,
) -> Canvas
    decreases to - from,
{
    if to <= from {
        m
    } else {
        line_drawn(lines_drawn(m, ls, calls, from, to - 1, w), ls[to - 1], calls, w)
    }
}

fn draw_call(out: &mut RenderOut, e: &AgentToolEntry, w: usize)
    ensures
        forall|calls: Seq<AgentToolEntry>, i: usize|
            i < calls.len() && calls[i as int] == *e ==> final(out)@ == #[trigger] line_drawn(
                old(out)@,
                DetailLine::ToolCall(i),
                calls,
                w as int,
            ),
{
    out.print("  ");
    out.push_dim();
    out.print(e.tool_name.as_str());
    out.pop_style();
    let len: usize = e.tool_name.as_str().len();
    let summary = truncate_str(e.summary.as_str(), w.saturating_sub(len.saturating_add(5)));
    let t = cat(" ", summary.as_str());
    out.print(t.as_str());
    match e.elapsed_ms {
        Some(ms) => {
            if ms >= 100 {
                out.push_dim();
                let d = format_duration(ms / 1000);
                let t = cat("  ", d.as_str());
                out.print(t.as_str());
                out.pop_style();
            }
        },
        None => {},
    }
    crlf(out);
}

/// The tool calls of an agent of which something is known.
pub open spec fn calls_of(snap: Option<AgentSnapshot>) -> Seq<AgentToolEntry> {
    match snap {
        Some(s) => s.tool_calls@,
        None => seq![],
    }
}

/// The lines speak of tool calls that there are.
pub open spec fn calls_exist(ls: Seq<DetailLine<Seq<char>>>, n: nat) -> bool {
    forall|i: int|
        0 <= i < ls.len() ==> match #[trigger] ls[i] {
            DetailLine::ToolCall(k) => k < n,
            _ => true,
        }
}

proof fn lemma_calls_exist(snap: Option<AgentSnapshot>, width: int)
    ensures
        calls_exist(lines_about(snap, width), calls_of(snap).len()),
{
    match snap {
        Some(s) => {
            let ls = text::lines_of(s.prompt@);
            let told = tools::wrapped_all(ls, ls.len() as int, bars::at_least_zero(width - 2));
            let upper = seq![DetailLine::Label("Prompt:"@)] + text_lines(told) + seq![
                DetailLine::Blank,
            ];
            let all = lines_about(snap, width);
            let n = s.tool_calls@.len();
            vstd::std_specs::vec::axiom_spec_len(&s.tool_calls);
            assert forall|i: int| 0 <= i < all.len() implies match #[trigger] all[i] {
                DetailLine::ToolCall(k) => k < n,
                _ => true,
            } by {
                if i < upper.len() {
                    assert(all[i] == upper[i]);
                } else if n > 0 {
                    assert(all[i] == call_lines(n)[i - upper.len()]);
                } else {
                    assert(all[i] == DetailLine::Text("(no tool calls yet)"@));
                }
            }
        },
        None => {},
    }
}

fn draw_lines(
    out: &mut RenderOut,
    ls: &Vec<DetailLine<String>>,
    calls: &Vec<AgentToolEntry>,
    from: usize,
    to: usize,
    w: usize,
)
    requires
        from <= to <= ls@.len(),
        calls_exist(lines_view(ls@), calls@.len()),
    ensures
        final(out)@ == lines_drawn(
            old(out)@,
            lines_view(ls@),
            calls@,
            from as int,
            to as int,
            w as int,
        ),
{
    let ghost lv = lines_view(ls@);
    let mut i: usize = from;
    while i < to
        invariant
            from <= i <= to <= ls@.len(),
            lv == lines_view(ls@),
            calls_exist(lv, calls@.len()),
            out@ == lines_drawn(old(out)@, lv, calls@, from as int, i as int, w as int),
        decreases to - i,
    {
        assert(lv[i as int] == line_view(ls@[i as int]));
        match &ls[i] {
            DetailLine::Label(t) => {
                out.push_dim();
                let s = cat("  ", t.as_str());
                out.print(s.as_str());
                out.pop_style();
                crlf(out);
            },
            DetailLine::Text(t) => {
                let shown = truncate_str(t.as_str(), w.saturating_sub(4));
                let s = cat("   ", shown.as_str());
                out.print(s.as_str());
                crlf(out);
            },
            DetailLine::Blank => {
                crlf(out);
            },
            DetailLine::ToolCall(k) => {
                draw_call(out, &calls[*k], w);
            },
        }
        i = i + 1;
    }
}

/// Bytes of the longest id among the first `n` agents.
pub open spec fn widest(agents: Seq<RegistryEntry>, n: int) -> int
    decreases n,
{
    if n <= 0 {
        0
    } else {
        table::larger(widest(agents, n - 1), text::byte_len(agents[n - 1].agent_id@) as int)
    }
}

fn widest_name(agents: &Vec<RegistryEntry>) -> (r: usize)
    ensures
        r == widest(agents@, agents@.len() as int),
{
    let mut w: usize = 0;
    let n: usize = agents.len();
    let mut i: usize = 0;
    while i < n
        invariant
            n == agents@.len(),
            i <= n,
            w == widest(agents@, i as int),
        decreases n - i,
    {
        let l: usize = agents[i].agent_id.as_str().len();
        if l > w {
            w = l;
        }
        i = i + 1;
    }
    w
}

/// Draws the agents from `from` up to `to`.
pub open spec fn agent_rows(
    m: Canvas,
    agents: Seq<RegistryEntry>,
    from: int,
    to: int,
    selected: int,
    name_w: int,
    w: int,
) -> Canvas
    decreases to - from,
{
    if to <= from {
        m
    } else {
        let m = agent_rows(m, agents, from, to - 1, selected, name_w, w).print("  "@);
        let a = agents[to - 1];
        let name = text::left_aligned(a.agent_id@, name_w);
        let m = if to - 1 == selected {
            m.push_style(name_style()).print(name).pop_style()
        } else {
            m.print(name)
        };
        let status = match a.status {
            AgentStatus::Working => "working"@,
            AgentStatus::Idle => "idle   "@,
        };
        let m = m.push_dim().print("  "@ + status).pop_style();
        (match a.task_slug {
            Some(s) => m.print(
                "  "@ + text::clipped(s@, bars::at_least_zero(w - bars::capped(name_w + 12))),
            ),
            None => m,
        }).crlf()
    }
}

// ── The dialog ───────────────────────────────────────────────────────────

/// The dialog that shows the agents and what they do.
pub struct AgentsDialog {
    pub agents: Vec<RegistryEntry>,
    pub list: ListState,
    pub page: Page<String>,
    /// The agent that was selected before one was shown by itself.
    pub list_selected: usize,
    /// Columns and rows of the terminal.
    pub term_size: (u16, u16),
}

/// What has to be done after a key.
#[derive(Clone, Copy, Debug, PartialEq, Eq, Structural)]
pub enum AgentsStep {
    Stay,
    /// The agent with the process id has to be ended.
    Kill(u32),
    Closed,
}

impl AgentsDialog {
    pub fn new(
        agents: Vec<RegistryEntry>,
        max_height: Option<u16>,
        term_size: (u16, u16),
    ) -> (r: AgentsDialog)
        ensures
            r.agents == agents,
            r.list == ListState::fresh(ps::rows_for(agents@.len()), max_height, 4),
            r.page is List,
            r.list_selected == 0,
            r.term_size == term_size,
    {
        let list = ListState::new(row_count(agents.len()), max_height, 4);
        AgentsDialog { agents, list, page: Page::List, list_selected: 0, term_size }
    }

    /// Rows that the dialog wants.
    pub open spec fn rows(self, snaps: Seq<AgentSnapshot>) -> int {
        match self.page {
            Page::List => self.list.rows(ps::rows_for(self.agents@.len())) as int,
            Page::Detail { agent_id, scroll: _, follow: _ } => {
                let snap = snapshot_from(snaps, 0, agent_id@);
                let n = lines_about(snap, self.term_size.0 as int).len() as int;
                let most = room_for(self.term_size.1);
                if n > most {
                    table::larger(most + 5, self.term_size.1 as int / 2)
                } else {
                    n + 5
                }
            },
        }
    }

    pub fn height(&self, snaps: &Vec<AgentSnapshot>) -> (r: u16)
        ensures
            r == self.rows(snaps@),
    {
        match &self.page {
            Page::List => self.list.height(row_count(self.agents.len())),
            Page::Detail { agent_id, scroll: _, follow: _ } => {
                let snap = find_snapshot(snaps, agent_id.as_str());
                let ls = lines_shown(snap, self.term_size.0 as usize);
                assert(lines_view(ls@).len() == ls@.len());
                let n: usize = ls.len();
                let most: usize = max_detail_lines(self.term_size.1);
                if n > most {
                    let wanted: u16 = most as u16 + 5;
                    let half: u16 = self.term_size.1 / 2;
                    if wanted > half {
                        wanted
                    } else {
                        half
                    }
                } else {
                    n as u16 + 5
                }
            },
        }
    }

    pub fn mark_dirty(&mut self)
        ensures
            *final(self) == (AgentsDialog {
                list: ListState { dirty: true, ..old(self).list },
                ..*old(self)
            }),
    {
        self.list.dirty = true;
    }

    pub fn anchor_row(&self) -> (r: Option<u16>)
        ensures
            r == self.list.anchor_row,
    {
        self.list.anchor_row
    }

    pub fn handle_resize(&mut self)
        ensures
            *final(self) == (AgentsDialog {
                list: ListState { anchor_row: None, dirty: true, ..old(self).list },
                ..*old(self)
            }),
    {
        self.list.handle_resize();
    }

    /// Where the lines about an agent are scrolled to, and whether they go
    /// along with new ones.
    pub open spec fn scrolled(nav: NavAction, scroll: usize, total: nat, height: u16) -> Option<
        (int, bool),
    > {
        let last = last_scroll(total, height);
        let page = room_for(height) / 2;
        match nav {
            NavAction::Up => Some((bars::at_least_zero(scroll - 1), false)),
            NavAction::Down => Some(
                (table::smaller(scroll + 1, last), table::smaller(scroll + 1, last) >= last),
            ),
            NavAction::PageUp => Some((bars::at_least_zero(scroll - page), false)),
            NavAction::PageDown => Some(
                (table::smaller(scroll + page, last), table::smaller(scroll + page, last) >= last),
            ),
            _ => None,
        }
    }

    fn scroll_by(nav: NavAction, scroll: usize, total: usize, height: u16) -> (r: Option<
        (usize, bool),
    >)
        ensures
            match r {
                Some((s, f)) => AgentsDialog::scrolled(nav, scroll, total as nat, height) == Some(
                    (s as int, f),
                ),
                None => AgentsDialog::scrolled(nav, scroll, total as nat, height) is None,
            },
    {
        let room: usize = max_detail_lines(height);
        let last: usize = total.saturating_sub(room);
        match nav {
            NavAction::Up => Some((scroll.saturating_sub(1), false)),
            NavAction::Down => {
                let s: usize = scroll.saturating_add(1);
                if s < last {
                    Some((s, false))
                } else {
                    Some((last, true))
                }
            },
            NavAction::PageUp => Some((scroll.saturating_sub(room / 2), false)),
            NavAction::PageDown => {
                let s: usize = scroll.saturating_add(room / 2);
                if s < last {
                    Some((s, false))
                } else {
                    Some((last, true))
                }
            },
            _ => None,
        }
    }

    /// What a key does while one agent is shown.
    pub open spec fn detail_key(
        self,
        after: AgentsDialog,
        nav: Option<NavAction>,
        id: Seq<char>,
        scroll: usize,
        total: nat,
    ) -> bool {
        match nav {
            Some(NavAction::Dismiss) => {
                let l = ListState::fresh(ps::rows_for(self.agents@.len()), None, 4);
                after == (AgentsDialog {
                    page: Page::List,
                    list: ListState { selected: self.list_selected, anchor_row: None, ..l },
                    ..self
                })
            },
            Some(a) => match AgentsDialog::scrolled(a, scroll, total, self.term_size.1) {
                Some((s, f)) => {
                    &&& page_view(after.page) == Page::Detail {
                        agent_id: id,
                        scroll: s as usize,
                        follow: f,
                    }
                    &&& after == (AgentsDialog {
                        page: after.page,
                        list: ListState { dirty: true, ..self.list },
                        ..self
                    })
                },
                None => page_view(after.page) == page_view(self.page) && after == (AgentsDialog {
                    page: after.page,
                    ..self
                }),
            },
            None => page_view(after.page) == page_view(self.page) && after == (AgentsDialog {
                page: after.page,
                ..self
            }),
        }
    }

    /// What a key does while all agents are shown.
    pub open spec fn list_key(
        self,
        after: AgentsDialog,
        step: AgentsStep,
        code: KeyCode,
        nav: Option<NavAction>,
    ) -> bool {
        let selected = self.list.selected;
        if code == KeyCode::Backspace {
            &&& after == self
            &&& step == if selected < self.agents@.len() {
                AgentsStep::Kill(self.agents@[selected as int].pid)
            } else {
                AgentsStep::Stay
            }
        } else if code == KeyCode::Enter {
            &&& step == AgentsStep::Stay
            &&& if selected < self.agents@.len() {
                &&& page_view(after.page) == Page::Detail {
                    agent_id: self.agents@[selected as int].agent_id@,
                    scroll: 0,
                    follow: true,
                }
                &&& after == (AgentsDialog {
                    page: after.page,
                    list_selected: selected,
                    list: ListState { anchor_row: None, dirty: true, ..self.list },
                    ..self
                })
            } else {
                after == self
            }
        } else {
            match nav {
                Some(NavAction::Dismiss) => after == self && step == AgentsStep::Closed,
                Some(a) => {
                    &&& step == AgentsStep::Stay
                    &&& after == (AgentsDialog {
                        list: self.list.after_nav(a, self.agents@.len() as int),
                        ..self
                    })
                },
                None => after == self && step == AgentsStep::Stay,
            }
        }
    }

    /// Takes a key that stands for `nav`.
    pub fn handle_key(
        &mut self,
        code: KeyCode,
        nav: Option<NavAction>,
        snaps: &Vec<AgentSnapshot>,
    ) -> (r: AgentsStep)
        ensures
            match old(self).page {
                Page::List => old(self).list_key(*final(self), r, code, nav),
                Page::Detail { agent_id, scroll, follow: _ } => {
                    let total = match snapshot_from(snaps@, 0, agent_id@) {
                        Some(s) => lines_about(Some(s), old(self).term_size.0 as int).len(),
                        None => 0,
                    };
                    &&& r == AgentsStep::Stay
                    &&& old(self).detail_key(*final(self), nav, agent_id@, scroll, total)
                },
            },
    {
        match &self.page {
            Page::Detail { agent_id, scroll, follow } => {
                let id: String = agent_id.as_str().to_owned();
                let at: usize = *scroll;
                let total: usize = match find_snapshot(snaps, id.as_str()) {
                    Some(s) => {
                        let ls = detail_lines(s, self.term_size.0 as usize);
                        assert(lines_view(ls@).len() == ls@.len());
                        ls.len()
                    },
                    None => 0,
                };
                match nav {
                    Some(NavAction::Dismiss) => {
                        self.page = Page::List;
                        self.list = ListState::new(row_count(self.agents.len()), None, 4);
                        self.list.selected = self.list_selected;
                        self.list.anchor_row = None;
                    },
                    Some(a) => {
                        match AgentsDialog::scroll_by(a, at, total, self.term_size.1) {
                            Some((s, f)) => {
                                self.page = Page::Detail { agent_id: id, scroll: s, follow: f };
                                self.list.dirty = true;
                            },
                            None => {},
                        }
                    },
                    None => {},
                }
                AgentsStep::Stay
            },
            Page::List => self.handle_list_key(code, nav),
        }
    }

    fn handle_list_key(&mut self, code: KeyCode, nav: Option<NavAction>) -> (r: AgentsStep)
        ensures
            old(self).list_key(*final(self), r, code, nav),
    {
        let selected: usize = self.list.selected;
        if code == KeyCode::Backspace {
            if selected < self.agents.len() {
                return AgentsStep::Kill(self.agents[selected].pid);
            }
            return AgentsStep::Stay;
        }
        if code == KeyCode::Enter {
            if selected < self.agents.len() {
                let id: String = self.agents[selected].agent_id.as_str().to_owned();
                self.list_selected = selected;
                self.page = Page::Detail { agent_id: id, scroll: 0, follow: true };
                self.list.anchor_row = None;
                self.list.dirty = true;
            }
            return AgentsStep::Stay;
        }
        match nav {
            Some(NavAction::Dismiss) => AgentsStep::Closed,
            Some(a) => {
                let n: usize = self.agents.len();
                self.list.navigate(a, n);
                AgentsStep::Stay
            },
            None => AgentsStep::Stay,
        }
    }

    /// Shows the agents that are left after one was ended.
    pub fn set_agents(&mut self, agents: Vec<RegistryEntry>)
        ensures
            *final(self) == (AgentsDialog {
                agents,
                list: old(self).list.with_items(ps::rows_for(agents@.len()) as int),
                ..*old(self)
            }),
    {
        self.list.set_items(row_count(agents.len()));
        self.agents = agents;
    }

    /// What the dialog comes to after a step.
    pub fn result(step: AgentsStep) -> (r: Option<DialogResult>)
        ensures
            r == (match step {
                AgentsStep::Closed => Some(DialogResult::AgentsClosed),
                _ => None,
            }),
    {
        match step {
            AgentsStep::Closed => Some(DialogResult::AgentsClosed),
            _ => None,
        }
    }

    /// Where the lines are scrolled to when they are drawn.
    pub open spec fn scroll_drawn(scroll: usize, follow: bool, total: nat, height: u16) -> int {
        let last = last_scroll(total, height);
        if follow {
            last
        } else {
            table::smaller(scroll as int, last)
        }
    }

    /// Draws one agent.
    pub open spec fn detail_drawn(
        self,
        m: Canvas,
        id: Seq<char>,
        snap: Option<AgentSnapshot>,
        scroll: int,
        start: u16,
        width: u16,
        height: u16,
        h: Hints,
    ) -> Canvas {
        let ls = lines_about(snap, width as int);
        let total = ls.len() as int;
        let most = room_for(height);
        let visible = table::smaller(total, most);
        let m = bars::bar_drawn(
            self.list.begun_on(m, start, (visible + 2) as usize, height),
            width as int,
            seq![],
            seq![],
            Color::AnsiValue(theme::AGENT),
        ).crlf();
        let m = heading(m, id, entry_from(self.agents@, 0, id)).crlf().crlf();
        let m = lines_drawn(
            m,
            ls,
            calls_of(snap),
            scroll,
            table::smaller(scroll + visible, total),
            width as int,
        );
        let m = m.crlf().push_dim();
        let m = if total > most {
            m.print(
                " ["@ + text::dec(table::smaller(scroll + visible, total) as nat) + "/"@
                    + text::dec(total as nat) + "]  "@ + h.nav@ + "  "@ + h.scroll@ + "  "@
                    + h.back@,
            )
        } else {
            m.print(hints::hint_line(seq![h.back@]))
        };
        list::dialog_ended(m.pop_style())
    }

    /// Draws all agents.
    pub open spec fn list_drawn(
        l: ListState,
        agents: Seq<RegistryEntry>,
        m: Canvas,
        start: u16,
        width: u16,
        height: u16,
        h: Hints,
    ) -> Canvas {
        let n = ps::rows_for(agents.len());
        let b = l.begun(start, n, height);
        let m = bars::bar_drawn(
            l.begun_on(m, start, n, height),
            width as int,
            seq![],
            seq![],
            Color::AnsiValue(theme::AGENT),
        ).crlf().push_dim().print(" Agents"@).pop_style().crlf();
        let m = if agents.len() == 0 {
            m.push_dim().print("  No subagents running"@).pop_style().crlf()
        } else {
            agent_rows(
                m,
                agents,
                b.shown(agents.len() as int).0,
                b.shown(agents.len() as int).1,
                b.selected as int,
                widest(agents, agents.len() as int),
                width as int,
            )
        };
        list::dialog_ended(
            m.crlf().push_dim().print(
                hints::hint_line(seq!["enter: view"@, h.kill_proc@, h.close@]),
            ).pop_style(),
        )
    }

    fn draw_rows(&self, out: &mut RenderOut, w: usize)
        ensures
            final(out)@ == agent_rows(
                old(out)@,
                self.agents@,
                self.list.shown(self.agents@.len() as int).0,
                self.list.shown(self.agents@.len() as int).1,
                self.list.selected as int,
                widest(self.agents@, self.agents@.len() as int),
                w as int,
            ),
    {
        let n: usize = self.agents.len();
        let name_w: usize = widest_name(&self.agents);
        let (from, to) = self.list.visible_range(n);
        let mut i: usize = from;
        while i < to
            invariant
                n == self.agents@.len(),
                to <= n,
                from <= i,
                i <= to || i == from,
                out@ == agent_rows(
                    old(out)@,
                    self.agents@,
                    from as int,
                    i as int,
                    self.list.selected as int,
                    name_w as int,
                    w as int,
                ),
            decreases to - i,
        {
            let a = &self.agents[i];
            let status = match a.status {
                AgentStatus::Working => "working",
                AgentStatus::Idle => "idle   ",
            };
            out.print("  ");
            let name = align_left(a.agent_id.as_str(), name_w);
            if i == self.list.selected {
                out.push_style(agent_style());
                out.print(name.as_str());
                out.pop_style();
            } else {
                out.print(name.as_str());
            }
            out.push_dim();
            let t = cat("  ", status);
            out.print(t.as_str());
            out.pop_style();
            match &a.task_slug {
                Some(s) => {
                    let slug = truncate_str(
                        s.as_str(),
                        w.saturating_sub(name_w.saturating_add(12)),
                    );
                    let t = cat("  ", slug.as_str());
                    out.print(t.as_str());
                },
                None => {},
            }
            crlf(out);
            i = i + 1;
        }
    }

    fn draw_list(
        &mut self,
        out: &mut RenderOut,
        start_row: u16,
        width: u16,
        height: u16,
        h: &Hints,
    )
        ensures
            if old(self).list.dirty {
                &&& *final(self) == (AgentsDialog {
                    list: old(self).list.begun(
                        start_row,
                        ps::rows_for(old(self).agents@.len()),
                        height,
                    ),
                    ..*old(self)
                })
                &&& final(out)@ == AgentsDialog::list_drawn(
                    old(self).list,
                    old(self).agents@,
                    old(out)@,
                    start_row,
                    width,
                    height,
                    *h,
                )
            } else {
                *final(self) == *old(self) && final(out)@ == old(out)@
            },
    {
        let n: usize = row_count(self.agents.len());
        let w: usize = match self.list.begin_draw(out, start_row, n, width, height) {
            Some((w, _)) => w,
            None => return,
        };
        draw_bar(out, w, None, None, Color::AnsiValue(theme::AGENT));
        crlf(out);
        out.push_dim();
        out.print(" Agents");
        out.pop_style();
        crlf(out);
        if self.agents.len() == 0 {
            out.push_dim();
            out.print("  No subagents running");
            out.pop_style();
            crlf(out);
        } else {
            self.draw_rows(out, w);
        }
        crlf(out);
        out.push_dim();
        let hint = hints::three("enter: view", h.kill_proc.as_str(), h.close.as_str());
        out.print(hint.as_str());
        out.pop_style();
        end_dialog_draw(out);
    }

    fn draw_detail(
        &mut self,
        out: &mut RenderOut,
        id: &str,
        snap: Option<&AgentSnapshot>,
        scroll: usize,
        follow: bool,
        start_row: u16,
        width: u16,
        height: u16,
        h: &Hints,
    ) -> (r: Option<usize>)
        ensures
            ({
                let sn = match snap {
                    Some(s) => Some(*s),
                    None => None,
                };
                let total = lines_about(sn, width as int).len();
                let at = AgentsDialog::scroll_drawn(scroll, follow, total, height);
                let rows = (table::smaller(total as int, room_for(height)) + 2) as usize;
                if old(self).list.dirty {
                    &&& r == Some(at as usize)
                    &&& *final(self) == (AgentsDialog {
                        list: old(self).list.begun(start_row, rows, height),
                        ..*old(self)
                    })
                    &&& final(out)@ == old(self).detail_drawn(
                        old(out)@,
                        id@,
                        sn,
                        at,
                        start_row,
                        width,
                        height,
                        *h,
                    )
                } else {
                    r is None && *final(self) == *old(self) && final(out)@ == old(out)@
                }
            }),
    {
        let ghost sn = match snap {
            Some(s) => Some(*s),
            None => None,
        };
        let ls = lines_shown(snap, width as usize);
        let ghost lv = lines_view(ls@);
        proof {
            lemma_calls_exist(sn, width as int);
        }
        assert(lv.len() == ls@.len());
        let total: usize = ls.len();
        let most: usize = max_detail_lines(height);
        let last: usize = total.saturating_sub(most);
        let at: usize = if follow || scroll > last {
            last
        } else {
            scroll
        };
        let visible: usize = if total < most {
            total
        } else {
            most
        };
        assert(at + visible <= total);
        let w: usize = match self.list.begin_draw(out, start_row, visible + 2, width, height) {
            Some((w, _)) => w,
            None => return None,
        };
        draw_bar(out, w, None, None, Color::AnsiValue(theme::AGENT));
        crlf(out);
        let entry = find_entry(&self.agents, id);
        draw_heading(out, id, entry);
        crlf(out);
        crlf(out);
        let none: Vec<AgentToolEntry> = Vec::new();
        assert(none@ =~= Seq::<AgentToolEntry>::empty());
        let calls = match snap {
            Some(s) => &s.tool_calls,
            None => &none,
        };
        assert(calls@ == calls_of(sn));
        draw_lines(out, &ls, calls, at, at + visible, w);
        crlf(out);
        out.push_dim();
        if total > most {
            let n = number((at + visible) as u64);
            let of = number(total as u64);
            let a = cat3(" [", n.as_str(), "/");
            let b = cat3(a.as_str(), of.as_str(), "]  ");
            let c = cat3(b.as_str(), h.nav.as_str(), "  ");
            let d = cat3(c.as_str(), h.scroll.as_str(), "  ");
            let e = cat(d.as_str(), h.back.as_str());
            out.print(e.as_str());
        } else {
            let hint = hints::one(h.back.as_str());
            out.print(hint.as_str());
        }
        out.pop_style();
        end_dialog_draw(out);
        Some(at)
    }

    /// The list with the agents that there are now.
    pub open spec fn refreshed_list(self, fresh: Seq<RegistryEntry>) -> ListState {
        if fresh.len() != self.agents@.len() {
            self.list.with_items(ps::rows_for(fresh.len()) as int)
        } else {
            self.list
        }
    }

    /// Draws the dialog where it has to be drawn; `fresh` are the agents that
    /// there are, and `snaps` is what is known of them.
    pub fn draw(
        &mut self,
        out: &mut RenderOut,
        start_row: u16,
        width: u16,
        height: u16,
        fresh: Vec<RegistryEntry>,
        snaps: &Vec<AgentSnapshot>,
        h: &Hints,
    )
        ensures
            ({
                let s = AgentsDialog { term_size: (width, height), ..*old(self) };
                match s.page {
                    Page::List => {
                        let l = s.refreshed_list(fresh@);
                        let n = ps::rows_for(fresh@.len());
                        &&& *final(self) == (AgentsDialog {
                            agents: fresh,
                            list: if l.dirty {
                                l.begun(start_row, n, height)
                            } else {
                                l
                            },
                            ..s
                        })
                        &&& final(out)@ == if l.dirty {
                            AgentsDialog::list_drawn(
                                l,
                                fresh@,
                                old(out)@,
                                start_row,
                                width,
                                height,
                                *h,
                            )
                        } else {
                            old(out)@
                        }
                    },
                    Page::Detail { agent_id, scroll, follow } => {
                        let snap = snapshot_from(snaps@, 0, agent_id@);
                        let total = lines_about(snap, width as int).len();
                        let at = AgentsDialog::scroll_drawn(scroll, follow, total, height);
                        let rows = (table::smaller(total as int, room_for(height)) + 2) as usize;
                        if s.list.dirty {
                            &&& page_view(final(self).page) == Page::Detail {
                                agent_id: agent_id@,
                                scroll: at as usize,
                                follow,
                            }
                            &&& *final(self) == (AgentsDialog {
                                page: final(self).page,
                                list: s.list.begun(start_row, rows, height),
                                ..s
                            })
                            &&& final(out)@ == s.detail_drawn(
                                old(out)@,
                                agent_id@,
                                snap,
                                at,
                                start_row,
                                width,
                                height,
                                *h,
                            )
                        } else {
                            *final(self) == s && final(out)@ == old(out)@
                        }
                    },
                }
            }),
    {
        self.term_size = (width, height);
        let shown: Option<(String, usize, bool)> = match &self.page {
            Page::List => None,
            Page::Detail { agent_id, scroll, follow } => Some(
                (agent_id.as_str().to_owned(), *scroll, *follow),
            ),
        };
        match shown {
            None => {
                if fresh.len() != self.agents.len() {
                    self.list.set_items(row_count(fresh.len()));
                }
                self.agents = fresh;
                self.draw_list(out, start_row, width, height, h);
            },
            Some((id, scroll, follow)) => {
                let snap = find_snapshot(snaps, id.as_str());
                match self.draw_detail(
                    out,
                    id.as_str(),
                    snap,
                    scroll,
                    follow,
                    start_row,
                    width,
                    height,
                    h,
                ) {
                    Some(at) => {
                        self.page = Page::Detail { agent_id: id, scroll: at, follow };
                    },
                    None => {},
                }
            },
        }
    }
}

/// The last lines about an agent are shown while its lines go along with new
/// ones.
pub proof fn law_following_shows_the_last_line(scroll: usize, total: nat, height: u16)
    ensures
        ({
            let at = AgentsDialog::scroll_drawn(scroll, true, total, height);
            &&& 0 <= at
            &&& at + table::smaller(total as int, room_for(height)) == total
        }),
{
}

} // verus!
