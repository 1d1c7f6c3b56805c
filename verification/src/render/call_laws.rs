//! What a reader sees of the line of a tool call.

use vstd::prelude::*;

use crate::json::Json;
use crate::render::bars;
use crate::render::diff_laws;
use crate::render::highlight;
use crate::render::model::ToolStatus;
use crate::render::out;
use crate::render::out::{Attribute, Canvas, Color, Command, Drawn};
use crate::render::seen;
use crate::render::styled;
use crate::render::styled::Env;
use crate::render::tools;
use crate::render::tools_laws;
use crate::text;
use crate::theme::Theme;
use crate::utils;

verus! {

/// Green for success, red for failure and refusal, the accent for a question,
/// grey for a call that runs.
pub open spec fn pill_color(status: ToolStatus, theme: Theme) -> Color {
    match status {
        ToolStatus::Success => Color::AnsiValue(114),
        ToolStatus::Failed | ToolStatus::Denied => Color::Red,
        ToolStatus::Confirm => Color::AnsiValue(theme.accent),
        ToolStatus::Pending => if theme.light {
            Color::AnsiValue(250)
        } else {
            Color::DarkGrey
        },
    }
}

/// The pill and the name of the tool.
pub open spec fn headed(name: Seq<char>) -> Seq<char> {
    seq!['\u{23fa}'] + seen::ink(name)
}

/// The canvas behind the pill and the name.
spec fn head_drawn(m: Canvas, name: Seq<char>, color: Color) -> Canvas {
    styled::dim_text(
        m.print(" "@).queue(Command::SetForegroundColor(color)).print("\u{23fa}"@).queue(
            Command::ResetColor,
        ),
        " "@ + name + " "@,
    )
}

proof fn lemma_head(m: Canvas, name: Seq<char>, color: Color)
    ensures
        seen::seen(head_drawn(m, name, color)) == seen::seen(m) + headed(name),
        m.cmds.len() > 0 && m.cmds.last() == Command::<Seq<char>>::SetForegroundColor(color)
            || seen::prints_behind(head_drawn(m, name, color).cmds, Command::SetForegroundColor(color))
            == seen::prints_behind(m.cmds, Command::SetForegroundColor(color)).push(
            seq!['\u{23fa}'],
        ),
{
    broadcast use {seen::group_seen, seen::lemma_ink_fill, seen::lemma_ink_push};

    reveal_strlit(" ");
    reveal_strlit("\u{23fa}");
    assert(" "@ =~= text::fill(' ', 1));
    let none = Seq::<char>::empty();
    assert("\u{23fa}"@ =~= none.push('\u{23fa}'));
    assert(seq!['\u{23fa}'] =~= none.push('\u{23fa}'));
    assert(seen::ink(none.push('\u{23fa}')) =~= none.push('\u{23fa}'));
    assert(seen::ink(" "@ + name + " "@) =~= seen::ink(name));
    assert(seen::seen(head_drawn(m, name, color)) =~= seen::seen(m) + headed(name));
    reveal(Canvas::queue);
    reveal(Canvas::print);
    let on = Command::SetForegroundColor(color);
    let a = m.cmds.push(Command::Print(" "@));
    seen::lemma_behind_push(m.cmds, Command::Print(" "@), on);
    seen::lemma_behind_push(a, on, on);
    let b = a.push(on).push(Command::Print("\u{23fa}"@));
    seen::lemma_behind_push(a.push(on), Command::Print("\u{23fa}"@), on);
    seen::lemma_behind_push(b, Command::ResetColor, on);
    let c = b.push(Command::ResetColor);
    let dim = Command::SetAttribute(Attribute::Dim);
    seen::lemma_behind_push(c, dim, on);
    let t = Command::Print(" "@ + name + " "@);
    seen::lemma_behind_push(c.push(dim), t, on);
    seen::lemma_behind_push(c.push(dim).push(t), Command::SetAttribute(Attribute::Reset), on);
}

proof fn lemma_dim_if_any(m: Canvas, t: Seq<char>)
    ensures
        seen::seen(tools::dim_if_any(m, t)) == seen::seen(m) + seen::ink(t),
{
    broadcast use seen::group_seen;

    if t.len() == 0 {
        assert(seen::ink(t) =~= Seq::<char>::empty());
        assert(seen::seen(m) + seen::ink(t) =~= seen::seen(m));
    }
}

/// What is told of the time that a call took: nothing of less than a tenth of
/// a second.
pub open spec fn time_seen(elapsed: Option<u64>) -> Seq<char> {
    match elapsed {
        Some(ms) => if ms >= 100 {
            seen::ink(utils::duration_text((ms / 1000) as nat))
        } else {
            seq![]
        },
        None => seq![],
    }
}

proof fn lemma_time(elapsed: Option<u64>)
    ensures
        seen::ink(tools::time_suffix(elapsed)) == time_seen(elapsed),
{
    broadcast use {seen::lemma_ink_add, seen::lemma_ink_fill};

    reveal_strlit("");
    reveal_strlit("  ");
    assert("  "@ =~= text::fill(' ', 2));
    assert(seen::ink(""@) =~= seq![]);
    assert(seen::ink(tools::time_suffix(elapsed)) =~= time_seen(elapsed));
}

/// The line of a call: the pill, the name, the summary where it fits, and how
/// long the call took.
proof fn lemma_line(
    m: Canvas,
    name: Seq<char>,
    summary: Seq<char>,
    color: Color,
    elapsed: Option<u64>,
    width: int,
)
    requires
        name != "bash"@,
        !tools::names_agents(name),
        text::byte_len(name) + text::byte_len(tools::time_suffix(elapsed)) + 5 + summary.len()
            <= width <= usize::MAX,
    ensures
        seen::seen(tools::tool_line(m, name, summary, color, elapsed, None, width).canvas)
            == seen::seen(m) + headed(name) + seen::ink(summary) + time_seen(elapsed),
{
    broadcast use {seen::group_seen, seen::lemma_ink_fill};

    reveal(tools::tool_line);
    let time = tools::time_suffix(elapsed);
    reveal_strlit("");
    assert(text::byte_len(""@) == 0);
    lemma_time(elapsed);
    let a = head_drawn(m, name, color);
    lemma_head(m, name, color);
    let b = a.print(summary);
    assert(seen::seen(b) =~= seen::seen(a) + seen::ink(summary));
    lemma_dim_if_any(b, time);
    let c = tools::dim_if_any(b, time);
    lemma_dim_if_any(c, ""@);
    assert(seen::ink(""@) =~= seq![]);
    assert(seen::seen(c) + seen::ink(""@) =~= seen::seen(c));
}

/// The pill of a call is in the colour of its status, and nothing else on the
/// line is.
proof fn lemma_pill(
    m: Canvas,
    name: Seq<char>,
    summary: Seq<char>,
    color: Color,
    elapsed: Option<u64>,
    width: int,
)
    requires
        name != "bash"@,
        !tools::names_agents(name),
        m.cmds.len() > 0 ==> m.cmds.last() != Command::<Seq<char>>::SetForegroundColor(color),
    ensures
        ({
            let on = Command::SetForegroundColor(color);
            let r = tools::tool_line(m, name, summary, color, elapsed, None, width).canvas;
            seen::prints_behind(r.cmds, on) == seen::prints_behind(m.cmds, on).push(
                seq!['\u{23fa}'],
            )
        }),
{
    reveal(tools::tool_line);
    reveal(Canvas::queue);
    reveal(Canvas::print);
    let on = Command::SetForegroundColor(color);
    lemma_head(m, name, color);
    let a = head_drawn(m, name, color);
    let time = tools::time_suffix(elapsed);
    reveal_strlit("");
    let cols = tools::summary_columns(
        name,
        bars::capped(text::byte_len(time) + text::byte_len(""@)),
        width,
    );
    let t = text::clipped(summary, cols);
    seen::lemma_behind_push(a.cmds, Command::Print(t), on);
    let b = a.print(t);
    lemma_quiet_dim(b, time, on);
    let c = tools::dim_if_any(b, time);
    lemma_quiet_dim(c, ""@, on);
    lemma_quiet_end(tools::dim_if_any(c, ""@), on);
}

proof fn lemma_quiet_dim(m: Canvas, t: Seq<char>, on: Command<Seq<char>>)
    requires
        on is SetForegroundColor,
        m.cmds.len() > 0 ==> m.cmds.last() != on,
    ensures
        ({
            let r = tools::dim_if_any(m, t);
            &&& seen::prints_behind(r.cmds, on) == seen::prints_behind(m.cmds, on)
            &&& r.cmds.len() > 0 ==> r.cmds.last() != on
        }),
{
    reveal(Canvas::queue);
    reveal(Canvas::print);
    let dim = Command::SetAttribute(Attribute::Dim);
    let a = m.cmds.push(dim);
    seen::lemma_behind_push(m.cmds, dim, on);
    seen::lemma_behind_push(a, Command::Print(t), on);
    seen::lemma_behind_push(a.push(Command::Print(t)), Command::SetAttribute(Attribute::Reset), on);
}

proof fn lemma_quiet_end(m: Canvas, on: Command<Seq<char>>)
    requires
        on is SetForegroundColor,
        m.cmds.len() > 0 ==> m.cmds.last() != on,
    ensures
        seen::prints_behind(m.crlf().cmds, on) == seen::prints_behind(m.cmds, on),
{
    reveal(Canvas::crlf);
    let x = Command::Clear(out::ClearType::UntilNewLine);
    let a = m.cmds.push(x);
    seen::lemma_behind_push(m.cmds, x, on);
    match m.row {
        Some(r) => seen::lemma_behind_push(a, Command::MoveTo(0, out::rows_plus(r, 1)), on),
        None => seen::lemma_behind_push(a, Command::Print("\r\n"@), on),
    }
}

/// Tools of which the line tells how long a call took.
pub open spec fn tells_time(name: Seq<char>) -> bool {
    name == "web_fetch"@ || name == "read_process_output"@ || name == "stop_process"@
}

/// A call without output is shown by a pill in the colour of its status, its
/// name and its summary; where time matters and the user is not being asked,
/// also by the time it took.
pub proof fn law_call_is_told(
    m: Canvas,
    name: Seq<char>,
    summary: Seq<char>,
    args: Seq<(String, Json)>,
    status: ToolStatus,
    elapsed: Option<u64>,
    width: usize,
    env: Env,
)
    requires
        name != "bash"@,
        name != "web_fetch"@,
        name != "message_agent"@ && name != "stop_agent"@ && name != "peek_agent"@,
        m.cmds.len() > 0 ==> m.cmds.last() != Command::<Seq<char>>::SetForegroundColor(
            pill_color(status, env.theme),
        ),
    ensures
        ({
            let on = Command::SetForegroundColor(pill_color(status, env.theme));
            let r = tools::tool_drawn(
                m,
                name,
                summary,
                args,
                status,
                elapsed,
                None,
                None,
                width,
                env,
            ).canvas;
            let time = if tells_time(name) && status != ToolStatus::Confirm {
                elapsed
            } else {
                None
            };
            &&& seen::prints_behind(r.cmds, on) == seen::prints_behind(m.cmds, on).push(
                seq!['\u{23fa}'],
            )
            &&& text::byte_len(name) + text::byte_len(tools::time_suffix(time)) + 5
                + summary.len() <= width ==> seen::seen(r) == seen::seen(m) + headed(name)
                + seen::ink(summary) + time_seen(time)
        }),
{
    let time = if tells_time(name) && status != ToolStatus::Confirm {
        elapsed
    } else {
        None
    };
    let color = pill_color(status, env.theme);
    lemma_pill(m, name, summary, color, time, width as int);
    if text::byte_len(name) + text::byte_len(tools::time_suffix(time)) + 5 + summary.len()
        <= width {
        lemma_line(m, name, summary, color, time, width as int);
    }
}

// ── Shell commands ───────────────────────────────────────────────────────

proof fn lemma_ink_line_end(t: Seq<char>)
    ensures
        seen::ink(highlight::without_line_end(t)) == seen::ink(t),
{
    lemma_ink_dropped(t, '\n');
    lemma_ink_dropped(text::drop_back(t, |x: char| x == '\n'), '\r');
}

proof fn lemma_ink_dropped(t: Seq<char>, c: char)
    requires
        text::is_white(c),
    ensures
        seen::ink(text::drop_back(t, |x: char| x == c)) == seen::ink(t),
    decreases t.len(),
{
    if t.len() > 0 && t.last() == c {
        lemma_ink_dropped(t.drop_last(), c);
    }
}

proof fn lemma_pieces_line(m: Canvas, ps: Seq<(u8, u8, u8, Seq<char>)>, n: int)
    requires
        0 <= n <= ps.len(),
    ensures
        seen::seen(highlight::line_printed(m, ps, n)) == seen::seen(m) + seen::ink(
            diff_laws::joined(ps, n),
        ),
    decreases n,
{
    broadcast use seen::group_seen;

    if n <= 0 {
        assert(seen::ink(diff_laws::joined(ps, n)) =~= seq![]);
        assert(seen::seen(m) + seen::ink(diff_laws::joined(ps, n)) =~= seen::seen(m));
    } else {
        lemma_pieces_line(m, ps, n - 1);
        let t = highlight::without_line_end(ps[n - 1].3);
        lemma_ink_line_end(ps[n - 1].3);
        if t.len() == 0 {
            assert(seen::ink(t) =~= seq![]);
        }
        assert(seen::seen(highlight::line_printed(m, ps, n)) =~= seen::seen(m) + seen::ink(
            diff_laws::joined(ps, n),
        ));
    }
}

pub proof fn lemma_shell_line(m: Canvas, h: highlight::History, line: Seq<char>)
    requires
        h is Some,
        diff_laws::highlighting_works("sh"@),
    ensures
        seen::seen(highlight::shell_line(m, h, line)) == seen::seen(m) + seen::ink(line),
{
    broadcast use {seen::group_seen, seen::lemma_ink_push};

    let ps = highlight::line_pieces(h, line);
    lemma_pieces_line(m, ps, ps.len() as int);
    reveal_strlit("\n");
    assert(highlight::with_nl(line) =~= line.push('\n'));
}

proof fn lemma_shell_rows(
    d: Drawn,
    segs: Seq<Seq<char>>,
    n: int,
    prefix: int,
    time: Seq<char>,
    timeout: Seq<char>,
)
    requires
        0 <= n <= segs.len(),
        diff_laws::highlighting_works("sh"@),
    ensures
        seen::seen(tools::shell_rows(d, segs, n, prefix, time, timeout).canvas) == seen::seen(
            d.canvas,
        ) + (if n > 0 {
            seen::ink(segs[0]) + seen::ink(time) + seen::ink(timeout) + seen::ink(
                seen::flat(segs.subrange(1, n)),
            )
        } else {
            Seq::<char>::empty()
        }),
    decreases n,
{
    broadcast use {seen::group_seen, seen::lemma_ink_fill};

    if n <= 0 {
        assert(seen::seen(d.canvas) + Seq::<char>::empty() =~= seen::seen(d.canvas));
    } else {
        lemma_shell_rows(d, segs, n - 1, prefix, time, timeout);
        let a = tools::shell_rows(d, segs, n - 1, prefix, time, timeout).canvas;
        let h = highlight::after_lines(highlight::shell_history(), segs, n - 1);
        diff_laws::lemma_after_is_some(highlight::shell_history(), segs, n - 1);
        let b = if n > 1 {
            a.print(text::fill(' ', prefix as nat))
        } else {
            a
        };
        assert(seen::seen(b) =~= seen::seen(a));
        lemma_shell_line(b, h, segs[n - 1]);
        let c = highlight::shell_line(b, h, segs[n - 1]);
        lemma_dim_if_any(c, time);
        lemma_dim_if_any(tools::dim_if_any(c, time), timeout);
        if n == 1 {
            assert(segs.subrange(1, 1) =~= seq![]);
            assert(seen::ink(seen::flat(segs.subrange(1, 1))) =~= seq![]);
        } else {
            assert(segs.subrange(1, n) =~= segs.subrange(1, n - 1).push(segs[n - 1]));
        }
        assert(seen::seen(tools::shell_rows(d, segs, n, prefix, time, timeout).canvas)
            =~= seen::seen(d.canvas) + (seen::ink(segs[0]) + seen::ink(time) + seen::ink(timeout)
            + seen::ink(seen::flat(segs.subrange(1, n)))));
    }
}

/// A shell command that has ended and takes no more rows than are shown is
/// shown whole behind the pill and the name, with the time it took behind its
/// first row.
pub proof fn law_shell_command_is_shown(
    m: Canvas,
    command: Seq<char>,
    color: Color,
    elapsed: Option<u64>,
    width: int,
) -> (rows: Seq<Seq<char>>)
    requires
        diff_laws::highlighting_works("sh"@),
    ensures
        seen::ink(seen::flat(rows)) == seen::ink(command),
        0 < rows.len() <= 20 ==> seen::seen(
            tools::tool_line(m, "bash"@, command, color, elapsed, None, width).canvas,
        ) == seen::seen(m) + headed("bash"@) + seen::ink(rows[0]) + time_seen(elapsed) + seen::ink(
            seen::flat(rows.skip(1)),
        ),
{
    reveal(tools::tool_line);
    let time = tools::time_suffix(elapsed);
    reveal_strlit("");
    lemma_time(elapsed);
    let cols = tools::summary_columns(
        "bash"@,
        bars::capped(text::byte_len(time) + text::byte_len(""@)),
        width,
    );
    let ls = text::lines_of(command);
    let rows = tools::summary_segments(command, cols);
    tools_laws::lemma_wrapped_all(ls, ls.len() as int, tools::at_least_one(cols));
    assert(ls.take(ls.len() as int) =~= ls);
    seen::lemma_ink_lines(command);
    lemma_head(m, "bash"@, color);
    let a = head_drawn(m, "bash"@, color);
    let n = rows.len() as int;
    lemma_shell_rows(out::drawn(a), rows, n, tools::tool_prefix("bash"@), time, ""@);
    assert(seen::ink(""@) =~= seq![]);
    if 0 < n <= 20 {
        assert(rows.subrange(1, n) =~= rows.skip(1));
        assert(seen::seen(
            tools::tool_line(m, "bash"@, command, color, elapsed, None, width).canvas,
        ) =~= seen::seen(m) + headed("bash"@) + seen::ink(rows[0]) + time_seen(elapsed)
            + seen::ink(seen::flat(rows.skip(1))));
    }
    rows
}

} // verus!
