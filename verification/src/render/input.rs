//! The input area of the prompt.

use vstd::prelude::*;

use crate::render::bars;
use crate::render::completions::{Completions, Menu};
use crate::render::out;
use crate::render::out::{Canvas, ClearType, Color, Command, RenderOut, StyleState};
use crate::render::spans;
use crate::render::spans::render_styled_chars;
use crate::render::table;
use crate::render::tools;
use crate::render::wrap;
use crate::render::wrap::{SpanKind, VisualLine};
use crate::text;
use crate::text::{char_count, chars_of, slice_text, trim, truncate_str};
use crate::theme;
use crate::theme::Theme;

verus! {

#[derive(Clone, Copy, Debug, PartialEq, Eq, Structural)]
pub enum ViMode {
    Normal,
    Insert,
    Visual,
    VisualLine,
}

/// The input as it stands; positions count characters.
pub struct PromptInput {
    pub buf: String,
    /// The labels of the attachments, in order.
    pub labels: Vec<String>,
    pub cursor: usize,
    pub selection: Option<(usize, usize)>,
    pub vim_enabled: bool,
    pub vim_mode: Option<ViMode>,
    pub stashed: bool,
    /// The command that the input starts with, and a hint on its argument.
    pub command_hint: Option<(String, String)>,
    pub menu: Option<Menu>,
    /// Rows that the menu takes; zero when there is none.
    pub menu_rows: usize,
    pub completions: Option<Completions>,
}

// ── Rows ─────────────────────────────────────────────────────────────────

/// Rows for completions and for the input, in `height` rows of which `fixed`
/// are taken.  Completions give way to the input, which has one row at least.
pub open spec fn fitted_rows(height: int, fixed: int, wanted: int) -> (int, int) {
    let max = bars::at_least_zero(height - bars::capped(fixed + wanted));
    if max > 0 {
        (wanted, max)
    } else {
        let room = bars::at_least_zero(height - bars::capped(fixed + 1));
        let comp = table::smaller(wanted, room);
        (
            comp,
            tools::at_least_one(bars::at_least_zero(height - bars::capped(fixed + comp))),
        )
    }
}

/// Rows for completions and for the input.
pub fn fit_rows(height: usize, fixed: usize, wanted: usize) -> (r: (usize, usize))
    ensures
        (r.0 as int, r.1 as int) == fitted_rows(height as int, fixed as int, wanted as int),
{
    let max: usize = height.saturating_sub(fixed.saturating_add(wanted));
    if max > 0 {
        return (wanted, max);
    }
    let room: usize = height.saturating_sub(fixed.saturating_add(1));
    let comp: usize = if wanted < room {
        wanted
    } else {
        room
    };
    let max: usize = height.saturating_sub(fixed.saturating_add(comp));
    (
        comp,
        if max < 1 {
            1
        } else {
            max
        },
    )
}

/// The input has one row at least, and where there is a row to be had
/// everything fits.
pub proof fn law_prompt_fits(height: int, fixed: int, wanted: int)
    requires
        0 <= height < usize::MAX,
        0 <= fixed,
        0 <= wanted,
    ensures
        fitted_rows(height, fixed, wanted).1 >= 1,
        0 <= fitted_rows(height, fixed, wanted).0 <= wanted,
        height > fixed ==> fixed + fitted_rows(height, fixed, wanted).0 + fitted_rows(
            height,
            fixed,
            wanted,
        ).1 <= height,
{
}

/// Asks for the cursor to be in the middle.
pub const CENTER: usize = usize::MAX;

/// The first line that is shown when `rows` of `total` are: where it was, but
/// for what it takes to show the cursor's line.
pub open spec fn scroll_to(was: usize, cursor_line: int, rows: int, total: int) -> int {
    if total > rows {
        let off = if was == CENTER {
            bars::at_least_zero(cursor_line - rows / 2)
        } else {
            was as int
        };
        let off = if cursor_line >= bars::capped(off + rows) {
            cursor_line + 1 - rows
        } else {
            off
        };
        let off = if cursor_line < off {
            cursor_line
        } else {
            off
        };
        table::smaller(off, total - rows)
    } else {
        0
    }
}

/// The first line that is shown.
pub fn scroll_offset(was: usize, cursor_line: usize, rows: usize, total: usize) -> (r: usize)
    requires
        cursor_line < total,
    ensures
        r == scroll_to(was, cursor_line as int, rows as int, total as int),
{
    if total <= rows {
        return 0;
    }
    let mut off: usize = was;
    if off == CENTER {
        off = cursor_line.saturating_sub(rows / 2);
    }
    if cursor_line >= off.saturating_add(rows) {
        off = cursor_line + 1 - rows;
    }
    if cursor_line < off {
        off = cursor_line;
    }
    if off > total - rows {
        total - rows
    } else {
        off
    }
}

/// The cursor's line is shown, and nothing is left empty below the last line.
pub proof fn law_cursor_stays_in_view(was: usize, cursor_line: int, rows: int, total: int)
    requires
        0 <= cursor_line < total <= usize::MAX,
        1 <= rows,
    ensures
        ({
            let off = scroll_to(was, cursor_line, rows, total);
            &&& 0 <= off <= cursor_line < off + rows
            &&& total > rows ==> off + rows <= total
        }),
{
}

/// A view that shows the cursor's line does not move.
pub proof fn law_view_stays(was: usize, cursor_line: int, rows: int, total: int)
    requires
        was <= cursor_line < was + rows,
        was + rows <= total <= usize::MAX,
        1 <= rows < total,
        cursor_line < total,
        was != CENTER,
    ensures
        scroll_to(was, cursor_line, rows, total) == was,
{
}

/// Where the thumb of the scroll bar begins and ends.
pub open spec fn thumb(rows: int, total: int, scroll: int) -> (int, int) {
    if total > rows {
        let size = tools::at_least_one(rows * rows / total);
        let at = scroll * (rows - size) / (total - rows);
        (at, at + size)
    } else {
        (0, 0)
    }
}

proof fn lemma_thumb_size(rows: int, total: int)
    requires
        1 <= rows < total,
    ensures
        0 <= rows * rows / total < rows,
        1 <= tools::at_least_one(rows * rows / total) <= rows,
{
    assert(0 <= rows * rows / total < rows) by (nonlinear_arith)
        requires
            1 <= rows < total,
    ;
}

proof fn lemma_thumb_at(scroll: int, free: int, max: int)
    requires
        0 <= scroll <= max,
        0 <= free,
        max > 0,
    ensures
        0 <= scroll * free / max <= free,
        scroll == max ==> scroll * free / max == free,
        scroll == 0 ==> scroll * free / max == 0,
{
    assert(0 <= scroll * free / max <= free) by (nonlinear_arith)
        requires
            0 <= scroll <= max,
            0 <= free,
            max > 0,
    ;
    if scroll == max {
        assert(max * free / max == free) by (nonlinear_arith)
            requires
                max > 0,
        ;
    }
    if scroll == 0 {
        assert(0 * free / max == 0) by (nonlinear_arith)
            requires
                max > 0,
        ;
    }
}

/// The thumb lies on the scroll bar: at its top for the first lines, at its
/// bottom for the last.
pub proof fn law_thumb_is_on_the_bar(rows: int, total: int, scroll: int)
    requires
        1 <= rows < total,
        0 <= scroll <= total - rows,
    ensures
        0 <= thumb(rows, total, scroll).0 < thumb(rows, total, scroll).1 <= rows,
        scroll == 0 ==> thumb(rows, total, scroll).0 == 0,
        scroll == total - rows ==> thumb(rows, total, scroll).1 == rows,
{
    lemma_thumb_size(rows, total);
    let size = tools::at_least_one(rows * rows / total);
    lemma_thumb_at(scroll, rows - size, total - rows);
}

fn find_thumb(rows: usize, total: usize, scroll: usize) -> (r: (usize, usize))
    requires
        1 <= rows,
        total > rows ==> scroll <= total - rows,
    ensures
        (r.0 as int, r.1 as int) == thumb(rows as int, total as int, scroll as int),
{
    if total <= rows {
        return (0, 0);
    }
    proof {
        lemma_thumb_size(rows as int, total as int);
        assert(rows * rows <= u64::MAX * u64::MAX) by (nonlinear_arith)
            requires
                0 <= rows <= u64::MAX,
        ;
    }
    let q: u128 = rows as u128 * rows as u128 / total as u128;
    let size: usize = if q < 1 {
        1
    } else {
        q as usize
    };
    let free: usize = rows - size;
    let max: usize = total - rows;
    proof {
        lemma_thumb_at(scroll as int, free as int, max as int);
        assert(scroll * free <= u64::MAX * u64::MAX) by (nonlinear_arith)
            requires
                0 <= scroll <= u64::MAX,
                0 <= free <= u64::MAX,
        ;
        assert(0 <= scroll * free) by (nonlinear_arith)
            requires
                0 <= scroll,
                0 <= free,
        ;
    }
    let at: usize = (scroll as u128 * free as u128 / max as u128) as usize;
    (at, at + size)
}

// ── Selection ────────────────────────────────────────────────────────────

/// The part of the selection in a line of `len` characters that starts at
/// `start`.  An empty line in the selection shows as one space.
pub open spec fn line_selection(
    sel: Option<(usize, usize)>,
    start: int,
    len: int,
) -> Option<(usize, usize)> {
    match sel {
        None => None,
        Some((s, e)) => if len == 0 && s <= start && e > start {
            Some((0, 1))
        } else if e <= start || s >= start + len {
            None
        } else {
            Some(
                (
                    bars::at_least_zero(s - start) as usize,
                    (table::smaller(e as int, start + len) - start) as usize,
                ),
            )
        },
    }
}

fn selection_in(sel: Option<(usize, usize)>, start: usize, len: usize) -> (r: Option<(usize, usize)>)
    requires
        start + len <= usize::MAX,
    ensures
        r == line_selection(sel, start as int, len as int),
{
    match sel {
        None => None,
        Some((s, e)) => {
            if len == 0 && s <= start && e > start {
                Some((0, 1))
            } else if e <= start || s >= start + len {
                None
            } else {
                let end: usize = if e < start + len {
                    e
                } else {
                    start + len
                };
                Some((s.saturating_sub(start), end - start))
            }
        },
    }
}

/// Every position in the line is marked exactly when it is selected.
pub proof fn law_selection_marks_positions(
    sel: (usize, usize),
    start: int,
    len: int,
    i: int,
)
    requires
        0 <= start,
        0 < len,
        start + len <= usize::MAX,
        0 <= i < len,
    ensures
        spans::in_selection(line_selection(Some(sel), start, len), i) == (sel.0 <= start + i
            < sel.1),
{
}

/// The selection behind the first character.
pub open spec fn behind_first(sel: Option<(usize, usize)>) -> Option<(usize, usize)> {
    match sel {
        None => None,
        Some((s, e)) => {
            let a = bars::at_least_zero(s - 1) as usize;
            let b = bars::at_least_zero(e - 1) as usize;
            if a < b {
                Some((a, b))
            } else {
                None
            }
        },
    }
}

fn shift_selection(sel: Option<(usize, usize)>) -> (r: Option<(usize, usize)>)
    ensures
        r == behind_first(sel),
{
    match sel {
        None => None,
        Some((s, e)) => {
            let a: usize = s.saturating_sub(1);
            let b: usize = e.saturating_sub(1);
            if a < b {
                Some((a, b))
            } else {
                None
            }
        },
    }
}

// ── Lines ────────────────────────────────────────────────────────────────

/// What the input is: a command with an argument, another command, or a
/// command for the shell.
pub struct InputKind {
    pub prefix: Seq<char>,
    pub hint: Seq<char>,
    pub has_argument: bool,
    pub is_command: bool,
    pub is_exec: bool,
    pub ends_with_space: bool,
}

/// Whether a character is white space of ASCII.
pub open spec fn ascii_space(c: char) -> bool {
    c == ' ' || c == '\t' || c == '\n' || c == '\r' || c == '\u{c}'
}

/// Whether input is for the shell: an exclamation mark, alone or with a
/// command right behind it.
pub open spec fn shell_input(buf: Seq<char>) -> bool {
    buf.len() > 0 && buf[0] == '!' && (buf.len() == 1 || !ascii_space(buf[1]))
}

/// What the input is; `known` says whether it is a command as it stands.
pub open spec fn input_kind(
    buf: Seq<char>,
    hint: Option<(Seq<char>, Seq<char>)>,
    known: bool,
) -> InputKind {
    let ends = buf.len() > 0 && buf.last() == ' ';
    match hint {
        Some((p, h)) => InputKind {
            prefix: p,
            hint: h,
            has_argument: p.len() < buf.len() && buf[p.len() as int] == ' ',
            is_command: true,
            is_exec: shell_input(buf),
            ends_with_space: ends,
        },
        None => InputKind {
            prefix: seq![],
            hint: seq![],
            has_argument: false,
            is_command: known,
            is_exec: shell_input(buf),
            ends_with_space: ends,
        },
    }
}

/// The first line of a command with an argument: the command in the accent
/// colour, and the argument, or the hint when there is none yet.
pub open spec fn argument_line(
    m: Canvas,
    line: Seq<char>,
    k: InputKind,
    usable: int,
    accent: Color,
) -> Canvas {
    let n = k.prefix.len() as int;
    let m = m.set_fg(accent);
    if line.len() >= n {
        let m = m.print(line.take(n)).reset_style();
        let rest = line.skip(n);
        if text::trimmed(rest).len() == 0 && k.ends_with_space {
            m.print(" "@).push_dim().print(
                text::clipped(k.hint, bars::at_least_zero(usable - bars::capped(n + 2))),
            ).pop_style()
        } else {
            m.print(rest)
        }
    } else {
        m.print(line).reset_style()
    }
}

/// The style of the exclamation mark of a command for the shell.
pub open spec fn bang_style(selected: bool, theme: Theme) -> StyleState {
    StyleState {
        fg: Some(Color::Red),
        bg: if selected {
            Some(theme.selection_bg_color())
        } else {
            None
        },
        bold: true,
        ..out::plain_style()
    }
}

/// The `n` accents of a command.
pub open spec fn accents(n: nat) -> Seq<SpanKind> {
    Seq::new(n, |i: int| SpanKind::AtRef)
}

/// A line of the input, by what the input is.
pub open spec fn input_line(
    m: Canvas,
    l: VisualLine,
    idx: int,
    sel: Option<(usize, usize)>,
    k: InputKind,
    usable: int,
    theme: Theme,
) -> Canvas {
    if k.has_argument && idx == 0 {
        argument_line(m, l.text, k, usable, theme.accent_color())
    } else if k.has_argument {
        spans::line_inked(m, l.text, l.kinds, sel, theme)
    } else if k.is_command {
        spans::line_inked(m, l.text, accents(l.text.len()), sel, theme)
    } else if k.is_exec && idx == 0 && l.text.len() > 0 && l.text[0] == '!' {
        let first = match sel {
            Some((s, _)) => s == 0,
            None => false,
        };
        spans::line_inked(
            m.push_style(bang_style(first, theme)).print("!"@).pop_style(),
            l.text.skip(1),
            l.kinds.skip(1),
            behind_first(sel),
            theme,
        )
    } else {
        spans::line_inked(m, l.text, l.kinds, sel, theme)
    }
}

/// The look of the scroll bar.
#[derive(Clone, Copy)]
pub struct ScrollBar {
    pub thumb: Color,
    pub track: Color,
}

/// How the input area is shown.
pub struct InputLook {
    pub scroll: int,
    pub rows: int,
    pub usable: int,
    pub width: usize,
    pub theme: Theme,
    pub bar: ScrollBar,
}

/// The first `n` lines that are shown, with the scroll bar where there is
/// more.
pub open spec fn input_lines(
    m: Canvas,
    ls: Seq<VisualLine>,
    n: int,
    sel: Option<(usize, usize)>,
    k: InputKind,
    look: InputLook,
) -> Canvas
    decreases n,
{
    if n <= 0 {
        m
    } else {
        let m = input_lines(m, ls, n - 1, sel, k, look);
        let idx = look.scroll + n - 1;
        let l = ls[idx];
        let m = input_line(
            m.print(" "@),
            l,
            idx,
            line_selection(sel, l.start, l.text.len() as int),
            k,
            look.usable,
            look.theme,
        ).queue(Command::Clear(ClearType::UntilNewLine));
        let m = if ls.len() > look.rows {
            let t = thumb(look.rows, ls.len() as int, look.scroll);
            let bg = if t.0 <= n - 1 < t.1 {
                look.bar.thumb
            } else {
                look.bar.track
            };
            let col = bars::at_least_zero((look.width as u16) - 1) as u16;
            m.queue(Command::MoveToColumn(col)).push_bg(bg).print(" "@).pop_style()
        } else {
            m
        };
        m.print("\r\n"@)
    }
}

/// What the input is, in characters.
pub struct InputFacts {
    pub prefix_len: usize,
    pub hint: String,
    pub has_argument: bool,
    pub is_command: bool,
    pub is_exec: bool,
    pub ends_with_space: bool,
}

impl InputFacts {
    pub open spec fn is(self, k: InputKind) -> bool {
        &&& self.prefix_len == k.prefix.len()
        &&& self.hint@ == k.hint
        &&& self.has_argument == k.has_argument
        &&& self.is_command == k.is_command
        &&& self.is_exec == k.is_exec
        &&& self.ends_with_space == k.ends_with_space
    }
}

/// The hint in characters.
pub open spec fn hint_view(h: Option<(String, String)>) -> Option<(Seq<char>, Seq<char>)> {
    match h {
        Some((a, b)) => Some((a@, b@)),
        None => None,
    }
}

/// Finds out what the input is.
pub(crate) fn find_kind(buf: &str, hint: &Option<(String, String)>, known: bool) -> (r: InputFacts)
    ensures
        r.is(input_kind(buf@, hint_view(*hint), known)),
{
    let c = chars_of(buf);
    let n: usize = c.len();
    let ends = n > 0 && c[n - 1] == ' ';
    let shell = n > 0 && c[0] == '!' && (n == 1 || !(c[1] == ' ' || c[1] == '\t' || c[1] == '\n'
        || c[1] == '\r' || c[1] == '\u{c}'));
    match hint {
        Some((p, h)) => {
            let len: usize = char_count(p.as_str());
            InputFacts {
                prefix_len: len,
                hint: h.clone(),
                has_argument: len < n && c[len] == ' ',
                is_command: true,
                is_exec: shell,
                ends_with_space: ends,
            }
        },
        None => {
            let hint = String::new();
            assert(hint@ =~= Seq::<char>::empty());
            InputFacts {
                prefix_len: 0,
                hint,
                has_argument: false,
                is_command: known,
                is_exec: shell,
                ends_with_space: ends,
            }
        },
    }
}

fn draw_argument_line(
    out: &mut RenderOut,
    line: &str,
    f: &InputFacts,
    usable: usize,
    accent: Color,
    Ghost(k): Ghost<InputKind>,
)
    requires
        f.is(k),
    ensures
        final(out)@ == argument_line(old(out)@, line@, k, usable as int, accent),
{
    let chars = chars_of(line);
    out.set_fg(accent);
    if chars.len() >= f.prefix_len {
        let head = slice_text(&chars, 0, f.prefix_len);
        assert(head@ =~= line@.take(f.prefix_len as int));
        out.print(head.as_str());
        out.reset_style();
        let rest = slice_text(&chars, f.prefix_len, chars.len());
        assert(rest@ =~= line@.skip(f.prefix_len as int));
        let bare = trim(rest.as_str());
        if char_count(bare.as_str()) == 0 && f.ends_with_space {
            let max: usize = usable.saturating_sub(f.prefix_len.saturating_add(2));
            let t = truncate_str(f.hint.as_str(), max);
            out.print(" ");
            out.push_dim();
            out.print(t.as_str());
            out.pop_style();
        } else {
            out.print(rest.as_str());
        }
    } else {
        out.print(line);
        out.reset_style();
    }
}

fn tail_kinds(kinds: &Vec<SpanKind>) -> (r: Vec<SpanKind>)
    requires
        kinds@.len() > 0,
    ensures
        r@ == kinds@.skip(1),
{
    let mut r: Vec<SpanKind> = Vec::new();
    let mut i: usize = 1;
    while i < kinds.len()
        invariant
            1 <= i <= kinds@.len(),
            r@ == kinds@.subrange(1, i as int),
        decreases kinds@.len() - i,
    {
        r.push(kinds[i]);
        assert(r@ =~= kinds@.subrange(1, i + 1));
        i = i + 1;
    }
    assert(r@ =~= kinds@.skip(1));
    r
}

fn accent_kinds(n: usize) -> (r: Vec<SpanKind>)
    ensures
        r@ == accents(n as nat),
{
    let mut r: Vec<SpanKind> = Vec::new();
    let mut i: usize = 0;
    while i < n
        invariant
            i <= n,
            r@ =~= accents(i as nat),
        decreases n - i,
    {
        r.push(SpanKind::AtRef);
        i = i + 1;
    }
    r
}

fn draw_input_line(
    out: &mut RenderOut,
    line: &str,
    kinds: &Vec<SpanKind>,
    idx: usize,
    sel: Option<(usize, usize)>,
    f: &InputFacts,
    usable: usize,
    theme: &Theme,
    Ghost(l): Ghost<VisualLine>,
    Ghost(k): Ghost<InputKind>,
)
    requires
        f.is(k),
        l.text == line@,
        l.kinds == kinds@,
        kinds@.len() == line@.len(),
    ensures
        final(out)@ == input_line(
            old(out)@,
            l,
            idx as int,
            sel,
            k,
            usable as int,
            *theme,
        ),
{
    if f.has_argument && idx == 0 {
        draw_argument_line(out, line, f, usable, theme::accent(theme), Ghost(k));
    } else if f.has_argument {
        render_styled_chars(out, line, kinds, sel, theme);
    } else if f.is_command {
        let acc = accent_kinds(char_count(line));
        render_styled_chars(out, line, &acc, sel, theme);
    } else {
        let chars = chars_of(line);
        if f.is_exec && idx == 0 && chars.len() > 0 && chars[0] == '!' {
            let first = match sel {
                Some((s, _)) => s == 0,
                None => false,
            };
            let mut style = StyleState::default();
            style.fg = Some(Color::Red);
            if first {
                style.bg = Some(theme::selection_bg(theme));
            }
            style.bold = true;
            out.push_style(style);
            out.print("!");
            out.pop_style();
            let rest = slice_text(&chars, 1, chars.len());
            assert(rest@ =~= line@.skip(1));
            let tail = tail_kinds(kinds);
            render_styled_chars(out, rest.as_str(), &tail, shift_selection(sel), theme);
        } else {
            render_styled_chars(out, line, kinds, sel, theme);
        }
    }
}

/// Draws the lines of the input that are shown.
pub(crate) fn draw_input_lines(
    out: &mut RenderOut,
    v: &Vec<(String, Vec<SpanKind>)>,
    offsets: &Vec<usize>,
    scroll: usize,
    rows: usize,
    count: usize,
    sel: Option<(usize, usize)>,
    f: &InputFacts,
    usable: usize,
    width: usize,
    theme: &Theme,
    bar: ScrollBar,
    Ghost(ls): Ghost<Seq<VisualLine>>,
    Ghost(k): Ghost<InputKind>,
)
    requires
        f.is(k),
        wrap::shows_layout(v@, ls),
        forall|i: int| 0 <= i < ls.len() ==> (#[trigger] ls[i]).kinds.len() == ls[i].text.len(),
        forall|i: int|
            0 <= i < ls.len() ==> (#[trigger] ls[i]).start + ls[i].text.len() <= usize::MAX,
        offsets@.len() == v@.len(),
        forall|i: int| 0 <= i < ls.len() ==> #[trigger] offsets@[i] == ls[i].start,
        1 <= rows,
        scroll + count <= v@.len(),
        v@.len() > rows ==> scroll <= v@.len() - rows,
    ensures
        final(out)@ == input_lines(
            old(out)@,
            ls,
            count as int,
            sel,
            k,
            InputLook {
                scroll: scroll as int,
                rows: rows as int,
                usable: usable as int,
                width,
                theme: *theme,
                bar,
            },
        ),
{
    let ghost look = InputLook {
        scroll: scroll as int,
        rows: rows as int,
        usable: usable as int,
        width,
        theme: *theme,
        bar,
    };
    let total: usize = v.len();
    let more = total > rows;
    let (t0, t1) = find_thumb(rows, total, scroll);
    #[verifier::truncate]
    let w: u16 = width as u16;
    let col: u16 = w.saturating_sub(1);
    let mut i: usize = 0;
    while i < count
        invariant
            f.is(k),
            wrap::shows_layout(v@, ls),
            forall|j: int| 0 <= j < ls.len() ==> (#[trigger] ls[j]).kinds.len() == ls[j].text.len(),
            forall|j: int|
                0 <= j < ls.len() ==> (#[trigger] ls[j]).start + ls[j].text.len() <= usize::MAX,
            offsets@.len() == v@.len(),
            forall|j: int| 0 <= j < ls.len() ==> #[trigger] offsets@[j] == ls[j].start,
            total == v@.len(),
            more == (total > rows),
            scroll + count <= total,
            i <= count,
            look == (InputLook {
                scroll: scroll as int,
                rows: rows as int,
                usable: usable as int,
                width,
                theme: *theme,
                bar,
            }),
            (t0 as int, t1 as int) == thumb(rows as int, total as int, scroll as int),
            w == width as u16,
            col == bars::at_least_zero(w - 1),
            out@ == input_lines(old(out)@, ls, i as int, sel, k, look),
        decreases count - i,
    {
        let idx: usize = scroll + i;
        assert(v@[idx as int].0@ == ls[idx as int].text);
        assert(offsets@[idx as int] == ls[idx as int].start);
        let ghost l = ls[idx as int];
        let len: usize = char_count(v[idx].0.as_str());
        let line_sel = selection_in(sel, offsets[idx], len);
        out.print(" ");
        draw_input_line(
            out,
            v[idx].0.as_str(),
            &v[idx].1,
            idx,
            line_sel,
            f,
            usable,
            theme,
            Ghost(l),
            Ghost(k),
        );
        out.queue(Command::Clear(ClearType::UntilNewLine));
        if more {
            let bg = if i >= t0 && i < t1 {
                bar.thumb
            } else {
                bar.track
            };
            out.queue(Command::MoveToColumn(col));
            out.push_bg(bg);
            out.print(" ");
            out.pop_style();
        }
        out.print("\r\n");
        i = i + 1;
    }
}

} // verus!
