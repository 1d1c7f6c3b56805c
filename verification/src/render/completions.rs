//! Completions, pickers and statistics below the prompt.

use vstd::prelude::*;

use crate::hints;
use crate::hints::Hints;
use crate::render::bars;
use crate::render::out::{Canvas, ClearType, Color, Command, RenderOut};
use crate::render::table;
use crate::text;
use crate::text::{cat, repeat_char, take_chars};
use crate::theme;
use crate::theme::Theme;

verus! {

// ── Completions ──────────────────────────────────────────────────────────

#[derive(Clone, Copy, Debug, PartialEq, Eq, Structural)]
pub enum CompleterKind {
    Command,
    File,
    Settings,
    Theme,
    Color,
    Other,
}

pub struct CompletionItem {
    pub label: String,
    pub description: Option<String>,
    pub ansi_color: Option<u8>,
}

/// Completions as they stand.
pub struct Completions {
    pub kind: CompleterKind,
    pub results: Vec<CompletionItem>,
    pub selected: usize,
    /// Rows that the list takes at most, whatever is left of it.
    pub max_visible_rows: usize,
    pub is_picker: bool,
}

/// Rows for the list, for hints, and between them.
pub open spec fn layout(c: Completions) -> (int, int, int) {
    if c.kind == CompleterKind::Settings {
        (c.max_visible_rows as int, 2, 1)
    } else {
        (c.max_visible_rows as int, 0, 0)
    }
}

fn completion_layout(c: &Completions) -> (r: (usize, usize, usize))
    ensures
        (r.0 as int, r.1 as int, r.2 as int) == layout(*c),
{
    if c.kind == CompleterKind::Settings {
        (c.max_visible_rows, 2, 1)
    } else {
        (c.max_visible_rows, 0, 0)
    }
}

/// Rows that are kept free for completions.
pub open spec fn reserved_rows(c: Option<Completions>) -> int {
    match c {
        None => 0,
        Some(c) => if layout(c).0 == 0 {
            0
        } else {
            bars::capped(layout(c).0 + layout(c).1 + layout(c).2)
        },
    }
}

/// Rows that are kept free for completions.
pub fn completion_reserved_rows(c: &Option<Completions>) -> (r: usize)
    ensures
        r == reserved_rows(*c),
{
    match c {
        None => 0,
        Some(c) => {
            let (list, hint, gap) = completion_layout(c);
            if list == 0 {
                0
            } else {
                list.saturating_add(hint + gap)
            }
        },
    }
}

/// What is kept free does not depend on the results or the selection.
pub proof fn law_reserved_rows_are_stable(a: Completions, b: Completions)
    requires
        a.kind == b.kind,
        a.max_visible_rows == b.max_visible_rows,
    ensures
        reserved_rows(Some(a)) == reserved_rows(Some(b)),
{
}

/// The first item that is shown, when `visible` of `total` are: the selected
/// one is in the middle as far as the ends of the list allow.
pub open spec fn first_shown(selected: int, visible: int, total: int) -> int {
    if total > visible {
        let s = bars::at_least_zero(selected - visible / 2);
        if s + visible > total {
            total - visible
        } else {
            s
        }
    } else {
        0
    }
}

/// The selected item is among those that are shown.
pub proof fn law_selection_is_shown(selected: int, visible: int, total: int)
    requires
        0 <= selected < total,
        0 < visible <= total,
    ensures
        first_shown(selected, visible, total) <= selected < first_shown(selected, visible, total)
            + visible,
        0 <= first_shown(selected, visible, total),
        first_shown(selected, visible, total) + visible <= total,
{
}

/// What goes before a label.
pub open spec fn label_prefix(kind: CompleterKind) -> Seq<char> {
    match kind {
        CompleterKind::Command => "/"@,
        CompleterKind::File => "./"@,
        _ => ""@,
    }
}

fn prefix_of(kind: CompleterKind) -> (r: &'static str)
    ensures
        r@ == label_prefix(kind),
{
    match kind {
        CompleterKind::Command => "/",
        CompleterKind::File => "./",
        _ => "",
    }
}

/// The longest of the first `n` labels, prefix and all, in bytes.
pub open spec fn longest_label(items: Seq<CompletionItem>, n: int, prefix: Seq<char>) -> int
    decreases n,
{
    if n <= 0 {
        0
    } else {
        table::larger(
            longest_label(items, n - 1, prefix),
            bars::capped(text::byte_len(prefix) + text::byte_len(items[n - 1].label@)),
        )
    }
}

/// How the list is shown.
pub struct ListLook {
    pub kind: CompleterKind,
    pub max_label: int,
    /// Characters for a label.
    pub avail: int,
    pub theme: Theme,
    pub selected: int,
    pub hints: bool,
}

/// A description behind a label.
pub open spec fn described(m: Canvas, desc: Option<String>, pad: int) -> Canvas {
    match desc {
        Some(d) => m.print(text::fill(' ', pad as nat) + d@),
        None => m,
    }
}

/// An item: pickers of colours mark the selected one with a dot in its
/// colour, others show it in the accent colour.
pub open spec fn item_drawn(m: Canvas, item: CompletionItem, idx: int, look: ListLook) -> Canvas {
    let label = text::first_chars(label_prefix(look.kind) + item.label@, look.avail);
    let pad = bars::capped(bars::at_least_zero(look.max_label - text::byte_len(label)) + 2);
    let m = m.print("  "@);
    let selected = idx == look.selected;
    if look.kind == CompleterKind::Theme || look.kind == CompleterKind::Color {
        let m = if selected {
            let ansi = match item.ansi_color {
                Some(c) => c,
                None => look.theme.accent,
            };
            m.push_fg(Color::AnsiValue(ansi)).print("\u{25cf} "@ + label).pop_style()
        } else {
            m.push_dim().print("  "@ + label).pop_style()
        };
        let far = bars::at_least_zero(
            bars::capped(look.max_label + 2) - text::byte_len(label),
        );
        if item.description is Some {
            described(m.push_dim(), item.description, far).pop_style()
        } else {
            m
        }
    } else if selected {
        let m = m.push_fg(look.theme.accent_color()).print(label).pop_style();
        if item.description is Some {
            described(m.push_dim(), item.description, pad).pop_style()
        } else {
            m
        }
    } else {
        described(m.push_dim().print(label), item.description, pad).pop_style()
    }
}

/// The `n` items from `start` on; `last` is the number of the last one.
pub open spec fn items_drawn(
    m: Canvas,
    items: Seq<CompletionItem>,
    start: int,
    n: int,
    last: int,
    look: ListLook,
) -> Canvas
    decreases n,
{
    if n <= 0 {
        m
    } else {
        let m = items_drawn(m, items, start, n - 1, last, look);
        let m = item_drawn(m, items[start + n - 1], start + n - 1, look).queue(
            Command::Clear(ClearType::UntilNewLine),
        );
        if n - 1 < last || look.hints {
            m.print("\r\n"@)
        } else {
            m
        }
    }
}

/// The hints of the settings below an empty line.
pub open spec fn settings_hints(m: Canvas, h: Hints) -> Canvas {
    m.queue(Command::Clear(ClearType::UntilNewLine)).print("\r\n"@).push_dim().print(
        hints::hint_line(seq![h.picker_nav@, "enter/space: toggle"@, h.cancel@]),
    ).pop_style().queue(Command::Clear(ClearType::UntilNewLine))
}

/// Completions in `max_rows` rows: the canvas, and the rows that were drawn.
pub open spec fn completions_drawn(
    m: Canvas,
    c: Option<Completions>,
    max_rows: int,
    h: Hints,
    term_width: int,
    theme: Theme,
) -> (Canvas, int) {
    match c {
        None => (m, 0),
        Some(c) => {
            let (_, hint_rows, empty_gap) = layout(c);
            let show_hints = hint_rows > 0;
            let list_rows = bars::at_least_zero(max_rows - (hint_rows + empty_gap));
            let total = c.results@.len() as int;
            if max_rows == 0 {
                (m, 0)
            } else if total == 0 {
                if c.is_picker {
                    let m = m.push_dim().print("  no results"@).pop_style().queue(
                        Command::Clear(ClearType::UntilNewLine),
                    );
                    if show_hints && max_rows > hint_rows + empty_gap {
                        (settings_hints(m.print("\r\n"@), h), 1 + empty_gap + hint_rows)
                    } else {
                        (m, 1)
                    }
                } else {
                    (m, 0)
                }
            } else if list_rows == 0 {
                (m, 0)
            } else {
                let visible = table::smaller(list_rows, total);
                let look = ListLook {
                    kind: c.kind,
                    max_label: longest_label(c.results@, total, label_prefix(c.kind)),
                    avail: bars::at_least_zero(term_width - 4),
                    theme,
                    selected: c.selected as int,
                    hints: show_hints,
                };
                let m = items_drawn(
                    m,
                    c.results@,
                    first_shown(c.selected as int, visible, total),
                    visible,
                    visible - 1,
                    look,
                );
                if show_hints && visible < max_rows {
                    (settings_hints(m, h), visible + 2)
                } else {
                    (m, visible)
                }
            }
        },
    }
}

fn draw_settings_hints(out: &mut RenderOut, h: &Hints)
    ensures
        final(out)@ == settings_hints(old(out)@, *h),
{
    out.queue(Command::Clear(ClearType::UntilNewLine));
    out.print("\r\n");
    out.push_dim();
    let t = hints::three(h.picker_nav.as_str(), "enter/space: toggle", h.cancel.as_str());
    out.print(t.as_str());
    out.pop_style();
    out.queue(Command::Clear(ClearType::UntilNewLine));
}

fn print_description(out: &mut RenderOut, desc: &Option<String>, pad: usize)
    ensures
        final(out)@ == described(old(out)@, *desc, pad as int),
{
    match desc {
        Some(d) => {
            let spaces = repeat_char(' ', pad);
            let t = cat(spaces.as_str(), d.as_str());
            out.print(t.as_str());
        },
        None => {},
    }
}

fn draw_item(
    out: &mut RenderOut,
    item: &CompletionItem,
    idx: usize,
    kind: CompleterKind,
    max_label: usize,
    avail: usize,
    theme: &Theme,
    selected: usize,
    Ghost(look): Ghost<ListLook>,
)
    requires
        look.kind == kind,
        look.max_label == max_label,
        look.avail == avail,
        look.theme == *theme,
        look.selected == selected,
    ensures
        final(out)@ == item_drawn(old(out)@, *item, idx as int, look),
{
    let raw = cat(prefix_of(kind), item.label.as_str());
    let label = take_chars(raw.as_str(), avail);
    let len: usize = label.as_str().len();
    let pad: usize = max_label.saturating_sub(len).saturating_add(2);
    out.print("  ");
    if kind == CompleterKind::Theme || kind == CompleterKind::Color {
        if idx == selected {
            let ansi: u8 = match item.ansi_color {
                Some(c) => c,
                None => theme::accent_value(theme),
            };
            out.push_fg(Color::AnsiValue(ansi));
            let t = cat("\u{25cf} ", label.as_str());
            out.print(t.as_str());
            out.pop_style();
        } else {
            out.push_dim();
            let t = cat("  ", label.as_str());
            out.print(t.as_str());
            out.pop_style();
        }
        let far: usize = max_label.saturating_add(2).saturating_sub(len);
        if item.description.is_some() {
            out.push_dim();
            print_description(out, &item.description, far);
            out.pop_style();
        }
    } else if idx == selected {
        out.push_fg(theme::accent(theme));
        out.print(label.as_str());
        out.pop_style();
        if item.description.is_some() {
            out.push_dim();
            print_description(out, &item.description, pad);
            out.pop_style();
        }
    } else {
        out.push_dim();
        out.print(label.as_str());
        print_description(out, &item.description, pad);
        out.pop_style();
    }
}

fn find_longest(items: &Vec<CompletionItem>, prefix: &str) -> (r: usize)
    ensures
        r == longest_label(items@, items@.len() as int, prefix@),
{
    let mut most: usize = 0;
    let mut i: usize = 0;
    while i < items.len()
        invariant
            i <= items@.len(),
            most == longest_label(items@, i as int, prefix@),
        decreases items@.len() - i,
    {
        let n: usize = prefix.len().saturating_add(items[i].label.as_str().len());
        if n > most {
            most = n;
        }
        i = i + 1;
    }
    most
}

/// Draws completions in `max_rows` rows; the result is how many were drawn.
pub fn draw_completions(
    out: &mut RenderOut,
    completer: &Option<Completions>,
    max_rows: usize,
    h: &Hints,
    term_width: usize,
    theme: &Theme,
) -> (r: usize)
    ensures
        (final(out)@, r as int) == completions_drawn(
            old(out)@,
            *completer,
            max_rows as int,
            *h,
            term_width as int,
            *theme,
        ),
{
    match completer {
        None => 0,
        Some(comp) => {
            if max_rows == 0 {
                return 0;
            }
            let (_, hint_rows, empty_gap) = completion_layout(comp);
            let show_hints = hint_rows > 0;
            let list_rows: usize = max_rows.saturating_sub(hint_rows + empty_gap);
            let total: usize = comp.results.len();
            if total == 0 {
                if comp.is_picker {
                    out.push_dim();
                    out.print("  no results");
                    out.pop_style();
                    out.queue(Command::Clear(ClearType::UntilNewLine));
                    if show_hints && max_rows > hint_rows + empty_gap {
                        out.print("\r\n");
                        draw_settings_hints(out, h);
                        return 1 + empty_gap + hint_rows;
                    }
                    return 1;
                }
                return 0;
            }
            if list_rows == 0 {
                return 0;
            }
            let visible: usize = if list_rows < total {
                list_rows
            } else {
                total
            };
            let start: usize = if total > visible {
                let s: usize = comp.selected.saturating_sub(visible / 2);
                if s > total - visible {
                    total - visible
                } else {
                    s
                }
            } else {
                0
            };
            let max_label: usize = find_longest(&comp.results, prefix_of(comp.kind));
            let avail: usize = term_width.saturating_sub(4);
            let ghost look = ListLook {
                kind: comp.kind,
                max_label: max_label as int,
                avail: avail as int,
                theme: *theme,
                selected: comp.selected as int,
                hints: show_hints,
            };
            let ghost m0 = out@;
            let mut i: usize = 0;
            while i < visible
                invariant
                    i <= visible,
                    0 < visible,
                    start + visible <= total,
                    total == comp.results@.len(),
                    look == (ListLook {
                        kind: comp.kind,
                        max_label: max_label as int,
                        avail: avail as int,
                        theme: *theme,
                        selected: comp.selected as int,
                        hints: show_hints,
                    }),
                    out@ == items_drawn(
                        m0,
                        comp.results@,
                        start as int,
                        i as int,
                        visible - 1,
                        look,
                    ),
                decreases visible - i,
            {
                draw_item(
                    out,
                    &comp.results[start + i],
                    start + i,
                    comp.kind,
                    max_label,
                    avail,
                    theme,
                    comp.selected,
                    Ghost(look),
                );
                out.queue(Command::Clear(ClearType::UntilNewLine));
                if i < visible - 1 || show_hints {
                    out.print("\r\n");
                }
                i = i + 1;
            }
            if show_hints && visible < max_rows {
                draw_settings_hints(out, h);
                visible + 2
            } else {
                visible
            }
        },
    }
}

// ── Statistics ───────────────────────────────────────────────────────────

#[derive(Clone, Copy, Debug, PartialEq, Eq, Structural)]
pub enum HeatCell {
    Empty,
    Level(u8),
}

/// A line of statistics.
pub enum StatsLine {
    Kv { label: String, value: String },
    Heading(String),
    SparklineLegend(String),
    SparklineBars(String),
    HeatRow { label: String, cells: Vec<HeatCell> },
    Blank,
}

/// A column of statistics: its lines, the width of each, and the column at
/// which values start.
pub struct StatsColumn {
    pub lines: Vec<StatsLine>,
    pub widths: Vec<usize>,
    pub label_col: usize,
}

/// What is shown below the prompt in place of completions.
pub enum Menu {
    Stats { left: StatsColumn, right: StatsColumn },
    Cost { column: StatsColumn },
    Other,
}

/// The colour of a level of heat.
pub open spec fn heat_color(level: u8) -> Color {
    if level == 0 {
        Color::AnsiValue(238)
    } else if level == 1 {
        Color::AnsiValue(103)
    } else if level == 2 {
        Color::AnsiValue(141)
    } else {
        Color::AnsiValue(147)
    }
}

/// The first `n` cells of a row of heat.
pub open spec fn heat_cells(m: Canvas, cells: Seq<HeatCell>, n: int) -> Canvas
    decreases n,
{
    if n <= 0 {
        m
    } else {
        let m = heat_cells(m, cells, n - 1);
        match cells[n - 1] {
            HeatCell::Empty => m.push_fg(Color::AnsiValue(238)).print("\u{00b7} "@).pop_style(),
            HeatCell::Level(l) => m.push_fg(heat_color(l)).print("\u{2588} "@).pop_style(),
        }
    }
}

/// A line of statistics; values start at `label_col`, two columns behind the
/// label at least.
pub open spec fn stats_line(m: Canvas, line: StatsLine, label_col: int, accent: Color) -> Canvas {
    match line {
        StatsLine::Kv { label, value } => {
            let len = text::byte_len(label@) as int;
            let col = table::larger(label_col, bars::capped(len + 2));
            m.push_dim().print(label@).pop_style().print(
                text::fill(' ', bars::at_least_zero(col - len) as nat),
            ).print(value@)
        },
        StatsLine::Heading(t) => m.push_dim().print(t@).pop_style(),
        StatsLine::SparklineLegend(t) => m.push_dim().print(t@).pop_style(),
        StatsLine::SparklineBars(t) => m.push_fg(accent).print(t@).pop_style(),
        StatsLine::HeatRow { label, cells } => heat_cells(
            m.push_dim().print(label@ + " "@).pop_style(),
            cells@,
            cells@.len() as int,
        ),
        StatsLine::Blank => m,
    }
}

fn draw_heat_cells(out: &mut RenderOut, cells: &Vec<HeatCell>)
    ensures
        final(out)@ == heat_cells(old(out)@, cells@, cells@.len() as int),
{
    let mut i: usize = 0;
    while i < cells.len()
        invariant
            i <= cells@.len(),
            out@ == heat_cells(old(out)@, cells@, i as int),
        decreases cells@.len() - i,
    {
        match cells[i] {
            HeatCell::Empty => {
                out.push_fg(Color::AnsiValue(238));
                out.print("\u{00b7} ");
                out.pop_style();
            },
            HeatCell::Level(l) => {
                let color = if l == 0 {
                    Color::AnsiValue(238)
                } else if l == 1 {
                    Color::AnsiValue(103)
                } else if l == 2 {
                    Color::AnsiValue(141)
                } else {
                    Color::AnsiValue(147)
                };
                out.push_fg(color);
                out.print("\u{2588} ");
                out.pop_style();
            },
        }
        i = i + 1;
    }
}

fn draw_stats_line(out: &mut RenderOut, line: &StatsLine, label_col: usize, accent: Color)
    ensures
        final(out)@ == stats_line(old(out)@, *line, label_col as int, accent),
{
    match line {
        StatsLine::Kv { label, value } => {
            out.push_dim();
            out.print(label.as_str());
            out.pop_style();
            let len: usize = label.as_str().len();
            let least: usize = len.saturating_add(2);
            let col: usize = if label_col > least {
                label_col
            } else {
                least
            };
            let spaces = repeat_char(' ', col.saturating_sub(len));
            out.print(spaces.as_str());
            out.print(value.as_str());
        },
        StatsLine::Heading(t) => {
            out.push_dim();
            out.print(t.as_str());
            out.pop_style();
        },
        StatsLine::SparklineLegend(t) => {
            out.push_dim();
            out.print(t.as_str());
            out.pop_style();
        },
        StatsLine::SparklineBars(t) => {
            out.push_fg(accent);
            out.print(t.as_str());
            out.pop_style();
        },
        StatsLine::HeatRow { label, cells } => {
            out.push_dim();
            let t = cat(label.as_str(), " ");
            out.print(t.as_str());
            out.pop_style();
            draw_heat_cells(out, cells);
        },
        StatsLine::Blank => {},
    }
}

/// The first `n` lines of a column, below `above` rows that were drawn.
pub open spec fn stats_lines(m: Canvas, c: StatsColumn, n: int, above: int, accent: Color) -> Canvas
    decreases n,
{
    if n <= 0 {
        m
    } else {
        let m = stats_lines(m, c, n - 1, above, accent);
        let m = if above + n - 1 > 0 {
            m.print("\r\n"@)
        } else {
            m
        };
        stats_line(m.print("  "@), c.lines@[n - 1], c.label_col as int, accent).queue(
            Command::Clear(ClearType::UntilNewLine),
        )
    }
}

/// How many lines of a column fit below `above` rows.
pub open spec fn lines_that_fit(c: StatsColumn, above: int, max_rows: int) -> int {
    table::smaller(c.lines@.len() as int, bars::at_least_zero(max_rows - above))
}

fn draw_stats_sequential(
    out: &mut RenderOut,
    c: &StatsColumn,
    above: usize,
    max_rows: usize,
    accent: Color,
) -> (r: usize)
    ensures
        r == lines_that_fit(*c, above as int, max_rows as int),
        final(out)@ == stats_lines(old(out)@, *c, r as int, above as int, accent),
{
    let room: usize = max_rows.saturating_sub(above);
    let n: usize = if c.lines.len() < room {
        c.lines.len()
    } else {
        room
    };
    let mut i: usize = 0;
    while i < n
        invariant
            i <= n <= c.lines@.len(),
            out@ == stats_lines(old(out)@, *c, i as int, above as int, accent),
        decreases n - i,
    {
        if above > 0 || i > 0 {
            out.print("\r\n");
        }
        out.print("  ");
        draw_stats_line(out, &c.lines[i], c.label_col, accent);
        out.queue(Command::Clear(ClearType::UntilNewLine));
        i = i + 1;
    }
    n
}

/// The largest of the first `n` widths.
pub open spec fn widest(ws: Seq<usize>, n: int) -> int
    decreases n,
{
    if n <= 0 {
        0
    } else {
        table::larger(widest(ws, n - 1), ws[n - 1] as int)
    }
}

fn widest_of(ws: &Vec<usize>) -> (r: usize)
    ensures
        r == widest(ws@, ws@.len() as int),
{
    let mut most: usize = 0;
    let mut i: usize = 0;
    while i < ws.len()
        invariant
            i <= ws@.len(),
            most == widest(ws@, i as int),
        decreases ws@.len() - i,
    {
        if ws[i] > most {
            most = ws[i];
        }
        i = i + 1;
    }
    most
}

/// The width of line `i`.
pub open spec fn width_at(c: StatsColumn, i: int) -> int {
    if 0 <= i < c.widths@.len() {
        c.widths@[i] as int
    } else {
        0
    }
}

/// Columns of the left column, with its indent; zero when it has no lines.
pub open spec fn left_columns(left: StatsColumn) -> int {
    if left.widths@.len() == 0 {
        0
    } else {
        bars::capped(widest(left.widths@, left.widths@.len() as int) + 2)
    }
}

/// Columns between the two columns.
pub const STATS_GAP: usize = 5;

/// Whether both columns fit side by side.
pub open spec fn side_by_side(left: StatsColumn, right: StatsColumn, term_width: int) -> bool {
    right.lines@.len() > 0 && bars::capped(
        bars::capped(
            bars::capped(left_columns(left) + STATS_GAP) + widest(
                right.widths@,
                right.widths@.len() as int,
            ),
        ) + 2,
    ) <= term_width
}

/// The first `n` rows of both columns side by side.
pub open spec fn stats_rows(
    m: Canvas,
    left: StatsColumn,
    right: StatsColumn,
    n: int,
    accent: Color,
) -> Canvas
    decreases n,
{
    if n <= 0 {
        m
    } else {
        let m = stats_rows(m, left, right, n - 1, accent);
        let i = n - 1;
        let m = if i > 0 {
            m.print("\r\n"@)
        } else {
            m
        };
        let has_left = i < left.lines@.len();
        let m = if has_left {
            stats_line(m.print("  "@), left.lines@[i], left.label_col as int, accent)
        } else {
            m
        };
        let used = if has_left {
            bars::capped(width_at(left, i) + 2)
        } else {
            0
        };
        let m = if i < right.lines@.len() {
            let pad = bars::at_least_zero(bars::capped(left_columns(left) + STATS_GAP) - used);
            stats_line(
                m.print(text::fill(' ', pad as nat)),
                right.lines@[i],
                right.label_col as int,
                accent,
            )
        } else {
            m
        };
        m.queue(Command::Clear(ClearType::UntilNewLine))
    }
}

/// Statistics in two columns, side by side where they fit: the canvas, and
/// the rows that were drawn.
pub open spec fn stats_drawn(
    m: Canvas,
    left: StatsColumn,
    right: StatsColumn,
    max_rows: int,
    term_width: int,
    accent: Color,
) -> (Canvas, int) {
    if side_by_side(left, right, term_width) {
        let total = table::larger(left.lines@.len() as int, right.lines@.len() as int);
        let n = table::smaller(total, max_rows);
        (stats_rows(m, left, right, n, accent), n)
    } else {
        let n = lines_that_fit(left, 0, max_rows);
        let m = stats_lines(m, left, n, 0, accent);
        if right.lines@.len() > 0 && n < max_rows {
            let m = m.print("\r\n"@).queue(Command::Clear(ClearType::UntilNewLine));
            let k = lines_that_fit(right, n + 1, max_rows);
            (stats_lines(m, right, k, n + 1, accent), n + 1 + k)
        } else {
            (m, n)
        }
    }
}

fn draw_stats(
    out: &mut RenderOut,
    left: &StatsColumn,
    right: &StatsColumn,
    max_rows: usize,
    term_width: usize,
    accent: Color,
) -> (r: usize)
    ensures
        (final(out)@, r as int) == stats_drawn(
            old(out)@,
            *left,
            *right,
            max_rows as int,
            term_width as int,
            accent,
        ),
{
    let left_w: usize = if left.widths.len() == 0 {
        0
    } else {
        widest_of(&left.widths).saturating_add(2)
    };
    let right_w: usize = widest_of(&right.widths);
    let right_col: usize = left_w.saturating_add(STATS_GAP);
    let beside = right.lines.len() > 0 && right_col.saturating_add(right_w).saturating_add(2)
        <= term_width;
    if !beside {
        let n: usize = draw_stats_sequential(out, left, 0, max_rows, accent);
        if right.lines.len() > 0 && n < max_rows {
            out.print("\r\n");
            out.queue(Command::Clear(ClearType::UntilNewLine));
            let k: usize = draw_stats_sequential(out, right, n + 1, max_rows, accent);
            return n + 1 + k;
        }
        return n;
    }
    let total: usize = if left.lines.len() > right.lines.len() {
        left.lines.len()
    } else {
        right.lines.len()
    };
    let n: usize = if total < max_rows {
        total
    } else {
        max_rows
    };
    let mut i: usize = 0;
    while i < n
        invariant
            i <= n,
            left_w == left_columns(*left),
            right_col == bars::capped(left_columns(*left) + STATS_GAP),
            out@ == stats_rows(old(out)@, *left, *right, i as int, accent),
        decreases n - i,
    {
        if i > 0 {
            out.print("\r\n");
        }
        let used: usize = if i < left.lines.len() {
            out.print("  ");
            draw_stats_line(out, &left.lines[i], left.label_col, accent);
            if i < left.widths.len() {
                left.widths[i].saturating_add(2)
            } else {
                2
            }
        } else {
            0
        };
        if i < right.lines.len() {
            let pad: usize = right_col.saturating_sub(used);
            let spaces = repeat_char(' ', pad);
            out.print(spaces.as_str());
            draw_stats_line(out, &right.lines[i], right.label_col, accent);
        }
        out.queue(Command::Clear(ClearType::UntilNewLine));
        i = i + 1;
    }
    n
}

/// A menu in `max_rows` rows: the canvas, and the rows that were drawn.
pub open spec fn menu_drawn(
    m: Canvas,
    menu: Menu,
    max_rows: int,
    term_width: int,
    accent: Color,
) -> (Canvas, int) {
    if max_rows == 0 {
        (m, 0)
    } else {
        match menu {
            Menu::Stats { left, right } => stats_drawn(
                m,
                left,
                right,
                max_rows,
                term_width,
                accent,
            ),
            Menu::Cost { column } => {
                let n = lines_that_fit(column, 0, max_rows);
                (stats_lines(m, column, n, 0, accent), n)
            },
            Menu::Other => (m, 0),
        }
    }
}

/// Draws a menu in `max_rows` rows; the result is how many were drawn.
pub fn draw_menu(
    out: &mut RenderOut,
    menu: &Menu,
    max_rows: usize,
    term_width: usize,
    accent: Color,
) -> (r: usize)
    ensures
        (final(out)@, r as int) == menu_drawn(
            old(out)@,
            *menu,
            max_rows as int,
            term_width as int,
            accent,
        ),
{
    if max_rows == 0 {
        return 0;
    }
    match menu {
        Menu::Stats { left, right } => draw_stats(out, left, right, max_rows, term_width, accent),
        Menu::Cost { column } => draw_stats_sequential(out, column, 0, max_rows, accent),
        Menu::Other => 0,
    }
}

} // verus!
