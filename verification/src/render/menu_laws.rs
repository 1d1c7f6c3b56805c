//! What a reader sees of completions.

use vstd::prelude::*;

use crate::render::bars;
use crate::render::completions;
use crate::render::completions::{
    CompleterKind, CompletionItem, HeatCell, ListLook, StatsColumn, StatsLine,
};
use crate::render::lit;
use crate::render::out::{Canvas, Color};
use crate::render::seen;
use crate::text;

verus! {

/// What stands before a label: a slash before commands, and where files are
/// offered a dot and a slash.
pub open spec fn lead(kind: CompleterKind) -> Seq<char> {
    match kind {
        CompleterKind::Command => seq!['/'],
        CompleterKind::File => seq!['.', '/'],
        _ => seq![],
    }
}

/// Whether colours are offered.
pub open spec fn of_colors(kind: CompleterKind) -> bool {
    kind == CompleterKind::Theme || kind == CompleterKind::Color
}

/// What an item shows: its label as far as there is room, and its
/// description; a dot marks the selected one among colours.
pub open spec fn item_seen(item: CompletionItem, selected: bool, look: ListLook) -> Seq<char> {
    let label = text::first_chars(lead(look.kind) + item.label@, look.avail);
    (if of_colors(look.kind) && selected {
        seq!['\u{25cf}']
    } else {
        Seq::<char>::empty()
    }) + seen::ink(label) + match item.description {
        Some(d) => seen::ink(d@),
        None => Seq::<char>::empty(),
    }
}

proof fn lemma_lead(kind: CompleterKind)
    ensures
        completions::label_prefix(kind) == lead(kind),
{
    reveal_strlit("/");
    reveal_strlit("./");
    reveal_strlit("");
    assert(completions::label_prefix(kind) =~= lead(kind));
}

proof fn lemma_described(m: Canvas, desc: Option<String>, pad: int)
    ensures
        seen::seen(completions::described(m, desc, pad)) == seen::seen(m) + match desc {
            Some(d) => seen::ink(d@),
            None => Seq::<char>::empty(),
        },
{
    broadcast use {seen::group_seen, seen::lemma_ink_fill};

    match desc {
        Some(d) => {
            let fill = text::fill(' ', pad as nat);
            assert(seen::ink(fill + d@) =~= seen::ink(d@));
        },
        None => {
            assert(seen::seen(m) + Seq::<char>::empty() =~= seen::seen(m));
        },
    }
}

proof fn lemma_item(m: Canvas, item: CompletionItem, idx: int, look: ListLook)
    ensures
        seen::seen(completions::item_drawn(m, item, idx, look)) == seen::seen(m) + item_seen(
            item,
            idx == look.selected,
            look,
        ),
{
    broadcast use {seen::group_seen, seen::lemma_ink_fill, seen::lemma_ink_push};

    lemma_lead(look.kind);
    let label = text::first_chars(lead(look.kind) + item.label@, look.avail);
    reveal_strlit("  ");
    reveal_strlit("\u{25cf} ");
    assert("  "@ =~= text::fill(' ', 2));
    let none = Seq::<char>::empty();
    assert("\u{25cf} "@ =~= none.push('\u{25cf}').push(' '));
    assert(seq!['\u{25cf}'] =~= none.push('\u{25cf}'));
    assert(seen::ink("\u{25cf} "@ + label) =~= seq!['\u{25cf}'] + seen::ink(label));
    assert(seen::ink("  "@ + label) =~= seen::ink(label));
    assert forall|c: Canvas, d: Option<String>, pad: int|
        seen::seen(#[trigger] completions::described(c, d, pad)) == seen::seen(c) + match d {
            Some(d) => seen::ink(d@),
            None => Seq::<char>::empty(),
        } by {
        lemma_described(c, d, pad);
    }
    assert(seen::seen(completions::item_drawn(m, item, idx, look)) =~= seen::seen(m) + item_seen(
        item,
        idx == look.selected,
        look,
    ));
}

/// What the `n` items from `start` on show.
pub open spec fn items_seen(
    items: Seq<CompletionItem>,
    start: int,
    n: int,
    look: ListLook,
) -> Seq<char>
    decreases n,
{
    if n <= 0 {
        seq![]
    } else {
        items_seen(items, start, n - 1, look) + item_seen(
            items[start + n - 1],
            start + n - 1 == look.selected,
            look,
        )
    }
}

/// Every item that there is room for is shown with its label and its
/// description, in order.
pub proof fn law_completions_are_listed(
    m: Canvas,
    items: Seq<CompletionItem>,
    start: int,
    n: int,
    last: int,
    look: ListLook,
)
    requires
        0 <= n,
    ensures
        seen::seen(completions::items_drawn(m, items, start, n, last, look)) == seen::seen(m)
            + items_seen(items, start, n, look),
    decreases n,
{
    broadcast use {seen::group_seen, seen::lemma_ink_push};

    if n <= 0 {
        assert(seen::seen(m) + items_seen(items, start, n, look) =~= seen::seen(m));
    } else {
        law_completions_are_listed(m, items, start, n - 1, last, look);
        let a = completions::items_drawn(m, items, start, n - 1, last, look);
        lemma_item(a, items[start + n - 1], start + n - 1, look);
        reveal_strlit("\r\n");
        let none = Seq::<char>::empty();
        assert("\r\n"@ =~= none.push('\r').push('\n'));
        assert(seen::ink("\r\n"@) =~= none);
        assert(seen::seen(completions::items_drawn(m, items, start, n, last, look))
            =~= seen::seen(m) + items_seen(items, start, n, look));
    }
}

proof fn lemma_dim_item(m: Canvas, label: Seq<char>, desc: Option<String>, pad: int, c: Color)
    requires
        lit::unlit(m, c),
    ensures
        ({
            let r = completions::described(m.push_dim().print(label), desc, pad).pop_style();
            &&& lit::unlit(r, c)
            &&& lit::lit(r, c) == lit::lit(m, c)
        }),
{
    match desc {
        Some(d) => lit::lemma_unlit_dim_two(m, label, text::fill(' ', pad as nat) + d@, c),
        None => lit::lemma_unlit_dim(m, label, c),
    }
}

/// Among items that are not colours the selected one is printed in the
/// accent colour, and no other.
pub proof fn law_selected_completion_is_lit(
    m: Canvas,
    item: CompletionItem,
    idx: int,
    look: ListLook,
)
    requires
        !of_colors(look.kind),
        lit::unlit(m, Color::AnsiValue(look.theme.accent)),
    ensures
        ({
            let c = Color::AnsiValue(look.theme.accent);
            let r = completions::item_drawn(m, item, idx, look);
            &&& lit::unlit(r, c)
            &&& lit::lit(r, c) == if idx == look.selected {
                lit::lit(m, c).push(
                    text::first_chars(lead(look.kind) + item.label@, look.avail),
                )
            } else {
                lit::lit(m, c)
            }
        }),
{
    lemma_lead(look.kind);
    let c = Color::AnsiValue(look.theme.accent);
    let label = text::first_chars(lead(look.kind) + item.label@, look.avail);
    lit::lemma_unlit_print(m, "  "@, c);
    let a = m.print("  "@);
    let pad = bars::capped(
        bars::at_least_zero(look.max_label - text::byte_len(label)) + 2,
    );
    if idx == look.selected {
        lit::lemma_label(a, label, true, c);
        let b = lit::label_drawn(a, label, true, c);
        match item.description {
            Some(d) => lit::lemma_unlit_dim(b, text::fill(' ', pad as nat) + d@, c),
            None => {},
        }
    } else {
        lemma_dim_item(a, label, item.description, pad, c);
    }
}

// ── Statistics ───────────────────────────────────────────────────────────

/// What cells of heat show: a dot for an empty one, a block for any other.
pub open spec fn heat_seen(cells: Seq<HeatCell>) -> Seq<char> {
    Seq::new(
        cells.len(),
        |i: int|
            if cells[i] is Empty {
                '\u{b7}'
            } else {
                '\u{2588}'
            },
    )
}

/// What a line of statistics shows.
pub open spec fn line_seen(line: StatsLine) -> Seq<char> {
    match line {
        StatsLine::Kv { label, value } => seen::ink(label@) + seen::ink(value@),
        StatsLine::Heading(t) => seen::ink(t@),
        StatsLine::SparklineLegend(t) => seen::ink(t@),
        StatsLine::SparklineBars(t) => seen::ink(t@),
        StatsLine::HeatRow { label, cells } => seen::ink(label@) + heat_seen(cells@),
        StatsLine::Blank => seq![],
    }
}

/// What the first `n` lines of a column show.
pub open spec fn column_seen(c: StatsColumn, n: int) -> Seq<char>
    decreases n,
{
    if n <= 0 {
        seq![]
    } else {
        column_seen(c, n - 1) + line_seen(c.lines@[n - 1])
    }
}

proof fn lemma_heat(m: Canvas, cells: Seq<HeatCell>, n: int)
    requires
        0 <= n <= cells.len(),
    ensures
        seen::seen(completions::heat_cells(m, cells, n)) == seen::seen(m) + heat_seen(
            cells,
        ).take(n),
    decreases n,
{
    broadcast use {seen::group_seen, seen::lemma_ink_push};

    if n <= 0 {
        assert(seen::seen(m) + heat_seen(cells).take(0) =~= seen::seen(m));
    } else {
        lemma_heat(m, cells, n - 1);
        reveal_strlit("\u{00b7} ");
        reveal_strlit("\u{2588} ");
        let none = Seq::<char>::empty();
        assert("\u{00b7} "@ =~= none.push('\u{b7}').push(' '));
        assert("\u{2588} "@ =~= none.push('\u{2588}').push(' '));
        assert(seen::ink("\u{00b7} "@) =~= none.push('\u{b7}'));
        assert(seen::ink("\u{2588} "@) =~= none.push('\u{2588}'));
        assert(heat_seen(cells).take(n) =~= heat_seen(cells).take(n - 1).push(
            heat_seen(cells)[n - 1],
        ));
        assert(seen::seen(completions::heat_cells(m, cells, n)) =~= seen::seen(m) + heat_seen(
            cells,
        ).take(n));
    }
}

proof fn lemma_stats_line(m: Canvas, line: StatsLine, label_col: int, accent: Color)
    ensures
        seen::seen(completions::stats_line(m, line, label_col, accent)) == seen::seen(m)
            + line_seen(line),
{
    broadcast use {seen::group_seen, seen::lemma_ink_fill};

    match line {
        StatsLine::HeatRow { label, cells } => {
            reveal_strlit(" ");
            assert(" "@ =~= text::fill(' ', 1));
            assert(seen::ink(label@ + " "@) =~= seen::ink(label@));
            let a = m.push_dim().print(label@ + " "@).pop_style();
            lemma_heat(a, cells@, cells@.len() as int);
            assert(heat_seen(cells@).take(cells@.len() as int) =~= heat_seen(cells@));
        },
        _ => {},
    }
    assert(seen::seen(completions::stats_line(m, line, label_col, accent)) =~= seen::seen(m)
        + line_seen(line));
}

proof fn lemma_line_ends()
    ensures
        seen::ink("\r\n"@) == Seq::<char>::empty(),
        seen::ink("  "@) == Seq::<char>::empty(),
{
    broadcast use {seen::lemma_ink_fill, seen::lemma_ink_push};

    reveal_strlit("\r\n");
    reveal_strlit("  ");
    let none = Seq::<char>::empty();
    assert("\r\n"@ =~= none.push('\r').push('\n'));
    assert("  "@ =~= text::fill(' ', 2));
    assert(seen::ink(none) =~= none);
}

/// Statistics below each other are shown line by line, each label with its
/// value.
pub proof fn law_statistics_are_shown(m: Canvas, c: StatsColumn, n: int, above: int, accent: Color)
    requires
        0 <= n,
    ensures
        seen::seen(completions::stats_lines(m, c, n, above, accent)) == seen::seen(m)
            + column_seen(c, n),
    decreases n,
{
    broadcast use seen::group_seen;

    if n <= 0 {
        assert(seen::seen(m) + column_seen(c, n) =~= seen::seen(m));
    } else {
        law_statistics_are_shown(m, c, n - 1, above, accent);
        lemma_line_ends();
        let a = completions::stats_lines(m, c, n - 1, above, accent);
        let b = (if above + n - 1 > 0 {
            a.print("\r\n"@)
        } else {
            a
        }).print("  "@);
        assert(seen::seen(b) =~= seen::seen(a));
        lemma_stats_line(b, c.lines@[n - 1], c.label_col as int, accent);
        assert(seen::seen(completions::stats_lines(m, c, n, above, accent)) =~= seen::seen(m)
            + column_seen(c, n));
    }
}

/// What the first `n` rows of two columns show.
pub open spec fn columns_seen(left: StatsColumn, right: StatsColumn, n: int) -> Seq<char>
    decreases n,
{
    if n <= 0 {
        seq![]
    } else {
        columns_seen(left, right, n - 1) + (if n - 1 < left.lines@.len() {
            line_seen(left.lines@[n - 1])
        } else {
            Seq::<char>::empty()
        }) + (if n - 1 < right.lines@.len() {
            line_seen(right.lines@[n - 1])
        } else {
            Seq::<char>::empty()
        })
    }
}

/// Statistics in two columns show in each row what both have there.
pub proof fn law_columns_are_shown(
    m: Canvas,
    left: StatsColumn,
    right: StatsColumn,
    n: int,
    accent: Color,
)
    requires
        0 <= n,
    ensures
        seen::seen(completions::stats_rows(m, left, right, n, accent)) == seen::seen(m)
            + columns_seen(left, right, n),
    decreases n,
{
    broadcast use {seen::group_seen, seen::lemma_ink_fill};

    if n <= 0 {
        assert(seen::seen(m) + columns_seen(left, right, n) =~= seen::seen(m));
    } else {
        law_columns_are_shown(m, left, right, n - 1, accent);
        lemma_line_ends();
        let i = n - 1;
        let a = completions::stats_rows(m, left, right, n - 1, accent);
        let b = if i > 0 {
            a.print("\r\n"@)
        } else {
            a
        };
        assert(seen::seen(b) =~= seen::seen(a));
        let has_left = i < left.lines@.len();
        if has_left {
            lemma_stats_line(b.print("  "@), left.lines@[i], left.label_col as int, accent);
        }
        let c = if has_left {
            completions::stats_line(
                b.print("  "@),
                left.lines@[i],
                left.label_col as int,
                accent,
            )
        } else {
            b
        };
        let used = if has_left {
            bars::capped(completions::width_at(left, i) + 2)
        } else {
            0
        };
        if i < right.lines@.len() {
            let pad = bars::at_least_zero(
                bars::capped(completions::left_columns(left) + completions::STATS_GAP) - used,
            );
            lemma_stats_line(
                c.print(text::fill(' ', pad as nat)),
                right.lines@[i],
                right.label_col as int,
                accent,
            );
        }
        assert(seen::seen(completions::stats_rows(m, left, right, n, accent)) =~= seen::seen(m)
            + columns_seen(left, right, n));
    }
}

} // verus!
