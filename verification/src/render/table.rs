//! Markdown tables: column widths, borders, and the stacked form for tables
//! that are too wide.

use vstd::prelude::*;

use crate::render::bars;
use crate::render::inline_md;
use crate::render::inline_md::{min_visual_width, visible_width, wrap_cell_words};
use crate::render::out;
use crate::render::out::{crlf, Attribute, Canvas, Color, Command, RenderOut};
use crate::render::styled;
use crate::render::styled::{print_inline_styled, BoxContext};
use crate::text;
use crate::text::repeat_char;

verus! {

/// The cells of a table as sequences of characters.
pub open spec fn grid(rows: Seq<Vec<String>>) -> Seq<Seq<Seq<char>>> {
    Seq::new(rows.len(), |i: int| text::texts(rows[i]@))
}

/// The length of the longest of the first `n` rows.
pub open spec fn columns_in(rows: Seq<Seq<Seq<char>>>, n: int) -> int
    decreases n,
{
    if n <= 0 {
        0
    } else {
        let k = columns_in(rows, n - 1);
        if rows[n - 1].len() > k {
            rows[n - 1].len() as int
        } else {
            k
        }
    }
}

/// The larger of two numbers.
pub open spec fn larger(a: int, b: int) -> int {
    if a > b {
        a
    } else {
        b
    }
}

/// The smaller of two numbers.
pub open spec fn smaller(a: int, b: int) -> int {
    if a < b {
        a
    } else {
        b
    }
}

/// Columns of the widest cell in column `c` among the first `n` rows.
pub open spec fn full_width(rows: Seq<Seq<Seq<char>>>, n: int, c: int) -> int
    decreases n,
{
    if n <= 0 {
        0
    } else if c < rows[n - 1].len() {
        larger(full_width(rows, n - 1, c), inline_md::visible_columns(rows[n - 1][c]))
    } else {
        full_width(rows, n - 1, c)
    }
}

/// Columns of the widest segment in column `c` among the first `n` rows that
/// is never broken.
pub open spec fn least_width(rows: Seq<Seq<Seq<char>>>, n: int, c: int) -> int
    decreases n,
{
    if n <= 0 {
        0
    } else if c < rows[n - 1].len() {
        larger(least_width(rows, n - 1, c), inline_md::widest_segment(rows[n - 1][c]))
    } else {
        least_width(rows, n - 1, c)
    }
}

/// The sum of the first `n` widths.
pub open spec fn width_total(ws: Seq<int>, n: int) -> int
    decreases n,
{
    if n <= 0 {
        0
    } else {
        width_total(ws, n - 1) + ws[n - 1]
    }
}

/// How many of the first `n` widths are above their least widths.
pub open spec fn shrinkable(ws: Seq<int>, mins: Seq<int>, n: int) -> int
    decreases n,
{
    if n <= 0 {
        0
    } else {
        shrinkable(ws, mins, n - 1) + (if ws[n - 1] > mins[n - 1] {
            1int
        } else {
            0
        })
    }
}

/// How far the first `n` widths are above their least widths.
pub open spec fn slack(ws: Seq<int>, mins: Seq<int>, n: int) -> int
    decreases n,
{
    if n <= 0 {
        0
    } else {
        slack(ws, mins, n - 1) + bars::at_least_zero(ws[n - 1] - mins[n - 1])
    }
}

/// Every width above its least width taken down by `per`, as far as it goes.
pub open spec fn taken_down(ws: Seq<int>, mins: Seq<int>, per: int) -> Seq<int> {
    Seq::new(
        ws.len(),
        |c: int|
            if ws[c] > mins[c] {
                ws[c] - smaller(per, ws[c] - mins[c])
            } else {
                ws[c]
            },
    )
}

pub proof fn lemma_taken_down(ws: Seq<int>, mins: Seq<int>, per: int, n: int)
    requires
        0 <= n <= ws.len(),
        per >= 1,
    ensures
        slack(ws, mins, n) >= 0,
        slack(taken_down(ws, mins, per), mins, n) >= 0,
        shrinkable(ws, mins, n) >= 0,
        slack(taken_down(ws, mins, per), mins, n) <= slack(ws, mins, n) - shrinkable(ws, mins, n),
    decreases n,
{
    if n > 0 {
        lemma_taken_down(ws, mins, per, n - 1);
    }
}

/// Widths taken down in equal steps until they fit into `avail` columns or
/// all are at their least.
pub open spec fn shrunk(ws: Seq<int>, mins: Seq<int>, avail: int) -> Seq<int>
    decreases slack(ws, mins, ws.len() as int),
{
    let n = ws.len() as int;
    let used = bars::capped(width_total(ws, n));
    let k = shrinkable(ws, mins, n);
    if used <= avail || k <= 0 {
        ws
    } else {
        let per = larger((used - avail) / k, 1);
        proof {
            lemma_taken_down(ws, mins, per, n);
        }
        shrunk(taken_down(ws, mins, per), mins, avail)
    }
}

/// The widths of all columns at full width.
pub open spec fn full_widths(rows: Seq<Seq<Seq<char>>>) -> Seq<int> {
    Seq::new(
        columns_in(rows, rows.len() as int) as nat,
        |c: int| full_width(rows, rows.len() as int, c),
    )
}

/// The least widths of all columns.
pub open spec fn least_widths(rows: Seq<Seq<Seq<char>>>) -> Seq<int> {
    Seq::new(
        columns_in(rows, rows.len() as int) as nat,
        |c: int| least_width(rows, rows.len() as int, c),
    )
}

/// Columns that borders and padding take for `cols` columns.
pub open spec fn table_overhead(cols: int) -> int {
    bars::capped(3 * cols + 2)
}

/// `ws` scaled down to `avail` columns, each at least its least width.
pub open spec fn scaled(ws: Seq<int>, mins: Seq<int>, avail: int) -> Seq<int> {
    let total = bars::capped(width_total(ws, ws.len() as int));
    Seq::new(ws.len(), |c: int| larger((ws[c] * avail) / total, mins[c]))
}

/// The column widths of a table on `max_table` columns: full widths when the
/// table fits, nothing when it does not fit at its least widths, and scaled
/// down in between.
pub open spec fn table_widths(rows: Seq<Seq<Seq<char>>>, max_table: int) -> Option<Seq<int>> {
    let full = full_widths(rows);
    let least = least_widths(rows);
    let n = full.len() as int;
    let over = table_overhead(n);
    let total = bars::capped(width_total(full, n));
    if bars::capped(total + over) <= max_table {
        Some(full)
    } else {
        let avail = bars::at_least_zero(max_table - over);
        if bars::capped(width_total(least, n)) > avail {
            None
        } else if total > 0 {
            Some(shrunk(scaled(full, least, avail), least, avail))
        } else {
            Some(full)
        }
    }
}

fn longest_row(rows: &Vec<Vec<String>>) -> (r: usize)
    ensures
        r == columns_in(grid(rows@), rows@.len() as int),
{
    let ghost g = grid(rows@);
    let mut k: usize = 0;
    let mut i: usize = 0;
    while i < rows.len()
        invariant
            g == grid(rows@),
            i <= rows@.len(),
            k == columns_in(g, i as int),
        decreases rows@.len() - i,
    {
        assert(g[i as int].len() == rows@[i as int]@.len());
        if rows[i].len() > k {
            k = rows[i].len();
        }
        i = i + 1;
    }
    k
}

/// The widths as mathematical integers.
pub open spec fn as_widths(v: Seq<usize>) -> Seq<int> {
    Seq::new(v.len(), |i: int| v[i] as int)
}

fn measure(rows: &Vec<Vec<String>>, c: usize) -> (r: (usize, usize))
    ensures
        r.0 == full_width(grid(rows@), rows@.len() as int, c as int),
        r.1 == least_width(grid(rows@), rows@.len() as int, c as int),
{
    let ghost g = grid(rows@);
    let mut full: usize = 0;
    let mut least: usize = 0;
    let mut i: usize = 0;
    while i < rows.len()
        invariant
            g == grid(rows@),
            i <= rows@.len(),
            full == full_width(g, i as int, c as int),
            least == least_width(g, i as int, c as int),
        decreases rows@.len() - i,
    {
        assert(g[i as int].len() == rows@[i as int]@.len());
        if c < rows[i].len() {
            assert(g[i as int][c as int] == rows@[i as int]@[c as int]@);
            let w: usize = visible_width(rows[i][c].as_str());
            if w > full {
                full = w;
            }
            let l: usize = min_visual_width(rows[i][c].as_str());
            if l > least {
                least = l;
            }
        }
        i = i + 1;
    }
    (full, least)
}

fn total_of(ws: &Vec<usize>) -> (r: usize)
    ensures
        r == bars::capped(width_total(as_widths(ws@), ws@.len() as int)),
        width_total(as_widths(ws@), ws@.len() as int) >= 0,
{
    let mut t: usize = 0;
    let mut i: usize = 0;
    while i < ws.len()
        invariant
            i <= ws@.len(),
            t == bars::capped(width_total(as_widths(ws@), i as int)),
            width_total(as_widths(ws@), i as int) >= 0,
        decreases ws@.len() - i,
    {
        t = t.saturating_add(ws[i]);
        i = i + 1;
    }
    t
}

fn shrink(ws: Vec<usize>, mins: &Vec<usize>, avail: usize) -> (r: Vec<usize>)
    requires
        ws@.len() == mins@.len(),
    ensures
        as_widths(r@) == shrunk(as_widths(ws@), as_widths(mins@), avail as int),
{
    let mut ws = ws;
    let ghost start = as_widths(ws@);
    let ghost m = as_widths(mins@);
    loop
        invariant
            ws@.len() == mins@.len(),
            m == as_widths(mins@),
            shrunk(start, m, avail as int) == shrunk(as_widths(ws@), m, avail as int),
        ensures
            shrunk(start, m, avail as int) == as_widths(ws@),
        decreases slack(as_widths(ws@), m, ws@.len() as int),
    {
        let ghost w = as_widths(ws@);
        let used: usize = total_of(&ws);
        let mut k: usize = 0;
        let mut i: usize = 0;
        while i < ws.len()
            invariant
                ws@.len() == mins@.len(),
                m == as_widths(mins@),
                w == as_widths(ws@),
                i <= ws@.len(),
                k <= i,
                k == shrinkable(w, m, i as int),
            decreases ws@.len() - i,
        {
            if ws[i] > mins[i] {
                k = k + 1;
            }
            i = i + 1;
        }
        if used <= avail || k == 0 {
            break;
        }
        let share: usize = (used - avail) / k;
        let per: usize = if share > 1 {
            share
        } else {
            1
        };
        proof {
            lemma_taken_down(w, m, per as int, w.len() as int);
        }
        let ghost before = ws@;
        let mut i: usize = 0;
        while i < ws.len()
            invariant
                ws@.len() == mins@.len() == before.len(),
                m == as_widths(mins@),
                w == as_widths(before),
                i <= ws@.len(),
                per >= 1,
                forall|j: int| 0 <= j < i ==> #[trigger] ws@[j] == taken_down(w, m, per as int)[j],
                forall|j: int| i <= j < ws@.len() ==> #[trigger] ws@[j] == before[j],
            decreases ws@.len() - i,
        {
            assert(ws@[i as int] == before[i as int]);
            if ws[i] > mins[i] {
                let gap: usize = ws[i] - mins[i];
                let cut: usize = if per < gap {
                    per
                } else {
                    gap
                };
                ws[i] = ws[i] - cut;
            }
            i = i + 1;
        }
        assert(as_widths(ws@) =~= taken_down(w, m, per as int));
    }
    ws
}

fn scale(full: &Vec<usize>, least: &Vec<usize>, avail: usize, total: usize) -> (r: Vec<usize>)
    requires
        full@.len() == least@.len(),
        total > 0,
        total == bars::capped(width_total(as_widths(full@), full@.len() as int)),
    ensures
        as_widths(r@) == scaled(as_widths(full@), as_widths(least@), avail as int),
{
    let ghost f = as_widths(full@);
    let ghost l = as_widths(least@);
    let mut r: Vec<usize> = Vec::new();
    let mut i: usize = 0;
    while i < full.len()
        invariant
            full@.len() == least@.len(),
            f == as_widths(full@),
            l == as_widths(least@),
            total > 0,
            total == bars::capped(width_total(f, f.len() as int)),
            i <= full@.len(),
            r@.len() == i,
            forall|j: int|
                0 <= j < i ==> #[trigger] r@[j] == scaled(f, l, avail as int)[j],
        decreases full@.len() - i,
    {
        let a: usize = full[i];
        proof {
            lemma_width_part(f, f.len() as int, i as int);
            assert(a <= total);
            assert(a as int * avail as int <= 0xffff_ffff_ffff_ffff * 0xffff_ffff_ffff_ffff)
                by (nonlinear_arith)
                requires
                    0 <= a <= 0xffff_ffff_ffff_ffff,
                    0 <= avail <= 0xffff_ffff_ffff_ffff,
            ;
            assert((a as int * avail as int) / total as int <= avail as int) by (nonlinear_arith)
                requires
                    0 <= a <= total,
                    0 <= avail,
                    total > 0,
            ;
        }
        let q: u128 = (a as u128 * avail as u128) / total as u128;
        let s: usize = q as usize;
        let v: usize = if s > least[i] {
            s
        } else {
            least[i]
        };
        assert(scaled(f, l, avail as int)[i as int] == larger(
            (f[i as int] * avail) / total as int,
            l[i as int],
        ));
        r.push(v);
        i = i + 1;
    }
    assert(as_widths(r@) =~= scaled(f, l, avail as int));
    r
}

proof fn lemma_width_part(ws: Seq<int>, n: int, i: int)
    requires
        0 <= i < n <= ws.len(),
        forall|j: int| 0 <= j < n ==> #[trigger] ws[j] >= 0,
    ensures
        ws[i] <= width_total(ws, n),
        width_total(ws, n) >= 0,
    decreases n,
{
    if i < n - 1 {
        lemma_width_part(ws, n - 1, i);
    } else {
        lemma_width_nonneg(ws, n - 1);
    }
}

proof fn lemma_width_nonneg(ws: Seq<int>, n: int)
    requires
        n <= ws.len(),
        forall|j: int| 0 <= j < n ==> #[trigger] ws[j] >= 0,
    ensures
        width_total(ws, n) >= 0,
    decreases n,
{
    if n > 0 {
        lemma_width_nonneg(ws, n - 1);
    }
}

/// The column widths of a table; nothing when it has to be stacked.
fn column_widths(rows: &Vec<Vec<String>>, cols: usize, max_table: usize) -> (r: Option<Vec<usize>>)
    requires
        cols == columns_in(grid(rows@), rows@.len() as int),
    ensures
        match r {
            Some(v) => table_widths(grid(rows@), max_table as int) == Some(as_widths(v@))
                && v@.len() == cols,
            None => table_widths(grid(rows@), max_table as int) is None,
        },
{
    let ghost g = grid(rows@);
    let mut full: Vec<usize> = Vec::new();
    let mut least: Vec<usize> = Vec::new();
    let mut c: usize = 0;
    while c < cols
        invariant
            g == grid(rows@),
            c <= cols,
            full@.len() == c,
            least@.len() == c,
            forall|j: int| 0 <= j < c ==> #[trigger] full@[j] == full_width(g, g.len() as int, j),
            forall|j: int| 0 <= j < c ==> #[trigger] least@[j] == least_width(g, g.len() as int, j),
        decreases cols - c,
    {
        let (f, l) = measure(rows, c);
        full.push(f);
        least.push(l);
        c = c + 1;
    }
    assert(as_widths(full@) =~= full_widths(g));
    assert(as_widths(least@) =~= least_widths(g));
    let over: usize = cols.saturating_add(cols).saturating_add(cols).saturating_add(2);
    assert(over == table_overhead(cols as int));
    let total: usize = total_of(&full);
    if total.saturating_add(over) <= max_table {
        return Some(full);
    }
    let avail: usize = max_table.saturating_sub(over);
    if total_of(&least) > avail {
        return None;
    }
    if total > 0 {
        let s = scale(&full, &least, avail, total);
        let r = shrink(s, &least, avail);
        proof {
            lemma_shrunk_len(as_widths(s@), as_widths(least@), avail as int);
        }
        Some(r)
    } else {
        Some(full)
    }
}

proof fn lemma_shrunk_len(ws: Seq<int>, mins: Seq<int>, avail: int)
    ensures
        shrunk(ws, mins, avail).len() == ws.len(),
    decreases slack(ws, mins, ws.len() as int),
{
    let n = ws.len() as int;
    let used = bars::capped(width_total(ws, n));
    let k = shrinkable(ws, mins, n);
    if !(used <= avail || k <= 0) {
        let per = larger((used - avail) / k, 1);
        lemma_taken_down(ws, mins, per, n);
        lemma_shrunk_len(taken_down(ws, mins, per), mins, avail);
    }
}

// ── Drawing ──────────────────────────────────────────────────────────────

/// How a table is drawn: dim or not, in a box or not, and the colours.
#[derive(Clone, Copy)]
pub struct TableLook {
    pub dim: bool,
    pub boxed: Option<BoxContext>,
    /// What goes before a framed line outside a box.
    pub indent: &'static str,
    pub bar: Color,
    pub accent: Color,
}

/// Starts the border colour.
pub open spec fn border_on(m: Canvas, look: TableLook) -> Canvas {
    let m = m.queue(Command::SetForegroundColor(look.bar));
    if look.dim {
        m.queue(Command::SetAttribute(Attribute::Dim))
    } else {
        m
    }
}

/// Ends the border colour.
pub open spec fn border_off(m: Canvas, look: TableLook) -> Canvas {
    let m = m.queue(Command::ResetColor);
    if look.dim {
        m.queue(Command::SetAttribute(Attribute::Reset))
    } else {
        m
    }
}

fn bar_on(out: &mut RenderOut, look: &TableLook)
    ensures
        final(out)@ == border_on(old(out)@, *look),
{
    out.queue(Command::SetForegroundColor(look.bar));
    if look.dim {
        out.queue(Command::SetAttribute(Attribute::Dim));
    }
}

fn bar_off(out: &mut RenderOut, look: &TableLook)
    ensures
        final(out)@ == border_off(old(out)@, *look),
{
    out.queue(Command::ResetColor);
    if look.dim {
        out.queue(Command::SetAttribute(Attribute::Reset));
    }
}

/// What goes before a line of the table: the left border of the box, or the
/// indent.
pub open spec fn line_start(m: Canvas, look: TableLook) -> Canvas {
    match look.boxed {
        Some(b) => styled::box_left(m, b),
        None => m.print(look.indent@),
    }
}

/// What goes behind a line of `cols` columns: the right border of the box,
/// and the line end.
pub open spec fn line_end(m: Canvas, look: TableLook, cols: int) -> Canvas {
    match look.boxed {
        Some(b) => styled::box_right(m, b, cols).crlf(),
        None => m.crlf(),
    }
}

fn start_line(out: &mut RenderOut, look: &TableLook)
    ensures
        final(out)@ == line_start(old(out)@, *look),
{
    match look.boxed {
        Some(b) => {
            b.print_left(out);
        },
        None => {
            out.print(look.indent);
        },
    }
}

fn end_line(out: &mut RenderOut, look: &TableLook, cols: usize)
    ensures
        final(out)@ == line_end(old(out)@, *look, cols as int),
{
    match look.boxed {
        Some(b) => {
            b.print_right(out, cols);
        },
        None => {},
    }
    crlf(out);
}

/// The horizontal strokes over the first `n` of the columns, with `junction`
/// between columns.
pub open spec fn strokes(m: Canvas, ws: Seq<int>, n: int, junction: Seq<char>) -> Canvas
    decreases n,
{
    if n <= 0 {
        m
    } else {
        let m = strokes(m, ws, n - 1, junction).print(
            text::fill('\u{2501}', bars::capped(ws[n - 1] + 2) as nat),
        );
        if n < ws.len() {
            m.print(junction)
        } else {
            m
        }
    }
}

/// Columns of a border line.
pub open spec fn border_cols(ws: Seq<int>, n: int) -> int
    decreases n,
{
    if n <= 0 {
        1
    } else {
        bars::capped(border_cols(ws, n - 1) + ws[n - 1] + 3)
    }
}

/// A border line from `left` to `right`.
pub open spec fn border_line(
    m: Canvas,
    ws: Seq<int>,
    look: TableLook,
    left: Seq<char>,
    junction: Seq<char>,
    right: Seq<char>,
) -> Canvas {
    let m = border_on(line_start(m, look), look).print(left);
    let m = strokes(m, ws, ws.len() as int, junction).print(right);
    line_end(border_off(m, look), look, border_cols(ws, ws.len() as int))
}

fn render_border(
    out: &mut RenderOut,
    ws: &Vec<usize>,
    look: &TableLook,
    left: &str,
    junction: &str,
    right: &str,
)
    ensures
        final(out)@ == border_line(
            old(out)@,
            as_widths(ws@),
            *look,
            left@,
            junction@,
            right@,
        ),
{
    let ghost w = as_widths(ws@);
    start_line(out, look);
    bar_on(out, look);
    out.print(left);
    let ghost m = out@;
    let mut cols: usize = 1;
    let mut c: usize = 0;
    while c < ws.len()
        invariant
            w == as_widths(ws@),
            c <= ws@.len(),
            cols == border_cols(w, c as int),
            out@ == strokes(m, w, c as int, junction@),
        decreases ws@.len() - c,
    {
        let line = repeat_char('\u{2501}', ws[c].saturating_add(2));
        out.print(line.as_str());
        cols = cols.saturating_add(ws[c]).saturating_add(3);
        if c + 1 < ws.len() {
            out.print(junction);
        }
        c = c + 1;
    }
    out.print(right);
    bar_off(out, look);
    end_line(out, look, cols);
}

/// The lines of the first `n` cells of a row.
pub open spec fn row_cells(row: Seq<Seq<char>>, ws: Seq<int>) -> Seq<Seq<Seq<char>>> {
    Seq::new(
        row.len(),
        |c: int| inline_md::cell_wrapped(row[c], if c < ws.len() { ws[c] } else { 0 }),
    )
}

/// The number of lines of the highest of the first `n` cells.
pub open spec fn row_height(cells: Seq<Seq<Seq<char>>>, n: int) -> int
    decreases n,
{
    if n <= 0 {
        0
    } else {
        larger(row_height(cells, n - 1), cells[n - 1].len() as int)
    }
}

/// Line `v` of cell `c`; empty where the cell has no such line.
pub open spec fn cell_line(cells: Seq<Seq<Seq<char>>>, c: int, v: int) -> Seq<char> {
    if 0 <= c < cells.len() && 0 <= v < cells[c].len() {
        cells[c][v]
    } else {
        seq![]
    }
}

/// Line `v` of the first `n` columns of a row.
pub open spec fn row_line(
    m: Canvas,
    cells: Seq<Seq<Seq<char>>>,
    ws: Seq<int>,
    n: int,
    v: int,
    look: TableLook,
) -> Canvas
    decreases n,
{
    if n <= 0 {
        m
    } else {
        let m = row_line(m, cells, ws, n - 1, v, look);
        let t = cell_line(cells, n - 1, v);
        let pad = ws[n - 1] - inline_md::visible_columns(t);
        let m = styled::inline_printed(m.print(" "@), t, look.dim, look.accent);
        let m = if pad > 0 {
            m.print(text::fill(' ', pad as nat))
        } else {
            m
        };
        border_off(border_on(m.print(" "@), look).print("\u{2503}"@), look)
    }
}

/// Columns of line `v` of the first `n` columns of a row.
pub open spec fn row_line_cols(
    cells: Seq<Seq<Seq<char>>>,
    ws: Seq<int>,
    n: int,
    v: int,
) -> int
    decreases n,
{
    if n <= 0 {
        1
    } else {
        bars::capped(
            row_line_cols(cells, ws, n - 1, v) + larger(
                ws[n - 1],
                inline_md::visible_columns(cell_line(cells, n - 1, v)),
            ) + 3,
        )
    }
}

/// The first `v` lines of a row.
pub open spec fn row_lines(
    m: Canvas,
    cells: Seq<Seq<Seq<char>>>,
    ws: Seq<int>,
    v: int,
    look: TableLook,
) -> Canvas
    decreases v,
{
    if v <= 0 {
        m
    } else {
        let m = row_lines(m, cells, ws, v - 1, look);
        let m = border_off(border_on(line_start(m, look), look).print("\u{2503}"@), look);
        let m = row_line(m, cells, ws, ws.len() as int, v - 1, look);
        line_end(m, look, row_line_cols(cells, ws, ws.len() as int, v - 1))
    }
}

/// The height of a row: at least one line.
pub open spec fn height_of(row: Seq<Seq<char>>, ws: Seq<int>) -> int {
    if row.len() == 0 {
        1
    } else {
        row_height(row_cells(row, ws), row.len() as int)
    }
}

/// One row of a table.
pub open spec fn row_drawn(m: Canvas, row: Seq<Seq<char>>, ws: Seq<int>, look: TableLook) -> Canvas {
    row_lines(m, row_cells(row, ws), ws, height_of(row, ws), look)
}

fn render_table_row(out: &mut RenderOut, row: &Vec<String>, ws: &Vec<usize>, look: &TableLook) -> (r:
    u16)
    ensures
        final(out)@ == row_drawn(old(out)@, text::texts(row@), as_widths(ws@), *look),
        r == height_of(text::texts(row@), as_widths(ws@)) as u16,
{
    let ghost t = text::texts(row@);
    let ghost w = as_widths(ws@);
    let ghost cells = row_cells(t, w);
    let mut wrapped: Vec<Vec<String>> = Vec::new();
    let mut height: usize = 0;
    let mut c: usize = 0;
    while c < row.len()
        invariant
            t == text::texts(row@),
            w == as_widths(ws@),
            cells == row_cells(t, w),
            c <= row@.len(),
            wrapped@.len() == c,
            forall|j: int| 0 <= j < c ==> text::texts((#[trigger] wrapped@[j])@) == cells[j],
            height == row_height(cells, c as int),
        decreases row@.len() - c,
    {
        let k: usize = if c < ws.len() {
            ws[c]
        } else {
            0
        };
        let lines = wrap_cell_words(row[c].as_str(), k);
        assert(t[c as int] == row@[c as int]@);
        assert(text::texts(lines@) == cells[c as int]);
        assert(text::texts(lines@).len() == lines@.len());
        if lines.len() > height {
            height = lines.len();
        }
        wrapped.push(lines);
        c = c + 1;
    }
    if row.len() == 0 {
        height = 1;
    }
    let mut v: usize = 0;
    while v < height
        invariant
            t == text::texts(row@),
            w == as_widths(ws@),
            cells == row_cells(t, w),
            cells.len() == row@.len(),
            wrapped@.len() == row@.len(),
            forall|j: int|
                0 <= j < row@.len() ==> text::texts((#[trigger] wrapped@[j])@) == cells[j],
            height == height_of(t, w),
            v <= height,
            out@ == row_lines(old(out)@, cells, w, v as int, *look),
        decreases height - v,
    {
        start_line(out, look);
        bar_on(out, look);
        out.print("\u{2503}");
        bar_off(out, look);
        let ghost m = out@;
        let mut cols: usize = 1;
        let mut c: usize = 0;
        while c < ws.len()
            invariant
                w == as_widths(ws@),
                cells.len() == wrapped@.len(),
                forall|j: int|
                    0 <= j < wrapped@.len() ==> text::texts((#[trigger] wrapped@[j])@) == cells[j],
                c <= ws@.len(),
                cols == row_line_cols(cells, w, c as int, v as int),
                out@ == row_line(m, cells, w, c as int, v as int, *look),
            decreases ws@.len() - c,
        {
            let line: String = if c < wrapped.len() && v < wrapped[c].len() {
                assert(text::texts(wrapped@[c as int]@)[v as int]
                    == wrapped@[c as int]@[v as int]@);
                wrapped[c][v].clone()
            } else {
                proof {
                    if c < wrapped@.len() {
                        assert(text::texts(wrapped@[c as int]@).len() == wrapped@[c as int]@.len());
                    }
                }
                String::new()
            };
            assert(line@ =~= cell_line(cells, c as int, v as int));
            let vis: usize = visible_width(line.as_str());
            out.print(" ");
            print_inline_styled(out, line.as_str(), look.dim, look.accent);
            let pad: usize = ws[c].saturating_sub(vis);
            if pad > 0 {
                let spaces = repeat_char(' ', pad);
                out.print(spaces.as_str());
            }
            out.print(" ");
            bar_on(out, look);
            out.print("\u{2503}");
            bar_off(out, look);
            let wide: usize = if ws[c] > vis {
                ws[c]
            } else {
                vis
            };
            cols = cols.saturating_add(wide).saturating_add(3);
            c = c + 1;
        }
        end_line(out, look, cols);
        v = v + 1;
    }
    #[verifier::truncate]
    let rows: u16 = height as u16;
    rows
}

/// The rows behind the header up to row `n`.
pub open spec fn body_drawn(
    m: Canvas,
    rows: Seq<Seq<Seq<char>>>,
    ws: Seq<int>,
    n: int,
    look: TableLook,
) -> Canvas
    decreases n,
{
    if n <= 1 {
        m
    } else {
        row_drawn(body_drawn(m, rows, ws, n - 1, look), rows[n - 1], ws, look)
    }
}

/// Lines of the rows behind the header up to row `n`, `start` added.
pub open spec fn body_rows(rows: Seq<Seq<Seq<char>>>, ws: Seq<int>, n: int, start: u16) -> u16
    decreases n,
{
    if n <= 1 {
        start
    } else {
        out::rows_plus(
            body_rows(rows, ws, n - 1, start),
            height_of(rows[n - 1], ws) as u16,
        )
    }
}

/// A table with borders.
pub open spec fn framed_table(
    m: Canvas,
    rows: Seq<Seq<Seq<char>>>,
    ws: Seq<int>,
    look: TableLook,
) -> Canvas {
    let m = border_line(m, ws, look, "\u{250f}"@, "\u{2533}"@, "\u{2513}"@);
    let m = row_drawn(m, rows[0], ws, look);
    let m = border_line(m, ws, look, "\u{2523}"@, "\u{254b}"@, "\u{252b}"@);
    let m = body_drawn(m, rows, ws, rows.len() as int, look);
    border_line(m, ws, look, "\u{2517}"@, "\u{253b}"@, "\u{251b}"@)
}

/// Lines of a table with borders.
pub open spec fn framed_rows(rows: Seq<Seq<Seq<char>>>, ws: Seq<int>) -> u16 {
    let n = out::rows_plus(out::rows_plus(1, height_of(rows[0], ws) as u16), 1);
    out::rows_plus(body_rows(rows, ws, rows.len() as int, n), 1)
}

/// Columns of the widest label among the first `n` cells of the header.
pub open spec fn label_columns(header: Seq<Seq<char>>, n: int) -> int
    decreases n,
{
    if n <= 0 {
        0
    } else {
        larger(label_columns(header, n - 1), inline_md::visible_columns(header[n - 1]))
    }
}

/// The label of column `c`; empty where the header has none.
pub open spec fn label_of(header: Seq<Seq<char>>, c: int) -> Seq<char> {
    if 0 <= c < header.len() {
        header[c]
    } else {
        seq![]
    }
}

/// What goes before a line of the stacked form.
pub open spec fn stacked_start(m: Canvas, look: TableLook) -> Canvas {
    match look.boxed {
        Some(b) => styled::box_left(m, b),
        None => m,
    }
}

/// The first `n` lines of one value, the first with its label.
pub open spec fn value_lines(
    m: Canvas,
    lines: Seq<Seq<char>>,
    label: Seq<char>,
    label_w: int,
    n: int,
    look: TableLook,
) -> Canvas
    decreases n,
{
    if n <= 0 {
        m
    } else {
        let m = stacked_start(value_lines(m, lines, label, label_w, n - 1, look), look);
        let indent = bars::capped(label_w + 4);
        let pad = label_w - inline_md::visible_columns(label);
        let m = if n == 1 {
            let m = m.print("  "@).queue(Command::SetForegroundColor(Color::DarkGrey));
            let m = if look.dim {
                m.queue(Command::SetAttribute(Attribute::Dim))
            } else {
                m
            };
            let m = styled::inline_printed(m, label, look.dim, look.accent);
            let m = if pad > 0 {
                m.print(text::fill(' ', pad as nat))
            } else {
                m
            };
            border_off(m, look).print("  "@)
        } else {
            m.print(text::fill(' ', indent as nat))
        };
        let m = styled::inline_printed(m, lines[n - 1], look.dim, look.accent);
        line_end(
            m,
            look,
            bars::capped(indent + inline_md::visible_columns(lines[n - 1])),
        )
    }
}

/// The first `n` values of a row.
pub open spec fn stacked_row(
    m: Canvas,
    row: Seq<Seq<char>>,
    header: Seq<Seq<char>>,
    label_w: int,
    value_w: int,
    n: int,
    look: TableLook,
) -> Canvas
    decreases n,
{
    if n <= 0 {
        m
    } else {
        let lines = inline_md::cell_wrapped(row[n - 1], value_w);
        value_lines(
            stacked_row(m, row, header, label_w, value_w, n - 1, look),
            lines,
            label_of(header, n - 1),
            label_w,
            lines.len() as int,
            look,
        )
    }
}

/// Lines of the first `n` values of a row, `start` added.
pub open spec fn stacked_row_rows(row: Seq<Seq<char>>, value_w: int, n: int, start: u16) -> u16
    decreases n,
{
    if n <= 0 {
        start
    } else {
        out::rows_plus(
            stacked_row_rows(row, value_w, n - 1, start),
            inline_md::cell_wrapped(row[n - 1], value_w).len() as u16,
        )
    }
}

/// The rows behind the header up to row `n`, each value on lines of its own,
/// with an empty line between rows.
pub open spec fn stacked_rows(
    m: Canvas,
    rows: Seq<Seq<Seq<char>>>,
    label_w: int,
    value_w: int,
    n: int,
    look: TableLook,
) -> Canvas
    decreases n,
{
    if n <= 1 {
        m
    } else {
        let m = stacked_rows(m, rows, label_w, value_w, n - 1, look);
        let m = if n > 2 {
            line_end(stacked_start(m, look), look, 0)
        } else {
            m
        };
        stacked_row(
            m,
            rows[n - 1],
            rows[0],
            label_w,
            value_w,
            rows[n - 1].len() as int,
            look,
        )
    }
}

/// Lines of the rows behind the header up to row `n`.
pub open spec fn stacked_count(rows: Seq<Seq<Seq<char>>>, value_w: int, n: int) -> u16
    decreases n,
{
    if n <= 1 {
        0
    } else {
        let k = stacked_count(rows, value_w, n - 1);
        let k = if n > 2 {
            out::rows_plus(k, 1)
        } else {
            k
        };
        stacked_row_rows(rows[n - 1], value_w, rows[n - 1].len() as int, k)
    }
}

fn render_value(
    out: &mut RenderOut,
    lines: &Vec<String>,
    label: &str,
    label_w: usize,
    look: &TableLook,
)
    ensures
        final(out)@ == value_lines(
            old(out)@,
            text::texts(lines@),
            label@,
            label_w as int,
            lines@.len() as int,
            *look,
        ),
{
    let ghost t = text::texts(lines@);
    let indent: usize = label_w.saturating_add(4);
    let pad: usize = label_w.saturating_sub(visible_width(label));
    let mut i: usize = 0;
    while i < lines.len()
        invariant
            t == text::texts(lines@),
            indent == bars::capped(label_w + 4),
            pad == bars::at_least_zero(label_w - inline_md::visible_columns(label@)),
            i <= lines@.len(),
            out@ == value_lines(old(out)@, t, label@, label_w as int, i as int, *look),
        decreases lines@.len() - i,
    {
        assert(t[i as int] == lines@[i as int]@);
        if let Some(b) = look.boxed {
            b.print_left(out);
        }
        if i == 0 {
            out.print("  ");
            out.queue(Command::SetForegroundColor(Color::DarkGrey));
            if look.dim {
                out.queue(Command::SetAttribute(Attribute::Dim));
            }
            print_inline_styled(out, label, look.dim, look.accent);
            if pad > 0 {
                let spaces = repeat_char(' ', pad);
                out.print(spaces.as_str());
            }
            bar_off(out, look);
            out.print("  ");
        } else {
            let spaces = repeat_char(' ', indent);
            out.print(spaces.as_str());
        }
        print_inline_styled(out, lines[i].as_str(), look.dim, look.accent);
        let vis: usize = visible_width(lines[i].as_str());
        end_line(out, look, indent.saturating_add(vis));
        i = i + 1;
    }
}

/// The stacked form of a table: every value on lines of its own, behind its
/// label.
fn render_table_stacked(
    out: &mut RenderOut,
    rows: &Vec<Vec<String>>,
    term_width: usize,
    look: &TableLook,
) -> (r: u16)
    requires
        rows@.len() > 0,
    ensures
        ({
            let g = grid(rows@);
            let label_w = label_columns(g[0], g[0].len() as int);
            let value_w = bars::at_least_zero(term_width - bars::capped(label_w + 4));
            &&& final(out)@ == stacked_rows(
                old(out)@,
                g,
                label_w,
                value_w,
                g.len() as int,
                *look,
            )
            &&& r == stacked_count(g, value_w, g.len() as int)
        }),
{
    let ghost g = grid(rows@);
    let header = &rows[0];
    let ghost h = g[0];
    let mut label_w: usize = 0;
    let mut c: usize = 0;
    while c < header.len()
        invariant
            h == text::texts(header@),
            c <= header@.len(),
            label_w == label_columns(h, c as int),
        decreases header@.len() - c,
    {
        assert(h[c as int] == header@[c as int]@);
        let w: usize = visible_width(header[c].as_str());
        if w > label_w {
            label_w = w;
        }
        c = c + 1;
    }
    let value_w: usize = term_width.saturating_sub(label_w.saturating_add(4));
    let mut total: u16 = 0;
    let mut i: usize = 1;
    while i < rows.len()
        invariant
            g == grid(rows@),
            h == g[0],
            h == text::texts(header@),
            1 <= i <= rows@.len(),
            out@ == stacked_rows(
                old(out)@,
                g,
                label_w as int,
                value_w as int,
                i as int,
                *look,
            ),
            total == stacked_count(g, value_w as int, i as int),
        decreases rows@.len() - i,
    {
        if i > 1 {
            if let Some(b) = look.boxed {
                b.print_left(out);
            }
            end_line(out, look, 0);
            total = total.saturating_add(1);
        }
        let row = &rows[i];
        let ghost t = g[i as int];
        let ghost m = out@;
        let ghost start = total;
        let mut c: usize = 0;
        while c < row.len()
            invariant
                h == text::texts(header@),
                t == text::texts(row@),
                c <= row@.len(),
                out@ == stacked_row(
                    m,
                    t,
                    h,
                    label_w as int,
                    value_w as int,
                    c as int,
                    *look,
                ),
                total == stacked_row_rows(t, value_w as int, c as int, start),
            decreases row@.len() - c,
        {
            assert(t[c as int] == row@[c as int]@);
            let label: String = if c < header.len() {
                assert(h[c as int] == header@[c as int]@);
                header[c].clone()
            } else {
                String::new()
            };
            assert(label@ =~= label_of(h, c as int));
            let lines = wrap_cell_words(row[c].as_str(), value_w);
            assert(text::texts(lines@).len() == lines@.len());
            render_value(out, &lines, label.as_str(), label_w, look);
            #[verifier::truncate]
            let n: u16 = lines.len() as u16;
            total = total.saturating_add(n);
            c = c + 1;
        }
        i = i + 1;
    }
    total
}

/// A table: nothing when it has no cells, with borders when it fits, stacked
/// otherwise.
pub open spec fn table_drawn(
    m: Canvas,
    rows: Seq<Seq<Seq<char>>>,
    term_width: int,
    look: TableLook,
) -> (Canvas, u16) {
    if columns_in(rows, rows.len() as int) == 0 {
        (m, 0)
    } else {
        match table_widths(rows, bars::at_least_zero(term_width - 2)) {
            Some(ws) => (framed_table(m, rows, ws, look), framed_rows(rows, ws)),
            None => {
                let label_w = label_columns(rows[0], rows[0].len() as int);
                let value_w = bars::at_least_zero(term_width - bars::capped(label_w + 4));
                (
                    stacked_rows(m, rows, label_w, value_w, rows.len() as int, look),
                    stacked_count(rows, value_w, rows.len() as int),
                )
            },
        }
    }
}

/// Draws a table; the result is the number of lines.
pub fn render_markdown_table(
    out: &mut RenderOut,
    rows: &Vec<Vec<String>>,
    term_width: usize,
    look: &TableLook,
) -> (r: u16)
    ensures
        final(out)@ == table_drawn(old(out)@, grid(rows@), term_width as int, *look).0,
        r == table_drawn(old(out)@, grid(rows@), term_width as int, *look).1,
{
    let ghost g = grid(rows@);
    let cols: usize = longest_row(rows);
    if cols == 0 {
        return 0;
    }
    assert(rows@.len() > 0);
    let max_table: usize = term_width.saturating_sub(2);
    match column_widths(rows, cols, max_table) {
        None => render_table_stacked(out, rows, term_width, look),
        Some(ws) => {
            let ghost w = as_widths(ws@);
            let mut total: u16 = 1;
            render_border(out, &ws, look, "\u{250f}", "\u{2533}", "\u{2513}");
            assert(g[0] == text::texts(rows@[0]@));
            let h: u16 = render_table_row(out, &rows[0], &ws, look);
            total = total.saturating_add(h);
            render_border(out, &ws, look, "\u{2523}", "\u{254b}", "\u{252b}");
            total = total.saturating_add(1);
            let ghost m = out@;
            let ghost start = total;
            let mut i: usize = 1;
            while i < rows.len()
                invariant
                    g == grid(rows@),
                    w == as_widths(ws@),
                    1 <= i <= rows@.len(),
                    out@ == body_drawn(m, g, w, i as int, *look),
                    total == body_rows(g, w, i as int, start),
                decreases rows@.len() - i,
            {
                assert(g[i as int] == text::texts(rows@[i as int]@));
                let h: u16 = render_table_row(out, &rows[i], &ws, look);
                total = total.saturating_add(h);
                i = i + 1;
            }
            render_border(out, &ws, look, "\u{2517}", "\u{253b}", "\u{251b}");
            total.saturating_add(1)
        },
    }
}

/// A table with borders fits: its columns and their borders take no more than
/// the columns that there are.
pub proof fn law_table_fits(rows: Seq<Seq<Seq<char>>>, max_table: int)
    requires
        table_widths(rows, max_table) is Some,
        0 <= max_table < usize::MAX,
        table_overhead(full_widths(rows).len() as int) <= max_table,
    ensures
        ({
            let ws = table_widths(rows, max_table)->0;
            bars::capped(width_total(ws, ws.len() as int)) + table_overhead(ws.len() as int)
                <= max_table
        }),
{
    let full = full_widths(rows);
    let least = least_widths(rows);
    let n = full.len() as int;
    let over = table_overhead(n);
    let total = bars::capped(width_total(full, n));
    let avail = bars::at_least_zero(max_table - over);
    assert forall|j: int| 0 <= j < n implies #[trigger] full[j] >= 0 by {
        lemma_full_nonneg(rows, rows.len() as int, j);
    }
    assert forall|j: int| 0 <= j < n implies #[trigger] least[j] >= 0 by {
        lemma_full_nonneg(rows, rows.len() as int, j);
    }
    lemma_width_nonneg(full, n);
    lemma_width_nonneg(least, n);
    if bars::capped(total + over) > max_table && total > 0 {
        let s = scaled(full, least, avail);
        assert forall|j: int| 0 <= j < n implies #[trigger] s[j] >= least[j] by {}
        lemma_shrunk_fits(s, least, avail);
        lemma_shrunk_len(s, least, avail);
    }
}

proof fn lemma_full_nonneg(rows: Seq<Seq<Seq<char>>>, n: int, c: int)
    ensures
        full_width(rows, n, c) >= 0,
        least_width(rows, n, c) >= 0,
    decreases n,
{
    if n > 0 {
        lemma_full_nonneg(rows, n - 1, c);
    }
}

proof fn lemma_at_least(ws: Seq<int>, mins: Seq<int>, n: int)
    requires
        0 <= n <= ws.len(),
        ws.len() == mins.len(),
        forall|j: int| 0 <= j < ws.len() ==> #[trigger] ws[j] >= mins[j],
        shrinkable(ws, mins, n) <= 0,
    ensures
        width_total(ws, n) == width_total(mins, n),
        shrinkable(ws, mins, n) >= 0,
    decreases n,
{
    if n > 0 {
        lemma_taken_down(ws, mins, 1, n - 1);
        lemma_at_least(ws, mins, n - 1);
    }
}

proof fn lemma_shrunk_fits(ws: Seq<int>, mins: Seq<int>, avail: int)
    requires
        ws.len() == mins.len(),
        forall|j: int| 0 <= j < ws.len() ==> #[trigger] ws[j] >= mins[j],
        bars::capped(width_total(mins, mins.len() as int)) <= avail,
    ensures
        ({
            let r = shrunk(ws, mins, avail);
            bars::capped(width_total(r, r.len() as int)) <= avail
        }),
    decreases slack(ws, mins, ws.len() as int),
{
    let n = ws.len() as int;
    let used = bars::capped(width_total(ws, n));
    let k = shrinkable(ws, mins, n);
    if used <= avail {
    } else if k <= 0 {
        lemma_at_least(ws, mins, n);
    } else {
        let per = larger((used - avail) / k, 1);
        lemma_taken_down(ws, mins, per, n);
        let t = taken_down(ws, mins, per);
        assert forall|j: int| 0 <= j < t.len() implies #[trigger] t[j] >= mins[j] by {
            assert(ws[j] >= mins[j]);
        }
        lemma_shrunk_fits(t, mins, avail);
    }
}

} // verus!
