//! What a reader sees of a table: between its borders, column by column,
//! every cell whole.

use vstd::prelude::*;

use crate::render::bars;
use crate::render::inline_laws;
use crate::render::inline_md;
use crate::render::out::{Attribute, Canvas, Color, Command};
use crate::render::seen;
use crate::render::styled;
use crate::render::table;
use crate::render::table::TableLook;
use crate::text;

verus! {

// ── Reading ──────────────────────────────────────────────────────────────

/// The vertical border between cells.
pub open spec fn bar() -> char {
    '\u{2503}'
}

/// What is printed between borders: the texts, run together, before the
/// first border, between each two, and behind the last.
pub open spec fn fields(ps: Seq<Seq<char>>) -> Seq<Seq<char>>
    decreases ps.len(),
{
    if ps.len() == 0 {
        seq![seq![]]
    } else {
        let f = fields(ps.drop_last());
        if ps.last() == seq![bar()] {
            f.push(seq![])
        } else {
            f.drop_last().push(f.last() + ps.last())
        }
    }
}

/// What can be seen in column `c` of lines of `k` columns: a line has a
/// border before each column and one behind the last, so `k + 1` fields make
/// a line, and the last of them is what stands between two lines.  Fields up
/// to `at` do not belong to the table.
pub open spec fn column(fs: Seq<Seq<char>>, at: int, k: int, c: int) -> Seq<char>
    decreases fs.len(),
{
    if k < 0 || fs.len() < k + 1 || fs.len() < at + k + 1 {
        seq![]
    } else {
        column(fs.take(fs.len() - (k + 1)), at, k, c) + seen::ink(fs[fs.len() - (k + 1) + c])
    }
}

/// The fields of what was printed.
pub open spec fn fields_on(m: Canvas) -> Seq<Seq<char>> {
    fields(seen::prints(m))
}

/// What surrounds a table holds no border of its own kind.
pub open spec fn apart(look: TableLook) -> bool {
    match look.boxed {
        Some(b) => b.left@ != seq![bar()] && b.right@ != seq![bar()],
        None => look.indent@ != seq![bar()],
    }
}

proof fn lemma_fields_len(ps: Seq<Seq<char>>)
    ensures
        fields(ps).len() >= 1,
    decreases ps.len(),
{
    if ps.len() > 0 {
        lemma_fields_len(ps.drop_last());
    }
}

proof fn lemma_fields_push(ps: Seq<Seq<char>>, t: Seq<char>)
    ensures
        fields(ps.push(t)) == if t == seq![bar()] {
            fields(ps).push(seq![])
        } else {
            fields(ps).drop_last().push(fields(ps).last() + t)
        },
{
    assert(ps.push(t).drop_last() =~= ps);
}

/// Nothing but the last field differs, which has grown by `t`.
spec fn longer(f: Seq<Seq<char>>, g: Seq<Seq<char>>, t: Seq<char>) -> bool {
    &&& f.len() >= 1
    &&& g.len() == f.len()
    &&& g.drop_last() == f.drop_last()
    &&& g.last() == f.last() + t
}

proof fn lemma_fields_pieces(ps: Seq<Seq<char>>, qs: Seq<Seq<char>>)
    requires
        forall|i: int| 0 <= i < qs.len() ==> #[trigger] qs[i] != seq![bar()],
    ensures
        longer(fields(ps), fields(ps + qs), seen::flat(qs)),
    decreases qs.len(),
{
    lemma_fields_len(ps);
    if qs.len() == 0 {
        assert(ps + qs =~= ps);
        assert(fields(ps).last() + seen::flat(qs) =~= fields(ps).last());
    } else {
        let a = qs.drop_last();
        assert forall|i: int| 0 <= i < a.len() implies #[trigger] a[i] != seq![bar()] by {
            assert(a[i] == qs[i]);
        }
        lemma_fields_pieces(ps, a);
        assert(ps + qs =~= (ps + a).push(qs.last()));
        lemma_fields_push(ps + a, qs.last());
        let f = fields(ps);
        let g = fields(ps + qs);
        assert(qs[qs.len() - 1] != seq![bar()]);
        assert(g.drop_last() =~= f.drop_last());
        assert(g.last() =~= f.last() + seen::flat(qs));
    }
}

proof fn lemma_print_longer(m: Canvas, t: Seq<char>)
    requires
        t != seq![bar()],
    ensures
        longer(fields_on(m), fields_on(m.print(t)), t),
{
    seen::lemma_print(m, t);
    let one = Seq::<Seq<char>>::empty().push(t);
    assert(seen::prints(m).push(t) =~= seen::prints(m) + one);
    lemma_fields_pieces(seen::prints(m), one);
    seen::lemma_flat_push(Seq::<Seq<char>>::empty(), t);
    assert(seen::flat(Seq::<Seq<char>>::empty()) + t =~= t);
}

proof fn lemma_fill_is_no_bar(n: nat)
    ensures
        text::fill(' ', n) != seq![bar()],
{
    if text::fill(' ', n) == seq![bar()] {
        assert(text::fill(' ', n).len() == seq![bar()].len());
        assert(text::fill(' ', n)[0] == ' ');
        assert(seq![bar()][0] == bar());
    }
}

proof fn lemma_longer_twice(
    f: Seq<Seq<char>>,
    g: Seq<Seq<char>>,
    h: Seq<Seq<char>>,
    s: Seq<char>,
    t: Seq<char>,
)
    requires
        longer(f, g, s),
        longer(g, h, t),
    ensures
        longer(f, h, s + t),
{
    assert(f.last() + s + t =~= f.last() + (s + t));
}

// ── Lines ────────────────────────────────────────────────────────────────

proof fn lemma_border_fields(m: Canvas, look: TableLook)
    ensures
        seen::prints(table::border_on(m, look)) == seen::prints(m),
        seen::prints(table::border_off(m, look)) == seen::prints(m),
{
    broadcast use seen::group_prints;

}

proof fn lemma_bar_fields(m: Canvas, look: TableLook)
    ensures
        ({
            let r = table::border_off(
                table::border_on(m, look).print("\u{2503}"@),
                look,
            );
            fields_on(r) == fields_on(m).push(seq![])
        }),
{
    let a = table::border_on(m, look);
    lemma_border_fields(m, look);
    seen::lemma_print(a, "\u{2503}"@);
    lemma_border_fields(a.print("\u{2503}"@), look);
    reveal_strlit("\u{2503}");
    assert("\u{2503}"@ =~= seq![bar()]);
    lemma_fields_push(seen::prints(a), "\u{2503}"@);
}

/// The text of one cell, padded, and the border behind it.
proof fn lemma_cell_fields(m: Canvas, t: Seq<char>, pad: int, look: TableLook)
    requires
        !t.contains(bar()),
    ensures
        ({
            let a = styled::inline_printed(m.print(" "@), t, look.dim, look.accent);
            let b = if pad > 0 {
                a.print(text::fill(' ', pad as nat))
            } else {
                a
            };
            let r = table::border_off(
                table::border_on(b.print(" "@), look).print("\u{2503}"@),
                look,
            );
            let f = fields_on(m);
            let g = fields_on(r);
            &&& f.len() >= 1
            &&& g.len() == f.len() + 1
            &&& g.take(f.len() - 1) == f.drop_last()
            &&& seen::ink(g[f.len() - 1]) == seen::ink(f.last()) + seen::ink(
                inline_md::stripped(t),
            )
            &&& g.last().len() == 0
        }),
{
    broadcast use {seen::lemma_ink_add, seen::lemma_ink_fill};

    reveal_strlit(" ");
    assert(" "@ =~= text::fill(' ', 1));
    lemma_fill_is_no_bar(1);
    lemma_print_longer(m, " "@);
    let m1 = m.print(" "@);
    let ps = inline_laws::law_inline_text_is_printed(m1, t, look.dim, look.accent, bar());
    let a = styled::inline_printed(m1, t, look.dim, look.accent);
    lemma_fields_pieces(seen::prints(m1), ps);
    let st = inline_md::stripped(t);
    lemma_longer_twice(fields_on(m), fields_on(m1), fields_on(a), " "@, st);
    let b = if pad > 0 {
        a.print(text::fill(' ', pad as nat))
    } else {
        a
    };
    let gap = if pad > 0 {
        text::fill(' ', pad as nat)
    } else {
        seq![]
    };
    if pad > 0 {
        lemma_fill_is_no_bar(pad as nat);
        lemma_print_longer(a, gap);
    } else {
        assert(fields_on(a).last() + gap =~= fields_on(a).last());
    }
    lemma_longer_twice(fields_on(m), fields_on(a), fields_on(b), " "@ + st, gap);
    lemma_print_longer(b, " "@);
    let c = b.print(" "@);
    lemma_longer_twice(fields_on(m), fields_on(b), fields_on(c), " "@ + st + gap, " "@);
    lemma_bar_fields(c, look);
    let f = fields_on(m);
    let h = fields_on(c);
    let g = h.push(seq![]);
    assert(g.take(f.len() - 1) =~= h.drop_last());
    assert(g[f.len() - 1] == h.last());
    assert(seen::ink(gap) =~= seq![]);
    assert(seen::ink(h.last()) =~= seen::ink(f.last()) + seen::ink(st));
}

spec fn lines_apart(cells: Seq<Seq<Seq<char>>>) -> bool {
    forall|c: int, v: int|
        0 <= c < cells.len() && 0 <= v < cells[c].len() ==> !(#[trigger] cells[c][v]).contains(
            bar(),
        )
}

proof fn lemma_row_line(
    m: Canvas,
    cells: Seq<Seq<Seq<char>>>,
    ws: Seq<int>,
    n: int,
    v: int,
    look: TableLook,
)
    requires
        0 <= n,
        lines_apart(cells),
        fields_on(m).last().len() == 0,
    ensures
        ({
            let f = fields_on(m);
            let g = fields_on(table::row_line(m, cells, ws, n, v, look));
            &&& f.len() >= 1
            &&& g.len() == f.len() + n
            &&& g.take(f.len() - 1) == f.drop_last()
            &&& g.last().len() == 0
            &&& forall|c: int|
                0 <= c < n ==> seen::ink(#[trigger] g[f.len() - 1 + c]) == seen::ink(
                    inline_md::stripped(table::cell_line(cells, c, v)),
                )
        }),
    decreases n,
{
    let f = fields_on(m);
    lemma_fields_len(seen::prints(m));
    if n <= 0 {
        assert(f.take(f.len() - 1) =~= f.drop_last());
    } else {
        lemma_row_line(m, cells, ws, n - 1, v, look);
        let a = table::row_line(m, cells, ws, n - 1, v, look);
        let h = fields_on(a);
        let t = table::cell_line(cells, n - 1, v);
        assert(!t.contains(bar()));
        lemma_cell_fields(a, t, ws[n - 1] - inline_md::visible_columns(t), look);
        let g = fields_on(table::row_line(m, cells, ws, n, v, look));
        assert(seen::ink(h.last()) =~= seq![]);
        assert(g.take(f.len() - 1) =~= g.take(h.len() - 1).take(f.len() - 1));
        assert(h.drop_last().take(f.len() - 1) =~= h.take(f.len() - 1));
        assert forall|c: int| 0 <= c < n implies seen::ink(#[trigger] g[f.len() - 1 + c])
            == seen::ink(inline_md::stripped(table::cell_line(cells, c, v))) by {
            if c < n - 1 {
                assert(g[f.len() - 1 + c] == g.take(h.len() - 1)[f.len() - 1 + c]);
                assert(g[f.len() - 1 + c] == h[f.len() - 1 + c]);
            } else {
                assert(f.len() - 1 + c == h.len() - 1);
                assert(Seq::<char>::empty() + seen::ink(inline_md::stripped(t)) =~= seen::ink(
                    inline_md::stripped(t),
                ));
            }
        }
    }
}

/// What goes before a line only makes the field before its first border
/// longer.
proof fn lemma_line_start(m: Canvas, look: TableLook) -> (t: Seq<char>)
    requires
        apart(look),
    ensures
        longer(fields_on(m), fields_on(table::line_start(m, look)), t),
{
    match look.boxed {
        Some(b) => {
            seen::lemma_push_fg(m, b.color);
            let a = m.push_fg(b.color);
            lemma_print_longer(a, b.left@);
            seen::lemma_pop_style(a.print(b.left@));
            b.left@
        },
        None => {
            lemma_print_longer(m, look.indent@);
            look.indent@
        },
    }
}

proof fn lemma_crlf_longer(m: Canvas) -> (t: Seq<char>)
    ensures
        longer(fields_on(m), fields_on(m.crlf()), t),
{
    seen::lemma_crlf(m);
    lemma_fields_len(seen::prints(m));
    if seen::prints(m.crlf()) == seen::prints(m) {
        let t = Seq::<char>::empty();
        assert(fields_on(m).last() + t =~= fields_on(m).last());
        t
    } else {
        reveal_strlit("\r\n");
        let t = "\r\n"@;
        let one = Seq::<Seq<char>>::empty().push(t);
        assert(t.len() == 2);
        lemma_fields_pieces(seen::prints(m), one);
        assert(seen::prints(m).push(t) =~= seen::prints(m) + one);
        seen::flat(one)
    }
}

proof fn lemma_line_stop(m: Canvas, look: TableLook, cols: int) -> (t: Seq<char>)
    requires
        apart(look),
    ensures
        longer(fields_on(m), fields_on(table::line_end(m, look, cols)), t),
{
    match look.boxed {
        Some(b) => {
            let n = b.inner_w - cols;
            let gap = text::fill(' ', n as nat);
            let a = if n > 0 {
                m.print(gap)
            } else {
                m
            };
            let s = if n > 0 {
                lemma_fill_is_no_bar(n as nat);
                lemma_print_longer(m, gap);
                gap
            } else {
                lemma_fields_len(seen::prints(m));
                assert(fields_on(m).last() + Seq::<char>::empty() =~= fields_on(m).last());
                Seq::<char>::empty()
            };
            seen::lemma_push_fg(a, b.color);
            let p = a.push_fg(b.color);
            lemma_print_longer(p, b.right@);
            seen::lemma_pop_style(p.print(b.right@));
            let q = p.print(b.right@).pop_style();
            lemma_longer_twice(fields_on(m), fields_on(a), fields_on(q), s, b.right@);
            let t = lemma_crlf_longer(q);
            lemma_longer_twice(fields_on(m), fields_on(q), fields_on(q.crlf()), s + b.right@, t);
            s + b.right@ + t
        },
        None => lemma_crlf_longer(m),
    }
}

proof fn lemma_column_line(fa: Seq<Seq<char>>, fb: Seq<Seq<char>>, at: int, k: int, c: int)
    requires
        0 <= c < k,
        1 <= fa.len(),
        0 <= at <= fa.len(),
        fb.len() == fa.len() + k + 1,
        fb.take(fa.len() - 1) == fa.drop_last(),
    ensures
        column(fb, at, k, c) == column(fa, at, k, c) + seen::ink(fb[fa.len() + c]),
{
    let g = fb.take(fa.len() as int);
    assert(fb.len() - (k + 1) == fa.len());
    assert(g.drop_last() =~= fb.take(fa.len() - 1));
    lemma_column_last(fa, g, at, k, c);
}

/// What stands between two lines belongs to no column.
proof fn lemma_column_last(f: Seq<Seq<char>>, g: Seq<Seq<char>>, at: int, k: int, c: int)
    requires
        0 <= c < k,
        0 <= at,
        1 <= f.len() == g.len(),
        f.drop_last() == g.drop_last(),
    ensures
        column(f, at, k, c) == column(g, at, k, c),
{
    if f.len() >= k + 1 && f.len() >= at + k + 1 {
        let n = f.len() - (k + 1);
        assert(f.take(n) =~= f.drop_last().take(n));
        assert(g.take(n) =~= g.drop_last().take(n));
        assert(f[n + c] == f.drop_last()[n + c]);
        assert(g[n + c] == g.drop_last()[n + c]);
    }
}

/// What the first `v` lines show of column `c`.
spec fn shown_lines(cells: Seq<Seq<Seq<char>>>, c: int, v: int) -> Seq<char>
    decreases v,
{
    if v <= 0 {
        seq![]
    } else {
        shown_lines(cells, c, v - 1) + seen::ink(
            inline_md::stripped(table::cell_line(cells, c, v - 1)),
        )
    }
}

proof fn lemma_row_lines(
    m: Canvas,
    cells: Seq<Seq<Seq<char>>>,
    ws: Seq<int>,
    v: int,
    look: TableLook,
    at: int,
    c: int,
)
    requires
        0 <= v,
        apart(look),
        lines_apart(cells),
        0 <= c < ws.len(),
        0 <= at <= fields_on(m).len(),
    ensures
        ({
            let r = table::row_lines(m, cells, ws, v, look);
            let k = ws.len() as int;
            &&& fields_on(m).len() <= fields_on(r).len()
            &&& column(fields_on(r), at, k, c) == column(fields_on(m), at, k, c) + shown_lines(
                cells,
                c,
                v,
            )
        }),
    decreases v,
{
    let k = ws.len() as int;
    if v <= 0 {
        assert(column(fields_on(m), at, k, c) + shown_lines(cells, c, v) =~= column(
            fields_on(m),
            at,
            k,
            c,
        ));
    } else {
        lemma_row_lines(m, cells, ws, v - 1, look, at, c);
        let a = table::row_lines(m, cells, ws, v - 1, look);
        let t1 = lemma_line_start(a, look);
        let b = table::line_start(a, look);
        lemma_bar_fields(b, look);
        let d = table::border_off(table::border_on(b, look).print("\u{2503}"@), look);
        lemma_row_line(d, cells, ws, k, v - 1, look);
        let e = table::row_line(d, cells, ws, k, v - 1, look);
        let cols = table::row_line_cols(cells, ws, k, v - 1);
        let t2 = lemma_line_stop(e, look, cols);
        let g = table::line_end(e, look, cols);
        let fa = fields_on(a);
        let fb = fields_on(b);
        let fd = fields_on(d);
        let fe = fields_on(e);
        let fg = fields_on(g);
        assert(fd.drop_last() =~= fb);
        assert(fg.take(fa.len() - 1) =~= fa.drop_last()) by {
            assert(fg.take(fa.len() - 1) =~= fg.drop_last().take(fa.len() - 1));
            assert(fe.drop_last().take(fa.len() - 1) =~= fe.take(fd.len() - 1).take(fa.len() - 1));
            assert(fb.take(fa.len() - 1) =~= fb.drop_last());
        }
        assert(fg[fa.len() + c] == fe[fd.len() - 1 + c]) by {
            assert(fg[fa.len() + c] == fg.drop_last()[fa.len() + c]);
            assert(fe[fa.len() + c] == fe.drop_last()[fa.len() + c]);
        }
        lemma_column_line(fa, fg, at, k, c);
        assert(column(fg, at, k, c) =~= column(fields_on(m), at, k, c) + shown_lines(cells, c, v));
    }
}

// ── Rows ─────────────────────────────────────────────────────────────────

/// Cells hold no border.
pub open spec fn cells_apart(row: Seq<Seq<char>>) -> bool {
    forall|c: int| 0 <= c < row.len() ==> !(#[trigger] row[c]).contains(bar())
}

proof fn lemma_part_apart(s: Seq<char>, a: int, b: int)
    requires
        0 <= a <= b <= s.len(),
        !s.contains(bar()),
    ensures
        !s.subrange(a, b).contains(bar()),
{
    let p = s.subrange(a, b);
    if p.contains(bar()) {
        let i = choose|i: int| 0 <= i < p.len() && p[i] == bar();
        assert(s[a + i] == bar());
    }
}

proof fn lemma_done_apart(s: Seq<char>, n: int, max: int)
    requires
        0 <= n <= s.len(),
        !s.contains(bar()),
    ensures
        ({
            let c = inline_md::cell_lines(s, n, max);
            &&& 0 <= c.start <= n
            &&& c.last < n
            &&& c.last >= 0 ==> c.start <= c.last
            &&& forall|i: int| 0 <= i < c.done.len() ==> !(#[trigger] c.done[i]).contains(bar())
        }),
    decreases n,
{
    if n > 0 {
        lemma_done_apart(s, n - 1, max);
        let c = inline_md::cell_lines(s, n - 1, max);
        let last = if inline_md::breakable(s, n - 1) {
            n - 1
        } else {
            c.last
        };
        if inline_md::visible_columns(s.subrange(c.start, n)) > max && last >= 0 {
            lemma_part_apart(s, c.start, last);
        }
    }
}

proof fn lemma_wrapped_apart(s: Seq<char>, max: int)
    requires
        !s.contains(bar()),
    ensures
        forall|i: int|
            0 <= i < inline_md::cell_wrapped(s, max).len() ==> !(#[trigger] inline_md::cell_wrapped(
                s,
                max,
            )[i]).contains(bar()),
{
    let n = s.len() as int;
    lemma_done_apart(s, n, max);
    let c = inline_md::cell_lines(s, n, max);
    lemma_part_apart(s, c.start, n);
    assert(s.subrange(c.start, n) =~= s.skip(c.start));
}

proof fn lemma_row_height(cells: Seq<Seq<Seq<char>>>, n: int, c: int)
    requires
        0 <= c < n <= cells.len(),
    ensures
        cells[c].len() <= table::row_height(cells, n),
    decreases n,
{
    if c < n - 1 {
        lemma_row_height(cells, n - 1, c);
    }
}

proof fn lemma_row_height_positive(cells: Seq<Seq<Seq<char>>>, n: int)
    ensures
        0 <= table::row_height(cells, n),
    decreases n,
{
    if n > 0 {
        lemma_row_height_positive(cells, n - 1);
    }
}

proof fn lemma_shown_lines(cells: Seq<Seq<Seq<char>>>, c: int, v: int)
    requires
        0 <= v,
    ensures
        !(0 <= c < cells.len()) ==> shown_lines(cells, c, v) == Seq::<char>::empty(),
        0 <= c < cells.len() ==> shown_lines(cells, c, v) == inline_laws::lines_ink(
            cells[c],
            if v <= cells[c].len() {
                v
            } else {
                cells[c].len() as int
            },
        ),
    decreases v,
{
    let none = Seq::<char>::empty();
    assert(inline_md::stripped(none) == none);
    assert(seen::ink(none) == none);
    if v > 0 {
        lemma_shown_lines(cells, c, v - 1);
        if !(0 <= c < cells.len()) {
            assert(table::cell_line(cells, c, v - 1) =~= none);
            assert(shown_lines(cells, c, v) =~= none);
        } else if v > cells[c].len() {
            assert(table::cell_line(cells, c, v - 1) =~= none);
            assert(shown_lines(cells, c, v) =~= shown_lines(cells, c, v - 1));
        }
    }
}

/// What can be seen of cell `c` of a row, without the marks of its spans.
pub open spec fn cell_ink(row: Seq<Seq<char>>, c: int) -> Seq<char> {
    if 0 <= c < row.len() {
        seen::ink(inline_md::stripped(row[c]))
    } else {
        seq![]
    }
}

/// Every cell of a row is drawn whole: what can be seen between the borders
/// of column `c` on the successive lines of the row, joined in order, is what
/// can be seen of the cell.
pub proof fn law_row_shows_every_cell(
    m: Canvas,
    row: Seq<Seq<char>>,
    ws: Seq<int>,
    look: TableLook,
    at: int,
    c: int,
)
    requires
        apart(look),
        cells_apart(row),
        0 <= c < ws.len(),
        0 <= at <= fields_on(m).len(),
    ensures
        ({
            let r = table::row_drawn(m, row, ws, look);
            let k = ws.len() as int;
            &&& fields_on(m).len() <= fields_on(r).len()
            &&& column(fields_on(r), at, k, c) == column(fields_on(m), at, k, c) + cell_ink(row, c)
        }),
{
    let cells = table::row_cells(row, ws);
    assert forall|a: int, v: int|
        0 <= a < cells.len() && 0 <= v < cells[a].len() implies !(#[trigger] cells[a][v]).contains(
        bar(),
    ) by {
        assert(!row[a].contains(bar()));
        lemma_wrapped_apart(
            row[a],
            if a < ws.len() {
                ws[a]
            } else {
                0
            },
        );
    }
    let h = table::height_of(row, ws);
    lemma_row_height_positive(cells, row.len() as int);
    lemma_row_lines(m, cells, ws, h, look, at, c);
    lemma_shown_lines(cells, c, h);
    if c < row.len() {
        lemma_row_height(cells, row.len() as int, c);
        inline_laws::law_cell_lines_show_the_cell(row[c], ws[c]);
    }
}

// ── Tables ───────────────────────────────────────────────────────────────

/// What can be seen of column `c` in the first `n` rows.
pub open spec fn column_ink(rows: Seq<Seq<Seq<char>>>, n: int, c: int) -> Seq<char>
    decreases n,
{
    if n <= 0 {
        seq![]
    } else {
        column_ink(rows, n - 1, c) + cell_ink(rows[n - 1], c)
    }
}

proof fn lemma_strokes(m: Canvas, ws: Seq<int>, n: int, junction: Seq<char>) -> (t: Seq<char>)
    requires
        junction != seq![bar()],
    ensures
        longer(fields_on(m), fields_on(table::strokes(m, ws, n, junction)), t),
    decreases n,
{
    if n <= 0 {
        lemma_fields_len(seen::prints(m));
        let t = Seq::<char>::empty();
        assert(fields_on(m).last() + t =~= fields_on(m).last());
        t
    } else {
        let s = lemma_strokes(m, ws, n - 1, junction);
        let a = table::strokes(m, ws, n - 1, junction);
        let f = text::fill('\u{2501}', bars::capped(ws[n - 1] + 2) as nat);
        if f == seq![bar()] {
            assert(f.len() == seq![bar()].len());
            assert(f[0] == '\u{2501}');
            assert(seq![bar()][0] == bar());
        }
        lemma_print_longer(a, f);
        let b = a.print(f);
        lemma_longer_twice(fields_on(m), fields_on(a), fields_on(b), s, f);
        if n < ws.len() {
            lemma_print_longer(b, junction);
            lemma_longer_twice(fields_on(m), fields_on(b), fields_on(b.print(junction)), s + f, junction);
            s + f + junction
        } else {
            s + f
        }
    }
}

proof fn lemma_border_line(
    m: Canvas,
    ws: Seq<int>,
    look: TableLook,
    left: Seq<char>,
    junction: Seq<char>,
    right: Seq<char>,
) -> (t: Seq<char>)
    requires
        apart(look),
        left != seq![bar()],
        junction != seq![bar()],
        right != seq![bar()],
    ensures
        longer(fields_on(m), fields_on(table::border_line(m, ws, look, left, junction, right)), t),
{
    let s = lemma_line_start(m, look);
    let a = table::line_start(m, look);
    lemma_border_fields(a, look);
    let b = table::border_on(a, look);
    lemma_print_longer(b, left);
    let d = b.print(left);
    lemma_longer_twice(fields_on(m), fields_on(a), fields_on(d), s, left);
    let u = lemma_strokes(d, ws, ws.len() as int, junction);
    let e = table::strokes(d, ws, ws.len() as int, junction);
    lemma_longer_twice(fields_on(m), fields_on(d), fields_on(e), s + left, u);
    lemma_print_longer(e, right);
    let f = e.print(right);
    lemma_longer_twice(fields_on(m), fields_on(e), fields_on(f), s + left + u, right);
    lemma_border_fields(f, look);
    let g = table::border_off(f, look);
    let cols = table::border_cols(ws, ws.len() as int);
    let v = lemma_line_stop(g, look, cols);
    lemma_longer_twice(
        fields_on(m),
        fields_on(g),
        fields_on(table::line_end(g, look, cols)),
        s + left + u + right,
        v,
    );
    s + left + u + right + v
}

proof fn lemma_body(
    m: Canvas,
    rows: Seq<Seq<Seq<char>>>,
    ws: Seq<int>,
    n: int,
    look: TableLook,
    at: int,
    c: int,
)
    requires
        1 <= n <= rows.len(),
        apart(look),
        forall|i: int| 0 <= i < rows.len() ==> cells_apart(#[trigger] rows[i]),
        0 <= c < ws.len(),
        0 <= at <= fields_on(m).len(),
        column(fields_on(m), at, ws.len() as int, c) == column_ink(rows, 1, c),
    ensures
        ({
            let r = table::body_drawn(m, rows, ws, n, look);
            &&& fields_on(m).len() <= fields_on(r).len()
            &&& column(fields_on(r), at, ws.len() as int, c) == column_ink(rows, n, c)
        }),
    decreases n,
{
    if n > 1 {
        lemma_body(m, rows, ws, n - 1, look, at, c);
        let a = table::body_drawn(m, rows, ws, n - 1, look);
        assert(cells_apart(rows[n - 1]));
        law_row_shows_every_cell(a, rows[n - 1], ws, look, at, c);
    }
}

/// A table with borders shows every cell whole: read line by line, column
/// `c` holds what can be seen of the cells of that column, row by row, the
/// header first.
pub proof fn law_framed_table_shows_every_cell(
    m: Canvas,
    rows: Seq<Seq<Seq<char>>>,
    ws: Seq<int>,
    look: TableLook,
    c: int,
)
    requires
        rows.len() > 0,
        apart(look),
        forall|i: int| 0 <= i < rows.len() ==> cells_apart(#[trigger] rows[i]),
        0 <= c < ws.len(),
    ensures
        column(
            fields_on(table::framed_table(m, rows, ws, look)),
            fields_on(m).len() as int,
            ws.len() as int,
            c,
        ) == column_ink(rows, rows.len() as int, c),
{
    let k = ws.len() as int;
    let at = fields_on(m).len() as int;
    lemma_corners();
    let t1 = lemma_border_line(m, ws, look, "\u{250f}"@, "\u{2533}"@, "\u{2513}"@);
    let a = table::border_line(m, ws, look, "\u{250f}"@, "\u{2533}"@, "\u{2513}"@);
    assert(column(fields_on(a), at, k, c) == Seq::<char>::empty());
    assert(cells_apart(rows[0]));
    law_row_shows_every_cell(a, rows[0], ws, look, at, c);
    let b = table::row_drawn(a, rows[0], ws, look);
    assert(column_ink(rows, 0, c) == Seq::<char>::empty());
    let t2 = lemma_border_line(b, ws, look, "\u{2523}"@, "\u{254b}"@, "\u{252b}"@);
    let d = table::border_line(b, ws, look, "\u{2523}"@, "\u{254b}"@, "\u{252b}"@);
    lemma_column_last(fields_on(b), fields_on(d), at, k, c);
    lemma_body(d, rows, ws, rows.len() as int, look, at, c);
    let e = table::body_drawn(d, rows, ws, rows.len() as int, look);
    let t3 = lemma_border_line(e, ws, look, "\u{2517}"@, "\u{253b}"@, "\u{251b}"@);
    let g = table::border_line(e, ws, look, "\u{2517}"@, "\u{253b}"@, "\u{251b}"@);
    lemma_column_last(fields_on(e), fields_on(g), at, k, c);
}

proof fn lemma_corners()
    ensures
        "\u{250f}"@ != seq![bar()],
        "\u{2533}"@ != seq![bar()],
        "\u{2513}"@ != seq![bar()],
        "\u{2523}"@ != seq![bar()],
        "\u{254b}"@ != seq![bar()],
        "\u{252b}"@ != seq![bar()],
        "\u{2517}"@ != seq![bar()],
        "\u{253b}"@ != seq![bar()],
        "\u{251b}"@ != seq![bar()],
{
    reveal_strlit("\u{250f}");
    reveal_strlit("\u{2533}");
    reveal_strlit("\u{2513}");
    reveal_strlit("\u{2523}");
    reveal_strlit("\u{254b}");
    reveal_strlit("\u{252b}");
    reveal_strlit("\u{2517}");
    reveal_strlit("\u{253b}");
    reveal_strlit("\u{251b}");
    assert("\u{250f}"@[0] != bar());
    assert("\u{2533}"@[0] != bar());
    assert("\u{2513}"@[0] != bar());
    assert("\u{2523}"@[0] != bar());
    assert("\u{254b}"@[0] != bar());
    assert("\u{252b}"@[0] != bar());
    assert("\u{2517}"@[0] != bar());
    assert("\u{253b}"@[0] != bar());
    assert("\u{251b}"@[0] != bar());
}

// ── Stacked tables ───────────────────────────────────────────────────────

/// What the first `n` values of a row show, each behind its label.
pub open spec fn labelled_ink(
    row: Seq<Seq<char>>,
    header: Seq<Seq<char>>,
    n: int,
) -> Seq<char>
    decreases n,
{
    if n <= 0 {
        seq![]
    } else {
        labelled_ink(row, header, n - 1) + cell_ink(header, n - 1) + cell_ink(row, n - 1)
    }
}

/// What the rows behind the header show up to row `n`, each value behind the
/// label of its column.
pub open spec fn records_ink(rows: Seq<Seq<Seq<char>>>, n: int) -> Seq<char>
    decreases n,
{
    if n <= 1 {
        seq![]
    } else {
        records_ink(rows, n - 1) + labelled_ink(rows[n - 1], rows[0], rows[n - 1].len() as int)
    }
}

proof fn lemma_inline_seen(m: Canvas, s: Seq<char>, dim: bool, accent: Color)
    requires
        !s.contains(bar()),
    ensures
        seen::seen(styled::inline_printed(m, s, dim, accent)) == seen::seen(m) + seen::ink(
            inline_md::stripped(s),
        ),
{
    let ps = inline_laws::law_inline_text_is_printed(m, s, dim, accent, bar());
}

#[verifier::rlimit(30)]
proof fn lemma_value_lines(
    m: Canvas,
    lines: Seq<Seq<char>>,
    label: Seq<char>,
    label_w: int,
    n: int,
    look: TableLook,
)
    requires
        1 <= n <= lines.len(),
        look.boxed is None,
        !label.contains(bar()),
        forall|i: int| 0 <= i < lines.len() ==> !(#[trigger] lines[i]).contains(bar()),
    ensures
        seen::seen(table::value_lines(m, lines, label, label_w, n, look)) == seen::seen(m)
            + seen::ink(inline_md::stripped(label)) + inline_laws::lines_ink(lines, n),
    decreases n,
{
    broadcast use {seen::group_seen, seen::lemma_ink_fill};

    let none = Seq::<char>::empty();
    let before = table::value_lines(m, lines, label, label_w, n - 1, look);
    let indent = bars::capped(label_w + 4);
    let line = lines[n - 1];
    assert(!line.contains(bar()));
    reveal_strlit("  ");
    assert("  "@ =~= text::fill(' ', 2));
    let st = seen::ink(inline_md::stripped(line));
    if n == 1 {
        assert(before == m);
        assert(inline_laws::lines_ink(lines, 0) == none);
        let pad = label_w - inline_md::visible_columns(label);
        let a = m.print("  "@).queue(
            Command::SetForegroundColor(Color::DarkGrey),
        );
        let a = if look.dim {
            a.queue(
                Command::SetAttribute(Attribute::Dim),
            )
        } else {
            a
        };
        assert(seen::seen(a) =~= seen::seen(m));
        lemma_inline_seen(a, label, look.dim, look.accent);
        let b = styled::inline_printed(a, label, look.dim, look.accent);
        let d = if pad > 0 {
            b.print(text::fill(' ', pad as nat))
        } else {
            b
        };
        assert(seen::seen(d) =~= seen::seen(b));
        let e = table::border_off(d, look).print("  "@);
        assert(seen::seen(e) =~= seen::seen(b));
        lemma_inline_seen(e, line, look.dim, look.accent);
        assert(seen::seen(table::value_lines(m, lines, label, label_w, n, look)) =~= seen::seen(m)
            + seen::ink(inline_md::stripped(label)) + inline_laws::lines_ink(lines, n));
    } else {
        lemma_value_lines(m, lines, label, label_w, n - 1, look);
        let e = before.print(text::fill(' ', indent as nat));
        assert(seen::seen(e) =~= seen::seen(before));
        lemma_inline_seen(e, line, look.dim, look.accent);
        assert(seen::seen(table::value_lines(m, lines, label, label_w, n, look)) =~= seen::seen(m)
            + seen::ink(inline_md::stripped(label)) + inline_laws::lines_ink(lines, n));
    }
}

proof fn lemma_stacked_row(
    m: Canvas,
    row: Seq<Seq<char>>,
    header: Seq<Seq<char>>,
    label_w: int,
    value_w: int,
    n: int,
    look: TableLook,
)
    requires
        0 <= n <= row.len(),
        look.boxed is None,
        cells_apart(row),
        cells_apart(header),
    ensures
        seen::seen(table::stacked_row(m, row, header, label_w, value_w, n, look)) == seen::seen(m)
            + labelled_ink(row, header, n),
    decreases n,
{
    let none = Seq::<char>::empty();
    if n <= 0 {
        assert(seen::seen(m) + labelled_ink(row, header, n) =~= seen::seen(m));
    } else {
        lemma_stacked_row(m, row, header, label_w, value_w, n - 1, look);
        let a = table::stacked_row(m, row, header, label_w, value_w, n - 1, look);
        let lines = inline_md::cell_wrapped(row[n - 1], value_w);
        assert(!row[n - 1].contains(bar()));
        lemma_wrapped_apart(row[n - 1], value_w);
        inline_laws::law_cell_lines_show_the_cell(row[n - 1], value_w);
        let label = table::label_of(header, n - 1);
        assert(!label.contains(bar()));
        assert(lines.len() >= 1);
        lemma_value_lines(a, lines, label, label_w, lines.len() as int, look);
        assert(inline_md::stripped(none) == none);
        assert(seen::ink(none) == none);
        if n - 1 >= header.len() {
            assert(label =~= none);
        }
        assert(seen::ink(inline_md::stripped(label)) == cell_ink(header, n - 1));
        assert(seen::seen(table::stacked_row(m, row, header, label_w, value_w, n, look))
            =~= seen::seen(m) + labelled_ink(row, header, n));
    }
}

/// A table that is too narrow for borders shows every value whole, behind
/// the label of its column, row by row.
pub proof fn law_stacked_table_shows_every_cell(
    m: Canvas,
    rows: Seq<Seq<Seq<char>>>,
    label_w: int,
    value_w: int,
    n: int,
    look: TableLook,
)
    requires
        n <= rows.len(),
        look.boxed is None,
        forall|i: int| 0 <= i < rows.len() ==> cells_apart(#[trigger] rows[i]),
    ensures
        seen::seen(table::stacked_rows(m, rows, label_w, value_w, n, look)) == seen::seen(m)
            + records_ink(rows, n),
    decreases n,
{
    broadcast use seen::lemma_seen_crlf;

    if n <= 1 {
        assert(seen::seen(m) + records_ink(rows, n) =~= seen::seen(m));
    } else {
        law_stacked_table_shows_every_cell(m, rows, label_w, value_w, n - 1, look);
        let a = table::stacked_rows(m, rows, label_w, value_w, n - 1, look);
        let b = if n > 2 {
            table::line_end(table::stacked_start(a, look), look, 0)
        } else {
            a
        };
        assert(seen::seen(b) == seen::seen(a));
        assert(cells_apart(rows[n - 1]));
        assert(cells_apart(rows[0]));
        lemma_stacked_row(
            b,
            rows[n - 1],
            rows[0],
            label_w,
            value_w,
            rows[n - 1].len() as int,
            look,
        );
        assert(seen::seen(table::stacked_rows(m, rows, label_w, value_w, n, look)) =~= seen::seen(
            m,
        ) + records_ink(rows, n));
    }
}

/// A table is drawn with every cell, in one of its two forms, unless it has
/// no cells at all.
pub proof fn law_table_shows_every_cell(
    m: Canvas,
    rows: Seq<Seq<Seq<char>>>,
    term_width: int,
    look: TableLook,
    c: int,
)
    requires
        look.boxed is None,
        apart(look),
        forall|i: int| 0 <= i < rows.len() ==> cells_apart(#[trigger] rows[i]),
        0 <= c < table::columns_in(rows, rows.len() as int),
    ensures
        ({
            let r = table::table_drawn(m, rows, term_width, look).0;
            let k = table::columns_in(rows, rows.len() as int);
            if table::table_widths(rows, bars::at_least_zero(term_width - 2)) is Some {
                column(fields_on(r), fields_on(m).len() as int, k, c) == column_ink(
                    rows,
                    rows.len() as int,
                    c,
                )
            } else {
                seen::seen(r) == seen::seen(m) + records_ink(rows, rows.len() as int)
            }
        }),
{
    let n = rows.len() as int;
    match table::table_widths(rows, bars::at_least_zero(term_width - 2)) {
        Some(ws) => {
            lemma_widths_len(rows, bars::at_least_zero(term_width - 2));
            law_framed_table_shows_every_cell(m, rows, ws, look, c);
        },
        None => {
            let label_w = table::label_columns(rows[0], rows[0].len() as int);
            let value_w = bars::at_least_zero(term_width - bars::capped(label_w + 4));
            law_stacked_table_shows_every_cell(m, rows, label_w, value_w, n, look);
        },
    }
}

proof fn lemma_widths_len(rows: Seq<Seq<Seq<char>>>, max_table: int)
    ensures
        table::table_widths(rows, max_table) matches Some(ws) ==> ws.len() == table::columns_in(
            rows,
            rows.len() as int,
        ),
{
    lemma_columns(rows, rows.len() as int);
    let full = table::full_widths(rows);
    let least = table::least_widths(rows);
    let over = table::table_overhead(full.len() as int);
    let avail = bars::at_least_zero(max_table - over);
    lemma_shrunk_len(table::scaled(full, least, avail), least, avail);
}

proof fn lemma_shrunk_len(ws: Seq<int>, mins: Seq<int>, avail: int)
    ensures
        table::shrunk(ws, mins, avail).len() == ws.len(),
    decreases table::slack(ws, mins, ws.len() as int),
{
    let n = ws.len() as int;
    let used = bars::capped(table::width_total(ws, n));
    let k = table::shrinkable(ws, mins, n);
    if !(used <= avail || k <= 0) {
        let per = table::larger((used - avail) / k, 1);
        table::lemma_taken_down(ws, mins, per, n);
        lemma_shrunk_len(table::taken_down(ws, mins, per), mins, avail);
    }
}

proof fn lemma_columns(rows: Seq<Seq<Seq<char>>>, n: int)
    ensures
        0 <= table::columns_in(rows, n),
    decreases n,
{
    if n > 0 {
        lemma_columns(rows, n - 1);
    }
}

} // verus!
