//! What the rows of a difference keep: the width, the window and the count.

use vstd::prelude::*;

use crate::render::bars;
use crate::render::diff;
use crate::render::diff::{ChangeTag, DiffLayout, DiffState, DiffView, RowCount, Sign, Window};
use crate::render::highlight;
use crate::render::highlight::{History, Piece, RowsAt, Splitting};
use crate::render::out;
use crate::render::out::{Canvas, Color, Command};
use crate::render::table;
use crate::render::wrap;
use crate::text;

verus! {

// ── Pieces on rows ───────────────────────────────────────────────────────

proof fn lemma_placed_run(s: RowsAt, a: Seq<char>, b: Seq<char>, max: int)
    ensures
        highlight::chars_placed(s, a + b, max) == highlight::chars_placed(
            highlight::chars_placed(s, a, max),
            b,
            max,
        ),
    decreases b.len(),
{
    if b.len() == 0 {
        assert(a + b =~= a);
    } else {
        lemma_placed_run(s, a, b.drop_last(), max);
        assert((a + b).drop_last() =~= a + b.drop_last());
        assert((a + b).last() == b.last());
    }
}

proof fn lemma_placed_front(s: RowsAt, t: Seq<char>, max: int)
    requires
        t.len() > 0,
    ensures
        highlight::chars_placed(s, t, max) == highlight::chars_placed(
            highlight::char_placed(s, t[0], max),
            t.skip(1),
            max,
        ),
{
    let f = seq![t[0]];
    assert(t =~= f + t.skip(1));
    lemma_placed_run(s, f, t.skip(1), max);
    assert(f.drop_last() =~= seq![]);
    assert(highlight::chars_placed(s, f, max) == highlight::char_placed(s, t[0], max)) by {
        reveal_with_fuel(highlight::chars_placed, 2);
    }
}

proof fn lemma_column_front(t: Seq<char>, col: usize)
    requires
        t.len() > 0,
    ensures
        wrap::column_after(t, col) == wrap::column_after(
            t.skip(1),
            wrap::columns_plus(col, wrap::columns_at(t[0], col)),
        ),
{
    let f = seq![t[0]];
    assert(t =~= f + t.skip(1));
    wrap::lemma_column_run(f, t.skip(1), col);
    assert(f.drop_last() =~= seq![]);
    assert(wrap::column_after(f, col) == wrap::columns_plus(col, wrap::columns_at(t[0], col))) by {
        reveal_with_fuel(wrap::column_after, 2);
    }
}

/// What fits on a row goes on it.
proof fn lemma_fitting_placed(b: int, t: Seq<char>, col: usize, max: int)
    ensures
        ({
            let k = highlight::fitting(t, col, max);
            highlight::chars_placed(RowsAt { breaks: b, col }, t.take(k), max) == (RowsAt {
                breaks: b,
                col: wrap::column_after(t.take(k), col),
            })
        }),
    decreases t.len(),
{
    highlight::lemma_fitting(t, col, max);
    let k = highlight::fitting(t, col, max);
    if k == 0 {
        assert(t.take(k).len() == 0);
    } else {
        let next = wrap::columns_plus(col, wrap::columns_at(t[0], col));
        lemma_fitting_placed(b, t.skip(1), next, max);
        let u = t.take(k);
        assert(u.skip(1) =~= t.skip(1).take(k - 1));
        assert(u[0] == t[0]);
        lemma_placed_front(RowsAt { breaks: b, col }, u, max);
        lemma_column_front(u, col);
    }
}

proof fn lemma_text_placed(s: Splitting, color: Color, t: Seq<char>, max: int)
    requires
        max >= 1,
        s.col > 0 ==> s.open.len() > 0,
    ensures
        ({
            let p = highlight::place_text(s, color, t, max);
            let r = highlight::chars_placed(
                RowsAt { breaks: s.rows.len() as int, col: s.col },
                t,
                max,
            );
            &&& p.rows.len() == r.breaks
            &&& p.col == r.col
            &&& p.col > 0 ==> p.open.len() > 0
            &&& p.open.len() > 0 <==> (t.len() > 0 || s.open.len() > 0)
        }),
    decreases t.len(), s.col,
{
    let b = s.rows.len() as int;
    if t.len() > 0 {
        highlight::lemma_fitting(t, s.col, max);
        let k = highlight::fitting(t, s.col, max);
        if k <= 0 && s.col > 0 {
            let n = Splitting { rows: s.rows.push(s.open), open: seq![], col: 0 };
            lemma_text_placed(n, color, t, max);
            lemma_placed_front(RowsAt { breaks: b, col: s.col }, t, max);
            lemma_placed_front(RowsAt { breaks: b + 1, col: 0 }, t, max);
            highlight::lemma_fitting(
                t.skip(1),
                wrap::columns_plus(s.col, wrap::columns_at(t[0], s.col)),
                max,
            );
            assert(highlight::char_placed(RowsAt { breaks: b, col: s.col }, t[0], max)
                == highlight::char_placed(RowsAt { breaks: b + 1, col: 0 }, t[0], max));
            assert(highlight::place_text(s, color, t, max) == highlight::place_text(
                n,
                color,
                t,
                max,
            ));
        } else {
            let n = if k <= 0 {
                1
            } else {
                k
            };
            let m = Splitting {
                rows: s.rows,
                open: s.open.push(Piece { color, text: t.take(n) }),
                col: wrap::column_after(t.take(n), s.col),
            };
            lemma_text_placed(m, color, t.skip(n), max);
            assert(t =~= t.take(n) + t.skip(n));
            lemma_placed_run(RowsAt { breaks: b, col: s.col }, t.take(n), t.skip(n), max);
            if k <= 0 {
                let u = t.take(1);
                assert(u.skip(1) =~= seq![]);
                lemma_placed_front(RowsAt { breaks: b, col: 0 }, u, max);
                lemma_column_front(u, 0);
            } else {
                lemma_fitting_placed(b, t, s.col, max);
            }
            assert(highlight::chars_placed(RowsAt { breaks: b, col: s.col }, t.take(n), max)
                == (RowsAt { breaks: b, col: m.col }));
            assert(highlight::place_text(s, color, t, max) == highlight::place_text(
                m,
                color,
                t.skip(n),
                max,
            ));
        }
    }
}

/// The text of the first `n` pieces as it is shown.
pub open spec fn shown_text(ps: Seq<(u8, u8, u8, Seq<char>)>, n: int) -> Seq<char>
    decreases n,
{
    if n <= 0 {
        seq![]
    } else {
        shown_text(ps, n - 1) + highlight::without_line_end(ps[n - 1].3)
    }
}

proof fn lemma_pieces_placed(ps: Seq<(u8, u8, u8, Seq<char>)>, n: int, max: int)
    requires
        0 <= n <= ps.len(),
        max >= 1,
    ensures
        ({
            let p = highlight::place_pieces(ps, n, max);
            let r = highlight::chars_placed(
                RowsAt { breaks: 0, col: 0 },
                shown_text(ps, n),
                max,
            );
            &&& p.rows.len() == r.breaks
            &&& p.col == r.col
            &&& p.col > 0 ==> p.open.len() > 0
            &&& p.open.len() > 0 <==> shown_text(ps, n).len() > 0
        }),
    decreases n,
{
    if n > 0 {
        lemma_pieces_placed(ps, n - 1, max);
        let t = highlight::without_line_end(ps[n - 1].3);
        lemma_text_placed(
            highlight::place_pieces(ps, n - 1, max),
            highlight::piece_color(ps[n - 1]),
            t,
            max,
        );
        lemma_placed_run(RowsAt { breaks: 0, col: 0 }, shown_text(ps, n - 1), t, max);
    }
}

/// As many rows are shown of a line as its text fills.
pub proof fn law_pieces_fill_rows(ps: Seq<(u8, u8, u8, Seq<char>)>, max: int)
    requires
        highlight::split_rows(ps, max).len() <= usize::MAX,
    ensures
        highlight::split_rows(ps, max).len() == highlight::line_rows(
            shown_text(ps, ps.len() as int),
            max,
        ),
{
    let w = if max < 1 {
        1
    } else {
        max
    };
    lemma_pieces_placed(ps, ps.len() as int, w);
    assert(shown_text(ps, ps.len() as int).len() == 0 ==> highlight::chars_placed(
        RowsAt { breaks: 0, col: 0 },
        shown_text(ps, ps.len() as int),
        w,
    ).breaks == 0);
}

/// A row fits on `max` columns, or there is nothing to see on it before its
/// last character.
pub open spec fn row_fits(row: Seq<Piece<Seq<char>>>, max: int) -> bool {
    let n = row.len() as int;
    ||| highlight::pieces_column(row, n) <= max
    ||| n > 0 && row[n - 1].text.len() > 0 && highlight::pieces_column(row, n - 1) == 0
        && wrap::column_after(row[n - 1].text.drop_last(), 0) == 0
}

proof fn lemma_pieces_push(row: Seq<Piece<Seq<char>>>, p: Piece<Seq<char>>, n: int)
    requires
        0 <= n <= row.len(),
    ensures
        highlight::pieces_column(row.push(p), n) == highlight::pieces_column(row, n),
    decreases n,
{
    if n > 0 {
        lemma_pieces_push(row, p, n - 1);
    }
}

proof fn lemma_fitting_column(t: Seq<char>, col: usize, max: int)
    requires
        highlight::fitting(t, col, max) > 0,
    ensures
        wrap::column_after(t.take(highlight::fitting(t, col, max)), col) <= max,
    decreases t.len(),
{
    highlight::lemma_fitting(t, col, max);
    let k = highlight::fitting(t, col, max);
    let next = wrap::columns_plus(col, wrap::columns_at(t[0], col));
    let u = t.take(k);
    lemma_column_front(u, col);
    assert(u.skip(1) =~= t.skip(1).take(k - 1));
    if k > 1 {
        lemma_fitting_column(t.skip(1), next, max);
    } else {
        assert(u.skip(1).len() == 0);
    }
}

spec fn rows_fit(s: Splitting, max: int) -> bool {
    &&& s.col == highlight::pieces_column(s.open, s.open.len() as int)
    &&& row_fits(s.open, max)
    &&& forall|i: int| 0 <= i < s.rows.len() ==> row_fits(#[trigger] s.rows[i], max)
}

proof fn lemma_text_fits(s: Splitting, color: Color, t: Seq<char>, max: int)
    requires
        max >= 1,
        rows_fit(s, max),
    ensures
        rows_fit(highlight::place_text(s, color, t, max), max),
    decreases t.len(), s.col,
{
    if t.len() > 0 {
        highlight::lemma_fitting(t, s.col, max);
        let k = highlight::fitting(t, s.col, max);
        if k <= 0 && s.col > 0 {
            let n = Splitting { rows: s.rows.push(s.open), open: seq![], col: 0 };
            assert(rows_fit(n, max));
            lemma_text_fits(n, color, t, max);
        } else {
            let n = if k <= 0 {
                1
            } else {
                k
            };
            let p = Piece { color, text: t.take(n) };
            let m = Splitting {
                rows: s.rows,
                open: s.open.push(p),
                col: wrap::column_after(t.take(n), s.col),
            };
            lemma_pieces_push(s.open, p, s.open.len() as int);
            assert(m.open[m.open.len() - 1] == p);
            assert(highlight::pieces_column(m.open, m.open.len() as int) == m.col);
            if k > 0 {
                lemma_fitting_column(t, s.col, max);
            } else {
                assert(t.take(1).drop_last() =~= seq![]);
            }
            assert(row_fits(m.open, max));
            lemma_text_fits(m, color, t.skip(n), max);
        }
    }
}

proof fn lemma_pieces_fit(ps: Seq<(u8, u8, u8, Seq<char>)>, n: int, max: int)
    requires
        0 <= n <= ps.len(),
        max >= 1,
    ensures
        rows_fit(highlight::place_pieces(ps, n, max), max),
    decreases n,
{
    if n > 0 {
        lemma_pieces_fit(ps, n - 1, max);
        lemma_text_fits(
            highlight::place_pieces(ps, n - 1, max),
            highlight::piece_color(ps[n - 1]),
            highlight::without_line_end(ps[n - 1].3),
            max,
        );
    }
}

/// No row takes more columns than there are, but for one on which a single
/// character is wider than that.
pub proof fn law_rows_fit(ps: Seq<(u8, u8, u8, Seq<char>)>, max: int, i: int)
    requires
        max >= 1,
        0 <= i < highlight::split_rows(ps, max).len(),
    ensures
        row_fits(highlight::split_rows(ps, max)[i], max),
{
    lemma_pieces_fit(ps, ps.len() as int, max);
    let s = highlight::place_pieces(ps, ps.len() as int, max);
    if s.open.len() > 0 {
        if i < s.rows.len() {
            assert(highlight::split_rows(ps, max)[i] == s.rows[i]);
        }
    }
}

// ── The window ───────────────────────────────────────────────────────────

/// The row on which output goes on after `n` line ends.
pub open spec fn row_after(row: Option<u16>, n: u16) -> Option<u16> {
    match row {
        Some(r) => Some(out::rows_plus(r, n)),
        None => None,
    }
}

proof fn lemma_pieces_row(m: Canvas, row: Seq<Piece<Seq<char>>>, n: int, bg: Option<Color>)
    ensures
        highlight::pieces_printed(m, row, n, bg).row == m.row,
    decreases n,
{
    reveal(Canvas::queue);
    reveal(Canvas::print);
    if n > 0 {
        lemma_pieces_row(m, row, n - 1, bg);
    }
}

/// A row of a difference ends one line.
proof fn lemma_diff_row(
    m: Canvas,
    row: Seq<Piece<Seq<char>>>,
    vi: int,
    lineno: int,
    sign: Option<Sign>,
    lay: DiffLayout,
)
    ensures
        diff::diff_row(m, row, vi, lineno, sign, lay).row == row_after(m.row, 1),
{
    reveal(Canvas::queue);
    reveal(Canvas::print);
    reveal(Canvas::crlf);
    let m = m.print("   "@);
    let num = text::right_aligned(text::dec(lineno as nat), lay.gutter_width as int);
    let blank = text::fill(' ', bars::capped(lay.gutter_width + 4) as nat);
    match sign {
        Some(s) => {
            let m = m.queue(Command::SetBackgroundColor(s.bg));
            let m = if vi == 0 {
                m.queue(Command::SetForegroundColor(Color::DarkGrey)).print(
                    " "@ + num + " "@,
                ).queue(Command::SetForegroundColor(s.color)).print(seq![s.ch] + " "@)
            } else {
                m.print(blank)
            };
            lemma_pieces_row(m, row, row.len() as int, Some(s.bg));
        },
        None => {
            let m = if vi == 0 {
                m.queue(Command::SetForegroundColor(Color::DarkGrey)).print(" "@ + num).queue(
                    Command::ResetColor,
                ).print("   "@)
            } else {
                m.print(blank)
            };
            lemma_pieces_row(m, row, row.len() as int, None);
        },
    }
}

/// Output that began on row `from` has ended as many lines as rows were
/// printed, `limit` at most.
spec fn in_window(w: Window, from: Option<u16>, limit: u16) -> bool {
    w.emitted <= limit && w.canvas.row == row_after(from, w.emitted)
}

proof fn lemma_rows_in_window(
    w: Window,
    rows: Seq<Seq<Piece<Seq<char>>>>,
    n: int,
    lineno: int,
    sign: Option<Sign>,
    lay: DiffLayout,
    skip: u16,
    limit: u16,
    from: Option<u16>,
)
    requires
        in_window(w, from, limit),
    ensures
        in_window(diff::window_rows(w, rows, n, lineno, sign, lay, skip, limit), from, limit),
    decreases n,
{
    if n > 0 {
        lemma_rows_in_window(w, rows, n - 1, lineno, sign, lay, skip, limit, from);
        let v = diff::window_rows(w, rows, n - 1, lineno, sign, lay, skip, limit);
        lemma_diff_row(v.canvas, rows[n - 1], n - 1, lineno, sign, lay);
    }
}

proof fn lemma_lines_in_window(
    w: Window,
    h: History,
    ls: Seq<Seq<char>>,
    n: int,
    start: int,
    sign: Option<Sign>,
    lay: DiffLayout,
    skip: u16,
    limit: u16,
    from: Option<u16>,
)
    requires
        in_window(w, from, limit),
    ensures
        in_window(diff::window_lines(w, h, ls, n, start, sign, lay, skip, limit), from, limit),
    decreases n,
{
    if n > 0 {
        lemma_lines_in_window(w, h, ls, n - 1, start, sign, lay, skip, limit, from);
        let v = diff::window_lines(w, h, ls, n - 1, start, sign, lay, skip, limit);
        let rows = highlight::split_rows(
            highlight::line_pieces(highlight::after_lines(h, ls, n - 1), ls[n - 1]),
            lay.max_content as int,
        );
        lemma_rows_in_window(
            v,
            rows,
            rows.len() as int,
            bars::capped(start + n),
            sign,
            lay,
            skip,
            limit,
            from,
        );
    }
}

proof fn lemma_steps_in_window(
    d: DiffState,
    cs: Seq<(ChangeTag, Seq<char>)>,
    n: int,
    v: DiffView,
    lay: DiffLayout,
    skip: u16,
    limit: u16,
    from: Option<u16>,
)
    requires
        in_window(d.window, from, limit),
    ensures
        in_window(diff::diff_steps(d, cs, n, v, lay, skip, limit).window, from, limit),
    decreases n,
{
    if n > 0 {
        lemma_steps_in_window(d, cs, n - 1, v, lay, skip, limit, from);
        let e = diff::diff_steps(d, cs, n - 1, v, lay, skip, limit);
        let line = diff::change_text(cs[n - 1].1);
        let g = diff::gap_mark(e, lay, skip, limit);
        assert(in_window(g.window, from, limit)) by {
            reveal(Canvas::queue);
            reveal(Canvas::print);
            reveal(Canvas::crlf);
        }
        let old_rows = highlight::split_rows(
            highlight::line_pieces(g.h_old, line),
            lay.max_content as int,
        );
        let new_rows = highlight::split_rows(
            highlight::line_pieces(g.h_new, line),
            lay.max_content as int,
        );
        lemma_rows_in_window(
            g.window,
            old_rows,
            old_rows.len() as int,
            bars::capped(g.old_no + 1),
            Some(diff::delete_sign()),
            lay,
            skip,
            limit,
            from,
        );
        lemma_rows_in_window(
            g.window,
            new_rows,
            new_rows.len() as int,
            bars::capped(g.new_no + 1),
            Some(diff::insert_sign()),
            lay,
            skip,
            limit,
            from,
        );
        lemma_rows_in_window(
            g.window,
            new_rows,
            new_rows.len() as int,
            bars::capped(g.new_no + 1),
            None,
            lay,
            skip,
            limit,
            from,
        );
    }
}

/// A difference never takes more rows than it was granted, and ends a line for
/// each of them.
pub proof fn law_difference_stays_in_window(
    m: Canvas,
    file: Seq<char>,
    old_text: Seq<char>,
    new_text: Seq<char>,
    ext: Seq<char>,
    anchor: Seq<char>,
    skip: u16,
    max_rows: u16,
    term_width: usize,
)
    ensures
        ({
            let d = diff::inline_diff(
                m,
                file,
                old_text,
                new_text,
                ext,
                anchor,
                skip,
                max_rows,
                term_width,
            );
            d.1 <= diff::emit_limit(max_rows) && d.0.row == row_after(m.row, d.1)
        }),
{
    let v = diff::diff_view(file, old_text, new_text, anchor);
    let ls = highlight::untabbed_lines(text::lines_of(file));
    let count = ls.len() as int;
    let lay = diff::diff_layout(v.max_lineno, term_width);
    let limit = diff::emit_limit(max_rows);
    let h = highlight::after_lines(
        highlight::fresh(highlight::chosen_syntax(ext, None)),
        ls,
        table::smaller(v.view_start, count),
    );
    let to = table::smaller(table::smaller(v.start_line, v.first_mod), count);
    let from = table::smaller(v.view_start, to);
    let before = ls.subrange(from, to);
    let w0 = Window { canvas: m, seen: 0, emitted: 0 };
    lemma_lines_in_window(w0, h, before, to - from, from, None, lay, skip, limit, m.row);
    let w = diff::window_lines(w0, h, before, to - from, from, None, lay, skip, limit);
    let cs = diff::line_changes(old_text, new_text);
    let h1 = highlight::after_lines(h, before, to - from);
    let d0 = DiffState {
        window: w,
        old_no: v.start_line,
        new_no: v.start_line,
        pending: false,
        any: w.seen > 0,
        h_old: h1,
        h_new: h1,
    };
    lemma_steps_in_window(d0, cs, cs.len() as int, v, lay, skip, limit, m.row);
    let d = diff::diff_steps(d0, cs, cs.len() as int, v, lay, skip, limit);
    let after = bars::capped(v.start_line + text::lines_of(anchor).len());
    let end = table::smaller(v.view_end, count);
    lemma_lines_in_window(
        d.window,
        d.h_new,
        ls.subrange(after, end),
        end - after,
        after,
        None,
        lay,
        skip,
        limit,
        m.row,
    );
}

/// The window on a file never takes more rows than it was granted, and ends a
/// line for each of them.
pub proof fn law_file_stays_in_window(
    m: Canvas,
    ls: Seq<Seq<char>>,
    ext: Seq<char>,
    skip: u16,
    max_rows: u16,
    term_width: usize,
)
    ensures
        ({
            let w = diff::file_window(m, ls, ext, skip, max_rows, term_width);
            w.emitted <= diff::emit_limit(max_rows) && w.canvas.row == row_after(m.row, w.emitted)
        }),
{
    lemma_lines_in_window(
        Window { canvas: m, seen: 0, emitted: 0 },
        highlight::fresh(highlight::chosen_syntax(ext, None)),
        ls,
        ls.len() as int,
        0,
        None,
        diff::file_layout(ls.len() as int, term_width),
        skip,
        diff::emit_limit(max_rows),
        m.row,
    );
}

// ── Counting ─────────────────────────────────────────────────────────────

/// The first `n` pieces, run together.
pub open spec fn joined(ps: Seq<(u8, u8, u8, Seq<char>)>, n: int) -> Seq<char>
    decreases n,
{
    if n <= 0 {
        seq![]
    } else {
        joined(ps, n - 1) + ps[n - 1].3
    }
}

/// No line ends in the middle of the line.
pub open spec fn one_line(line: Seq<char>) -> bool {
    !line.contains('\n') && !line.contains('\r')
}

/// Highlighting knows a syntax, and loses no text.
pub open spec fn highlighting_works(ext: Seq<char>) -> bool {
    &&& highlight::chosen_syntax(ext, None) is Some
    &&& forall|before: Seq<Seq<char>>, line: Seq<char>|
        {
            let ps = #[trigger] highlight::coloured(before, line);
            joined(ps, ps.len() as int) == line
        }
}

proof fn lemma_no_line_end(t: Seq<char>)
    requires
        one_line(t),
    ensures
        highlight::without_line_end(t) == t,
{
    if t.len() > 0 {
        assert(t.contains(t.last()));
    }
}

proof fn lemma_line_end(t: Seq<char>)
    requires
        one_line(t),
    ensures
        highlight::without_line_end(t.push('\n')) == t,
{
    let p = |x: char| x == '\n';
    let u = t.push('\n');
    assert(u.drop_last() =~= t);
    if t.len() > 0 {
        assert(t.contains(t.last()));
    }
    assert(text::drop_back(t, p) == t);
    assert(text::drop_back(u, p) == text::drop_back(u.drop_last(), p));
    assert(text::drop_back(u, p) == t);
}

pub proof fn lemma_shown(ps: Seq<(u8, u8, u8, Seq<char>)>, n: int, line: Seq<char>)
    requires
        0 <= n <= ps.len(),
        one_line(line),
        joined(ps, n).len() <= line.len() + 1,
        joined(ps, n) == line.push('\n').take(joined(ps, n).len() as int),
    ensures
        shown_text(ps, n) == (if joined(ps, n).len() <= line.len() {
            joined(ps, n)
        } else {
            line
        }),
    decreases n,
{
    if n > 0 {
        let whole = line.push('\n');
        let a = joined(ps, n - 1);
        let p = ps[n - 1].3;
        let all = joined(ps, n);
        assert(a =~= whole.take(a.len() as int)) by {
            assert forall|i: int| 0 <= i < a.len() implies a[i] == whole[i] by {
                assert(all[i] == a[i]);
            }
        }
        lemma_shown(ps, n - 1, line);
        if all.len() <= line.len() {
            assert(one_line(p)) by {
                assert forall|i: int| 0 <= i < p.len() implies p[i] != '\n' && p[i] != '\r' by {
                    assert(all[a.len() + i] == p[i]);
                    assert(whole[a.len() + i] == line[a.len() + i]);
                    assert(line.contains(line[a.len() + i]));
                }
            }
            lemma_no_line_end(p);
        } else if a.len() <= line.len() {
            let rest = line.skip(a.len() as int);
            assert(p =~= rest.push('\n')) by {
                assert forall|i: int| 0 <= i < p.len() implies p[i] == rest.push('\n')[i] by {
                    assert(all[a.len() + i] == p[i]);
                }
            }
            assert(one_line(rest)) by {
                assert forall|i: int| 0 <= i < rest.len() implies rest[i] != '\n' && rest[i]
                    != '\r' by {
                    assert(line.contains(line[a.len() + i]));
                }
            }
            lemma_line_end(rest);
            assert(shown_text(ps, n) =~= line);
        } else {
            assert(p.len() == 0);
            assert(one_line(p));
            lemma_no_line_end(p);
            assert(shown_text(ps, n) =~= line);
        }
    }
}

proof fn lemma_line_count(h: History, line: Seq<char>, max: int, ext: Seq<char>)
    requires
        highlighting_works(ext),
        h is Some,
        one_line(line),
        highlight::line_rows(line, max) < usize::MAX,
    ensures
        highlight::split_rows(highlight::line_pieces(h, line), max).len()
            == highlight::line_rows(line, max),
{
    let ps = highlight::line_pieces(h, line);
    let n = ps.len() as int;
    let whole = line.push('\n');
    reveal_strlit("\n");
    assert(highlight::with_nl(line) =~= whole);
    assert(joined(ps, n) == whole);
    assert(whole.take(whole.len() as int) =~= whole);
    lemma_shown(ps, n, line);
    let w = if max < 1 {
        1
    } else {
        max
    };
    lemma_pieces_placed(ps, n, w);
}

/// As many rows were printed as were seen.
spec fn all_shown(w: Window, rows: int) -> bool {
    w.seen == rows && w.emitted == rows
}

proof fn lemma_rows_shown(
    w: Window,
    rows: Seq<Seq<Piece<Seq<char>>>>,
    n: int,
    lineno: int,
    sign: Option<Sign>,
    lay: DiffLayout,
    k: int,
)
    requires
        0 <= n,
        0 <= k,
        all_shown(w, k),
        k + n < u16::MAX,
    ensures
        all_shown(diff::window_rows(w, rows, n, lineno, sign, lay, 0, u16::MAX), k + n),
    decreases n,
{
    if n > 0 {
        lemma_rows_shown(w, rows, n - 1, lineno, sign, lay, k);
    }
}

pub proof fn lemma_after_is_some(h: History, ls: Seq<Seq<char>>, n: int)
    requires
        h is Some,
    ensures
        highlight::after_lines(h, ls, n) is Some,
    decreases n,
{
    if n > 0 {
        lemma_after_is_some(h, ls, n - 1);
    }
}

proof fn lemma_lines_shown(
    w: Window,
    h: History,
    ls: Seq<Seq<char>>,
    n: int,
    start: int,
    lay: DiffLayout,
    k: int,
    ext: Seq<char>,
)
    requires
        0 <= n <= ls.len(),
        0 <= k,
        all_shown(w, k),
        h is Some,
        highlighting_works(ext),
        forall|i: int| 0 <= i < n ==> one_line(#[trigger] ls[i]),
        diff::rows_for_lines(ls, n, lay.max_content as int, k) < u16::MAX,
    ensures
        all_shown(
            diff::window_lines(w, h, ls, n, start, None, lay, 0, u16::MAX),
            diff::rows_for_lines(ls, n, lay.max_content as int, k),
        ),
        k <= diff::rows_for_lines(ls, n, lay.max_content as int, k),
    decreases n,
{
    if n > 0 {
        let max = lay.max_content as int;
        let here = highlight::line_rows(ls[n - 1], max);
        lemma_line_rows(ls[n - 1], max);
        lemma_lines_shown(w, h, ls, n - 1, start, lay, k, ext);
        let v = diff::window_lines(w, h, ls, n - 1, start, None, lay, 0, u16::MAX);
        let hn = highlight::after_lines(h, ls, n - 1);
        lemma_after_is_some(h, ls, n - 1);
        lemma_line_count(hn, ls[n - 1], max, ext);
        let rows = highlight::split_rows(highlight::line_pieces(hn, ls[n - 1]), max);
        lemma_rows_shown(
            v,
            rows,
            rows.len() as int,
            bars::capped(start + n),
            None,
            lay,
            diff::rows_for_lines(ls, n - 1, max, k),
        );
    }
}

proof fn lemma_line_rows(t: Seq<char>, max: int)
    ensures
        highlight::line_rows(t, max) >= 1,
{
    let w = if max < 1 {
        1
    } else {
        max
    };
    lemma_breaks(t, w);
}

proof fn lemma_breaks(t: Seq<char>, max: int)
    ensures
        highlight::chars_placed(RowsAt { breaks: 0, col: 0 }, t, max).breaks >= 0,
    decreases t.len(),
{
    if t.len() > 0 {
        lemma_breaks(t.drop_last(), max);
    }
}

/// Printing and counting stand at the same place.
spec fn in_step(d: DiffState, c: RowCount) -> bool {
    &&& all_shown(d.window, c.rows)
    &&& d.new_no == c.new_no
    &&& d.pending == c.pending
    &&& d.any == c.any
    &&& d.h_old is Some
    &&& d.h_new is Some
}

proof fn lemma_step_shown(
    d: DiffState,
    c: RowCount,
    tag: ChangeTag,
    line: Seq<char>,
    visible: bool,
    v: DiffView,
    lay: DiffLayout,
    ext: Seq<char>,
)
    requires
        in_step(d, c),
        0 <= c.rows,
        highlighting_works(ext),
        one_line(line),
        diff::count_step(c, tag, line, visible, v, lay.max_content as int).rows < u16::MAX,
    ensures
        in_step(
            diff::diff_step(d, tag, line, visible, v, lay, 0, u16::MAX),
            diff::count_step(c, tag, line, visible, v, lay.max_content as int),
        ),
{
    let max = lay.max_content as int;
    let here = highlight::line_rows(line, max);
    lemma_line_rows(line, max);
    let g = diff::gap_mark(d, lay, 0, u16::MAX);
    let marked = bars::capped(c.rows + (if c.pending { 1int } else { 0 }));
    let shown = tag is Equal ==> visible && v.view_start <= c.new_no < v.view_end;
    if !(tag is Equal) || visible {
        assert(marked < u16::MAX);
        assert(all_shown(g.window, marked));
    }
    if shown {
        assert(marked + here < u16::MAX);
        let h = if tag is Delete {
            g.h_old
        } else {
            g.h_new
        };
        let no = if tag is Delete {
            bars::capped(g.old_no + 1)
        } else {
            bars::capped(g.new_no + 1)
        };
        let sign = match tag {
            ChangeTag::Equal => None,
            ChangeTag::Delete => Some(diff::delete_sign()),
            ChangeTag::Insert => Some(diff::insert_sign()),
        };
        lemma_line_count(h, line, max, ext);
        let rows = highlight::split_rows(highlight::line_pieces(h, line), max);
        lemma_rows_shown(g.window, rows, rows.len() as int, no, sign, lay, marked);
    }
}

proof fn lemma_count_grows(
    c: RowCount,
    cs: Seq<(ChangeTag, Seq<char>)>,
    n: int,
    v: DiffView,
    max: int,
)
    requires
        0 <= n,
        0 <= c.rows <= usize::MAX,
    ensures
        c.rows <= diff::count_steps(c, cs, n, v, max).rows <= usize::MAX,
        n > 0 ==> diff::count_steps(c, cs, n - 1, v, max).rows <= diff::count_steps(
            c,
            cs,
            n,
            v,
            max,
        ).rows,
    decreases n,
{
    if n > 0 {
        lemma_count_grows(c, cs, n - 1, v, max);
        lemma_line_rows(diff::change_text(cs[n - 1].1), max);
    }
}

proof fn lemma_steps_shown(
    d: DiffState,
    c: RowCount,
    cs: Seq<(ChangeTag, Seq<char>)>,
    n: int,
    v: DiffView,
    lay: DiffLayout,
    ext: Seq<char>,
)
    requires
        0 <= n <= cs.len(),
        in_step(d, c),
        0 <= c.rows,
        highlighting_works(ext),
        forall|i: int| 0 <= i < n ==> one_line(diff::change_text((#[trigger] cs[i]).1)),
        diff::count_steps(c, cs, n, v, lay.max_content as int).rows < u16::MAX,
    ensures
        in_step(
            diff::diff_steps(d, cs, n, v, lay, 0, u16::MAX),
            diff::count_steps(c, cs, n, v, lay.max_content as int),
        ),
    decreases n,
{
    if n > 0 {
        let max = lay.max_content as int;
        lemma_count_grows(c, cs, n, v, max);
        lemma_count_grows(c, cs, n - 1, v, max);
        lemma_steps_shown(d, c, cs, n - 1, v, lay, ext);
        lemma_step_shown(
            diff::diff_steps(d, cs, n - 1, v, lay, 0, u16::MAX),
            diff::count_steps(c, cs, n - 1, v, max),
            cs[n - 1].0,
            diff::change_text(cs[n - 1].1),
            diff::near_change(cs, n - 1, diff::CONTEXT as int),
            v,
            lay,
            ext,
        );
    }
}

proof fn lemma_rows_grow(ls: Seq<Seq<char>>, n: int, max: int, start: int)
    requires
        0 <= start <= usize::MAX,
    ensures
        start <= diff::rows_for_lines(ls, n, max, start) <= usize::MAX,
    decreases n,
{
    if n > 0 {
        lemma_rows_grow(ls, n - 1, max, start);
        lemma_line_rows(ls[n - 1], max);
    }
}

pub proof fn lemma_scan(cs: Seq<(ChangeTag, Seq<char>)>, n: int, start: int)
    requires
        start >= 0,
    ensures
        diff::mod_scan(cs, n, start).new_line >= 0,
        diff::value_or(diff::mod_scan(cs, n, start).first, start) >= 0,
    decreases n,
{
    if n > 0 {
        lemma_scan(cs, n - 1, start);
    }
}

/// The rows of the context before a difference, with the changes, and with
/// the context behind it.
pub open spec fn counted_rows(
    file: Seq<char>,
    old_text: Seq<char>,
    new_text: Seq<char>,
    anchor: Seq<char>,
    term_width: usize,
) -> int {
    let v = diff::diff_view(file, old_text, new_text, anchor);
    let ls = highlight::untabbed_lines(text::lines_of(file));
    let count = ls.len() as int;
    let max = diff::diff_layout(v.max_lineno, term_width).max_content as int;
    let to = table::smaller(table::smaller(v.start_line, v.first_mod), count);
    let from = table::smaller(v.view_start, to);
    let before = diff::rows_for_lines(ls.subrange(from, to), to - from, max, 0);
    let cs = diff::line_changes(old_text, new_text);
    let c = diff::count_steps(
        RowCount { rows: before, new_no: v.start_line, pending: false, any: before > 0 },
        cs,
        cs.len() as int,
        v,
        max,
    );
    let after = bars::capped(v.start_line + text::lines_of(anchor).len());
    let end = table::smaller(v.view_end, count);
    if after < end {
        diff::rows_for_lines(ls.subrange(after, end), end - after, max, c.rows)
    } else {
        c.rows
    }
}

/// As many rows are counted of a difference as are printed of it, when
/// nothing limits them and highlighting loses no text.
pub proof fn law_count_is_what_is_printed(
    m: Canvas,
    file: Seq<char>,
    old_text: Seq<char>,
    new_text: Seq<char>,
    ext: Seq<char>,
    anchor: Seq<char>,
    term_width: usize,
)
    requires
        highlighting_works(ext),
        forall|i: int|
            0 <= i < text::lines_of(file).len() ==> one_line(
                #[trigger] highlight::untabbed_lines(text::lines_of(file))[i],
            ),
        forall|i: int|
            0 <= i < diff::line_changes(old_text, new_text).len() ==> one_line(
                diff::change_text((#[trigger] diff::line_changes(old_text, new_text)[i]).1),
            ),
        counted_rows(file, old_text, new_text, anchor, term_width) < u16::MAX,
    ensures
        diff::inline_diff(m, file, old_text, new_text, ext, anchor, 0, 0, term_width).1
            == diff::diff_row_count(file, old_text, new_text, anchor, term_width),
{
    let v = diff::diff_view(file, old_text, new_text, anchor);
    lemma_scan(
        diff::line_changes(old_text, new_text),
        diff::line_changes(old_text, new_text).len() as int,
        v.start_line,
    );
    let ls = highlight::untabbed_lines(text::lines_of(file));
    let count = ls.len() as int;
    let lay = diff::diff_layout(v.max_lineno, term_width);
    let max = lay.max_content as int;
    let h = highlight::after_lines(
        highlight::fresh(highlight::chosen_syntax(ext, None)),
        ls,
        table::smaller(v.view_start, count),
    );
    lemma_after_is_some(
        highlight::fresh(highlight::chosen_syntax(ext, None)),
        ls,
        table::smaller(v.view_start, count),
    );
    let to = table::smaller(table::smaller(v.start_line, v.first_mod), count);
    let from = table::smaller(v.view_start, to);
    let part = ls.subrange(from, to);
    let before = diff::rows_for_lines(part, to - from, max, 0);
    lemma_rows_grow(part, to - from, max, 0);
    let cs = diff::line_changes(old_text, new_text);
    let c0 = RowCount { rows: before, new_no: v.start_line, pending: false, any: before > 0 };
    let c = diff::count_steps(c0, cs, cs.len() as int, v, max);
    lemma_count_grows(c0, cs, cs.len() as int, v, max);
    let after = bars::capped(v.start_line + text::lines_of(anchor).len());
    let end = table::smaller(v.view_end, count);
    let tail = ls.subrange(after, end);
    if after < end {
        lemma_rows_grow(tail, end - after, max, c.rows);
    }
    let w0 = Window { canvas: m, seen: 0, emitted: 0 };
    assert forall|i: int| 0 <= i < to - from implies one_line(#[trigger] part[i]) by {
        assert(part[i] == ls[from + i]);
    }
    lemma_lines_shown(w0, h, part, to - from, from, lay, 0, ext);
    let w = diff::window_lines(w0, h, part, to - from, from, None, lay, 0, u16::MAX);
    let h1 = highlight::after_lines(h, part, to - from);
    lemma_after_is_some(h, part, to - from);
    let d0 = DiffState {
        window: w,
        old_no: v.start_line,
        new_no: v.start_line,
        pending: false,
        any: w.seen > 0,
        h_old: h1,
        h_new: h1,
    };
    lemma_steps_shown(d0, c0, cs, cs.len() as int, v, lay, ext);
    let d = diff::diff_steps(d0, cs, cs.len() as int, v, lay, 0, u16::MAX);
    if after < end {
        assert forall|i: int| 0 <= i < end - after implies one_line(#[trigger] tail[i]) by {
            assert(tail[i] == ls[after + i]);
        }
        lemma_lines_shown(d.window, d.h_new, tail, end - after, after, lay, c.rows, ext);
    }
}

} // verus!
