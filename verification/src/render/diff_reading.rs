//! What a reader sees of a difference: numbered lines, the signs of those
//! that change, and their text.

use vstd::prelude::*;

use crate::render::bars;
use crate::render::diff;
use crate::render::diff::{ChangeTag, DiffLayout, DiffState, DiffView, Sign, Window};
use crate::render::diff_laws;
use crate::render::highlight;
use crate::render::highlight::{History, Piece, Splitting};
use crate::render::out;
use crate::render::out::{Canvas, Color, Command};
use crate::render::seen;
use crate::render::table;
use crate::render::wrap;
use crate::text;

verus! {

// ── Reading ──────────────────────────────────────────────────────────────

/// A numbered line as it is read: the number, the background behind it, the
/// sign with its colour, and the text.
pub struct Entry {
    pub number: Seq<char>,
    pub back: Option<Color>,
    pub sign: Option<(Color, Seq<char>)>,
    pub text: Seq<char>,
}

/// The numbered lines that commands print.  What is printed directly behind
/// the choice of a colour is a number when that colour is dark grey, text
/// when it is given by its parts, and a sign otherwise.
pub open spec fn entries(cmds: Seq<Command<Seq<char>>>) -> Seq<Entry>
    decreases cmds.len(),
{
    let n = cmds.len() as int;
    if n < 2 {
        seq![]
    } else {
        let e = entries(cmds.drop_last());
        match (cmds[n - 2], cmds[n - 1]) {
            (Command::SetForegroundColor(c), Command::Print(t)) => match c {
                Color::DarkGrey => e.push(
                    Entry { number: seen::ink(t), back: back_at(cmds, n - 3), sign: None, text: seq![] },
                ),
                Color::Rgb { .. } => if e.len() > 0 {
                    e.drop_last().push(Entry { text: e.last().text + t, ..e.last() })
                } else {
                    e
                },
                _ => if e.len() > 0 {
                    e.drop_last().push(Entry { sign: Some((c, t)), ..e.last() })
                } else {
                    e
                },
            },
            _ => e,
        }
    }
}

/// The background that the command at `i` selects, if it does.
pub open spec fn back_at(cmds: Seq<Command<Seq<char>>>, i: int) -> Option<Color> {
    if 0 <= i < cmds.len() {
        match cmds[i] {
            Command::SetBackgroundColor(c) => Some(c),
            _ => None,
        }
    } else {
        None
    }
}

/// The lines that carry a sign.
pub open spec fn signed(es: Seq<Entry>) -> Seq<Entry>
    decreases es.len(),
{
    if es.len() == 0 {
        seq![]
    } else if es.last().sign is Some {
        signed(es.drop_last()).push(es.last())
    } else {
        signed(es.drop_last())
    }
}

/// No colour was chosen last.
pub open spec fn calm(m: Canvas) -> bool {
    m.cmds.len() > 0 ==> !(m.cmds.last() is SetForegroundColor)
}

proof fn lemma_signed_push(es: Seq<Entry>, e: Entry)
    ensures
        signed(es.push(e)) == if e.sign is Some {
            signed(es).push(e)
        } else {
            signed(es)
        },
{
    assert(es.push(e).drop_last() =~= es);
}

proof fn lemma_entries_push(a: Seq<Command<Seq<char>>>, c: Command<Seq<char>>)
    ensures
        !(c is Print) ==> entries(a.push(c)) == entries(a),
        a.len() == 0 || !(a.last() is SetForegroundColor) ==> entries(a.push(c)) == entries(a),
{
    assert(a.push(c).drop_last() =~= a);
}

/// One more command that says nothing of a line.
proof fn lemma_quiet(m: Canvas, c: Command<Seq<char>>)
    requires
        !(c is Print) || calm(m),
    ensures
        entries(m.queue(c).cmds) == entries(m.cmds),
        m.queue(c).cmds == m.cmds.push(c),
        m.queue(c).row == m.row,
{
    reveal(Canvas::queue);
    lemma_entries_push(m.cmds, c);
}

proof fn lemma_quiet_print(m: Canvas, t: Seq<char>)
    requires
        calm(m),
    ensures
        entries(m.print(t).cmds) == entries(m.cmds),
        m.print(t).cmds == m.cmds.push(Command::Print(t)),
        calm(m.print(t)),
{
    reveal(Canvas::print);
    lemma_entries_push(m.cmds, Command::Print(t));
}

proof fn lemma_line_end(m: Canvas)
    requires
        calm(m),
    ensures
        entries(m.crlf().cmds) == entries(m.cmds),
        calm(m.crlf()),
{
    reveal(Canvas::crlf);
    let c = Command::Clear(out::ClearType::UntilNewLine);
    let a = m.cmds.push(c);
    lemma_entries_push(m.cmds, c);
    match m.row {
        Some(r) => lemma_entries_push(a, Command::MoveTo(0, out::rows_plus(r, 1))),
        None => lemma_entries_push(a, Command::Print("\r\n"@)),
    }
}

/// Text in a colour that is given by its parts.
proof fn lemma_text_print(m: Canvas, c: Color, t: Seq<char>)
    requires
        c is Rgb,
        entries(m.cmds).len() > 0,
    ensures
        ({
            let e = entries(m.cmds);
            let r = m.queue(Command::SetForegroundColor(c)).print(t);
            &&& entries(r.cmds) == e.drop_last().push(
                Entry { text: e.last().text + t, ..e.last() },
            )
            &&& calm(r)
        }),
{
    reveal(Canvas::queue);
    reveal(Canvas::print);
    let a = m.cmds.push(Command::SetForegroundColor(c));
    lemma_entries_push(m.cmds, Command::SetForegroundColor(c));
    let b = a.push(Command::Print(t));
    assert(b.drop_last() =~= a);
    assert(b[b.len() - 2] == Command::<Seq<char>>::SetForegroundColor(c));
}

// ── Rows ─────────────────────────────────────────────────────────────────

/// The text of the first `n` pieces of a row.
pub open spec fn row_text(row: Seq<Piece<Seq<char>>>, n: int) -> Seq<char>
    decreases n,
{
    if n <= 0 {
        seq![]
    } else {
        row_text(row, n - 1) + row[n - 1].text
    }
}

/// The text of the first `n` rows.
pub open spec fn rows_text(rows: Seq<Seq<Piece<Seq<char>>>>, n: int) -> Seq<char>
    decreases n,
{
    if n <= 0 {
        seq![]
    } else {
        rows_text(rows, n - 1) + row_text(rows[n - 1], rows[n - 1].len() as int)
    }
}

pub open spec fn in_parts(row: Seq<Piece<Seq<char>>>) -> bool {
    forall|i: int| 0 <= i < row.len() ==> (#[trigger] row[i]).color is Rgb
}

pub open spec fn all_in_parts(rows: Seq<Seq<Piece<Seq<char>>>>) -> bool {
    forall|i: int| 0 <= i < rows.len() ==> in_parts(#[trigger] rows[i])
}

/// The last line with more text.
pub open spec fn grown(es: Seq<Entry>, t: Seq<char>) -> Seq<Entry> {
    es.drop_last().push(Entry { text: es.last().text + t, ..es.last() })
}

proof fn lemma_pieces_read(m: Canvas, row: Seq<Piece<Seq<char>>>, n: int, bg: Option<Color>)
    requires
        0 <= n <= row.len(),
        in_parts(row),
        calm(m),
        entries(m.cmds).len() > 0,
    ensures
        ({
            let r = highlight::pieces_printed(m, row, n, bg);
            &&& calm(r)
            &&& entries(r.cmds) == grown(entries(m.cmds), row_text(row, n))
        }),
    decreases n,
{
    let e = entries(m.cmds);
    if n <= 0 {
        assert(e.last().text + row_text(row, n) =~= e.last().text);
        assert(grown(e, row_text(row, n)) =~= e);
    } else {
        lemma_pieces_read(m, row, n - 1, bg);
        let a = highlight::pieces_printed(m, row, n - 1, bg);
        let p = row[n - 1];
        let before = row_text(row, n - 1);
        if p.text.len() == 0 {
            assert(before + p.text =~= before);
        } else {
            let b = match bg {
                Some(b) => a.queue(Command::SetBackgroundColor(b)),
                None => a,
            };
            match bg {
                Some(x) => lemma_quiet(a, Command::SetBackgroundColor(x)),
                None => {},
            }
            lemma_text_print(b, p.color, p.text);
            let g = grown(e, before);
            assert(g.drop_last() =~= e.drop_last());
            assert(e.last().text + before + p.text =~= e.last().text + (before + p.text));
        }
    }
}

/// What is read of a line with this number, sign and text.
pub open spec fn line_entry(lineno: int, sign: Option<Sign>, t: Seq<char>) -> Entry {
    Entry {
        number: text::dec(lineno as nat),
        back: match sign {
            Some(s) => Some(s.bg),
            None => None,
        },
        sign: match sign {
            Some(s) => Some((s.color, seq![s.ch] + " "@)),
            None => None,
        },
        text: t,
    }
}

proof fn lemma_ink_dec(n: nat)
    ensures
        seen::ink(text::dec(n)) == text::dec(n),
    decreases n,
{
    if n >= 10 {
        lemma_ink_dec(n / 10);
        assert(text::dec(n) =~= text::dec(n / 10).push(text::digit(n % 10)));
        seen::lemma_ink_push(text::dec(n / 10), text::digit(n % 10));
    } else {
        let none = Seq::<char>::empty();
        assert(text::dec(n) =~= none.push(text::digit(n)));
        seen::lemma_ink_push(none, text::digit(n));
    }
}

proof fn lemma_ink_number(n: nat, w: int)
    ensures
        ({
            let num = text::right_aligned(text::dec(n), w);
            &&& seen::ink(" "@ + num) == text::dec(n)
            &&& seen::ink(" "@ + num + " "@) == text::dec(n)
        }),
{
    broadcast use {seen::lemma_ink_add, seen::lemma_ink_fill};

    lemma_ink_dec(n);
    reveal_strlit(" ");
    assert(" "@ =~= text::fill(' ', 1));
    let num = text::right_aligned(text::dec(n), w);
    let none = Seq::<char>::empty();
    assert(none + text::dec(n) =~= text::dec(n));
    assert(none + text::dec(n) + none =~= text::dec(n));
    assert(seen::ink(num) == text::dec(n));
}

/// The number of a line, behind its background.
proof fn lemma_number_print(m: Canvas, t: Seq<char>)
    ensures
        ({
            let r = m.queue(Command::SetForegroundColor(Color::DarkGrey)).print(t);
            &&& entries(r.cmds) == entries(m.cmds).push(
                Entry {
                    number: seen::ink(t),
                    back: back_at(m.cmds, m.cmds.len() - 1),
                    sign: None,
                    text: seq![],
                },
            )
            &&& calm(r)
        }),
{
    reveal(Canvas::queue);
    reveal(Canvas::print);
    let c = Command::SetForegroundColor(Color::DarkGrey);
    let a = m.cmds.push(c);
    lemma_entries_push(m.cmds, c);
    let b = a.push(Command::Print(t));
    assert(b.drop_last() =~= a);
    assert(b[b.len() - 2] == Command::<Seq<char>>::SetForegroundColor(Color::DarkGrey));
    assert(back_at(b, b.len() - 3) == back_at(m.cmds, m.cmds.len() - 1));
}

proof fn lemma_sign_print(m: Canvas, c: Color, t: Seq<char>)
    requires
        !(c is Rgb),
        !(c is DarkGrey),
        entries(m.cmds).len() > 0,
    ensures
        ({
            let e = entries(m.cmds);
            let r = m.queue(Command::SetForegroundColor(c)).print(t);
            &&& entries(r.cmds) == e.drop_last().push(Entry { sign: Some((c, t)), ..e.last() })
            &&& calm(r)
        }),
{
    reveal(Canvas::queue);
    reveal(Canvas::print);
    let a = m.cmds.push(Command::SetForegroundColor(c));
    lemma_entries_push(m.cmds, Command::SetForegroundColor(c));
    let b = a.push(Command::Print(t));
    assert(b.drop_last() =~= a);
    assert(b[b.len() - 2] == Command::<Seq<char>>::SetForegroundColor(c));
}

spec fn plain_colour(sign: Option<Sign>) -> bool {
    match sign {
        Some(s) => !(s.color is Rgb) && !(s.color is DarkGrey),
        None => true,
    }
}

proof fn lemma_row_read(
    m: Canvas,
    row: Seq<Piece<Seq<char>>>,
    vi: int,
    lineno: int,
    sign: Option<Sign>,
    lay: DiffLayout,
)
    requires
        calm(m),
        in_parts(row),
        plain_colour(sign),
        vi != 0 ==> entries(m.cmds).len() > 0,
    ensures
        ({
            let r = diff::diff_row(m, row, vi, lineno, sign, lay);
            let e = entries(m.cmds);
            let t = row_text(row, row.len() as int);
            &&& calm(r)
            &&& entries(r.cmds) == if vi == 0 {
                e.push(line_entry(lineno, sign, t))
            } else {
                grown(e, t)
            }
        }),
{
    let e = entries(m.cmds);
    let t = row_text(row, row.len() as int);
    let num = text::right_aligned(text::dec(lineno as nat), lay.gutter_width as int);
    let blank = text::fill(' ', bars::capped(lay.gutter_width + 4) as nat);
    lemma_ink_number(lineno as nat, lay.gutter_width as int);
    lemma_quiet_print(m, "   "@);
    let a = m.print("   "@);
    match sign {
        Some(s) => {
            let bg = Command::SetBackgroundColor(s.bg);
            lemma_quiet(a, bg);
            let b = a.queue(bg);
            let c = if vi == 0 {
                lemma_number_print(b, " "@ + num + " "@);
                let c1 = b.queue(Command::SetForegroundColor(Color::DarkGrey)).print(
                    " "@ + num + " "@,
                );
                lemma_sign_print(c1, s.color, seq![s.ch] + " "@);
                assert(entries(c1.cmds).drop_last() =~= e);
                c1.queue(Command::SetForegroundColor(s.color)).print(seq![s.ch] + " "@)
            } else {
                lemma_quiet_print(b, blank);
                b.print(blank)
            };
            lemma_pieces_read(c, row, row.len() as int, Some(s.bg));
            let d = highlight::pieces_printed(c, row, row.len() as int, Some(s.bg));
            lemma_quiet(d, Command::ResetColor);
            let f = d.queue(Command::ResetColor);
            let cols = highlight::pieces_column(row, row.len() as int);
            let pad = lay.term_width - bars::capped(
                diff::prefix_columns(lay) + cols + diff::RIGHT_MARGIN,
            );
            let g = if pad > 0 {
                lemma_quiet(f, bg);
                lemma_quiet_print(f.queue(bg), text::fill(' ', pad as nat));
                f.queue(bg).print(text::fill(' ', pad as nat))
            } else {
                f
            };
            lemma_quiet(g, Command::ResetColor);
            lemma_line_end(g.queue(Command::ResetColor));
            if vi == 0 {
                assert(entries(c.cmds).drop_last() =~= e);
                assert(Seq::<char>::empty() + t =~= t);
            }
        },
        None => {
            let c = if vi == 0 {
                lemma_number_print(a, " "@ + num);
                let c1 = a.queue(Command::SetForegroundColor(Color::DarkGrey)).print(" "@ + num);
                lemma_quiet(c1, Command::ResetColor);
                let c2 = c1.queue(Command::ResetColor);
                lemma_quiet_print(c2, "   "@);
                c2.print("   "@)
            } else {
                lemma_quiet_print(a, blank);
                a.print(blank)
            };
            lemma_pieces_read(c, row, row.len() as int, None);
            let d = highlight::pieces_printed(c, row, row.len() as int, None);
            lemma_quiet(d, Command::ResetColor);
            lemma_line_end(d.queue(Command::ResetColor));
            if vi == 0 {
                assert(entries(c.cmds).drop_last() =~= e);
                assert(Seq::<char>::empty() + t =~= t);
            }
        },
    }
}

/// The rows that are printed when nothing is left out.
proof fn lemma_rows_read(
    w: Window,
    rows: Seq<Seq<Piece<Seq<char>>>>,
    n: int,
    lineno: int,
    sign: Option<Sign>,
    lay: DiffLayout,
)
    requires
        1 <= n <= rows.len(),
        all_in_parts(rows),
        plain_colour(sign),
        calm(w.canvas),
        diff::window_rows(w, rows, n, lineno, sign, lay, 0, u16::MAX).emitted < u16::MAX,
    ensures
        ({
            let v = diff::window_rows(w, rows, n, lineno, sign, lay, 0, u16::MAX);
            &&& w.emitted <= v.emitted
            &&& calm(v.canvas)
            &&& entries(v.canvas.cmds) == entries(w.canvas.cmds).push(
                line_entry(lineno, sign, rows_text(rows, n)),
            )
        }),
    decreases n,
{
    let e = entries(w.canvas.cmds);
    assert(in_parts(rows[n - 1]));
    if n == 1 {
        assert(diff::window_rows(w, rows, 0, lineno, sign, lay, 0, u16::MAX) == w);
        lemma_row_read(w.canvas, rows[0], 0, lineno, sign, lay);
        let t = row_text(rows[0], rows[0].len() as int);
        assert(rows_text(rows, 0) == Seq::<char>::empty());
        assert(rows_text(rows, 1) =~= t);
    } else {
        let x = diff::window_rows(w, rows, n - 1, lineno, sign, lay, 0, u16::MAX);
        assert(x.emitted < u16::MAX);
        lemma_rows_read(w, rows, n - 1, lineno, sign, lay);
        lemma_row_read(x.canvas, rows[n - 1], n - 1, lineno, sign, lay);
        let g = e.push(line_entry(lineno, sign, rows_text(rows, n - 1)));
        assert(g.drop_last() =~= e);
    }
}

proof fn lemma_row_text_push(row: Seq<Piece<Seq<char>>>, p: Piece<Seq<char>>, n: int)
    requires
        0 <= n <= row.len(),
    ensures
        row_text(row.push(p), n) == row_text(row, n),
    decreases n,
{
    if n > 0 {
        lemma_row_text_push(row, p, n - 1);
    }
}

proof fn lemma_rows_text_push(rows: Seq<Seq<Piece<Seq<char>>>>, r: Seq<Piece<Seq<char>>>, n: int)
    requires
        0 <= n <= rows.len(),
    ensures
        rows_text(rows.push(r), n) == rows_text(rows, n),
    decreases n,
{
    if n > 0 {
        lemma_rows_text_push(rows, r, n - 1);
    }
}

spec fn placed_text(s: Splitting) -> Seq<char> {
    rows_text(s.rows, s.rows.len() as int) + row_text(s.open, s.open.len() as int)
}

spec fn placed_in_parts(s: Splitting) -> bool {
    all_in_parts(s.rows) && in_parts(s.open)
}

proof fn lemma_place_text(s: Splitting, color: Color, t: Seq<char>, max: int)
    requires
        placed_in_parts(s),
        color is Rgb,
    ensures
        placed_in_parts(highlight::place_text(s, color, t, max)),
        placed_text(highlight::place_text(s, color, t, max)) == placed_text(s) + t,
    decreases t.len(), s.col,
{
    if t.len() == 0 {
        assert(placed_text(s) + t =~= placed_text(s));
    } else {
        highlight::lemma_fitting(t, s.col, max);
        let k = highlight::fitting(t, s.col, max);
        if k <= 0 && s.col > 0 {
            let n = Splitting { rows: s.rows.push(s.open), open: seq![], col: 0 };
            assert(all_in_parts(n.rows)) by {
                assert forall|i: int| 0 <= i < n.rows.len() implies in_parts(
                    #[trigger] n.rows[i],
                ) by {
                    if i < s.rows.len() {
                        assert(in_parts(s.rows[i]));
                    }
                }
            }
            lemma_rows_text_push(s.rows, s.open, s.rows.len() as int);
            assert(placed_text(n) =~= placed_text(s));
            lemma_place_text(n, color, t, max);
        } else {
            let n = if k <= 0 {
                1
            } else {
                k
            };
            let p = Piece { color, text: t.take(n) };
            let m = Splitting {
                rows: s.rows,
                open: s.open.push(p),
                col: wrap::column_after(t.take(n), s.col),
            };
            assert(in_parts(m.open)) by {
                assert forall|i: int| 0 <= i < m.open.len() implies (#[trigger] m.open[i]).color
                    is Rgb by {
                    if i < s.open.len() {
                        assert(s.open[i].color is Rgb);
                    }
                }
            }
            lemma_row_text_push(s.open, p, s.open.len() as int);
            lemma_place_text(m, color, t.skip(n), max);
            assert(t =~= t.take(n) + t.skip(n));
            assert(placed_text(m) =~= placed_text(s) + t.take(n));
            assert(placed_text(s) + t.take(n) + t.skip(n) =~= placed_text(s) + t);
        }
    }
}

proof fn lemma_place_pieces(ps: Seq<(u8, u8, u8, Seq<char>)>, n: int, max: int)
    requires
        0 <= n <= ps.len(),
    ensures
        placed_in_parts(highlight::place_pieces(ps, n, max)),
        placed_text(highlight::place_pieces(ps, n, max)) == diff_laws::shown_text(ps, n),
    decreases n,
{
    if n > 0 {
        lemma_place_pieces(ps, n - 1, max);
        lemma_place_text(
            highlight::place_pieces(ps, n - 1, max),
            highlight::piece_color(ps[n - 1]),
            highlight::without_line_end(ps[n - 1].3),
            max,
        );
    } else {
        let s = highlight::place_pieces(ps, n, max);
        assert(rows_text(s.rows, 0) == Seq::<char>::empty());
        assert(row_text(s.open, 0) == Seq::<char>::empty());
        assert(placed_text(s) =~= Seq::<char>::empty());
    }
}

/// The rows of a line hold the text of its pieces.
pub proof fn lemma_split_rows(ps: Seq<(u8, u8, u8, Seq<char>)>, max: int)
    ensures
        ({
            let rows = highlight::split_rows(ps, max);
            &&& rows.len() >= 1
            &&& all_in_parts(rows)
            &&& rows_text(rows, rows.len() as int) == diff_laws::shown_text(ps, ps.len() as int)
        }),
{
    let w = if max < 1 {
        1
    } else {
        max
    };
    lemma_place_pieces(ps, ps.len() as int, w);
    let s = highlight::place_pieces(ps, ps.len() as int, w);
    let rows = highlight::split_rows(ps, max);
    lemma_rows_text_push(s.rows, s.open, s.rows.len() as int);
    if s.open.len() > 0 {
        assert(all_in_parts(rows)) by {
            assert forall|i: int| 0 <= i < rows.len() implies in_parts(#[trigger] rows[i]) by {
                if i < s.rows.len() {
                    assert(in_parts(s.rows[i]));
                }
            }
        }
    } else {
        assert(row_text(s.open, 0) == Seq::<char>::empty());
        if s.rows.len() == 0 {
            assert(rows_text(s.rows, 0) == Seq::<char>::empty());
            assert(rows_text(rows, 0) == Seq::<char>::empty());
            assert(row_text(rows[0], 0) == Seq::<char>::empty());
            assert(rows_text(rows, 1) =~= Seq::<char>::empty());
            assert(placed_text(s) =~= Seq::<char>::empty());
        } else {
            assert(placed_text(s) =~= rows_text(s.rows, s.rows.len() as int));
        }
    }
}

/// Highlighting that loses no text shows a line as it is.
proof fn lemma_shown_line(h: History, line: Seq<char>, ext: Seq<char>)
    requires
        diff_laws::highlighting_works(ext),
        h is Some,
        diff_laws::one_line(line),
    ensures
        ({
            let ps = highlight::line_pieces(h, line);
            diff_laws::shown_text(ps, ps.len() as int) == line
        }),
{
    let ps = highlight::line_pieces(h, line);
    let n = ps.len() as int;
    let whole = line.push('\n');
    reveal_strlit("\n");
    assert(highlight::with_nl(line) =~= whole);
    assert(diff_laws::joined(ps, n) == whole);
    assert(whole.take(whole.len() as int) =~= whole);
    diff_laws::lemma_shown(ps, n, line);
}

proof fn lemma_line_read(
    w: Window,
    h: History,
    line: Seq<char>,
    lineno: int,
    sign: Option<Sign>,
    lay: DiffLayout,
    ext: Seq<char>,
)
    requires
        diff_laws::highlighting_works(ext),
        h is Some,
        diff_laws::one_line(line),
        plain_colour(sign),
        calm(w.canvas),
        diff::window_line(w, h, line, lineno, sign, lay, 0, u16::MAX).emitted < u16::MAX,
    ensures
        ({
            let v = diff::window_line(w, h, line, lineno, sign, lay, 0, u16::MAX);
            &&& w.emitted <= v.emitted
            &&& calm(v.canvas)
            &&& entries(v.canvas.cmds) == entries(w.canvas.cmds).push(
                line_entry(lineno, sign, line),
            )
        }),
{
    let ps = highlight::line_pieces(h, line);
    let rows = highlight::split_rows(ps, lay.max_content as int);
    lemma_split_rows(ps, lay.max_content as int);
    lemma_shown_line(h, line, ext);
    lemma_rows_read(w, rows, rows.len() as int, lineno, sign, lay);
}

// ── The difference ───────────────────────────────────────────────────────

/// The text of a change: no line feeds at its end, and spaces for tabs.
pub open spec fn line_of(value: Seq<char>) -> Seq<char> {
    text::untabbed(text::drop_back(value, |x: char| x == '\n'))
}

/// How many of the first `n` changes delete a line.
pub open spec fn deletions(cs: Seq<(ChangeTag, Seq<char>)>, n: int) -> int
    decreases n,
{
    if n <= 0 {
        0
    } else if cs[n - 1].0 is Delete {
        deletions(cs, n - 1) + 1
    } else {
        deletions(cs, n - 1)
    }
}

/// What has to be read of the first `n` changes: each deleted line behind a
/// red minus on a red ground, each inserted line behind a green plus on a
/// green ground, and nothing else with a sign.
pub open spec fn signs_due(cs: Seq<(ChangeTag, Seq<char>)>, n: int, start: int) -> Seq<Entry>
    decreases n,
{
    if n <= 0 {
        seq![]
    } else {
        let before = signs_due(cs, n - 1, start);
        match cs[n - 1].0 {
            ChangeTag::Equal => before,
            ChangeTag::Delete => before.push(
                Entry {
                    number: text::dec((start + deletions(cs, n)) as nat),
                    back: Some(Color::Rgb { r: 60, g: 20, b: 20 }),
                    sign: Some((Color::Red, "- "@)),
                    text: line_of(cs[n - 1].1),
                },
            ),
            ChangeTag::Insert => before.push(
                Entry {
                    number: text::dec((start + n - deletions(cs, n)) as nat),
                    back: Some(Color::Rgb { r: 20, g: 50, b: 20 }),
                    sign: Some((Color::Green, "+ "@)),
                    text: line_of(cs[n - 1].1),
                },
            ),
        }
    }
}

/// Whether a line without a sign is a mark for lines that are left out, a
/// line of the file under its own number, or a line of both texts.
pub open spec fn is_context(
    e: Entry,
    file: Seq<char>,
    cs: Seq<(ChangeTag, Seq<char>)>,
    start: int,
) -> bool {
    ||| e.number == "..."@ && e.text.len() == 0
    ||| exists|i: int|
        0 <= i < text::lines_of(file).len() && e.number == text::dec((i + 1) as nat) && e.text
            == text::untabbed(#[trigger] text::lines_of(file)[i])
    ||| exists|i: int|
        0 <= i < cs.len() && (#[trigger] cs[i]).0 is Equal && e.number == text::dec(
            (start + i + 1 - deletions(cs, i)) as nat,
        ) && e.text == line_of(cs[i].1)
}

/// Whether all lines without a sign from `from` on are context.
pub open spec fn context_only(
    es: Seq<Entry>,
    from: int,
    file: Seq<char>,
    cs: Seq<(ChangeTag, Seq<char>)>,
    start: int,
) -> bool {
    forall|k: int|
        0 <= k && from <= k < es.len() && (#[trigger] es[k]).sign is None ==> is_context(
            es[k],
            file,
            cs,
            start,
        )
}

proof fn lemma_context_push(
    es: Seq<Entry>,
    e: Entry,
    from: int,
    file: Seq<char>,
    cs: Seq<(ChangeTag, Seq<char>)>,
    start: int,
)
    requires
        context_only(es, from, file, cs, start),
        e.sign is Some || is_context(e, file, cs, start),
    ensures
        context_only(es.push(e), from, file, cs, start),
{
    let all = es.push(e);
    assert forall|k: int|
        0 <= k && from <= k < all.len() && (#[trigger] all[k]).sign is None implies is_context(
        all[k],
        file,
        cs,
        start,
    ) by {
        if k < es.len() {
            assert(all[k] == es[k]);
        }
    }
}

proof fn lemma_deletions(cs: Seq<(ChangeTag, Seq<char>)>, n: int)
    ensures
        0 <= deletions(cs, n),
        n >= 0 ==> deletions(cs, n) <= n,
    decreases n,
{
    if n > 0 {
        lemma_deletions(cs, n - 1);
    }
}

/// Lines of the file around the changes.
proof fn lemma_lines_read(
    w: Window,
    h: History,
    ls: Seq<Seq<char>>,
    n: int,
    first: int,
    lay: DiffLayout,
    ext: Seq<char>,
    from: int,
    file: Seq<char>,
    cs: Seq<(ChangeTag, Seq<char>)>,
    start: int,
)
    requires
        diff_laws::highlighting_works(ext),
        h is Some,
        0 <= n <= ls.len(),
        0 <= first,
        first + ls.len() <= text::lines_of(file).len() <= usize::MAX,
        forall|i: int|
            0 <= i < ls.len() ==> #[trigger] ls[i] == text::untabbed(
                text::lines_of(file)[first + i],
            ),
        forall|i: int| 0 <= i < ls.len() ==> diff_laws::one_line(#[trigger] ls[i]),
        calm(w.canvas),
        from <= entries(w.canvas.cmds).len(),
        context_only(entries(w.canvas.cmds), from, file, cs, start),
        diff::window_lines(w, h, ls, n, first, None, lay, 0, u16::MAX).emitted < u16::MAX,
    ensures
        ({
            let v = diff::window_lines(w, h, ls, n, first, None, lay, 0, u16::MAX);
            &&& w.emitted <= v.emitted
            &&& calm(v.canvas)
            &&& from <= entries(v.canvas.cmds).len()
            &&& signed(entries(v.canvas.cmds)) == signed(entries(w.canvas.cmds))
            &&& context_only(entries(v.canvas.cmds), from, file, cs, start)
            &&& entries(v.canvas.cmds).len() == entries(w.canvas.cmds).len() + n
        }),
    decreases n,
{
    if n > 0 {
        let x = diff::window_lines(w, h, ls, n - 1, first, None, lay, 0, u16::MAX);
        assert(x.emitted < u16::MAX);
        lemma_lines_read(w, h, ls, n - 1, first, lay, ext, from, file, cs, start);
        let hn = highlight::after_lines(h, ls, n - 1);
        diff_laws::lemma_after_is_some(h, ls, n - 1);
        let no = bars::capped(first + n);
        lemma_line_read(x, hn, ls[n - 1], no, None, lay, ext);
        let e = line_entry(no, None, ls[n - 1]);
        lemma_signed_push(entries(x.canvas.cmds), e);
        let at = first + n - 1;
        assert(no == at + 1);
        assert(e.text == text::untabbed(text::lines_of(file)[at]));
        assert(is_context(e, file, cs, start));
        lemma_context_push(entries(x.canvas.cmds), e, from, file, cs, start);
    }
}

proof fn lemma_gap_read(d: DiffState, lay: DiffLayout)
    requires
        calm(d.window.canvas),
        d.window.emitted < u16::MAX,
    ensures
        ({
            let g = diff::gap_mark(d, lay, 0, u16::MAX);
            let e = entries(d.window.canvas.cmds);
            &&& calm(g.window.canvas)
            &&& d.window.emitted <= g.window.emitted
            &&& entries(g.window.canvas.cmds) == if d.pending {
                e.push(Entry { number: "..."@, back: None, sign: None, text: seq![] })
            } else {
                e
            }
        }),
{
    broadcast use {seen::lemma_ink_add, seen::lemma_ink_fill};

    if d.pending {
        let m = d.window.canvas;
        let dots = text::right_aligned("..."@, bars::capped(lay.gutter_width + 1));
        reveal_strlit("...");
        let none = Seq::<char>::empty();
        assert("..."@ =~= none.push('.').push('.').push('.'));
        seen::lemma_ink_push(none, '.');
        seen::lemma_ink_push(none.push('.'), '.');
        seen::lemma_ink_push(none.push('.').push('.'), '.');
        assert(none + "..."@ =~= "..."@);
        assert(seen::ink(dots) == "..."@);
        lemma_quiet_print(m, "   "@);
        let a = m.print("   "@);
        lemma_number_print(a, dots);
        let b = a.queue(Command::SetForegroundColor(Color::DarkGrey)).print(dots);
        lemma_quiet(b, Command::ResetColor);
        lemma_line_end(b.queue(Command::ResetColor));
    }
}

spec fn step_holds(
    d: DiffState,
    base: Seq<Entry>,
    from: int,
    file: Seq<char>,
    cs: Seq<(ChangeTag, Seq<char>)>,
    n: int,
    start: int,
) -> bool {
    let es = entries(d.window.canvas.cmds);
    &&& calm(d.window.canvas)
    &&& from <= es.len()
    &&& context_only(es, from, file, cs, start)
    &&& signed(es) == base + signs_due(cs, n, start)
    &&& d.h_old is Some
    &&& d.h_new is Some
    &&& d.old_no == start + deletions(cs, n)
    &&& d.new_no == start + n - deletions(cs, n)
}

proof fn lemma_step_read(
    d: DiffState,
    base: Seq<Entry>,
    from: int,
    file: Seq<char>,
    cs: Seq<(ChangeTag, Seq<char>)>,
    n: int,
    start: int,
    v: DiffView,
    lay: DiffLayout,
    ext: Seq<char>,
    visible: bool,
)
    requires
        0 <= n < cs.len(),
        0 <= start,
        start + cs.len() <= usize::MAX,
        step_holds(d, base, from, file, cs, n, start),
        diff_laws::highlighting_works(ext),
        diff_laws::one_line(line_of(cs[n].1)),
        diff::diff_step(
            d,
            cs[n].0,
            diff::change_text(cs[n].1),
            visible,
            v,
            lay,
            0,
            u16::MAX,
        ).window.emitted < u16::MAX,
    ensures
        step_holds(
            diff::diff_step(
                d,
                cs[n].0,
                diff::change_text(cs[n].1),
                visible,
                v,
                lay,
                0,
                u16::MAX,
            ),
            base,
            from,
            file,
            cs,
            n + 1,
            start,
        ),
        d.window.emitted < u16::MAX,
{
    let line = line_of(cs[n].1);
    assert(diff::change_text(cs[n].1) == line);
    let r = diff::diff_step(d, cs[n].0, line, visible, v, lay, 0, u16::MAX);
    lemma_deletions(cs, n);
    lemma_deletions(cs, n + 1);
    lemma_gap_read(d, lay);
    let g = diff::gap_mark(d, lay, 0, u16::MAX);
    let es = entries(d.window.canvas.cmds);
    let mark = Entry { number: "..."@, back: None, sign: None, text: seq![] };
    lemma_context_push(es, mark, from, file, cs, start);
    lemma_signed_push(es, mark);
    let ge = entries(g.window.canvas.cmds);
    assert(signed(ge) == signed(es));
    assert(context_only(ge, from, file, cs, start));
    match cs[n].0 {
        ChangeTag::Equal => {
            let no = bars::capped(g.new_no + 1);
            if visible && v.view_start <= g.new_no < v.view_end {
                lemma_line_read(g.window, g.h_new, line, no, None, lay, ext);
                let e = line_entry(no, None, line);
                assert(no == start + n + 1 - deletions(cs, n));
                assert(is_context(e, file, cs, start));
                lemma_context_push(ge, e, from, file, cs, start);
                lemma_signed_push(ge, e);
            }
        },
        ChangeTag::Delete => {
            let no = bars::capped(g.old_no + 1);
            let s = diff::delete_sign();
            lemma_line_read(g.window, g.h_old, line, no, Some(s), lay, ext);
            let e = line_entry(no, Some(s), line);
            reveal_strlit("- ");
            reveal_strlit(" ");
            assert(seq!['-'] + " "@ =~= "- "@);
            assert(no == start + deletions(cs, n + 1));
            lemma_context_push(ge, e, from, file, cs, start);
            lemma_signed_push(ge, e);
            assert(base + signs_due(cs, n + 1, start) =~= (base + signs_due(cs, n, start)).push(
                signs_due(cs, n + 1, start).last(),
            ));
        },
        ChangeTag::Insert => {
            let no = bars::capped(g.new_no + 1);
            let s = diff::insert_sign();
            lemma_line_read(g.window, g.h_new, line, no, Some(s), lay, ext);
            let e = line_entry(no, Some(s), line);
            reveal_strlit("+ ");
            reveal_strlit(" ");
            assert(seq!['+'] + " "@ =~= "+ "@);
            assert(no == start + (n + 1) - deletions(cs, n + 1));
            lemma_context_push(ge, e, from, file, cs, start);
            lemma_signed_push(ge, e);
            assert(base + signs_due(cs, n + 1, start) =~= (base + signs_due(cs, n, start)).push(
                signs_due(cs, n + 1, start).last(),
            ));
        },
    }
}

proof fn lemma_steps_read(
    d: DiffState,
    base: Seq<Entry>,
    from: int,
    file: Seq<char>,
    cs: Seq<(ChangeTag, Seq<char>)>,
    n: int,
    start: int,
    v: DiffView,
    lay: DiffLayout,
    ext: Seq<char>,
)
    requires
        0 <= n <= cs.len(),
        0 <= start,
        start + cs.len() <= usize::MAX,
        step_holds(d, base, from, file, cs, 0, start),
        diff_laws::highlighting_works(ext),
        forall|i: int| 0 <= i < cs.len() ==> diff_laws::one_line(line_of((#[trigger] cs[i]).1)),
        diff::diff_steps(d, cs, n, v, lay, 0, u16::MAX).window.emitted < u16::MAX,
    ensures
        step_holds(
            diff::diff_steps(d, cs, n, v, lay, 0, u16::MAX),
            base,
            from,
            file,
            cs,
            n,
            start,
        ),
        d.window.emitted < u16::MAX,
    decreases n,
{
    if n > 0 {
        let x = diff::diff_steps(d, cs, n - 1, v, lay, 0, u16::MAX);
        assert(x.window.emitted < u16::MAX);
        lemma_steps_read(d, base, from, file, cs, n - 1, start, v, lay, ext);
        assert(diff_laws::one_line(line_of(cs[n - 1].1)));
        lemma_step_read(
            x,
            base,
            from,
            file,
            cs,
            n - 1,
            start,
            v,
            lay,
            ext,
            diff::near_change(cs, n - 1, diff::CONTEXT as int),
        );
    }
}

proof fn lemma_windows_grow(
    w: Window,
    h: History,
    ls: Seq<Seq<char>>,
    n: int,
    first: int,
    lay: DiffLayout,
)
    ensures
        w.emitted >= u16::MAX ==> diff::window_lines(
            w,
            h,
            ls,
            n,
            first,
            None,
            lay,
            0,
            u16::MAX,
        ).emitted >= u16::MAX,
    decreases n,
{
    if n > 0 {
        lemma_windows_grow(w, h, ls, n - 1, first, lay);
    }
}

proof fn lemma_steps_grow(
    d: DiffState,
    cs: Seq<(ChangeTag, Seq<char>)>,
    n: int,
    v: DiffView,
    lay: DiffLayout,
)
    ensures
        d.window.emitted >= u16::MAX ==> diff::diff_steps(
            d,
            cs,
            n,
            v,
            lay,
            0,
            u16::MAX,
        ).window.emitted >= u16::MAX,
    decreases n,
{
    if n > 0 {
        lemma_steps_grow(d, cs, n - 1, v, lay);
    }
}

/// Lines before the changes, the changes, and lines behind them.
proof fn lemma_difference_read(
    m: Canvas,
    file: Seq<char>,
    cs: Seq<(ChangeTag, Seq<char>)>,
    ext: Seq<char>,
    start: int,
    at: int,
    to: int,
    after: int,
    end: int,
    v: DiffView,
    lay: DiffLayout,
    h: History,
    d0: DiffState,
)
    requires
        calm(m),
        diff_laws::highlighting_works(ext),
        h is Some,
        d0.h_old is Some,
        d0.h_new is Some,
        d0.old_no == start,
        d0.new_no == start,
        0 <= start,
        start + cs.len() <= usize::MAX,
        text::lines_of(file).len() <= usize::MAX,
        forall|i: int| 0 <= i < cs.len() ==> diff_laws::one_line(line_of((#[trigger] cs[i]).1)),
        forall|i: int|
            0 <= i < text::lines_of(file).len() ==> diff_laws::one_line(
                text::untabbed(#[trigger] text::lines_of(file)[i]),
            ),
        0 <= at <= to <= text::lines_of(file).len(),
        0 <= after,
        end <= text::lines_of(file).len(),
        ({
            let ls = highlight::untabbed_lines(text::lines_of(file));
            d0.window == diff::window_lines(
                Window { canvas: m, seen: 0, emitted: 0 },
                h,
                ls.subrange(at, to),
                to - at,
                at,
                None,
                lay,
                0,
                u16::MAX,
            )
        }),
        window_behind(file, cs, after, end, v, lay, d0).emitted < u16::MAX,
    ensures
        ({
            let es = entries(window_behind(file, cs, after, end, v, lay, d0).canvas.cmds);
            &&& signed(es) == signed(entries(m.cmds)) + signs_due(cs, cs.len() as int, start)
            &&& context_only(es, entries(m.cmds).len() as int, file, cs, start)
        }),
{
    let ls = highlight::untabbed_lines(text::lines_of(file));
    let base = signed(entries(m.cmds));
    let from = entries(m.cmds).len() as int;
    let w0 = Window { canvas: m, seen: 0, emitted: 0 };
    let before = ls.subrange(at, to);
    let d = diff::diff_steps(d0, cs, cs.len() as int, v, lay, 0, u16::MAX);
    let rest = ls.subrange(after, end);
    lemma_windows_grow(d.window, d.h_new, rest, end - after, after, lay);
    lemma_steps_grow(d0, cs, cs.len() as int, v, lay);
    lemma_part(file, at, to);
    lemma_lines_read(w0, h, before, to - at, at, lay, ext, from, file, cs, start);
    assert(base + signs_due(cs, 0, start) =~= base);
    lemma_steps_read(d0, base, from, file, cs, cs.len() as int, start, v, lay, ext);
    if after < end {
        lemma_part(file, after, end);
        lemma_lines_read(
            d.window,
            d.h_new,
            rest,
            end - after,
            after,
            lay,
            ext,
            from,
            file,
            cs,
            start,
        );
    }
}

spec fn window_behind(
    file: Seq<char>,
    cs: Seq<(ChangeTag, Seq<char>)>,
    after: int,
    end: int,
    v: DiffView,
    lay: DiffLayout,
    d0: DiffState,
) -> Window {
    let ls = highlight::untabbed_lines(text::lines_of(file));
    let d = diff::diff_steps(d0, cs, cs.len() as int, v, lay, 0, u16::MAX);
    if after < end {
        diff::window_lines(
            d.window,
            d.h_new,
            ls.subrange(after, end),
            end - after,
            after,
            None,
            lay,
            0,
            u16::MAX,
        )
    } else {
        d.window
    }
}

proof fn lemma_part(file: Seq<char>, a: int, b: int)
    requires
        0 <= a <= b <= text::lines_of(file).len(),
        forall|i: int|
            0 <= i < text::lines_of(file).len() ==> diff_laws::one_line(
                text::untabbed(#[trigger] text::lines_of(file)[i]),
            ),
    ensures
        ({
            let ls = highlight::untabbed_lines(text::lines_of(file)).subrange(a, b);
            &&& ls.len() == b - a
            &&& forall|i: int|
                0 <= i < ls.len() ==> #[trigger] ls[i] == text::untabbed(
                    text::lines_of(file)[a + i],
                )
            &&& forall|i: int| 0 <= i < ls.len() ==> diff_laws::one_line(#[trigger] ls[i])
        }),
{
    let ls = highlight::untabbed_lines(text::lines_of(file)).subrange(a, b);
    assert forall|i: int| 0 <= i < ls.len() implies diff_laws::one_line(#[trigger] ls[i]) by {
        assert(diff_laws::one_line(text::untabbed(text::lines_of(file)[a + i])));
    }
}

/// A difference that is shown whole reads back: the lines with a sign are
/// those that change, in order, each deleted one behind a red minus and each
/// inserted one behind a green plus, with its text; lines without a sign are
/// lines of the file or of both texts, under their numbers. So without the
/// lines that carry a plus only lines of the old text are left, and without
/// those that carry a minus only lines of the new.
pub proof fn law_difference_reads_back(
    m: Canvas,
    file: Seq<char>,
    cs: Seq<(ChangeTag, Seq<char>)>,
    lookup: Seq<char>,
    ext: Seq<char>,
    anchor: Seq<char>,
    term_width: usize,
)
    requires
        calm(m),
        diff_laws::highlighting_works(ext),
        text::lines_of(file).len() <= usize::MAX,
        diff::lines_before(file, lookup) + cs.len() <= usize::MAX,
        forall|i: int| 0 <= i < cs.len() ==> diff_laws::one_line(line_of((#[trigger] cs[i]).1)),
        forall|i: int|
            0 <= i < text::lines_of(file).len() ==> diff_laws::one_line(
                text::untabbed(#[trigger] text::lines_of(file)[i]),
            ),
        diff::changes_printed(m, file, cs, lookup, ext, anchor, 0, 0, term_width).1 < u16::MAX,
    ensures
        ({
            let r = diff::changes_printed(m, file, cs, lookup, ext, anchor, 0, 0, term_width).0;
            let start = diff::lines_before(file, lookup);
            let es = entries(r.cmds);
            &&& signed(es) == signed(entries(m.cmds)) + signs_due(cs, cs.len() as int, start)
            &&& context_only(es, entries(m.cmds).len() as int, file, cs, start)
        }),
{
    let v = diff::changes_part(file, cs, lookup);
    let start = v.start_line;
    let ls = highlight::untabbed_lines(text::lines_of(file));
    let count = ls.len() as int;
    let lay = diff::diff_layout(v.max_lineno, term_width);
    let h0 = highlight::fresh(highlight::chosen_syntax(ext, None));
    let h = highlight::after_lines(h0, ls, table::smaller(v.view_start, count));
    diff_laws::lemma_after_is_some(h0, ls, table::smaller(v.view_start, count));
    let to = table::smaller(table::smaller(v.start_line, v.first_mod), count);
    let at = table::smaller(v.view_start, to);
    diff_laws::lemma_scan(cs, cs.len() as int, start);
    let before = ls.subrange(at, to);
    let w0 = Window { canvas: m, seen: 0, emitted: 0 };
    let w = diff::window_lines(w0, h, before, to - at, at, None, lay, 0, u16::MAX);
    let h1 = highlight::after_lines(h, before, to - at);
    diff_laws::lemma_after_is_some(h, before, to - at);
    let d0 = DiffState {
        window: w,
        old_no: start,
        new_no: start,
        pending: false,
        any: w.seen > 0,
        h_old: h1,
        h_new: h1,
    };
    let after = bars::capped(v.start_line + text::lines_of(anchor).len());
    let end = table::smaller(v.view_end, count);
    lemma_difference_read(m, file, cs, ext, start, at, to, after, end, v, lay, h, d0);
}

/// The lines of a file from number `first + 1` on.
pub open spec fn numbered(ls: Seq<Seq<char>>, first: int) -> Seq<Entry> {
    Seq::new(
        ls.len(),
        |i: int|
            Entry {
                number: text::dec((first + i + 1) as nat),
                back: None,
                sign: None,
                text: ls[i],
            },
    )
}

proof fn lemma_numbered(
    w: Window,
    h: History,
    ls: Seq<Seq<char>>,
    n: int,
    lay: DiffLayout,
    ext: Seq<char>,
)
    requires
        diff_laws::highlighting_works(ext),
        h is Some,
        0 <= n <= ls.len() <= usize::MAX,
        forall|i: int| 0 <= i < ls.len() ==> diff_laws::one_line(#[trigger] ls[i]),
        calm(w.canvas),
        diff::window_lines(w, h, ls, n, 0, None, lay, 0, u16::MAX).emitted < u16::MAX,
    ensures
        ({
            let v = diff::window_lines(w, h, ls, n, 0, None, lay, 0, u16::MAX);
            &&& calm(v.canvas)
            &&& entries(v.canvas.cmds) == entries(w.canvas.cmds) + numbered(ls.take(n), 0)
        }),
    decreases n,
{
    if n <= 0 {
        assert(entries(w.canvas.cmds) + numbered(ls.take(n), 0) =~= entries(w.canvas.cmds));
    } else {
        let x = diff::window_lines(w, h, ls, n - 1, 0, None, lay, 0, u16::MAX);
        assert(x.emitted < u16::MAX);
        lemma_numbered(w, h, ls, n - 1, lay, ext);
        diff_laws::lemma_after_is_some(h, ls, n - 1);
        lemma_line_read(
            x,
            highlight::after_lines(h, ls, n - 1),
            ls[n - 1],
            bars::capped(0 + n),
            None,
            lay,
            ext,
        );
        assert(entries(w.canvas.cmds) + numbered(ls.take(n), 0) =~= (entries(w.canvas.cmds)
            + numbered(ls.take(n - 1), 0)).push(line_entry(n, None, ls[n - 1])));
    }
}

/// A file that is shown whole reads back: its lines in order, each behind
/// its number, none with a sign, each character for character.
pub proof fn law_file_reads_back(m: Canvas, ls: Seq<Seq<char>>, ext: Seq<char>, term_width: usize)
    requires
        calm(m),
        diff_laws::highlighting_works(ext),
        ls.len() <= usize::MAX,
        forall|i: int| 0 <= i < ls.len() ==> diff_laws::one_line(#[trigger] ls[i]),
        diff::file_window(m, ls, ext, 0, 0, term_width).emitted < u16::MAX,
    ensures
        entries(diff::file_window(m, ls, ext, 0, 0, term_width).canvas.cmds) == entries(m.cmds)
            + numbered(ls, 0),
{
    lemma_numbered(
        Window { canvas: m, seen: 0, emitted: 0 },
        highlight::fresh(highlight::chosen_syntax(ext, None)),
        ls,
        ls.len() as int,
        diff::file_layout(ls.len() as int, term_width),
        ext,
    );
    assert(ls.take(ls.len() as int) =~= ls);
}

} // verus!
