//! What a window shows of a difference or a file.

use vstd::prelude::*;

use crate::render::bars;
use crate::render::diff;
use crate::render::diff::{ChangeTag, DiffLayout, DiffState, DiffView, Sign, Window};
use crate::render::diff_reading;
use crate::render::highlight;
use crate::render::highlight::{History, Piece};
use crate::render::out::{Canvas, Color, Command};
use crate::render::seen;
use crate::render::table;
use crate::text;

verus! {

/// What a row shows.
spec fn row_ink(
    row: Seq<Piece<Seq<char>>>,
    vi: int,
    lineno: int,
    sign: Option<Sign>,
    lay: DiffLayout,
) -> Seq<char> {
    (if vi == 0 {
        seen::ink(text::right_aligned(text::dec(lineno as nat), lay.gutter_width as int))
            + match sign {
            Some(s) => seen::ink(seq![s.ch]),
            None => Seq::<char>::empty(),
        }
    } else {
        Seq::<char>::empty()
    }) + seen::ink(diff_reading::row_text(row, row.len() as int))
}

proof fn lemma_pieces(m: Canvas, row: Seq<Piece<Seq<char>>>, n: int, bg: Option<Color>)
    requires
        0 <= n <= row.len(),
    ensures
        seen::seen(highlight::pieces_printed(m, row, n, bg)) == seen::seen(m) + seen::ink(
            diff_reading::row_text(row, n),
        ),
    decreases n,
{
    broadcast use seen::group_seen;

    if n <= 0 {
        assert(seen::ink(diff_reading::row_text(row, n)) =~= seq![]);
        assert(seen::seen(m) + Seq::<char>::empty() =~= seen::seen(m));
    } else {
        lemma_pieces(m, row, n - 1, bg);
        let p = row[n - 1];
        if p.text.len() == 0 {
            assert(seen::ink(p.text) =~= seq![]);
        }
        assert(seen::seen(highlight::pieces_printed(m, row, n, bg)) =~= seen::seen(m) + seen::ink(
            diff_reading::row_text(row, n),
        ));
    }
}

proof fn lemma_row_ink(
    m: Canvas,
    row: Seq<Piece<Seq<char>>>,
    vi: int,
    lineno: int,
    sign: Option<Sign>,
    lay: DiffLayout,
)
    ensures
        seen::seen(diff::diff_row(m, row, vi, lineno, sign, lay)) == seen::seen(m) + row_ink(
            row,
            vi,
            lineno,
            sign,
            lay,
        ),
{
    broadcast use {seen::group_seen, seen::lemma_ink_fill};

    reveal_strlit(" ");
    reveal_strlit("   ");
    assert(" "@ =~= text::fill(' ', 1));
    assert("   "@ =~= text::fill(' ', 3));
    let num = text::right_aligned(text::dec(lineno as nat), lay.gutter_width as int);
    let blank = text::fill(' ', bars::capped(lay.gutter_width + 4) as nat);
    assert(seen::ink(" "@ + num + " "@) =~= seen::ink(num));
    assert(seen::ink(" "@ + num) =~= seen::ink(num));
    let a = m.print("   "@);
    let k = row.len() as int;
    match sign {
        Some(s) => {
            assert(seen::ink(seq![s.ch] + " "@) =~= seen::ink(seq![s.ch]));
            let b = a.queue(Command::SetBackgroundColor(s.bg));
            let c = if vi == 0 {
                b.queue(Command::SetForegroundColor(Color::DarkGrey)).print(
                    " "@ + num + " "@,
                ).queue(Command::SetForegroundColor(s.color)).print(seq![s.ch] + " "@)
            } else {
                b.print(blank)
            };
            lemma_pieces(c, row, k, Some(s.bg));
        },
        None => {
            let c = if vi == 0 {
                a.queue(Command::SetForegroundColor(Color::DarkGrey)).print(" "@ + num).queue(
                    Command::ResetColor,
                ).print("   "@)
            } else {
                a.print(blank)
            };
            lemma_pieces(c, row, k, None);
        },
    }
    assert(seen::seen(diff::diff_row(m, row, vi, lineno, sign, lay)) =~= seen::seen(m) + row_ink(
        row,
        vi,
        lineno,
        sign,
        lay,
    ));
}

/// How three windows stand to each other: `a` on the first `k` rows, `b` on
/// those behind them, and `c` on all; `base` was shown before.
#[verifier::opaque]
spec fn three(a: Window, b: Window, c: Window, base: Seq<char>, k: u16) -> bool {
    let tail = seen::seen(b.canvas).skip(base.len() as int);
    &&& c.seen == b.seen
    &&& c.emitted == c.seen
    &&& c.seen <= k ==> a == c && b.emitted == 0
    &&& c.seen >= k ==> a.emitted == k && b.emitted == c.seen - k
    &&& seen::seen(b.canvas) == base + tail
    &&& seen::seen(c.canvas) == seen::seen(a.canvas) + tail
}

proof fn lemma_three_facts(a: Window, b: Window, c: Window, base: Seq<char>, k: u16)
    requires
        three(a, b, c, base, k),
    ensures
        c.seen == b.seen,
        c.emitted == c.seen,
        b.emitted <= c.emitted,
        c.seen <= k ==> a == c,
        c.seen >= k ==> a.emitted == k,
{
    reveal(three);
}

/// What a row adds to each of the three.
proof fn lemma_three(
    a: Window,
    b: Window,
    c: Window,
    da: Canvas,
    db: Canvas,
    dc: Canvas,
    x: Seq<char>,
    base: Seq<char>,
    k: u16,
)
    requires
        three(a, b, c, base, k),
        a.canvas == c.canvas ==> da == dc,
        seen::seen(db) == seen::seen(b.canvas) + x,
        seen::seen(dc) == seen::seen(c.canvas) + x,
        0 < k,
    ensures
        ({
            let a1 = diff::window_row(a, da, 0, k);
            let b1 = diff::window_row(b, db, k, u16::MAX);
            let c1 = diff::window_row(c, dc, 0, u16::MAX);
            &&& c.emitted <= c1.emitted
            &&& c1.emitted < u16::MAX ==> three(a1, b1, c1, base, k)
            &&& c1.emitted < u16::MAX && c.seen >= k ==> three(a, b1, c1, base, k)
        }),
{
    reveal(three);
    let c1 = diff::window_row(c, dc, 0, u16::MAX);
    if c1.emitted < u16::MAX && c.seen >= k {
        let b1 = diff::window_row(b, db, k, u16::MAX);
        let n = base.len() as int;
        let t0 = seen::seen(b.canvas).skip(n);
        let t1 = seen::seen(b1.canvas).skip(n);
        assert(t1 =~= t0 + x);
        assert(seen::seen(b1.canvas) =~= base + t1);
        assert(seen::seen(c1.canvas) =~= seen::seen(a.canvas) + t1);
    }
}

proof fn lemma_rows(
    a: Window,
    b: Window,
    c: Window,
    rows: Seq<Seq<Piece<Seq<char>>>>,
    n: int,
    lineno: int,
    sign: Option<Sign>,
    lay: DiffLayout,
    base: Seq<char>,
    k: u16,
)
    requires
        three(a, b, c, base, k),
        0 < k,
        c.emitted < u16::MAX,
    ensures
        ({
            let a1 = diff::window_rows(a, rows, n, lineno, sign, lay, 0, k);
            let b1 = diff::window_rows(b, rows, n, lineno, sign, lay, k, u16::MAX);
            let c1 = diff::window_rows(c, rows, n, lineno, sign, lay, 0, u16::MAX);
            &&& c.emitted <= c1.emitted
            &&& c1.emitted < u16::MAX ==> three(a1, b1, c1, base, k) && c.seen <= c1.seen
            &&& c1.emitted < u16::MAX && c.seen >= k ==> three(a, b1, c1, base, k)
        }),
    decreases n,
{
    if n > 0 {
        lemma_rows(a, b, c, rows, n - 1, lineno, sign, lay, base, k);
        let a0 = diff::window_rows(a, rows, n - 1, lineno, sign, lay, 0, k);
        let b0 = diff::window_rows(b, rows, n - 1, lineno, sign, lay, k, u16::MAX);
        let c0 = diff::window_rows(c, rows, n - 1, lineno, sign, lay, 0, u16::MAX);
        let row = rows[n - 1];
        let x = row_ink(row, n - 1, lineno, sign, lay);
        lemma_row_ink(b0.canvas, row, n - 1, lineno, sign, lay);
        lemma_row_ink(c0.canvas, row, n - 1, lineno, sign, lay);
        let da = diff::diff_row(a0.canvas, row, n - 1, lineno, sign, lay);
        let db = diff::diff_row(b0.canvas, row, n - 1, lineno, sign, lay);
        let dc = diff::diff_row(c0.canvas, row, n - 1, lineno, sign, lay);
        if c0.emitted < u16::MAX {
            lemma_three_facts(a0, b0, c0, base, k);
            lemma_three(a0, b0, c0, da, db, dc, x, base, k);
            if c.seen >= k {
                let df = diff::diff_row(a.canvas, row, n - 1, lineno, sign, lay);
                lemma_three(a, b0, c0, df, db, dc, x, base, k);
            }
        }
    }
}

proof fn lemma_frozen(
    w: Window,
    h: History,
    ls: Seq<Seq<char>>,
    n: int,
    start: int,
    lay: DiffLayout,
    skip: u16,
    limit: u16,
)
    requires
        w.emitted >= limit,
    ensures
        diff::window_lines(w, h, ls, n, start, None, lay, skip, limit) == w,
    decreases n,
{
    if n > 0 {
        lemma_frozen(w, h, ls, n - 1, start, lay, skip, limit);
    }
}

proof fn lemma_lines(
    a: Window,
    b: Window,
    c: Window,
    h: History,
    ls: Seq<Seq<char>>,
    n: int,
    start: int,
    lay: DiffLayout,
    base: Seq<char>,
    k: u16,
)
    requires
        three(a, b, c, base, k),
        0 < k,
        c.emitted < u16::MAX,
    ensures
        ({
            let a1 = diff::window_lines(a, h, ls, n, start, None, lay, 0, k);
            let b1 = diff::window_lines(b, h, ls, n, start, None, lay, k, u16::MAX);
            let c1 = diff::window_lines(c, h, ls, n, start, None, lay, 0, u16::MAX);
            &&& c.emitted <= c1.emitted
            &&& c1.emitted < u16::MAX ==> three(a1, b1, c1, base, k) && c.seen <= c1.seen
            &&& c1.emitted < u16::MAX && c.seen >= k ==> three(a, b1, c1, base, k)
        }),
    decreases n,
{
    if n > 0 {
        lemma_lines(a, b, c, h, ls, n - 1, start, lay, base, k);
        let a0 = diff::window_lines(a, h, ls, n - 1, start, None, lay, 0, k);
        let b0 = diff::window_lines(b, h, ls, n - 1, start, None, lay, k, u16::MAX);
        let c0 = diff::window_lines(c, h, ls, n - 1, start, None, lay, 0, u16::MAX);
        lemma_three_facts(a, b, c, base, k);
        if c0.emitted < u16::MAX {
            lemma_three_facts(a0, b0, c0, base, k);
            let hn = highlight::after_lines(h, ls, n - 1);
            let rows = highlight::split_rows(
                highlight::line_pieces(hn, ls[n - 1]),
                lay.max_content as int,
            );
            let no = bars::capped(start + n);
            let m = rows.len() as int;
            lemma_rows(a0, b0, c0, rows, m, no, None, lay, base, k);
            if c.seen >= k {
                lemma_rows(a, b0, c0, rows, m, no, None, lay, base, k);
            }
        }
    }
}

/// A file in two windows, one on the first rows and one on those behind
/// them, shows what it shows as a whole, and takes as many rows.
pub proof fn law_windows_make_up_the_file(
    m: Canvas,
    ls: Seq<Seq<char>>,
    ext: Seq<char>,
    k: u16,
    term_width: usize,
)
    requires
        0 < k,
        diff::file_window(m, ls, ext, 0, 0, term_width).emitted < u16::MAX,
    ensures
        ({
            let a = diff::file_window(m, ls, ext, 0, k, term_width);
            let b = diff::file_window(m, ls, ext, k, 0, term_width);
            let c = diff::file_window(m, ls, ext, 0, 0, term_width);
            &&& a.emitted == if c.emitted <= k {
                c.emitted
            } else {
                k
            }
            &&& a.emitted + b.emitted == c.emitted
            &&& seen::seen(c.canvas) == seen::seen(a.canvas) + seen::seen(b.canvas).skip(
                seen::seen(m).len() as int,
            )
        }),
{
    let w = Window { canvas: m, seen: 0, emitted: 0 };
    let base = seen::seen(m);
    assert(base.skip(base.len() as int) =~= seq![]);
    assert(base + Seq::<char>::empty() =~= base);
    reveal(three);
    assert(three(w, w, w, base, k));
    lemma_lines(
        w,
        w,
        w,
        highlight::fresh(highlight::chosen_syntax(ext, None)),
        ls,
        ls.len() as int,
        0,
        diff::file_layout(ls.len() as int, term_width),
        base,
        k,
    );
}

// ── Differences ──────────────────────────────────────────────────────────

/// Two printings of a difference stand at the same place.
spec fn abreast(a: DiffState, b: DiffState) -> bool {
    a == (DiffState { window: a.window, ..b })
}

spec fn three_states(a: DiffState, b: DiffState, c: DiffState, base: Seq<char>, k: u16) -> bool {
    &&& three(a.window, b.window, c.window, base, k)
    &&& abreast(b, c)
    &&& c.window.seen < k ==> abreast(a, c)
}

proof fn lemma_gap(
    a: DiffState,
    b: DiffState,
    c: DiffState,
    lay: DiffLayout,
    base: Seq<char>,
    k: u16,
)
    requires
        three(a.window, b.window, c.window, base, k),
        abreast(b, c),
        abreast(a, c) || c.window.seen >= k,
        0 < k,
        c.window.emitted < u16::MAX,
    ensures
        ({
            let a1 = diff::gap_mark(a, lay, 0, k);
            let b1 = diff::gap_mark(b, lay, k, u16::MAX);
            let c1 = diff::gap_mark(c, lay, 0, u16::MAX);
            &&& c.window.emitted <= c1.window.emitted
            &&& abreast(b1, c1)
            &&& abreast(a, c) ==> abreast(a1, c1)
            &&& c1.window.emitted < u16::MAX ==> c.window.seen <= c1.window.seen
            &&& c1.window.emitted < u16::MAX && abreast(a, c) ==> three(
                a1.window,
                b1.window,
                c1.window,
                base,
                k,
            )
            &&& c1.window.emitted < u16::MAX && c.window.seen >= k ==> three(
                a.window,
                b1.window,
                c1.window,
                base,
                k,
            )
        }),
{
    broadcast use seen::group_seen;

    if c.pending {
        let dots = text::right_aligned("..."@, bars::capped(lay.gutter_width + 1));
        let x = seen::ink("   "@) + seen::ink(dots);
        let grey = Command::SetForegroundColor(Color::DarkGrey);
        let da = a.window.canvas.print("   "@).queue(grey).print(dots).queue(
            Command::ResetColor,
        ).crlf();
        let db = b.window.canvas.print("   "@).queue(grey).print(dots).queue(
            Command::ResetColor,
        ).crlf();
        let dc = c.window.canvas.print("   "@).queue(grey).print(dots).queue(
            Command::ResetColor,
        ).crlf();
        assert(seen::seen(db) =~= seen::seen(b.window.canvas) + x);
        assert(seen::seen(dc) =~= seen::seen(c.window.canvas) + x);
        lemma_three(a.window, b.window, c.window, da, db, dc, x, base, k);
    }
}

proof fn lemma_line(
    a: Window,
    b: Window,
    c: Window,
    h: History,
    line: Seq<char>,
    no: int,
    sign: Option<Sign>,
    lay: DiffLayout,
    base: Seq<char>,
    k: u16,
)
    requires
        three(a, b, c, base, k),
        0 < k,
        c.emitted < u16::MAX,
    ensures
        ({
            let a1 = diff::window_line(a, h, line, no, sign, lay, 0, k);
            let b1 = diff::window_line(b, h, line, no, sign, lay, k, u16::MAX);
            let c1 = diff::window_line(c, h, line, no, sign, lay, 0, u16::MAX);
            &&& c.emitted <= c1.emitted
            &&& c1.emitted < u16::MAX ==> three(a1, b1, c1, base, k) && c.seen <= c1.seen
            &&& c1.emitted < u16::MAX && c.seen >= k ==> three(a, b1, c1, base, k)
        }),
{
    let rows = highlight::split_rows(highlight::line_pieces(h, line), lay.max_content as int);
    lemma_rows(a, b, c, rows, rows.len() as int, no, sign, lay, base, k);
}

proof fn lemma_full_rows(
    w: Window,
    rows: Seq<Seq<Piece<Seq<char>>>>,
    n: int,
    lineno: int,
    sign: Option<Sign>,
    lay: DiffLayout,
)
    requires
        w.emitted >= u16::MAX,
    ensures
        diff::window_rows(w, rows, n, lineno, sign, lay, 0, u16::MAX).emitted >= u16::MAX,
    decreases n,
{
    if n > 0 {
        lemma_full_rows(w, rows, n - 1, lineno, sign, lay);
    }
}

proof fn lemma_step(
    a: DiffState,
    b: DiffState,
    c: DiffState,
    tag: ChangeTag,
    line: Seq<char>,
    visible: bool,
    v: DiffView,
    lay: DiffLayout,
    base: Seq<char>,
    k: u16,
)
    requires
        three_states(a, b, c, base, k),
        0 < k,
        c.window.emitted < u16::MAX,
    ensures
        ({
            let a1 = diff::diff_step(a, tag, line, visible, v, lay, 0, k);
            let b1 = diff::diff_step(b, tag, line, visible, v, lay, k, u16::MAX);
            let c1 = diff::diff_step(c, tag, line, visible, v, lay, 0, u16::MAX);
            &&& c.window.emitted <= c1.window.emitted
            &&& c1.window.emitted < u16::MAX ==> three_states(a1, b1, c1, base, k)
        }),
{
    lemma_three_facts(a.window, b.window, c.window, base, k);
    let a1 = diff::diff_step(a, tag, line, visible, v, lay, 0, k);
    let b1 = diff::diff_step(b, tag, line, visible, v, lay, k, u16::MAX);
    let c1 = diff::diff_step(c, tag, line, visible, v, lay, 0, u16::MAX);
    lemma_gap(a, b, c, lay, base, k);
    let ag = if c.window.seen >= k {
        a
    } else {
        diff::gap_mark(a, lay, 0, k)
    };
    let bg = diff::gap_mark(b, lay, k, u16::MAX);
    let cg = diff::gap_mark(c, lay, 0, u16::MAX);
    let (h, no, sign) = match tag {
        ChangeTag::Equal => (cg.h_new, bars::capped(cg.new_no + 1), None),
        ChangeTag::Delete => (
            cg.h_old,
            bars::capped(cg.old_no + 1),
            Some(diff::delete_sign()),
        ),
        ChangeTag::Insert => (
            cg.h_new,
            bars::capped(cg.new_no + 1),
            Some(diff::insert_sign()),
        ),
    };
    let cl = diff::window_line(cg.window, h, line, no, sign, lay, 0, u16::MAX);
    if cg.window.emitted < u16::MAX {
        lemma_line(ag.window, bg.window, cg.window, h, line, no, sign, lay, base, k);
        if c1.window.emitted < u16::MAX {
            if c.window.seen >= k {
                assert(a1 == a);
                assert(three(a1.window, b1.window, c1.window, base, k));
            } else {
                assert(a == c);
                assert(three(a1.window, b1.window, c1.window, base, k));
                lemma_three_facts(a1.window, b1.window, c1.window, base, k);
            }
        }
    } else {
        let rows = highlight::split_rows(highlight::line_pieces(h, line), lay.max_content as int);
        lemma_full_rows(cg.window, rows, rows.len() as int, no, sign, lay);
        assert(cl.emitted >= u16::MAX);
    }
}

proof fn lemma_steps(
    a: DiffState,
    b: DiffState,
    c: DiffState,
    cs: Seq<(ChangeTag, Seq<char>)>,
    n: int,
    v: DiffView,
    lay: DiffLayout,
    base: Seq<char>,
    k: u16,
)
    requires
        three_states(a, b, c, base, k),
        0 < k,
        c.window.emitted < u16::MAX,
    ensures
        ({
            let a1 = diff::diff_steps(a, cs, n, v, lay, 0, k);
            let b1 = diff::diff_steps(b, cs, n, v, lay, k, u16::MAX);
            let c1 = diff::diff_steps(c, cs, n, v, lay, 0, u16::MAX);
            &&& c.window.emitted <= c1.window.emitted
            &&& c1.window.emitted < u16::MAX ==> three_states(a1, b1, c1, base, k)
        }),
    decreases n,
{
    if n > 0 {
        lemma_steps(a, b, c, cs, n - 1, v, lay, base, k);
        let a0 = diff::diff_steps(a, cs, n - 1, v, lay, 0, k);
        let b0 = diff::diff_steps(b, cs, n - 1, v, lay, k, u16::MAX);
        let c0 = diff::diff_steps(c, cs, n - 1, v, lay, 0, u16::MAX);
        if c0.window.emitted < u16::MAX {
            lemma_step(
                a0,
                b0,
                c0,
                cs[n - 1].0,
                diff::change_text(cs[n - 1].1),
                diff::near_change(cs, n - 1, diff::CONTEXT as int),
                v,
                lay,
                base,
                k,
            );
        }
    }
}

/// A difference in two windows, one on the first rows and one on those behind
/// them, shows what it shows as a whole, and takes as many rows.
pub proof fn law_windows_make_up_the_difference(
    m: Canvas,
    file: Seq<char>,
    old_text: Seq<char>,
    new_text: Seq<char>,
    ext: Seq<char>,
    anchor: Seq<char>,
    k: u16,
    term_width: usize,
)
    requires
        0 < k,
        diff::inline_diff(m, file, old_text, new_text, ext, anchor, 0, 0, term_width).1 < u16::MAX,
    ensures
        ({
            let a = diff::inline_diff(m, file, old_text, new_text, ext, anchor, 0, k, term_width);
            let b = diff::inline_diff(m, file, old_text, new_text, ext, anchor, k, 0, term_width);
            let c = diff::inline_diff(m, file, old_text, new_text, ext, anchor, 0, 0, term_width);
            &&& a.1 == if c.1 <= k {
                c.1
            } else {
                k
            }
            &&& a.1 + b.1 == c.1
            &&& seen::seen(c.0) == seen::seen(a.0) + seen::seen(b.0).skip(
                seen::seen(m).len() as int,
            )
        }),
{
    let cs = diff::line_changes(old_text, new_text);
    let v = diff::changes_part(file, cs, diff::lookup_text(old_text, new_text, anchor));
    let ls = highlight::untabbed_lines(text::lines_of(file));
    let count = ls.len() as int;
    let lay = diff::diff_layout(v.max_lineno, term_width);
    let h0 = highlight::after_lines(
        highlight::fresh(highlight::chosen_syntax(ext, None)),
        ls,
        table::smaller(v.view_start, count),
    );
    let to = table::smaller(table::smaller(v.start_line, v.first_mod), count);
    let from = table::smaller(v.view_start, to);
    let before = ls.subrange(from, to);
    let w = Window { canvas: m, seen: 0, emitted: 0 };
    let base = seen::seen(m);
    assert(base.skip(base.len() as int) =~= seq![]);
    assert(base + Seq::<char>::empty() =~= base);
    reveal(three);
    assert(three(w, w, w, base, k));
    lemma_lines(w, w, w, h0, before, to - from, from, lay, base, k);
    let wa = diff::window_lines(w, h0, before, to - from, from, None, lay, 0, k);
    let wb = diff::window_lines(w, h0, before, to - from, from, None, lay, k, u16::MAX);
    let wc = diff::window_lines(w, h0, before, to - from, from, None, lay, 0, u16::MAX);
    let h = highlight::after_lines(h0, before, to - from);
    let da = state_at(wa, v, h);
    let db = state_at(wb, v, h);
    let dc = state_at(wc, v, h);
    let n = cs.len() as int;
    let after = bars::capped(v.start_line + text::lines_of(anchor).len());
    let end = table::smaller(v.view_end, count);
    let rest = ls.subrange(after, end);
    let ec = diff::diff_steps(dc, cs, n, v, lay, 0, u16::MAX);
    if wc.emitted >= u16::MAX {
        lemma_full_steps(dc, cs, n, v, lay);
        lemma_frozen(ec.window, ec.h_new, rest, end - after, after, lay, 0, u16::MAX);
    } else {
        lemma_steps(da, db, dc, cs, n, v, lay, base, k);
        let ea = diff::diff_steps(da, cs, n, v, lay, 0, k);
        let eb = diff::diff_steps(db, cs, n, v, lay, k, u16::MAX);
        if ec.window.emitted >= u16::MAX {
            lemma_frozen(ec.window, ec.h_new, rest, end - after, after, lay, 0, u16::MAX);
        } else if after < end {
            lemma_lines(
                ea.window,
                eb.window,
                ec.window,
                ec.h_new,
                rest,
                end - after,
                after,
                lay,
                base,
                k,
            );
            if ec.window.seen >= k {
                lemma_frozen(ea.window, ea.h_new, rest, end - after, after, lay, 0, k);
            }
        }
    }
}

spec fn state_at(w: Window, v: DiffView, h: History) -> DiffState {
    DiffState {
        window: w,
        old_no: v.start_line,
        new_no: v.start_line,
        pending: false,
        any: w.seen > 0,
        h_old: h,
        h_new: h,
    }
}

proof fn lemma_full_steps(
    d: DiffState,
    cs: Seq<(ChangeTag, Seq<char>)>,
    n: int,
    v: DiffView,
    lay: DiffLayout,
)
    requires
        d.window.emitted >= u16::MAX,
    ensures
        diff::diff_steps(d, cs, n, v, lay, 0, u16::MAX) == d,
    decreases n,
{
    if n > 0 {
        lemma_full_steps(d, cs, n - 1, v, lay);
    }
}

} // verus!
