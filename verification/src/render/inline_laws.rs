//! What a reader sees of inline markdown: the text without its marks, in
//! one line or broken into several.

use vstd::prelude::*;

use crate::render::inline_md;
use crate::render::inline_md::Mark;
use crate::render::out::{Attribute, Canvas, Color, Command};
use crate::render::seen;
use crate::render::styled;
use crate::text;
use crate::theme;

verus! {

// ── Marks ────────────────────────────────────────────────────────────────

/// Whether a text holds no mark of a span.
pub open spec fn unmarked(s: Seq<char>) -> bool {
    forall|i: int| 0 <= i < s.len() ==> #[trigger] s[i] != '*' && s[i] != '`'
}

proof fn lemma_unmarked_from(s: Seq<char>, i: int)
    requires
        0 <= i <= s.len(),
        unmarked(s),
    ensures
        inline_md::stripped_from(s, i) == s.skip(i),
    decreases s.len() - i,
{
    if i < s.len() {
        inline_md::lemma_stretch(s, i);
        assert(s[i] != '*');
        lemma_unmarked_from(s, i + 1);
        assert(s.subrange(i, i + 1) + s.skip(i + 1) =~= s.skip(i));
    } else {
        assert(s.skip(i) =~= seq![]);
    }
}

/// A text without marks is shown as it is.
pub proof fn law_unmarked_text_is_plain(s: Seq<char>)
    requires
        unmarked(s),
    ensures
        inline_md::stripped(s) == s,
{
    lemma_unmarked_from(s, 0);
    assert(s.skip(0) =~= s);
}

proof fn lemma_stars_after(s: Seq<char>, from: int, at: int)
    requires
        0 <= from <= at,
        at + 1 < s.len(),
        s[at] == '*',
        s[at + 1] == '*',
        forall|i: int| from <= i < at ==> s[i] != '*',
    ensures
        inline_md::stars_from(s, from) == at,
    decreases at - from,
{
    if from < at {
        lemma_stars_after(s, from + 1, at);
    }
}

proof fn lemma_char_after(s: Seq<char>, c: char, from: int, at: int)
    requires
        0 <= from <= at < s.len(),
        s[at] == c,
        forall|i: int| from <= i < at ==> s[i] != c,
    ensures
        text::char_from(s, c, from) == at,
    decreases at - from,
{
    if from < at {
        lemma_char_after(s, c, from + 1, at);
    }
}

proof fn lemma_none_after(s: Seq<char>, from: int)
    requires
        0 <= from <= s.len(),
        forall|i: int| from <= i < s.len() ==> s[i] != '*' && s[i] != '`',
    ensures
        inline_md::stripped_from(s, from) == s.skip(from),
    decreases s.len() - from,
{
    if from < s.len() {
        inline_md::lemma_stretch(s, from);
        lemma_none_after(s, from + 1);
        assert(s.subrange(from, from + 1) + s.skip(from + 1) =~= s.skip(from));
    } else {
        assert(s.skip(from) =~= seq![]);
    }
}

/// Text between pairs of stars is bold, between stars it is italic, between
/// backquotes it is code; the marks themselves are not shown, and what stands
/// around them is.
pub proof fn law_spans_lose_their_marks(a: Seq<char>, b: Seq<char>, c: Seq<char>)
    requires
        unmarked(a),
        unmarked(b),
        unmarked(c),
        b.len() > 0,
    ensures
        ({
            let s = a + seq!['*', '*'] + b + seq!['*', '*'] + c;
            &&& inline_md::stripped(s) == a + b + c
            &&& inline_md::stretch_at(s, a.len() as int).mark is Bold
        }),
        ({
            let s = a + seq!['*'] + b + seq!['*'] + c;
            &&& inline_md::stripped(s) == a + b + c
            &&& inline_md::stretch_at(s, a.len() as int).mark is Italic
        }),
        ({
            let s = a + seq!['`'] + b + seq!['`'] + c;
            &&& inline_md::stripped(s) == a + b + c
            &&& inline_md::stretch_at(s, a.len() as int).mark is Code
        }),
{
    let n = a.len() as int;
    let k = b.len() as int;
    let s = a + seq!['*', '*'] + b + seq!['*', '*'] + c;
    assert forall|i: int| n + 2 <= i < n + 2 + k implies s[i] != '*' by {
        assert(s[i] == b[i - n - 2]);
    }
    lemma_stars_after(s, n + 2, n + 2 + k);
    assert(s.skip(s.len() - c.len()) =~= c);
    lemma_tail(s, c);
    assert(s.take(n) =~= a);
    lemma_lead(s, a);
    assert(s.subrange(n + 2, n + 2 + k) =~= b);
    assert(inline_md::stripped(s) =~= a + b + c);
    let s = a + seq!['*'] + b + seq!['*'] + c;
    assert(s[n + 1] == b[0]);
    assert forall|i: int| n + 1 <= i < n + 1 + k implies s[i] != '*' by {
        assert(s[i] == b[i - n - 1]);
    }
    lemma_char_after(s, '*', n + 1, n + 1 + k);
    assert(s.skip(s.len() - c.len()) =~= c);
    lemma_tail(s, c);
    assert(s.take(n) =~= a);
    lemma_lead(s, a);
    assert(s.subrange(n + 1, n + 1 + k) =~= b);
    assert(inline_md::stripped(s) =~= a + b + c);
    let s = a + seq!['`'] + b + seq!['`'] + c;
    assert forall|i: int| n + 1 <= i < n + 1 + k implies s[i] != '`' by {
        assert(s[i] == b[i - n - 1]);
    }
    lemma_char_after(s, '`', n + 1, n + 1 + k);
    assert(s.skip(s.len() - c.len()) =~= c);
    lemma_tail(s, c);
    assert(s.take(n) =~= a);
    lemma_lead(s, a);
    assert(s.subrange(n + 1, n + 1 + k) =~= b);
    assert(inline_md::stripped(s) =~= a + b + c);
}

proof fn lemma_tail(s: Seq<char>, c: Seq<char>)
    requires
        c.len() <= s.len(),
        s.skip(s.len() - c.len()) == c,
        unmarked(c),
    ensures
        inline_md::stripped_from(s, s.len() - c.len()) == c,
{
    let k = s.len() - c.len();
    assert forall|i: int| k <= i < s.len() implies s[i] != '*' && s[i] != '`' by {
        assert(s[i] == c[i - k]);
    }
    lemma_none_after(s, k);
}

proof fn lemma_lead(s: Seq<char>, a: Seq<char>)
    requires
        a.len() <= s.len(),
        s.take(a.len() as int) == a,
        unmarked(a),
    ensures
        inline_md::stripped(s) == a + inline_md::stripped_from(s, a.len() as int),
{
    lemma_lead_from(s, a, 0);
    assert(a.skip(0) =~= a);
}

proof fn lemma_lead_from(s: Seq<char>, a: Seq<char>, i: int)
    requires
        0 <= i <= a.len() <= s.len(),
        s.take(a.len() as int) == a,
        unmarked(a),
    ensures
        inline_md::stripped_from(s, i) == a.skip(i) + inline_md::stripped_from(s, a.len() as int),
    decreases a.len() - i,
{
    if i < a.len() {
        assert(s[i] == s.take(a.len() as int)[i]);
        assert(a[i] != '*');
        inline_md::lemma_stretch(s, i);
        lemma_lead_from(s, a, i + 1);
        assert(s.subrange(i, i + 1) + a.skip(i + 1) =~= a.skip(i));
        assert(s.subrange(i, i + 1) + (a.skip(i + 1) + inline_md::stripped_from(
            s,
            a.len() as int,
        )) =~= a.skip(i) + inline_md::stripped_from(s, a.len() as int));
    } else {
        assert(a.skip(i) + inline_md::stripped_from(s, i) =~= inline_md::stripped_from(s, i));
    }
}

// ── Printing ─────────────────────────────────────────────────────────────

proof fn lemma_plain_run(s: Seq<char>, i: int)
    requires
        0 <= i <= s.len(),
    ensures
        inline_md::stripped_from(s, i) == s.subrange(i, styled::plain_end(s, i))
            + inline_md::stripped_from(s, styled::plain_end(s, i)),
    decreases s.len() - i,
{
    styled::lemma_plain_end(s, i);
    let end = styled::plain_end(s, i);
    if i < s.len() && inline_md::stretch_at(s, i).mark is Plain {
        inline_md::lemma_stretch(s, i);
        styled::lemma_plain_end(s, i + 1);
        lemma_plain_run(s, i + 1);
        let t = inline_md::stretch_at(s, i);
        assert(t.from == i && t.to == i + 1);
        assert(s.subrange(i, i + 1) + (s.subrange(i + 1, end) + inline_md::stripped_from(s, end))
            =~= s.subrange(i, end) + inline_md::stripped_from(s, end));
    } else {
        assert(s.subrange(i, i) + inline_md::stripped_from(s, i) =~= inline_md::stripped_from(
            s,
            i,
        ));
    }
}

/// Whether `t` is printed in pieces, none of which is `bar`.
pub open spec fn in_pieces(ps: Seq<Seq<char>>, t: Seq<char>, bar: char) -> bool {
    &&& seen::flat(ps) == t
    &&& forall|i: int| 0 <= i < ps.len() ==> #[trigger] ps[i] != seq![bar]
}

proof fn lemma_in_pieces_front(p: Seq<char>, ps: Seq<Seq<char>>, t: Seq<char>, bar: char)
    requires
        in_pieces(ps, t, bar),
        p != seq![bar],
    ensures
        in_pieces(seq![p] + ps, p + t, bar),
{
    let none = Seq::<Seq<char>>::empty();
    seen::lemma_flat_add(seq![p], ps);
    assert(seq![p] =~= none.push(p));
    seen::lemma_flat_push(none, p);
    assert(seen::flat(none) + p =~= p);
}

proof fn lemma_inline_from(m: Canvas, s: Seq<char>, i: int, dim: bool, accent: Color, bar: char) -> (ps:
    Seq<Seq<char>>)
    requires
        0 <= i <= s.len(),
        !s.contains(bar),
    ensures
        seen::prints(styled::inline_from(m, s, i, dim, accent)) == seen::prints(m) + ps,
        in_pieces(ps, inline_md::stripped_from(s, i), bar),
    decreases s.len() - i,
{
    broadcast use seen::group_prints;

    if i >= s.len() {
        let ps = Seq::<Seq<char>>::empty();
        assert(seen::prints(m) + ps =~= seen::prints(m));
        ps
    } else {
        let t = inline_md::stretch_at(s, i);
        inline_md::lemma_stretch(s, i);
        styled::lemma_plain_end(s, i);
        let end = styled::plain_end(s, i);
        let (mark, part, next) = if t.mark is Plain {
            (Mark::Plain, s.subrange(i, end), end)
        } else {
            (t.mark, s.subrange(t.from, t.to), t.next)
        };
        let a = styled::span_printed(m, mark, part, dim, accent);
        assert(seen::prints(a) == seen::prints(m).push(part));
        let rest = lemma_inline_from(a, s, next, dim, accent, bar);
        let at = if t.mark is Plain {
            i
        } else {
            t.from
        };
        if part == seq![bar] {
            assert(part.len() == 1);
            assert(part[0] == s[at]);
            assert(s[at] == bar);
        }
        lemma_in_pieces_front(part, rest, inline_md::stripped_from(s, next), bar);
        if t.mark is Plain {
            lemma_plain_run(s, i);
        }
        let ps = seq![part] + rest;
        assert(seen::prints(m).push(part) + rest =~= seen::prints(m) + ps);
        ps
    }
}

/// A line of inline markdown prints its text without the marks.
pub proof fn law_inline_text_is_printed(m: Canvas, s: Seq<char>, dim: bool, accent: Color, bar: char) -> (ps:
    Seq<Seq<char>>)
    requires
        !s.contains(bar),
    ensures
        seen::prints(styled::inline_printed(m, s, dim, accent)) == seen::prints(m) + ps,
        in_pieces(ps, inline_md::stripped(s), bar),
        seen::seen(styled::inline_printed(m, s, dim, accent)) == seen::seen(m) + seen::ink(
            inline_md::stripped(s),
        ),
{
    broadcast use seen::lemma_ink_add;

    let ps = lemma_inline_from(m, s, 0, dim, accent, bar);
    seen::lemma_flat_add(seen::prints(m), ps);
    ps
}

// ── Broken lines ─────────────────────────────────────────────────────────

proof fn lemma_stars_part(s: Seq<char>, a: int, b: int, from: int)
    requires
        0 <= a <= from,
        a <= b <= s.len(),
    ensures
        ({
            let p = inline_md::stars_from(s, from);
            let q = inline_md::stars_from(s.subrange(a, b), from - a);
            if p + 2 <= b {
                q == p - a
            } else {
                q == b - a
            }
        }),
    decreases s.len() - from,
{
    let u = s.subrange(a, b);
    if from + 1 >= s.len() {
    } else if from + 1 >= b {
        inline_md::lemma_stars_from(s, from);
    } else if s[from] == '*' && s[from + 1] == '*' {
        assert(u[from - a] == '*' && u[from - a + 1] == '*');
    } else {
        assert(u[from - a] == s[from] && u[from - a + 1] == s[from + 1]);
        lemma_stars_part(s, a, b, from + 1);
    }
}

proof fn lemma_char_part(s: Seq<char>, c: char, a: int, b: int, from: int)
    requires
        0 <= a <= from <= b <= s.len(),
    ensures
        ({
            let p = text::char_from(s, c, from);
            let q = text::char_from(s.subrange(a, b), c, from - a);
            if p < b {
                q == p - a
            } else {
                q == b - a
            }
        }),
    decreases b - from,
{
    let u = s.subrange(a, b);
    text::lemma_char_from(s, c, from);
    if from < b {
        assert(u[from - a] == s[from]);
        if s[from] != c {
            lemma_char_part(s, c, a, b, from + 1);
        }
    }
}

/// A stretch in a part of a text that ends outside all spans.
proof fn lemma_stretch_part(s: Seq<char>, a: int, b: int, i: int)
    requires
        0 <= a <= i < b <= s.len(),
        b == s.len() || inline_md::plain_from(s, i, b),
    ensures
        ({
            let t = inline_md::stretch_at(s, i);
            let u = inline_md::stretch_at(s.subrange(a, b), i - a);
            &&& u.mark == t.mark
            &&& u.from == t.from - a
            &&& u.to == t.to - a
            &&& u.next == t.next - a
            &&& t.next <= b
            &&& b == s.len() || inline_md::plain_from(s, t.next, b)
        }),
{
    let p = s.subrange(a, b);
    let t = inline_md::stretch_at(s, i);
    inline_md::lemma_stretch(s, i);
    lemma_stars_part(s, a, b, i + 2);
    inline_md::lemma_stars_from(s, i + 2);
    lemma_char_part(s, '*', a, b, i + 1);
    lemma_char_part(s, '`', a, b, i + 1);
    assert(p[i - a] == s[i]);
    if i + 1 < b {
        assert(p[i - a + 1] == s[i + 1]);
    }
    if b < s.len() {
        assert(inline_md::plain_from(s, t.next, b));
        assert(t.next <= b);
    }
}

proof fn lemma_stripped_part(s: Seq<char>, a: int, b: int, i: int)
    requires
        0 <= a <= i <= b <= s.len(),
        b == s.len() || inline_md::plain_from(s, i, b),
    ensures
        inline_md::stripped_from(s, i) == inline_md::stripped_from(s.subrange(a, b), i - a)
            + inline_md::stripped_from(s, b),
    decreases b - i,
{
    let p = s.subrange(a, b);
    if i < b {
        let t = inline_md::stretch_at(s, i);
        inline_md::lemma_stretch(s, i);
        lemma_stretch_part(s, a, b, i);
        lemma_stripped_part(s, a, b, t.next);
        assert(p.subrange(t.from - a, t.to - a) =~= s.subrange(t.from, t.to));
        let x = s.subrange(t.from, t.to);
        let y = inline_md::stripped_from(p, t.next - a);
        let z = inline_md::stripped_from(s, b);
        assert(x + (y + z) =~= (x + y) + z);
        assert(inline_md::stripped_from(p, i - a) == x + y);
    } else {
        assert(inline_md::stripped_from(p, i - a) =~= seq![]);
        assert(seq![] + inline_md::stripped_from(s, b) =~= inline_md::stripped_from(s, b));
    }
}

proof fn lemma_plain_later(s: Seq<char>, i: int, j: int, k: int)
    requires
        0 <= i <= j < k,
        inline_md::plain_from(s, i, j),
        inline_md::plain_from(s, i, k),
    ensures
        inline_md::plain_from(s, j + 1, k),
    decreases j - i,
{
    inline_md::lemma_stretch(s, i);
    if i < j {
        let next = inline_md::stretch_at(s, i).next;
        assert(inline_md::plain_from(s, next, j));
        assert(inline_md::plain_from(s, next, k));
        lemma_plain_later(s, next, j, k);
    }
}

proof fn lemma_plain_bound(s: Seq<char>, i: int, k: int)
    requires
        inline_md::plain_from(s, i, k),
    ensures
        k < s.len(),
        inline_md::stretch_at(s, k).mark is Plain,
        inline_md::stretch_at(s, k).next == k + 1,
        inline_md::stretch_at(s, k).from == k,
        inline_md::stretch_at(s, k).to == k + 1,
    decreases s.len() - i,
{
    inline_md::lemma_stretch(s, i);
    if i < k {
        lemma_plain_bound(s, inline_md::stretch_at(s, i).next, k);
    } else {
        assert(0 <= i);
    }
}

/// What can be seen of lines of inline markdown.
pub open spec fn lines_ink(lines: Seq<Seq<char>>, n: int) -> Seq<char>
    decreases n,
{
    if n <= 0 {
        seq![]
    } else {
        lines_ink(lines, n - 1) + seen::ink(inline_md::stripped(lines[n - 1]))
    }
}

proof fn lemma_lines_ink_push(lines: Seq<Seq<char>>, l: Seq<char>, n: int)
    requires
        0 <= n <= lines.len(),
    ensures
        lines_ink(lines.push(l), n) == lines_ink(lines, n),
    decreases n,
{
    if n > 0 {
        lemma_lines_ink_push(lines, l, n - 1);
    }
}

proof fn lemma_cell_ink(s: Seq<char>, n: int, max: int)
    requires
        0 <= n <= s.len(),
    ensures
        ({
            let c = inline_md::cell_lines(s, n, max);
            &&& 0 <= c.start <= n
            &&& c.start == 0 || inline_md::breakable(s, c.start - 1)
            &&& c.last >= 0 ==> c.start <= c.last < n && inline_md::breakable(s, c.last)
            &&& seen::ink(inline_md::stripped(s)) == lines_ink(c.done, c.done.len() as int)
                + seen::ink(inline_md::stripped_from(s, c.start))
        }),
    decreases n,
{
    broadcast use seen::lemma_ink_add;

    if n <= 0 {
        assert(seen::ink(inline_md::stripped(s)) =~= lines_ink(seq![], 0) + seen::ink(
            inline_md::stripped(s),
        ));
    } else {
        lemma_cell_ink(s, n - 1, max);
        let c = inline_md::cell_lines(s, n - 1, max);
        let last = if inline_md::breakable(s, n - 1) {
            n - 1
        } else {
            c.last
        };
        if inline_md::visible_columns(s.subrange(c.start, n)) > max && last >= 0 {
            let line = s.subrange(c.start, last);
            if c.start > 0 {
                lemma_plain_later(s, 0, c.start - 1, last);
            }
            assert(inline_md::plain_from(s, c.start, last));
            lemma_plain_bound(s, 0, last);
            lemma_stripped_part(s, c.start, last, c.start);
            assert(inline_md::stripped_from(s, last) == s.subrange(last, last + 1)
                + inline_md::stripped_from(s, last + 1));
            assert(s.subrange(last, last + 1) =~= text::fill(' ', 1));
            seen::lemma_ink_fill(1);
            lemma_lines_ink_push(c.done, line, c.done.len() as int);
            let d = inline_md::cell_lines(s, n, max);
            assert(d.done == c.done.push(line));
            let a = lines_ink(c.done, c.done.len() as int);
            let l = seen::ink(inline_md::stripped(line));
            let z = seen::ink(inline_md::stripped_from(s, last + 1));
            assert(seen::ink(inline_md::stripped_from(s, last)) =~= z);
            assert(a + (l + z) =~= (a + l) + z);
        }
    }
}

/// The lines that a cell is broken into show what the cell shows: no visible
/// character is lost at a break, and no span is broken.
pub proof fn law_cell_lines_show_the_cell(s: Seq<char>, max: int)
    ensures
        lines_ink(inline_md::cell_wrapped(s, max), inline_md::cell_wrapped(s, max).len() as int)
            == seen::ink(inline_md::stripped(s)),
{
    let w = inline_md::cell_wrapped(s, max);
    if max == 0 {
        assert(lines_ink(w, 0) == Seq::<char>::empty());
        assert(lines_ink(w, 1) =~= seen::ink(inline_md::stripped(s)));
    } else {
        let n = s.len() as int;
        lemma_cell_ink(s, n, max);
        let c = inline_md::cell_lines(s, n, max);
        if c.start < s.len() {
            lemma_stripped_part(s, c.start, n, c.start);
            assert(s.subrange(c.start, n) =~= s.skip(c.start));
            assert(inline_md::stripped_from(s, n) =~= seq![]);
            assert(inline_md::stripped_from(s, c.start) =~= inline_md::stripped(s.skip(c.start)));
            lemma_lines_ink_push(c.done, s.skip(c.start), c.done.len() as int);
        } else {
            assert(inline_md::stripped_from(s, c.start) =~= seq![]);
            assert(seen::ink(inline_md::stripped_from(s, c.start)) =~= seq![]);
            if c.done.len() == 0 {
                assert(lines_ink(c.done, 0) == Seq::<char>::empty());
                assert(lines_ink(w, 0) == Seq::<char>::empty());
                assert(inline_md::stripped(w[0]) =~= seq![]);
                assert(seen::ink(inline_md::stripped(w[0])) =~= seq![]);
                assert(lines_ink(w, 1) =~= seq![]);
            }
            assert(seen::ink(inline_md::stripped(s)) =~= lines_ink(
                c.done,
                c.done.len() as int,
            ));
        }
    }
}

proof fn lemma_behind_back(a: Seq<Command<Seq<char>>>, m: Canvas, dim: bool, on: Command<Seq<char>>)
    requires
        m.cmds == a,
    ensures
        seen::prints_behind(styled::back_to(m, dim).cmds, on) == seen::prints_behind(a, on),
{
    reveal(Canvas::queue);
    let r = Command::SetAttribute(Attribute::Reset);
    seen::lemma_behind_push(a, r, on);
    seen::lemma_behind_push(a.push(r), Command::ResetColor, on);
    seen::lemma_behind_push(
        a.push(r).push(Command::ResetColor),
        Command::SetAttribute(Attribute::Dim),
        on,
    );
}

proof fn lemma_behind_on(m: Canvas, t: Seq<char>, dim: bool, on: Command<Seq<char>>)
    requires
        !(on is Print),
    ensures
        seen::prints_behind(styled::back_to(m.queue(on).print(t), dim).cmds, on)
            == seen::prints_behind(m.cmds, on).push(t),
{
    reveal(Canvas::queue);
    reveal(Canvas::print);
    seen::lemma_behind_push(m.cmds, on, on);
    seen::lemma_behind_push(m.cmds.push(on), Command::Print(t), on);
    lemma_behind_back(m.queue(on).print(t).cmds, m.queue(on).print(t), dim, on);
}

/// A bold span is printed in bold, an italic one in italics, and code in the
/// accent colour.
pub proof fn law_marks_set_the_style(m: Canvas, t: Seq<char>, dim: bool, accent: Color)
    ensures
        ({
            let on = Command::SetAttribute(Attribute::Bold);
            seen::prints_behind(styled::span_printed(m, Mark::Bold, t, dim, accent).cmds, on)
                == seen::prints_behind(m.cmds, on).push(t)
        }),
        ({
            let on = Command::SetAttribute(Attribute::Italic);
            seen::prints_behind(styled::span_printed(m, Mark::Italic, t, dim, accent).cmds, on)
                == seen::prints_behind(m.cmds, on).push(t)
        }),
        ({
            let on = Command::SetForegroundColor(accent);
            seen::prints_behind(styled::span_printed(m, Mark::Code, t, dim, accent).cmds, on)
                == seen::prints_behind(m.cmds, on).push(t)
        }),
{
    lemma_behind_on(m, t, dim, Command::SetAttribute(Attribute::Bold));
    lemma_behind_on(m, t, dim, Command::SetAttribute(Attribute::Italic));
    lemma_behind_on(m, t, dim, Command::SetForegroundColor(accent));
}

/// A heading is printed in bold, and a quotation in italics without its
/// mark.
pub proof fn law_headings_and_quotations_stand_out(
    m: Canvas,
    lead: nat,
    body: Seq<char>,
    dim: bool,
    accent: Color,
)
    requires
        body.len() > 0,
        !text::is_white(body[0]),
    ensures
        ({
            let on = Command::SetAttribute(Attribute::Bold);
            let t = seq!['#'] + body;
            let line = text::fill(' ', lead) + t;
            seen::prints_behind(styled::styled_line(m, line, dim, accent).canvas.cmds, on)
                == seen::prints_behind(m.cmds, on).push(t)
        }),
        ({
            let on = Command::SetAttribute(Attribute::Italic);
            let line = text::fill(' ', lead) + (seq!['>'] + body);
            seen::prints_behind(styled::styled_line(m, line, dim, accent).canvas.cmds, on)
                == seen::prints_behind(m.cmds, on).push(body)
        }),
{
    reveal(Canvas::queue);
    let bold = Command::SetAttribute(Attribute::Bold);
    let italic = Command::SetAttribute(Attribute::Italic);
    let h = seq!['#'] + body;
    let q = seq!['>'] + body;
    lemma_lead_trimmed(lead, h);
    lemma_lead_trimmed(lead, q);
    let fg = Command::SetForegroundColor(Color::AnsiValue(theme::HEADING));
    seen::lemma_behind_push(m.cmds, fg, bold);
    lemma_behind_on(m.queue(fg), h, dim, bold);
    assert(q.skip(1) =~= body);
    lemma_lead_trimmed(0, body);
    assert(text::fill(' ', 0) + body =~= body);
    let d = Command::SetAttribute(Attribute::Dim);
    seen::lemma_behind_push(m.cmds, d, italic);
    lemma_behind_on(m.queue(d), body, dim, italic);
}

proof fn lemma_lead_trimmed(lead: nat, s: Seq<char>)
    requires
        s.len() > 0,
        !text::is_white(s[0]),
    ensures
        text::trim_front(text::fill(' ', lead) + s) == s,
    decreases lead,
{
    let t = text::fill(' ', lead) + s;
    if lead > 0 {
        lemma_lead_trimmed((lead - 1) as nat, s);
        assert(t[0] == ' ');
        assert(t.skip(1) =~= text::fill(' ', (lead - 1) as nat) + s);
    } else {
        assert(t =~= s);
    }
}

/// A count is told in digits, with the word for one thing or for many.
pub proof fn law_count_is_told(n: nat, one: Seq<char>, many: Seq<char>)
    ensures
        seen::ink(styled::counted(n, one, many)) == seen::ink(text::dec(n)) + seen::ink(
            if n == 1 {
                one
            } else {
                many
            },
        ),
{
    broadcast use {seen::lemma_ink_add, seen::lemma_ink_push, seen::lemma_ink_fill};

    reveal_strlit("1 ");
    reveal_strlit(" ");
    let none = Seq::<char>::empty();
    assert(" "@ =~= text::fill(' ', 1));
    if n == 1 {
        reveal_with_fuel(text::dec, 2);
        assert(text::dec(1) =~= none.push('1'));
        assert("1 "@ =~= text::dec(1) + " "@);
    }
    assert(seen::ink(styled::counted(n, one, many)) =~= seen::ink(text::dec(n)) + seen::ink(
        if n == 1 {
            one
        } else {
            many
        },
    ));
}

} // verus!
