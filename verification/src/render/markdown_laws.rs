//! What a reader sees of rendered markdown and code.

use vstd::prelude::*;

use crate::render::bars;
use crate::render::diff_laws;
use crate::render::diff_reading;
use crate::render::highlight;
use crate::render::highlight::{CodeLook, History, Piece};
use crate::render::inline_laws;
use crate::render::inline_md;
use crate::render::markdown;
use crate::render::markdown::{Md, MdLook};
use crate::render::out;
use crate::render::out::{Attribute, Canvas, Color, Command};
use crate::render::seen;
use crate::render::styled;
use crate::render::wrap;
use crate::render::wrap_laws;
use crate::text;
use crate::theme;

verus! {

// ── Text ─────────────────────────────────────────────────────────────────

/// Whether a text holds none of the characters that mean something in
/// markdown besides number signs, dashes and digits.
pub open spec fn plain(s: Seq<char>) -> bool {
    forall|i: int|
        0 <= i < s.len() ==> #[trigger] s[i] != '*' && s[i] != '`' && s[i] != '|' && s[i] != '>'
}

/// Whether what a line shows is more than a rule of dashes or underscores.
pub open spec fn no_rule(line: Seq<char>) -> bool {
    let t = seen::ink(line);
    t.len() > 0 ==> (exists|i: int| 0 <= i < t.len() && #[trigger] t[i] != '-') && (exists|i: int|
        0 <= i < t.len() && #[trigger] t[i] != '_')
}

proof fn lemma_plain_part(s: Seq<char>, a: int, b: int)
    requires
        plain(s),
        0 <= a <= b <= s.len(),
    ensures
        plain(s.subrange(a, b)),
{
    let p = s.subrange(a, b);
    assert forall|i: int| 0 <= i < p.len() implies #[trigger] p[i] != '*' && p[i] != '`' && p[i]
        != '|' && p[i] != '>' by {
        assert(p[i] == s[a + i]);
    }
}

proof fn lemma_digits_end(s: Seq<char>, i: int)
    requires
        0 <= i <= s.len(),
    ensures
        i <= styled::digits_end(s, i) <= s.len(),
    decreases s.len() - i,
{
    if i < s.len() && '0' <= s[i] && s[i] <= '9' {
        lemma_digits_end(s, i + 1);
    }
}

proof fn lemma_plain_unmarked(s: Seq<char>)
    requires
        plain(s),
    ensures
        inline_md::stripped(s) == s,
        !s.contains('|'),
{
    assert(inline_laws::unmarked(s)) by {
        assert forall|i: int| 0 <= i < s.len() implies #[trigger] s[i] != '*' && s[i] != '`' by {
            assert(s[i] != '*' && s[i] != '`' && s[i] != '|' && s[i] != '>');
        }
    }
    inline_laws::law_unmarked_text_is_plain(s);
    if s.contains('|') {
        let i = choose|i: int| 0 <= i < s.len() && s[i] == '|';
        assert(s[i] != '*' && s[i] != '|');
    }
}

/// Indentation, the marker of a list item, and text.
proof fn lemma_item_shown(
    m: Canvas,
    lead: Seq<char>,
    prefix: Seq<char>,
    body: Seq<char>,
    dim: bool,
    accent: Color,
)
    requires
        plain(body),
    ensures
        ({
            let a = if lead.len() > 0 {
                m.print(lead)
            } else {
                m
            };
            let b = if prefix.len() > 0 {
                a.queue(Command::SetAttribute(Attribute::Dim)).print(prefix).queue(
                    Command::SetAttribute(Attribute::Reset),
                ).queue(Command::ResetColor)
            } else {
                a
            };
            seen::seen(styled::inline_printed(b, body, dim, accent)) == seen::seen(m) + seen::ink(
                lead + prefix + body,
            )
        }),
{
    broadcast use seen::group_seen;

    lemma_plain_unmarked(body);
    let a = if lead.len() > 0 {
        m.print(lead)
    } else {
        m
    };
    if lead.len() == 0 {
        assert(seen::ink(lead) =~= seq![]);
    }
    assert(seen::seen(a) =~= seen::seen(m) + seen::ink(lead));
    let b = if prefix.len() > 0 {
        a.queue(Command::SetAttribute(Attribute::Dim)).print(prefix).queue(
            Command::SetAttribute(Attribute::Reset),
        ).queue(Command::ResetColor)
    } else {
        a
    };
    if prefix.len() == 0 {
        assert(seen::ink(prefix) =~= seq![]);
    }
    assert(seen::seen(b) =~= seen::seen(a) + seen::ink(prefix));
    let ps = inline_laws::law_inline_text_is_printed(b, body, dim, accent, '|');
    assert(seen::seen(m) + seen::ink(lead) + seen::ink(prefix) + seen::ink(body) =~= seen::seen(m)
        + seen::ink(lead + prefix + body));
}

/// A line of text without marks is shown as it is, be it a heading, an item
/// of a list, or neither.
pub proof fn law_plain_line_is_shown(m: Canvas, line: Seq<char>, dim: bool, accent: Color)
    requires
        plain(line),
    ensures
        seen::seen(styled::styled_line(m, line, dim, accent).canvas) == seen::seen(m) + seen::ink(
            line,
        ),
{
    let t = text::trim_front(line);
    styled::lemma_trim_front(line);
    let n = line.len() as int;
    let k = n - t.len();
    lemma_plain_part(line, k, n);
    assert(line.subrange(k, n) =~= t);
    if t.len() > 0 && t[0] == '#' {
        seen::lemma_ink_front(line);
        lemma_heading_shown(m, t, dim);
    } else {
        if t.len() > 0 {
            assert(t[0] != '>');
        }
        let p = styled::list_prefix_len(t);
        lemma_digits_end(t, 0);
        let lead = line.take(k);
        let prefix = t.take(p);
        let body = t.skip(p);
        assert(line =~= lead + prefix + body);
        lemma_plain_part(t, p, t.len() as int);
        assert(t.subrange(p, t.len() as int) =~= body);
        lemma_item_shown(m, lead, prefix, body, dim, accent);
    }
}

proof fn lemma_heading_shown(m: Canvas, t: Seq<char>, dim: bool)
    ensures
        seen::seen(
            styled::back_to(
                m.queue(Command::SetForegroundColor(Color::AnsiValue(theme::HEADING))).queue(
                    Command::SetAttribute(Attribute::Bold),
                ).print(t),
                dim,
            ),
        ) == seen::seen(m) + seen::ink(t),
{
    broadcast use seen::group_seen;

}

/// A quotation is shown without the sign before it.
pub proof fn law_quotation_is_shown(m: Canvas, t: Seq<char>, dim: bool, accent: Color)
    ensures
        seen::seen(styled::styled_line(m, seq!['>'] + t, dim, accent).canvas) == seen::seen(m)
            + seen::ink(t),
{
    broadcast use seen::group_seen;

    let line = seq!['>'] + t;
    assert(text::trim_front(line) == line);
    assert(line.skip(1) =~= t);
    seen::lemma_ink_front(t);
}

proof fn lemma_segments(m: Canvas, segs: Seq<Seq<char>>, n: int, look: MdLook)
    requires
        0 <= n <= segs.len(),
        look.boxed is None,
        seen::ink(look.indent@).len() == 0,
        forall|i: int| 0 <= i < segs.len() ==> plain(#[trigger] segs[i]),
    ensures
        seen::seen(markdown::md_segments(m, segs, n, look)) == seen::seen(m) + seen::ink(
            seen::flat(segs.take(n)),
        ),
    decreases n,
{
    broadcast use seen::group_seen;

    if n <= 0 {
        assert(segs.take(n) =~= seq![]);
        assert(seen::seen(m) + seen::ink(seen::flat(segs.take(n))) =~= seen::seen(m));
    } else {
        lemma_segments(m, segs, n - 1, look);
        let a = markdown::md_segments(m, segs, n - 1, look);
        let b = a.print(look.indent@);
        assert(seen::seen(b) =~= seen::seen(a));
        assert(plain(segs[n - 1]));
        law_plain_line_is_shown(b, segs[n - 1], look.dim, look.theme.accent_color());
        assert(segs.take(n) =~= segs.take(n - 1).push(segs[n - 1]));
        assert(seen::seen(markdown::md_segments(m, segs, n, look)) =~= seen::seen(m) + seen::ink(
            seen::flat(segs.take(n)),
        ));
    }
}

/// Pieces of a plain text are plain.
proof fn lemma_flat_plain(parts: Seq<Seq<char>>, k: int)
    requires
        plain(seen::flat(parts)),
        0 <= k < parts.len(),
    ensures
        plain(parts[k]),
    decreases parts.len(),
{
    let s = seen::flat(parts);
    let a = seen::flat(parts.drop_last());
    let b = parts.last();
    if k == parts.len() - 1 {
        lemma_plain_part(s, a.len() as int, s.len() as int);
        assert(s.subrange(a.len() as int, s.len() as int) =~= b);
    } else {
        lemma_plain_part(s, 0, a.len() as int);
        assert(s.subrange(0, a.len() as int) =~= a);
        lemma_flat_plain(parts.drop_last(), k);
        assert(parts.drop_last()[k] == parts[k]);
    }
}

/// A line is broken into the characters that it holds.
proof fn lemma_wrapped_plain(line: Seq<char>, width: int)
    requires
        plain(line),
        !line.contains('\n'),
        width >= 0,
    ensures
        forall|i: int|
            0 <= i < wrap::wrapped(line, width).len() ==> plain(
                #[trigger] wrap::wrapped(line, width)[i],
            ),
{
    let w = wrap::wrapped(line, width);
    if width > 0 {
        wrap_laws::law_wrap_keeps_characters(line, width);
        let parts = text::split_on(line, '\n');
        text::lemma_char_from(line, '\n', 0);
        let end = text::char_from(line, '\n', 0);
        if end < line.len() {
            assert(line.contains(line[end]));
        }
        assert(line.skip(0) =~= line);
        assert(parts =~= seq![line]);
        seen::lemma_flat_is_flatten(w);
        seen::lemma_flat_is_flatten(parts);
        let none = Seq::<Seq<char>>::empty();
        assert(parts =~= none.push(line));
        seen::lemma_flat_push(none, line);
        assert(seen::flat(none) + line =~= line);
        assert forall|i: int| 0 <= i < w.len() implies plain(#[trigger] w[i]) by {
            lemma_flat_plain(w, i);
        }
    }
}

proof fn lemma_ink_holds(s: Seq<char>, i: int)
    requires
        0 <= i < s.len(),
        !text::is_white(s[i]),
    ensures
        seen::ink(s).contains(s[i]),
    decreases s.len(),
{
    let a = seen::ink(s.drop_last());
    if i == s.len() - 1 {
        assert(seen::ink(s)[a.len() as int] == s[i]);
    } else {
        lemma_ink_holds(s.drop_last(), i);
        let k = choose|k: int| 0 <= k < a.len() && a[k] == s[i];
        assert(seen::ink(s)[k] == s[i]);
    }
}

proof fn lemma_ink_comes_from(s: Seq<char>, k: int) -> (i: int)
    requires
        0 <= k < seen::ink(s).len(),
    ensures
        0 <= i < s.len(),
        s[i] == seen::ink(s)[k],
        !text::is_white(s[i]),
    decreases s.len(),
{
    let a = seen::ink(s.drop_last());
    if !text::is_white(s.last()) && k == a.len() {
        s.len() - 1
    } else {
        lemma_ink_comes_from(s.drop_last(), k)
    }
}

proof fn lemma_no_rule(line: Seq<char>)
    requires
        plain(line),
        no_rule(line),
    ensures
        !styled::horizontal_rule(line),
{
    let t = text::trimmed(line);
    seen::lemma_ink_trimmed(line);
    let u = seen::ink(line);
    if styled::horizontal_rule(line) {
        let c = choose|c: char| (c == '-' || c == '*' || c == '_') && #[trigger] styled::rule_of(t, c);
        let i0 = choose|i: int| 0 <= i < t.len() && !styled::rule_gap(#[trigger] t[i]);
        assert(t[i0] == c);
        lemma_ink_holds(t, i0);
        assert(u.len() > 0);
        if c == '*' {
            let k = choose|k: int| 0 <= k < u.len() && u[k] == '*';
            let j = lemma_ink_comes_from(line, k);
            assert(line[j] != '*' && line[j] != '`');
        } else {
            assert forall|k: int| 0 <= k < u.len() implies #[trigger] u[k] == c by {
                let j = lemma_ink_comes_from(t, k);
                assert(styled::rule_gap(t[j]) || t[j] == c);
            }
            if c == '-' {
                let k = choose|k: int| 0 <= k < u.len() && #[trigger] u[k] != '-';
                assert(u[k] == c);
            } else {
                let k = choose|k: int| 0 <= k < u.len() && #[trigger] u[k] != '_';
                assert(u[k] == c);
            }
        }
    }
}

proof fn lemma_not_special(line: Seq<char>)
    requires
        plain(line),
    ensures
        !markdown::fence(line),
        !markdown::piped(line),
{
    let t = text::trim_front(line);
    styled::lemma_trim_front(line);
    let k = line.len() - t.len();
    reveal_strlit("```");
    if t.len() > 0 {
        assert(t[0] == line.skip(k)[0]);
        assert(line[k] != '`' && line[k] != '|');
        if markdown::fence(line) {
            assert(t.take(3)[0] == '`');
        }
    }
}

spec fn plain_lines(ls: Seq<Seq<char>>) -> bool {
    forall|i: int|
        0 <= i < ls.len() ==> plain(#[trigger] ls[i]) && no_rule(ls[i]) && !ls[i].contains('\n')
}

/// A line of plain text is shown, and is a part of its own.
proof fn lemma_md_part(md: Md, ls: Seq<Seq<char>>, i: int, look: MdLook)
    requires
        0 <= i < ls.len(),
        look.boxed is None,
        seen::ink(look.indent@).len() == 0,
        plain_lines(ls),
    ensures
        markdown::next_part(ls, i) == i + 1,
        seen::seen(markdown::md_part(md, ls, i, look).canvas) == seen::seen(md.canvas) + seen::ink(
            ls[i],
        ),
{
    let line = ls[i];
    assert(plain(line) && no_rule(line));
    lemma_not_special(line);
    lemma_no_rule(line);
    let cols = markdown::text_columns_of(look);
    let segs = wrap::wrapped(line, cols);
    let n = segs.len() as int;
    lemma_wrapped_plain(line, cols);
    lemma_segments(md.canvas, segs, n, look);
    assert(segs.take(n) =~= segs);
    seen::lemma_ink_wrapped(line, cols);
    let a = markdown::md_part(md, ls, i, look);
    assert(a == md && markdown::blank(line) || a == markdown::md_text(md, line, look));
    if markdown::blank(line) {
        seen::lemma_ink_trimmed(line);
        assert(seen::ink(text::trimmed(line)) =~= seq![]);
        assert(seen::seen(md.canvas) + seen::ink(line) =~= seen::seen(md.canvas));
    }
}

#[verifier::spinoff_prover]
proof fn lemma_md_from(md: Md, ls: Seq<Seq<char>>, i: int, look: MdLook)
    requires
        0 <= i <= ls.len(),
        look.boxed is None,
        seen::ink(look.indent@).len() == 0,
        plain_lines(ls),
    ensures
        seen::seen(markdown::md_from(md, ls, i, look).canvas) == seen::seen(md.canvas) + seen::ink(
            seen::flat(ls.skip(i)),
        ),
    decreases ls.len() - i,
{
    if i >= ls.len() {
        assert(ls.skip(i) =~= seq![]);
        assert(seen::seen(md.canvas) + seen::ink(seen::flat(ls.skip(i))) =~= seen::seen(
            md.canvas,
        ));
    } else {
        let line = ls[i];
        lemma_md_part(md, ls, i, look);
        let a = markdown::md_part(md, ls, i, look);
        lemma_md_from(a, ls, i + 1, look);
        let rest = ls.skip(i + 1);
        let none = Seq::<Seq<char>>::empty();
        assert(ls.skip(i) =~= none.push(line) + rest);
        seen::lemma_flat_add(none.push(line), rest);
        seen::lemma_flat_push(none, line);
        assert(seen::flat(none) + line =~= line);
        seen::lemma_ink_add(line, seen::flat(rest));
        assert(seen::seen(md.canvas) + seen::ink(line) + seen::ink(seen::flat(rest))
            =~= seen::seen(md.canvas) + seen::ink(seen::flat(ls.skip(i))));
    }
}

proof fn lemma_line_parts(s: Seq<char>, from: int)
    requires
        0 <= from <= s.len(),
        plain(s),
    ensures
        forall|i: int|
            0 <= i < text::lines_from(s, from).len() ==> plain(
                #[trigger] text::lines_from(s, from)[i],
            ) && !text::lines_from(s, from)[i].contains('\n'),
    decreases s.len() - from,
{
    let end = text::char_from(s, '\n', from);
    text::lemma_char_from(s, '\n', from);
    if from < s.len() {
        if end >= s.len() {
            lemma_plain_part(s, from, s.len() as int);
            assert(s.subrange(from, s.len() as int) =~= s.skip(from));
            assert forall|j: int| 0 <= j < s.skip(from).len() implies s.skip(from)[j] != '\n' by {
                assert(s[from + j] != '\n');
            }
        } else {
            lemma_plain_part(s, from, end);
            let l = s.subrange(from, end);
            assert forall|j: int| 0 <= j < l.len() implies l[j] != '\n' by {
                assert(s[from + j] != '\n');
            }
            if l.len() > 0 && l.last() == '\r' {
                lemma_plain_part(l, 0, l.len() - 1);
                assert(l.subrange(0, l.len() - 1) =~= l.drop_last());
            }
            lemma_line_parts(s, end + 1);
            let rest = text::lines_from(s, end + 1);
            let all = text::lines_from(s, from);
            assert(all =~= seq![text::without_cr(l)] + rest);
            assert forall|i: int| 0 <= i < all.len() implies plain(#[trigger] all[i])
                && !all[i].contains('\n') by {
                if i > 0 {
                    assert(all[i] == rest[i - 1]);
                }
            }
        }
    }
}

/// Markdown without marks, tables, quotations and rules is shown as it is:
/// every character that can be seen, in order, and no other.
pub proof fn law_plain_markdown_is_shown(m: Canvas, content: Seq<char>, look: MdLook)
    requires
        look.boxed is None,
        seen::ink(look.indent@).len() == 0,
        plain(content),
        forall|i: int|
            0 <= i < text::lines_of(content).len() ==> no_rule(#[trigger] text::lines_of(content)[i]),
    ensures
        seen::seen(markdown::markdown(m, content, look).0) == seen::seen(m) + seen::ink(content),
{
    let ls = text::lines_of(content);
    lemma_line_parts(content, 0);
    assert(plain_lines(ls)) by {
        assert forall|i: int| 0 <= i < ls.len() implies plain(#[trigger] ls[i]) && no_rule(ls[i])
            && !ls[i].contains('\n') by {
            assert(no_rule(text::lines_of(content)[i]));
        }
    }
    lemma_md_from(Md { canvas: m, rows: 0, after_heading: false }, ls, 0, look);
    assert(ls.skip(0) =~= ls);
    seen::lemma_ink_lines(content);
}

// ── Code ─────────────────────────────────────────────────────────────────

/// The text that is printed in colours that are given by their parts.
pub open spec fn painted(cmds: Seq<Command<Seq<char>>>) -> Seq<char>
    decreases cmds.len(),
{
    let n = cmds.len() as int;
    if n < 2 {
        seq![]
    } else {
        let before = painted(cmds.drop_last());
        match (cmds[n - 2], cmds[n - 1]) {
            (Command::SetForegroundColor(Color::Rgb { .. }), Command::Print(t)) => before + t,
            _ => before,
        }
    }
}

proof fn lemma_painted_push(a: Seq<Command<Seq<char>>>, c: Command<Seq<char>>)
    ensures
        !(c is Print) ==> painted(a.push(c)) == painted(a),
        a.len() == 0 || !(a.last() matches Command::SetForegroundColor(Color::Rgb { .. }))
            ==> painted(a.push(c)) == painted(a),
{
    assert(a.push(c).drop_last() =~= a);
}

/// The last command selects no such colour.
spec fn unpainted(m: Canvas) -> bool {
    m.cmds.len() > 0 ==> !(m.cmds.last() matches Command::SetForegroundColor(Color::Rgb { .. }))
}

proof fn lemma_pieces_painted(m: Canvas, row: Seq<Piece<Seq<char>>>, n: int, bg: Option<Color>)
    requires
        0 <= n <= row.len(),
        forall|i: int| 0 <= i < row.len() ==> (#[trigger] row[i]).color is Rgb,
        unpainted(m),
    ensures
        ({
            let r = highlight::pieces_printed(m, row, n, bg);
            &&& unpainted(r)
            &&& painted(r.cmds) == painted(m.cmds) + diff_reading::row_text(row, n)
        }),
    decreases n,
{
    reveal(Canvas::queue);
    reveal(Canvas::print);
    if n <= 0 {
        assert(painted(m.cmds) + diff_reading::row_text(row, n) =~= painted(m.cmds));
    } else {
        lemma_pieces_painted(m, row, n - 1, bg);
        let a = highlight::pieces_printed(m, row, n - 1, bg);
        let p = row[n - 1];
        let before = diff_reading::row_text(row, n - 1);
        if p.text.len() == 0 {
            assert(before + p.text =~= before);
        } else {
            let b = match bg {
                Some(x) => a.queue(Command::SetBackgroundColor(x)),
                None => a,
            };
            match bg {
                Some(x) => lemma_painted_push(a.cmds, Command::SetBackgroundColor(x)),
                None => {},
            }
            let c = b.cmds.push(Command::SetForegroundColor(p.color));
            lemma_painted_push(b.cmds, Command::SetForegroundColor(p.color));
            let d = c.push(Command::Print(p.text));
            assert(d.drop_last() =~= c);
            assert(painted(m.cmds) + before + p.text =~= painted(m.cmds) + (before + p.text));
        }
    }
}

proof fn lemma_unpainted_end(m: Canvas)
    requires
        unpainted(m),
    ensures
        painted(m.crlf().cmds) == painted(m.cmds),
        unpainted(m.crlf()),
{
    reveal(Canvas::crlf);
    let c = Command::Clear(out::ClearType::UntilNewLine);
    let a = m.cmds.push(c);
    lemma_painted_push(m.cmds, c);
    match m.row {
        Some(r) => lemma_painted_push(a, Command::MoveTo(0, out::rows_plus(r, 1))),
        None => lemma_painted_push(a, Command::Print("\r\n"@)),
    }
}

proof fn lemma_code_rows(
    m: Canvas,
    rows: Seq<Seq<Piece<Seq<char>>>>,
    n: int,
    look: CodeLook,
    w: int,
)
    requires
        0 <= n <= rows.len(),
        look.boxed is None,
        diff_reading::all_in_parts(rows),
        unpainted(m),
    ensures
        ({
            let r = highlight::code_rows(m, rows, n, look, w);
            &&& unpainted(r)
            &&& painted(r.cmds) == painted(m.cmds) + diff_reading::rows_text(rows, n)
        }),
    decreases n,
{
    reveal(Canvas::queue);
    reveal(Canvas::print);
    if n <= 0 {
        assert(painted(m.cmds) + diff_reading::rows_text(rows, n) =~= painted(m.cmds));
    } else {
        lemma_code_rows(m, rows, n - 1, look, w);
        let a = highlight::code_rows(m, rows, n - 1, look, w);
        let row = rows[n - 1];
        assert(diff_reading::in_parts(row));
        lemma_pieces_painted(a, row, row.len() as int, Some(look.bg));
        let b = highlight::pieces_printed(a, row, row.len() as int, Some(look.bg));
        lemma_painted_push(b.cmds, Command::ResetColor);
        let c = b.queue(Command::ResetColor);
        let cols = highlight::pieces_column(row, row.len() as int) as int;
        let d = if w > cols {
            c.queue(Command::SetBackgroundColor(look.bg)).print(
                text::fill(' ', (w - cols) as nat),
            )
        } else {
            c
        };
        if w > cols {
            lemma_painted_push(c.cmds, Command::SetBackgroundColor(look.bg));
            lemma_painted_push(
                c.cmds.push(Command::SetBackgroundColor(look.bg)),
                Command::Print(text::fill(' ', (w - cols) as nat)),
            );
        }
        lemma_painted_push(d.cmds, Command::ResetColor);
        lemma_unpainted_end(d.queue(Command::ResetColor));
        assert(painted(m.cmds) + diff_reading::rows_text(rows, n) =~= painted(m.cmds)
            + diff_reading::rows_text(rows, n - 1) + diff_reading::row_text(
            row,
            row.len() as int,
        ));
    }
}

/// Highlighting code of a language loses no text.
pub open spec fn code_is_kept(lang: Seq<char>) -> bool {
    &&& highlight::chosen_syntax(highlight::lang_extension(lang), Some(lang)) is Some
    &&& forall|before: Seq<Seq<char>>, line: Seq<char>|
        {
            let ps = #[trigger] highlight::coloured(before, line);
            diff_laws::joined(ps, ps.len() as int) == line
        }
}

proof fn lemma_code_lines(
    m: Canvas,
    h: History,
    lines: Seq<Seq<char>>,
    n: int,
    look: CodeLook,
    text_w: int,
    w: int,
    lang: Seq<char>,
)
    requires
        0 <= n <= lines.len(),
        look.boxed is None,
        h is Some,
        code_is_kept(lang),
        forall|i: int| 0 <= i < lines.len() ==> diff_laws::one_line(#[trigger] lines[i]),
        unpainted(m),
    ensures
        ({
            let r = highlight::code_lines(m, h, lines, n, look, text_w, w);
            &&& unpainted(r)
            &&& painted(r.cmds) == painted(m.cmds) + seen::flat(lines.take(n))
        }),
    decreases n,
{
    if n <= 0 {
        assert(lines.take(n) =~= seq![]);
        assert(painted(m.cmds) + seen::flat(lines.take(n)) =~= painted(m.cmds));
    } else {
        lemma_code_lines(m, h, lines, n - 1, look, text_w, w, lang);
        let a = highlight::code_lines(m, h, lines, n - 1, look, text_w, w);
        let line = lines[n - 1];
        assert(diff_laws::one_line(line));
        diff_laws::lemma_after_is_some(h, lines, n - 1);
        let hn = highlight::after_lines(h, lines, n - 1);
        let ps = highlight::line_pieces(hn, line);
        let k = ps.len() as int;
        diff_reading::lemma_split_rows(ps, text_w);
        let whole = line.push('\n');
        reveal_strlit("\n");
        assert(highlight::with_nl(line) =~= whole);
        assert(diff_laws::joined(ps, k) == whole);
        assert(whole.take(whole.len() as int) =~= whole);
        diff_laws::lemma_shown(ps, k, line);
        let rows = highlight::code_line_rows(h, lines, n - 1, text_w);
        lemma_code_rows(a, rows, rows.len() as int, look, w);
        assert(lines.take(n) =~= lines.take(n - 1).push(line));
        seen::lemma_flat_push(lines.take(n - 1), line);
        assert(painted(m.cmds) + seen::flat(lines.take(n - 1)) + line =~= painted(m.cmds)
            + seen::flat(lines.take(n)));
    }
}

proof fn lemma_code_edge(m: Canvas, look: CodeLook, on: Command<Seq<char>>, c: char, w: int)
    requires
        look.boxed is None,
        unpainted(m),
        !(on is Print),
        !(on matches Command::SetForegroundColor(Color::Rgb { .. })),
    ensures
        ({
            let r = highlight::code_edge(m, look, on, c, w);
            &&& unpainted(r)
            &&& painted(r.cmds) == painted(m.cmds)
        }),
{
    reveal(Canvas::queue);
    reveal(Canvas::print);
    let a = m.cmds.push(on);
    let t = Command::Print(text::fill(c, w as nat));
    lemma_painted_push(m.cmds, on);
    lemma_painted_push(a, t);
    lemma_painted_push(a.push(t), Command::ResetColor);
    let e = m.queue(on).print(text::fill(c, w as nat)).queue(Command::ResetColor);
    lemma_unpainted_end(e);
}

/// A code block shows the code character for character, tabs as spaces:
/// what is printed in the colours of the syntax is the lines, in order.
pub proof fn law_code_block_shows_the_code(
    m: Canvas,
    lines: Seq<Seq<char>>,
    lang: Seq<char>,
    width: int,
    dim: bool,
    look: CodeLook,
)
    requires
        look.boxed is None,
        !(look.edge is Rgb),
        m.cmds.len() > 0 ==> !(m.cmds.last() is SetForegroundColor),
        code_is_kept(lang),
        forall|i: int|
            0 <= i < lines.len() ==> diff_laws::one_line(text::untabbed(#[trigger] lines[i])),
    ensures
        painted(highlight::code_block(m, lines, lang, width, dim, look).0.cmds) == painted(m.cmds)
            + seen::flat(highlight::untabbed_lines(lines)),
{
    reveal(Canvas::queue);
    let h = highlight::fresh(
        highlight::chosen_syntax(highlight::lang_extension(lang), Some(lang)),
    );
    let ls = highlight::untabbed_lines(lines);
    let n = ls.len() as int;
    assert forall|i: int| 0 <= i < ls.len() implies diff_laws::one_line(#[trigger] ls[i]) by {
        assert(diff_laws::one_line(text::untabbed(lines[i])));
    }
    let text_w = if width > 1 {
        width - 1
    } else {
        1
    };
    let most = highlight::longest(ls, n);
    let w = bars::capped(
        (if most > text_w {
            text_w
        } else {
            most
        }) + 1,
    );
    let a = if dim {
        m.queue(Command::SetAttribute(Attribute::Dim))
    } else {
        m
    };
    lemma_painted_push(m.cmds, Command::SetAttribute(Attribute::Dim));
    let edge = Command::SetForegroundColor(look.edge);
    let bg = Command::SetBackgroundColor(look.bg);
    lemma_code_edge(a, look, edge, '\u{2581}', w);
    let b = highlight::code_edge(a, look, edge, '\u{2581}', w);
    lemma_code_edge(b, look, bg, ' ', w);
    let c = highlight::code_edge(b, look, bg, ' ', w);
    lemma_code_lines(c, h, ls, n, look, text_w, w, lang);
    let d = highlight::code_lines(c, h, ls, n, look, text_w, w);
    lemma_code_edge(d, look, bg, ' ', w);
    let e = highlight::code_edge(d, look, bg, ' ', w);
    lemma_code_edge(e, look, edge, '\u{2594}', w);
    let f = highlight::code_edge(e, look, edge, '\u{2594}', w);
    lemma_painted_push(f.cmds, Command::SetAttribute(Attribute::NormalIntensity));
    assert(ls.take(n) =~= ls);
}

} // verus!
