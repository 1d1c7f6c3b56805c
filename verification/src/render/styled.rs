//! Single lines with markdown styling, and the boxes around them.

use vstd::prelude::*;

use crate::render::inline_md;
use crate::render::inline_md::{find_stretch, visible_width, Mark};
use crate::render::out::{Attribute, Canvas, Color, Command, RenderOut};
use crate::render::wrap;
use crate::render::wrap::display_text_width;
use crate::text;
use crate::text::{
    cat3, char_count, chars_of, number, repeat_char, same_text, slice_text, trim_start,
};
use crate::theme;
use crate::theme::Theme;

verus! {

/// What rendering depends on besides the content: colours, the terminal's
/// width, the time, and what was found out about paths, files and commands.
pub struct Env {
    pub theme: Theme,
    pub term_width: usize,
    /// Milliseconds since the epoch.
    pub now_ms: u64,
    /// Paths that exist.
    pub paths: Vec<String>,
    /// Texts that are commands.
    pub commands: Vec<String>,
    /// Files by path, with their contents.
    pub files: Vec<(String, String)>,
}

/// Whether `t` is one of the texts.
pub open spec fn is_one_of(v: Seq<String>, t: Seq<char>) -> bool {
    exists|i: int| 0 <= i < v.len() && (#[trigger] v[i])@ == t
}

/// Whether `t` is one of the texts.
pub fn one_of(v: &Vec<String>, t: &str) -> (r: bool)
    ensures
        r == is_one_of(v@, t@),
{
    let mut i: usize = 0;
    while i < v.len()
        invariant
            i <= v@.len(),
            forall|j: int| 0 <= j < i ==> (#[trigger] v@[j])@ != t@,
        decreases v@.len() - i,
    {
        if same_text(v[i].as_str(), t) {
            return true;
        }
        i = i + 1;
    }
    false
}

/// The content of the file at `path` among the first `n`; empty when there is
/// none.
pub open spec fn file_text(files: Seq<(String, String)>, n: int, path: Seq<char>) -> Seq<char>
    decreases n,
{
    if n <= 0 {
        seq![]
    } else if files[n - 1].0@ == path {
        files[n - 1].1@
    } else {
        file_text(files, n - 1, path)
    }
}

impl Env {
    /// The content of a file; empty when it is not known.
    pub open spec fn file(self, path: Seq<char>) -> Seq<char> {
        file_text(self.files@, self.files@.len() as int, path)
    }

    pub fn read_file(&self, path: &str) -> (r: String)
        ensures
            r@ == self.file(path@),
    {
        let mut n: usize = self.files.len();
        while n > 0
            invariant
                n <= self.files@.len(),
                self.file(path@) == file_text(self.files@, n as int, path@),
            decreases n,
        {
            if same_text(self.files[n - 1].0.as_str(), path) {
                return self.files[n - 1].1.clone();
            }
            n = n - 1;
        }
        String::new()
    }
}

// ── Boxes ────────────────────────────────────────────────────────────────

/// A box around content: borders that go before and behind every line.
#[derive(Clone, Copy)]
pub struct BoxContext {
    pub left: &'static str,
    pub right: &'static str,
    pub color: Color,
    /// Columns between the borders.
    pub inner_w: usize,
}

/// The left border.
pub open spec fn box_left(m: Canvas, b: BoxContext) -> Canvas {
    m.push_fg(b.color).print(b.left@).pop_style()
}

/// Padding behind `cols` columns of content, and the right border.
pub open spec fn box_right(m: Canvas, b: BoxContext, cols: int) -> Canvas {
    let m = if b.inner_w > cols {
        m.print(text::fill(' ', (b.inner_w - cols) as nat))
    } else {
        m
    };
    m.push_fg(b.color).print(b.right@).pop_style()
}

impl BoxContext {
    pub fn print_left(&self, out: &mut RenderOut)
        ensures
            final(out)@ == box_left(old(out)@, *self),
    {
        out.push_fg(self.color);
        out.print(self.left);
        out.pop_style();
    }

    pub fn print_right(&self, out: &mut RenderOut, cols: usize)
        ensures
            final(out)@ == box_right(old(out)@, *self, cols as int),
    {
        let pad: usize = self.inner_w.saturating_sub(cols);
        if pad > 0 {
            let spaces = repeat_char(' ', pad);
            out.print(spaces.as_str());
        }
        out.push_fg(self.color);
        out.print(self.right);
        out.pop_style();
    }
}

// ── Small pieces ─────────────────────────────────────────────────────────

/// Dim text, and a reset of all attributes behind it.
pub open spec fn dim_text(m: Canvas, t: Seq<char>) -> Canvas {
    m.queue(Command::SetAttribute(Attribute::Dim)).print(t).queue(
        Command::SetAttribute(Attribute::Reset),
    )
}

pub fn print_dim(out: &mut RenderOut, t: &str)
    ensures
        final(out)@ == dim_text(old(out)@, t@),
{
    out.queue(Command::SetAttribute(Attribute::Dim));
    out.print(t);
    out.queue(Command::SetAttribute(Attribute::Reset));
}

/// Resets attributes and colours, and goes back to dim where `dim` says so.
pub open spec fn back_to(m: Canvas, dim: bool) -> Canvas {
    let m = m.queue(Command::SetAttribute(Attribute::Reset)).queue(Command::ResetColor);
    if dim {
        m.queue(Command::SetAttribute(Attribute::Dim))
    } else {
        m
    }
}

pub fn reset_to(out: &mut RenderOut, dim: bool)
    ensures
        final(out)@ == back_to(old(out)@, dim),
{
    out.queue(Command::SetAttribute(Attribute::Reset));
    out.queue(Command::ResetColor);
    if dim {
        out.queue(Command::SetAttribute(Attribute::Dim));
    }
}

/// A count with its noun.
pub open spec fn counted(count: nat, singular: Seq<char>, plural: Seq<char>) -> Seq<char> {
    if count == 1 {
        "1 "@ + singular
    } else {
        text::dec(count) + " "@ + plural
    }
}

/// A count with its noun, such as `1 line` or `3 lines`.
pub fn pluralize(count: usize, singular: &str, plural: &str) -> (r: String)
    ensures
        r@ == counted(count as nat, singular@, plural@),
{
    if count == 1 {
        text::cat("1 ", singular)
    } else {
        cat3(number(count as u64).as_str(), " ", plural)
    }
}

// ── Inline spans ─────────────────────────────────────────────────────────

/// The end of the run of plain characters that starts at `i`.
pub open spec fn plain_end(s: Seq<char>, i: int) -> int
    decreases s.len() - i,
{
    if i < 0 || i >= s.len() || !(inline_md::stretch_at(s, i).mark is Plain) {
        i
    } else {
        plain_end(s, i + 1)
    }
}

/// One span in its style.
pub open spec fn span_printed(m: Canvas, mark: Mark, t: Seq<char>, dim: bool, accent: Color) -> Canvas {
    let start = match mark {
        Mark::Plain => m,
        Mark::Bold => m.queue(Command::SetAttribute(Attribute::Bold)),
        Mark::Italic => m.queue(Command::SetAttribute(Attribute::Italic)),
        Mark::Code => m.queue(Command::SetForegroundColor(accent)),
    };
    if mark is Plain {
        start.print(t)
    } else {
        back_to(start.print(t), dim)
    }
}

pub proof fn lemma_plain_end(s: Seq<char>, i: int)
    requires
        0 <= i <= s.len(),
    ensures
        i <= plain_end(s, i) <= s.len(),
        i < s.len() && inline_md::stretch_at(s, i).mark is Plain ==> i < plain_end(s, i),
    decreases s.len() - i,
{
    if i < s.len() && inline_md::stretch_at(s, i).mark is Plain {
        lemma_plain_end(s, i + 1);
    }
}

/// The text from `i` on: runs of plain characters as they are, bold, italic
/// and code spans in their styles and without their marks.
pub open spec fn inline_from(m: Canvas, s: Seq<char>, i: int, dim: bool, accent: Color) -> Canvas
    decreases s.len() - i,
{
    if i < 0 || i >= s.len() {
        m
    } else {
        let t = inline_md::stretch_at(s, i);
        let end = plain_end(s, i);
        proof {
            inline_md::lemma_stretch(s, i);
            lemma_plain_end(s, i);
        }
        if t.mark is Plain {
            inline_from(
                span_printed(m, Mark::Plain, s.subrange(i, end), dim, accent),
                s,
                end,
                dim,
                accent,
            )
        } else {
            inline_from(
                span_printed(m, t.mark, s.subrange(t.from, t.to), dim, accent),
                s,
                t.next,
                dim,
                accent,
            )
        }
    }
}

/// A line of inline markdown.
pub open spec fn inline_printed(m: Canvas, s: Seq<char>, dim: bool, accent: Color) -> Canvas {
    inline_from(m, s, 0, dim, accent)
}

/// Prints a line of inline markdown in style.
pub fn print_inline_styled(out: &mut RenderOut, s: &str, dim: bool, accent: Color)
    ensures
        final(out)@ == inline_printed(old(out)@, s@, dim, accent),
{
    let chars = chars_of(s);
    let mut i: usize = 0;
    while i < chars.len()
        invariant
            chars@ == s@,
            i <= chars@.len(),
            inline_printed(old(out)@, s@, dim, accent) == inline_from(
                out@,
                s@,
                i as int,
                dim,
                accent,
            ),
        decreases chars@.len() - i,
    {
        let t = find_stretch(&chars, i);
        match t.mark {
            Mark::Plain => {
                let mut end: usize = i + 1;
                let mut open = true;
                while end < chars.len() && open
                    invariant
                        chars@ == s@,
                        i < end <= chars@.len(),
                        plain_end(s@, i as int) == plain_end(s@, end as int),
                        !open ==> end < chars@.len() && !(inline_md::stretch_at(
                            s@,
                            end as int,
                        ).mark is Plain),
                    decreases chars@.len() - end, open as int,
                {
                    let u = find_stretch(&chars, end);
                    match u.mark {
                        Mark::Plain => {
                            end = end + 1;
                        },
                        _ => {
                            open = false;
                        },
                    }
                }
                assert(plain_end(s@, end as int) == end);
                let part = slice_text(&chars, i, end);
                out.print(part.as_str());
                i = end;
            },
            Mark::Bold => {
                let part = slice_text(&chars, t.from, t.to);
                out.queue(Command::SetAttribute(Attribute::Bold));
                out.print(part.as_str());
                reset_to(out, dim);
                i = t.next;
            },
            Mark::Italic => {
                let part = slice_text(&chars, t.from, t.to);
                out.queue(Command::SetAttribute(Attribute::Italic));
                out.print(part.as_str());
                reset_to(out, dim);
                i = t.next;
            },
            Mark::Code => {
                let part = slice_text(&chars, t.from, t.to);
                out.queue(Command::SetForegroundColor(accent));
                out.print(part.as_str());
                reset_to(out, dim);
                i = t.next;
            },
        }
    }
}

// ── Block-level markers of a line ────────────────────────────────────────

/// Number of ASCII digits at the start of `s`, counted from `i`.
pub open spec fn digits_end(s: Seq<char>, i: int) -> int
    decreases s.len() - i,
{
    if 0 <= i < s.len() && '0' <= s[i] && s[i] <= '9' {
        digits_end(s, i + 1)
    } else {
        i
    }
}

fn count_digits(s: &Vec<char>) -> (r: usize)
    ensures
        r == digits_end(s@, 0),
        r <= s@.len(),
{
    let mut i: usize = 0;
    while i < s.len() && '0' <= s[i] && s[i] <= '9'
        invariant
            i <= s@.len(),
            digits_end(s@, 0) == digits_end(s@, i as int),
        ensures
            i <= s@.len(),
            digits_end(s@, 0) == digits_end(s@, i as int),
            i < s@.len() ==> !('0' <= s@[i as int] && s@[i as int] <= '9'),
        decreases s@.len() - i,
    {
        i = i + 1;
    }
    i
}

/// Length of the list marker at the start of `s`: digits and a period with a
/// space behind it or not, or a dash or star with a space behind it; zero
/// when there is none.
pub open spec fn list_prefix_len(s: Seq<char>) -> int {
    let n = digits_end(s, 0);
    if 0 < n < s.len() && s[n] == '.' {
        if n + 1 < s.len() && s[n + 1] == ' ' {
            n + 2
        } else {
            n + 1
        }
    } else if s.len() >= 2 && (s[0] == '-' || s[0] == '*') && s[1] == ' ' {
        2
    } else {
        0
    }
}

/// Splits a list marker off a line; the marker is empty when there is none.
pub fn split_list_prefix(line: &str) -> (r: (String, String))
    ensures
        r.0@ == line@.take(list_prefix_len(line@)),
        r.1@ == line@.skip(list_prefix_len(line@)),
        0 <= list_prefix_len(line@) <= line@.len(),
{
    let chars = chars_of(line);
    let n: usize = count_digits(&chars);
    let total: usize = chars.len();
    let len: usize = if n > 0 && n < total && chars[n] == '.' {
        if total - n >= 2 && chars[n + 1] == ' ' {
            n + 2
        } else {
            n + 1
        }
    } else if total >= 2 && (chars[0] == '-' || chars[0] == '*') && chars[1] == ' ' {
        2
    } else {
        0
    };
    assert(line@.take(len as int) =~= line@.subrange(0, len as int));
    assert(line@.skip(len as int) =~= line@.subrange(len as int, line@.len() as int));
    (slice_text(&chars, 0, len), slice_text(&chars, len, total))
}

/// Whether a line is a list item: behind white space a dash or star with a
/// space, or digits with a period.
pub open spec fn list_item(line: Seq<char>) -> bool {
    let t = text::trim_front(line);
    let n = digits_end(t, 0);
    ||| t.len() >= 2 && (t[0] == '-' || t[0] == '*') && t[1] == ' '
    ||| 0 < n < t.len() && t[n] == '.'
}

/// Whether a line is a list item.
pub fn is_list_item(line: &str) -> (r: bool)
    ensures
        r == list_item(line@),
{
    let t = trim_start(line);
    let chars = chars_of(t.as_str());
    if chars.len() >= 2 && (chars[0] == '-' || chars[0] == '*') && chars[1] == ' ' {
        return true;
    }
    let n: usize = count_digits(&chars);
    n > 0 && n < chars.len() && chars[n] == '.'
}

/// Number of characters of `s[..n]` that are not white space.
pub open spec fn solid_chars(s: Seq<char>, n: int) -> int
    decreases n,
{
    if n <= 0 {
        0
    } else {
        solid_chars(s, n - 1) + (if text::is_white(s[n - 1]) {
            0int
        } else {
            1
        })
    }
}

/// Whether a character is skipped in a rule.
pub open spec fn rule_gap(c: char) -> bool {
    c == ' ' || c == '\t'
}

/// Whether a line is a horizontal rule: three or more characters that are not
/// white space, and apart from spaces and tabs all the same dash, star or
/// underscore.
pub open spec fn horizontal_rule(line: Seq<char>) -> bool {
    let t = text::trimmed(line);
    &&& solid_chars(t, t.len() as int) >= 3
    &&& exists|c: char|
        (c == '-' || c == '*' || c == '_') && #[trigger] rule_of(t, c)
}

/// Whether `t` holds `c` and apart from it only spaces and tabs.
pub open spec fn rule_of(t: Seq<char>, c: char) -> bool {
    &&& exists|i: int| 0 <= i < t.len() && !rule_gap(#[trigger] t[i])
    &&& forall|i: int| 0 <= i < t.len() ==> rule_gap(#[trigger] t[i]) || t[i] == c
}

/// Whether a line is a horizontal rule such as `---`, `***` or `___`.
pub fn is_horizontal_rule(line: &str) -> (r: bool)
    ensures
        r == horizontal_rule(line@),
{
    let t = text::trim(line);
    let chars = chars_of(t.as_str());
    let ghost tt = text::trimmed(line@);
    let mut solid: usize = 0;
    let mut i: usize = 0;
    while i < chars.len()
        invariant
            chars@ == tt,
            i <= chars@.len(),
            solid <= i,
            solid == solid_chars(tt, i as int),
        decreases chars@.len() - i,
    {
        if !chars[i].is_whitespace() {
            solid = solid + 1;
        }
        i = i + 1;
    }
    if solid < 3 {
        return false;
    }
    let mut first: Option<char> = None;
    let mut i: usize = 0;
    while i < chars.len()
        invariant
            chars@ == tt,
            solid_chars(tt, tt.len() as int) >= 3,
            tt == text::trimmed(line@),
            i <= chars@.len(),
            match first {
                None => forall|j: int| 0 <= j < i ==> rule_gap(#[trigger] tt[j]),
                Some(c) => (c == '-' || c == '*' || c == '_') && (exists|j: int|
                    0 <= j < i && tt[j] == c && !rule_gap(#[trigger] tt[j])) && (forall|j: int|
                    0 <= j < i ==> rule_gap(#[trigger] tt[j]) || tt[j] == c),
            },
        decreases chars@.len() - i,
    {
        let c: char = chars[i];
        if !(c == ' ' || c == '\t') {
            assert(!rule_gap(tt[i as int]));
            match first {
                None => {
                    first = Some(c);
                },
                Some(f) => {
                    if f != c {
                        assert(!horizontal_rule(line@));
                        return false;
                    }
                },
            }
            if !(c == '-' || c == '*' || c == '_') {
                assert(!horizontal_rule(line@));
                return false;
            }
        }
        i = i + 1;
    }
    match first {
        Some(c) => {
            assert(rule_of(tt, c));
            true
        },
        None => {
            assert(!horizontal_rule(line@));
            false
        },
    }
}

/// Whether all characters may stand in the separator of a table.
pub open spec fn separator_chars(t: Seq<char>) -> bool {
    forall|i: int|
        0 <= i < t.len() ==> (#[trigger] t[i]) == '-' || t[i] == '|' || t[i] == ':' || t[i] == ' '
}

/// Whether a line separates the header of a table from its rows.
pub open spec fn table_separator(line: Seq<char>) -> bool {
    let t = text::trimmed(line);
    t.len() > 0 && separator_chars(t)
}

/// Whether a line separates the header of a table from its rows.
pub fn is_table_separator(line: &str) -> (r: bool)
    ensures
        r == table_separator(line@),
{
    let t = text::trim(line);
    let chars = chars_of(t.as_str());
    let mut i: usize = 0;
    while i < chars.len()
        invariant
            chars@ == text::trimmed(line@),
            i <= chars@.len(),
            forall|j: int|
                0 <= j < i ==> (#[trigger] chars@[j]) == '-' || chars@[j] == '|' || chars@[j] == ':'
                    || chars@[j] == ' ',
        decreases chars@.len() - i,
    {
        let c: char = chars[i];
        if !(c == '-' || c == '|' || c == ':' || c == ' ') {
            return false;
        }
        i = i + 1;
    }
    chars.len() > 0
}

/// Whether a line is a heading: its first character that is not white space
/// is a number sign.
pub open spec fn heading(line: Seq<char>) -> bool {
    let t = text::trim_front(line);
    t.len() > 0 && t[0] == '#'
}

pub fn is_heading(line: &str) -> (r: bool)
    ensures
        r == heading(line@),
{
    let t = trim_start(line);
    let chars = chars_of(t.as_str());
    chars.len() > 0 && chars[0] == '#'
}

/// One line of markdown, and the columns that it takes.
pub struct LinePrinted {
    pub canvas: Canvas,
    pub cols: int,
}

/// A line of markdown: headings, quotes and list items in their styles, the
/// rest as inline markdown.
pub open spec fn styled_line(m: Canvas, line: Seq<char>, dim: bool, accent: Color) -> LinePrinted {
    let t = text::trim_front(line);
    if t.len() > 0 && t[0] == '#' {
        LinePrinted {
            canvas: back_to(
                m.queue(Command::SetForegroundColor(Color::AnsiValue(theme::HEADING))).queue(
                    Command::SetAttribute(Attribute::Bold),
                ).print(t),
                dim,
            ),
            cols: wrap::text_width(t) as int,
        }
    } else if t.len() > 0 && t[0] == '>' {
        let c = text::trim_front(t.skip(1));
        LinePrinted {
            canvas: back_to(
                m.queue(Command::SetAttribute(Attribute::Dim)).queue(
                    Command::SetAttribute(Attribute::Italic),
                ).print(c),
                dim,
            ),
            cols: wrap::text_width(c) as int,
        }
    } else {
        let k = list_prefix_len(t);
        let prefix = t.take(k);
        let body = t.skip(k);
        let lead = line.take(line.len() - t.len());
        let m = if lead.len() > 0 {
            m.print(lead)
        } else {
            m
        };
        let m = if k > 0 {
            m.queue(Command::SetAttribute(Attribute::Dim)).print(prefix).queue(
                Command::SetAttribute(Attribute::Reset),
            ).queue(Command::ResetColor)
        } else {
            m
        };
        LinePrinted {
            canvas: inline_printed(m, body, dim, accent),
            cols: crate::render::bars::capped(
                wrap::text_width(lead) + wrap::text_width(prefix)
                    + inline_md::visible_columns(body),
            ),
        }
    }
}

/// Trimming at the front gives a suffix.
pub proof fn lemma_trim_front(s: Seq<char>)
    ensures
        text::trim_front(s).len() <= s.len(),
        s.skip(s.len() - text::trim_front(s).len()) == text::trim_front(s),
    decreases s.len(),
{
    let p = |c: char| text::is_white(c);
    if s.len() > 0 && p(s[0]) {
        lemma_trim_front(s.skip(1));
        let t = text::trim_front(s);
        assert(t == text::trim_front(s.skip(1)));
        assert(s.skip(s.len() - t.len()) =~= s.skip(1).skip(s.skip(1).len() - t.len()));
    } else {
        assert(s.skip(0) =~= s);
    }
}

/// Prints one line of markdown; the result is the number of columns printed.
pub fn print_styled_line(out: &mut RenderOut, line: &str, dim: bool, accent: Color) -> (r: usize)
    ensures
        final(out)@ == styled_line(old(out)@, line@, dim, accent).canvas,
        r == styled_line(old(out)@, line@, dim, accent).cols,
{
    let t = trim_start(line);
    let tc = chars_of(t.as_str());
    let total: usize = tc.len();
    proof {
        lemma_trim_front(line@);
    }
    if total > 0 && tc[0] == '#' {
        out.queue(Command::SetForegroundColor(Color::AnsiValue(theme::HEADING)));
        out.queue(Command::SetAttribute(Attribute::Bold));
        out.print(t.as_str());
        reset_to(out, dim);
        return display_text_width(t.as_str());
    }
    if total > 0 && tc[0] == '>' {
        let rest = slice_text(&tc, 1, total);
        assert(rest@ =~= t@.skip(1));
        let c = trim_start(rest.as_str());
        out.queue(Command::SetAttribute(Attribute::Dim));
        out.queue(Command::SetAttribute(Attribute::Italic));
        out.print(c.as_str());
        reset_to(out, dim);
        return display_text_width(c.as_str());
    }
    let (prefix, body) = split_list_prefix(t.as_str());
    let lc = chars_of(line);
    let lead_len: usize = lc.len() - total;
    let lead = slice_text(&lc, 0, lead_len);
    assert(lead@ =~= line@.take(line@.len() - t@.len()));
    if lead_len > 0 {
        out.print(lead.as_str());
    }
    let prefix_len: usize = char_count(prefix.as_str());
    if prefix_len > 0 {
        out.queue(Command::SetAttribute(Attribute::Dim));
        out.print(prefix.as_str());
        out.queue(Command::SetAttribute(Attribute::Reset));
        out.queue(Command::ResetColor);
    }
    print_inline_styled(out, body.as_str(), dim, accent);
    let visual: usize = visible_width(body.as_str());
    let lead_cols: usize = display_text_width(lead.as_str());
    let prefix_cols: usize = display_text_width(prefix.as_str());
    lead_cols.saturating_add(prefix_cols).saturating_add(visual)
}

} // verus!
