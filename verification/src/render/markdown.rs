//! Markdown, block by block.

use vstd::prelude::*;

use crate::render::bars;
use crate::render::highlight;
use crate::render::highlight::{render_code_block, Assets};
use crate::render::out;
use crate::render::out::{crlf, Attribute, Canvas, Command, RenderOut};
use crate::render::styled;
use crate::render::styled::{
    is_heading, is_horizontal_rule, is_list_item, is_table_separator, print_styled_line,
    BoxContext,
};
use crate::render::table;
use crate::render::table::{render_markdown_table, TableLook};
use crate::render::wrap;
use crate::render::wrap::wrap_line;
use crate::text;
use crate::text::{
    char_count, chars_of, lines, part_of, split, starts_with, trim, trim_end_char, trim_start,
    trim_start_char,
};
use crate::theme;
use crate::theme::Theme;

verus! {

/// How markdown is rendered.
#[derive(Clone, Copy)]
pub struct MdLook {
    pub width: usize,
    /// Columns of the terminal.
    pub term_width: usize,
    pub indent: &'static str,
    pub dim: bool,
    pub boxed: Option<BoxContext>,
    pub theme: Theme,
}

/// Columns for text: those of the box, or those that the indent leaves.
pub open spec fn text_columns_of(look: MdLook) -> int {
    match look.boxed {
        Some(b) => b.inner_w as int,
        None => bars::at_least_zero(look.width - bars::capped(text::byte_len(look.indent@) + 1)),
    }
}

/// The look of tables.
pub open spec fn table_look(look: MdLook) -> TableLook {
    TableLook {
        dim: look.dim,
        boxed: look.boxed,
        indent: look.indent,
        bar: look.theme.bar_color(),
        accent: look.theme.accent_color(),
    }
}

/// Whether a line has nothing but white space.
pub open spec fn blank(line: Seq<char>) -> bool {
    text::trimmed(line).len() == 0
}

/// Whether a line starts or ends a code block.
pub open spec fn fence(line: Seq<char>) -> bool {
    text::has_prefix(text::trim_front(line), "```"@)
}

/// Whether a line is a row of a table.
pub open spec fn piped(line: Seq<char>) -> bool {
    let t = text::trim_front(line);
    t.len() > 0 && t[0] == '|'
}

/// The first fence at or behind `i`.
pub open spec fn fence_from(ls: Seq<Seq<char>>, i: int) -> int
    decreases ls.len() - i,
{
    if i < 0 || i >= ls.len() {
        ls.len() as int
    } else if fence(ls[i]) {
        i
    } else {
        fence_from(ls, i + 1)
    }
}

/// The first line at or behind `i` that is no row of a table.
pub open spec fn pipes_end(ls: Seq<Seq<char>>, i: int) -> int
    decreases ls.len() - i,
{
    if i < 0 || i >= ls.len() {
        ls.len() as int
    } else if !piped(ls[i]) {
        i
    } else {
        pipes_end(ls, i + 1)
    }
}

/// The first line at or behind `i` that is not blank.
pub open spec fn solid_from(ls: Seq<Seq<char>>, i: int) -> int
    decreases ls.len() - i,
{
    if i < 0 || i >= ls.len() {
        ls.len() as int
    } else if !blank(ls[i]) {
        i
    } else {
        solid_from(ls, i + 1)
    }
}

/// The line behind what starts in line `i`: a code block, a table, or the
/// line alone.
pub open spec fn next_part(ls: Seq<Seq<char>>, i: int) -> int {
    if fence(ls[i]) {
        table::smaller(fence_from(ls, i + 1) + 1, ls.len() as int)
    } else if piped(ls[i]) {
        pipes_end(ls, i)
    } else {
        i + 1
    }
}

pub proof fn lemma_scans(ls: Seq<Seq<char>>, i: int)
    requires
        0 <= i <= ls.len(),
    ensures
        i <= fence_from(ls, i) <= ls.len(),
        i <= pipes_end(ls, i) <= ls.len(),
    decreases ls.len() - i,
{
    if i < ls.len() {
        lemma_scans(ls, i + 1);
    }
}

pub proof fn lemma_next_part(ls: Seq<Seq<char>>, i: int)
    requires
        0 <= i < ls.len(),
    ensures
        i < next_part(ls, i) <= ls.len(),
{
    lemma_scans(ls, i);
    lemma_scans(ls, i + 1);
}

/// The cells of a table's row.
pub open spec fn cells_of(line: Seq<char>) -> Seq<Seq<char>> {
    let t = text::drop_back(
        text::drop_front(text::trimmed(line), |x: char| x == '|'),
        |x: char| x == '|',
    );
    let parts = text::split_on(t, '|');
    Seq::new(parts.len(), |i: int| text::trimmed(parts[i]))
}

/// The rows among the first `n` of a table's lines, without separators.
pub open spec fn table_rows(ls: Seq<Seq<char>>, n: int) -> Seq<Seq<Seq<char>>>
    decreases n,
{
    if n <= 0 {
        seq![]
    } else if styled::table_separator(ls[n - 1]) {
        table_rows(ls, n - 1)
    } else {
        table_rows(ls, n - 1).push(cells_of(ls[n - 1]))
    }
}

/// Where the rendering of markdown stands.
pub struct Md {
    pub canvas: Canvas,
    pub rows: u16,
    /// The last line with content was a heading.
    pub after_heading: bool,
}

/// The language behind the backticks of a fence.
pub open spec fn fence_lang(line: Seq<char>) -> Seq<char> {
    text::trimmed(text::drop_front(text::trim_front(line), |x: char| x == '`'))
}

/// An empty line, unless nothing came before or the line before is blank or
/// the last one with content was a heading.
pub open spec fn gap_before(md: Md, ls: Seq<Seq<char>>, i: int) -> Md {
    if md.rows > 0 && !(i > 0 && blank(ls[i - 1])) && !md.after_heading {
        Md { canvas: md.canvas.crlf(), rows: out::rows_plus(md.rows, 1), ..md }
    } else {
        md
    }
}

/// A horizontal rule of three strokes.
pub open spec fn rule_drawn(m: Canvas, boxed: Option<BoxContext>, indent: Seq<char>) -> Canvas {
    let m = match boxed {
        Some(b) => styled::box_left(m, b),
        None => if indent.len() > 0 {
            m.print(indent)
        } else {
            m
        },
    };
    let m = m.queue(Command::SetAttribute(Attribute::Dim)).print("\u{2500}\u{2500}\u{2500}"@).queue(
        Command::ResetColor,
    ).queue(Command::SetAttribute(Attribute::Reset));
    let m = match boxed {
        Some(b) => styled::box_right(m, b, 3),
        None => m,
    };
    m.crlf()
}

/// Draws a horizontal rule; the result is the number of rows.
pub fn render_horizontal_rule(
    out: &mut RenderOut,
    boxed: Option<BoxContext>,
    indent: &str,
) -> (r: u16)
    ensures
        final(out)@ == rule_drawn(old(out)@, boxed, indent@),
        r == 1,
{
    match boxed {
        Some(b) => {
            b.print_left(out);
        },
        None => {
            if char_count(indent) > 0 {
                out.print(indent);
            }
        },
    }
    out.queue(Command::SetAttribute(Attribute::Dim));
    out.print("\u{2500}\u{2500}\u{2500}");
    out.queue(Command::ResetColor);
    out.queue(Command::SetAttribute(Attribute::Reset));
    match boxed {
        Some(b) => {
            b.print_right(out, 3);
        },
        None => {},
    }
    crlf(out);
    1
}

/// The first `n` rows of one line of text.
pub open spec fn md_segments(m: Canvas, segs: Seq<Seq<char>>, n: int, look: MdLook) -> Canvas
    decreases n,
{
    if n <= 0 {
        m
    } else {
        let m = md_segments(m, segs, n - 1, look);
        let accent = look.theme.accent_color();
        let m = match look.boxed {
            Some(b) => {
                let p = styled::styled_line(styled::box_left(m, b), segs[n - 1], look.dim, accent);
                styled::box_right(p.canvas, b, p.cols)
            },
            None => styled::styled_line(
                m.print(look.indent@),
                segs[n - 1],
                look.dim,
                accent,
            ).canvas,
        };
        m.crlf()
    }
}

/// A line of text, in as many rows as it needs.
pub open spec fn md_text(md: Md, line: Seq<char>, look: MdLook) -> Md {
    let segs = wrap::wrapped(line, text_columns_of(look));
    Md {
        canvas: md_segments(md.canvas, segs, segs.len() as int, look),
        rows: out::rows_plus(md.rows, segs.len() as u16),
        after_heading: if blank(line) {
            md.after_heading
        } else {
            styled::heading(line)
        },
    }
}

/// What starts in line `i`: a code block, a table, a horizontal rule or a
/// line of text.  Headings have no empty line behind them, and list items
/// none before them.
pub open spec fn md_part(md: Md, ls: Seq<Seq<char>>, i: int, look: MdLook) -> Md {
    let next = next_part(ls, i);
    if fence(ls[i]) {
        let md = gap_before(md, ls, i);
        let b = highlight::code_block(
            md.canvas,
            ls.subrange(i + 1, fence_from(ls, i + 1)),
            fence_lang(ls[i]),
            look.width as int,
            look.dim,
            highlight::code_look(look.theme, look.boxed),
        );
        Md { canvas: b.0, rows: out::rows_plus(md.rows, b.1), after_heading: false }
    } else if piped(ls[i]) {
        let b = table::table_drawn(
            md.canvas,
            table_rows(ls.subrange(i, next), next - i),
            look.term_width as int,
            table_look(look),
        );
        Md { canvas: b.0, rows: out::rows_plus(md.rows, b.1), after_heading: false }
    } else if styled::horizontal_rule(ls[i]) {
        let md = gap_before(md, ls, i);
        let m = rule_drawn(md.canvas, look.boxed, look.indent@);
        let rows = out::rows_plus(md.rows, 1);
        let s = solid_from(ls, i + 1);
        if s < ls.len() && !styled::heading(ls[s]) {
            Md { canvas: m.crlf(), rows: out::rows_plus(rows, 1), after_heading: false }
        } else {
            Md { canvas: m, rows, after_heading: false }
        }
    } else if blank(ls[i]) && (md.after_heading || ({
        let s = solid_from(ls, i + 1);
        s < ls.len() && styled::list_item(ls[s])
    })) {
        md
    } else {
        md_text(md, ls[i], look)
    }
}

/// Everything from line `i` on.
pub open spec fn md_from(md: Md, ls: Seq<Seq<char>>, i: int, look: MdLook) -> Md
    decreases ls.len() - i,
{
    if i < 0 || i >= ls.len() {
        md
    } else {
        proof {
            lemma_next_part(ls, i);
        }
        md_from(md_part(md, ls, i, look), ls, next_part(ls, i), look)
    }
}

/// Markdown, rendered: the canvas and the number of rows.
pub open spec fn markdown(m: Canvas, content: Seq<char>, look: MdLook) -> (Canvas, u16) {
    let md = md_from(
        Md { canvas: m, rows: 0, after_heading: false },
        text::lines_of(content),
        0,
        look,
    );
    (md.canvas, md.rows)
}

fn is_blank(line: &str) -> (r: bool)
    ensures
        r == blank(line@),
{
    let t = trim(line);
    char_count(t.as_str()) == 0
}

fn is_fence(line: &str) -> (r: bool)
    ensures
        r == fence(line@),
{
    let t = trim_start(line);
    starts_with(t.as_str(), "```")
}

fn is_piped(line: &str) -> (r: bool)
    ensures
        r == piped(line@),
{
    let t = trim_start(line);
    let c = chars_of(t.as_str());
    c.len() > 0 && c[0] == '|'
}

fn find_solid(ls: &Vec<String>, from: usize) -> (r: usize)
    requires
        from <= ls@.len(),
    ensures
        r == solid_from(text::texts(ls@), from as int),
        from <= r <= ls@.len(),
{
    let ghost ts = text::texts(ls@);
    let total: usize = ls.len();
    let mut i: usize = from;
    while i < total && is_blank(ls[i].as_str())
        invariant
            ts == text::texts(ls@),
            total == ls@.len(),
            from <= i <= total,
            solid_from(ts, from as int) == solid_from(ts, i as int),
        decreases total - i,
    {
        assert(ts[i as int] == ls@[i as int]@);
        i = i + 1;
    }
    assert(i < total ==> ts[i as int] == ls@[i as int]@);
    i
}

fn find_fence(ls: &Vec<String>, from: usize) -> (r: usize)
    requires
        from <= ls@.len(),
    ensures
        r == fence_from(text::texts(ls@), from as int),
        from <= r <= ls@.len(),
{
    let ghost ts = text::texts(ls@);
    let total: usize = ls.len();
    let mut i: usize = from;
    while i < total && !is_fence(ls[i].as_str())
        invariant
            ts == text::texts(ls@),
            total == ls@.len(),
            from <= i <= total,
            fence_from(ts, from as int) == fence_from(ts, i as int),
        decreases total - i,
    {
        assert(ts[i as int] == ls@[i as int]@);
        i = i + 1;
    }
    assert(i < total ==> ts[i as int] == ls@[i as int]@);
    i
}

fn find_pipes_end(ls: &Vec<String>, from: usize) -> (r: usize)
    requires
        from <= ls@.len(),
    ensures
        r == pipes_end(text::texts(ls@), from as int),
        from <= r <= ls@.len(),
{
    let ghost ts = text::texts(ls@);
    let total: usize = ls.len();
    let mut i: usize = from;
    while i < total && is_piped(ls[i].as_str())
        invariant
            ts == text::texts(ls@),
            total == ls@.len(),
            from <= i <= total,
            pipes_end(ts, from as int) == pipes_end(ts, i as int),
        decreases total - i,
    {
        assert(ts[i as int] == ls@[i as int]@);
        i = i + 1;
    }
    assert(i < total ==> ts[i as int] == ls@[i as int]@);
    i
}

fn split_cells(line: &str) -> (r: Vec<String>)
    ensures
        text::texts(r@) == cells_of(line@),
{
    let t = trim(line);
    let t = trim_start_char(t.as_str(), '|');
    let t = trim_end_char(t.as_str(), '|');
    let parts = split(t.as_str(), '|');
    let ghost ps = text::texts(parts@);
    let mut r: Vec<String> = Vec::new();
    let mut i: usize = 0;
    while i < parts.len()
        invariant
            ps == text::texts(parts@),
            i <= parts@.len(),
            r@.len() == i,
            forall|j: int| 0 <= j < i ==> (#[trigger] r@[j])@ == text::trimmed(ps[j]),
        decreases parts@.len() - i,
    {
        assert(ps[i as int] == parts@[i as int]@);
        r.push(trim(parts[i].as_str()));
        i = i + 1;
    }
    assert(ps.len() == parts@.len());
    assert(text::texts(r@) =~= cells_of(line@));
    r
}

/// Draws the table in `ls[from..to]`; the result is the number of rows.
fn render_markdown_table_from_lines(
    out: &mut RenderOut,
    ls: &Vec<String>,
    from: usize,
    to: usize,
    term_width: usize,
    look: &TableLook,
) -> (r: u16)
    requires
        from <= to <= ls@.len(),
    ensures
        (final(out)@, r) == table::table_drawn(
            old(out)@,
            table_rows(text::texts(ls@).subrange(from as int, to as int), to - from),
            term_width as int,
            *look,
        ),
{
    let ghost part = text::texts(ls@).subrange(from as int, to as int);
    let mut rows: Vec<Vec<String>> = Vec::new();
    let mut i: usize = from;
    while i < to
        invariant
            part == text::texts(ls@).subrange(from as int, to as int),
            from <= i <= to <= ls@.len(),
            table::grid(rows@) == table_rows(part, i - from),
        decreases to - i,
    {
        assert(part[i - from] == ls@[i as int]@);
        if !is_table_separator(ls[i].as_str()) {
            let cells = split_cells(ls[i].as_str());
            let ghost before = rows@;
            rows.push(cells);
            assert(table::grid(rows@) =~= table::grid(before).push(text::texts(cells@)));
        }
        i = i + 1;
    }
    render_markdown_table(out, &rows, term_width, look)
}

fn leave_gap(out: &mut RenderOut, rows: u16, prev_blank: bool, after_heading: bool) -> (r: u16)
    ensures
        rows > 0 && !prev_blank && !after_heading ==> final(out)@ == old(out)@.crlf() && r
            == out::rows_plus(rows, 1),
        !(rows > 0 && !prev_blank && !after_heading) ==> final(out)@ == old(out)@ && r == rows,
{
    if rows > 0 && !prev_blank && !after_heading {
        crlf(out);
        rows.saturating_add(1)
    } else {
        rows
    }
}

fn print_md_text(out: &mut RenderOut, line: &str, max_cols: usize, look: &MdLook) -> (r: u16)
    requires
        max_cols == text_columns_of(*look),
    ensures
        ({
            let segs = wrap::wrapped(line@, text_columns_of(*look));
            &&& final(out)@ == md_segments(old(out)@, segs, segs.len() as int, *look)
            &&& r == segs.len() as u16
        }),
{
    let segs = wrap_line(line, max_cols);
    let ghost ss = text::texts(segs@);
    let accent = theme::accent(&look.theme);
    let mut k: usize = 0;
    while k < segs.len()
        invariant
            ss == text::texts(segs@),
            k <= segs@.len(),
            accent == look.theme.accent_color(),
            out@ == md_segments(old(out)@, ss, k as int, *look),
        decreases segs@.len() - k,
    {
        assert(ss[k as int] == segs@[k as int]@);
        match look.boxed {
            Some(b) => {
                b.print_left(out);
                let cols: usize = print_styled_line(out, segs[k].as_str(), look.dim, accent);
                b.print_right(out, cols);
            },
            None => {
                out.print(look.indent);
                let _ = print_styled_line(out, segs[k].as_str(), look.dim, accent);
            },
        }
        crlf(out);
        k = k + 1;
    }
    let n: usize = segs.len();
    assert(ss.len() == n);
    #[verifier::truncate]
    let r: u16 = n as u16;
    r
}

/// Renders markdown; the result is the number of rows.
pub fn render_markdown_inner(
    out: &mut RenderOut,
    assets: &Assets,
    content: &str,
    look: &MdLook,
) -> (r: u16)
    ensures
        (final(out)@, r) == markdown(old(out)@, content@, *look),
{
    let max_cols: usize = match look.boxed {
        Some(b) => b.inner_w,
        None => look.width.saturating_sub(look.indent.len().saturating_add(1)),
    };
    let tlook = TableLook {
        dim: look.dim,
        boxed: look.boxed,
        indent: look.indent,
        bar: theme::bar(&look.theme),
        accent: theme::accent(&look.theme),
    };
    let ls = lines(content);
    let ghost ts = text::texts(ls@);
    let total: usize = ls.len();
    let ghost start = Md { canvas: out@, rows: 0, after_heading: false };
    let mut rows: u16 = 0;
    let mut after_heading = false;
    let mut i: usize = 0;
    while i < total
        invariant
            ts == text::texts(ls@),
            total == ls@.len(),
            i <= total,
            max_cols == text_columns_of(*look),
            tlook == table_look(*look),
            md_from(start, ts, 0, *look) == md_from(
                Md { canvas: out@, rows, after_heading },
                ts,
                i as int,
                *look,
            ),
        decreases total - i,
    {
        assert(ts[i as int] == ls@[i as int]@);
        proof {
            lemma_next_part(ts, i as int);
        }
        let ghost md = Md { canvas: out@, rows, after_heading };
        let ghost i0 = i as int;
        let prev_blank = i > 0 && is_blank(ls[i - 1].as_str());
        assert(i > 0 ==> ts[i - 1] == ls@[i - 1]@);
        if is_fence(ls[i].as_str()) {
            rows = leave_gap(out, rows, prev_blank, after_heading);
            let t = trim_start(ls[i].as_str());
            let t = trim_start_char(t.as_str(), '`');
            let lang = trim(t.as_str());
            let end: usize = find_fence(&ls, i + 1);
            let code = part_of(&ls, i + 1, end);
            let n: u16 = render_code_block(
                out,
                assets,
                &code,
                lang.as_str(),
                look.width,
                look.dim,
                look.boxed,
                &look.theme,
            );
            rows = rows.saturating_add(n);
            after_heading = false;
            i = if end < total {
                end + 1
            } else {
                end
            };
        } else if is_piped(ls[i].as_str()) {
            let end: usize = find_pipes_end(&ls, i);
            let n: u16 = render_markdown_table_from_lines(
                out,
                &ls,
                i,
                end,
                look.term_width,
                &tlook,
            );
            rows = rows.saturating_add(n);
            after_heading = false;
            i = end;
        } else if is_horizontal_rule(ls[i].as_str()) {
            rows = leave_gap(out, rows, prev_blank, after_heading);
            let n: u16 = render_horizontal_rule(out, look.boxed, look.indent);
            rows = rows.saturating_add(n);
            let s: usize = find_solid(&ls, i + 1);
            if s < total {
                assert(ts[s as int] == ls@[s as int]@);
                if !is_heading(ls[s].as_str()) {
                    crlf(out);
                    rows = rows.saturating_add(1);
                }
            }
            after_heading = false;
            i = i + 1;
        } else {
            let empty = is_blank(ls[i].as_str());
            let mut skip = false;
            if empty {
                if after_heading {
                    skip = true;
                } else {
                    let s: usize = find_solid(&ls, i + 1);
                    if s < total {
                        assert(ts[s as int] == ls@[s as int]@);
                        skip = is_list_item(ls[s].as_str());
                    }
                }
            } else {
                after_heading = is_heading(ls[i].as_str());
            }
            if !skip {
                let n: u16 = print_md_text(out, ls[i].as_str(), max_cols, look);
                rows = rows.saturating_add(n);
            }
            i = i + 1;
        }
        assert(Md { canvas: out@, rows, after_heading } == md_part(md, ts, i0, *look));
        assert(i == next_part(ts, i0));
    }
    rows
}

proof fn lemma_front(s: Seq<char>)
    ensures
        text::trim_front(s).len() > 0 ==> !text::is_white(text::trim_front(s)[0]),
    decreases s.len(),
{
    if s.len() > 0 && text::is_white(s[0]) {
        lemma_front(s.skip(1));
    }
}

proof fn lemma_back(s: Seq<char>)
    requires
        s.len() > 0,
        !text::is_white(s[0]),
    ensures
        text::trim_back(s).len() > 0,
    decreases s.len(),
{
    if text::is_white(s.last()) {
        assert(s.drop_last()[0] == s[0]);
        lemma_back(s.drop_last());
    }
}

/// A blank line is no fence, no row of a table and no rule.
pub proof fn lemma_blank(line: Seq<char>)
    requires
        blank(line),
    ensures
        text::trim_front(line).len() == 0,
        !fence(line),
        !piped(line),
        !styled::horizontal_rule(line),
{
    lemma_front(line);
    if text::trim_front(line).len() > 0 {
        lemma_back(text::trim_front(line));
    }
    reveal_strlit("```");
}

/// Headings have no gap behind them: blank lines there show nothing, and no
/// empty line goes before a code block or a rule.
pub proof fn law_headings_have_no_gap(md: Md, ls: Seq<Seq<char>>, i: int, look: MdLook)
    requires
        0 <= i < ls.len(),
        md.after_heading,
    ensures
        blank(ls[i]) ==> md_from(md, ls, i, look) == md_from(md, ls, i + 1, look),
        gap_before(md, ls, i) == md,
{
    if blank(ls[i]) {
        lemma_blank(ls[i]);
    }
}

/// A blank line before a list item shows nothing.
pub proof fn law_lists_have_no_gap(md: Md, ls: Seq<Seq<char>>, i: int, look: MdLook)
    requires
        0 <= i < ls.len(),
        blank(ls[i]),
        solid_from(ls, i) < ls.len(),
        styled::list_item(ls[solid_from(ls, i)]),
    ensures
        md_from(md, ls, i, look) == md_from(md, ls, i + 1, look),
{
    lemma_blank(ls[i]);
}

} // verus!
