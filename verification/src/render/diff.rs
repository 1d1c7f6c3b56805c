//! Files with line numbers, and differences between two texts.

use vstd::prelude::*;

use crate::render::bars;
use crate::render::highlight;
use crate::render::highlight::{
    count_line_rows, print_split_regions, split_regions_into_rows, Assets, Highlighter, History, Piece,
};
use crate::render::out;
use crate::render::out::{crlf, Canvas, Color, Command, RenderOut};
use crate::render::styled::Env;
use crate::render::table;
use crate::text;
use crate::text::{
    align_right, cat, cat3, char_count, chars_of, expand_tabs, extension_or, find_text, lines,
    number, repeat_char, slice_text, trim_end_char,
};

verus! {

// ── Lines with a gutter ──────────────────────────────────────────────────

/// The sign of a changed line, and its colours.
#[derive(Clone, Copy)]
pub struct Sign {
    pub ch: char,
    pub color: Color,
    pub bg: Color,
}

/// Widths of numbered lines.
#[derive(Clone, Copy)]
pub struct DiffLayout {
    pub gutter_width: usize,
    pub max_content: usize,
    pub term_width: usize,
}

/// Columns before the content: indent, space, number and three more.
pub open spec fn prefix_columns(lay: DiffLayout) -> int {
    bars::capped(lay.gutter_width + 7)
}

/// Columns behind the content of a line.
pub const RIGHT_MARGIN: usize = 3;

/// Row `vi` of the line numbered `lineno`: number or blank gutter, sign if
/// the line is changed, and the pieces.
pub open spec fn diff_row(
    m: Canvas,
    row: Seq<Piece<Seq<char>>>,
    vi: int,
    lineno: int,
    sign: Option<Sign>,
    lay: DiffLayout,
) -> Canvas {
    let m = m.print("   "@);
    let num = text::right_aligned(text::dec(lineno as nat), lay.gutter_width as int);
    let blank = text::fill(' ', bars::capped(lay.gutter_width + 4) as nat);
    let m = match sign {
        Some(s) => {
            let m = m.queue(Command::SetBackgroundColor(s.bg));
            let m = if vi == 0 {
                m.queue(Command::SetForegroundColor(Color::DarkGrey)).print(
                    " "@ + num + " "@,
                ).queue(Command::SetForegroundColor(s.color)).print(seq![s.ch] + " "@)
            } else {
                m.print(blank)
            };
            let cols = highlight::pieces_column(row, row.len() as int);
            let m = highlight::row_printed(m, row, Some(s.bg));
            let pad = lay.term_width - bars::capped(prefix_columns(lay) + cols + RIGHT_MARGIN);
            let m = if pad > 0 {
                m.queue(Command::SetBackgroundColor(s.bg)).print(text::fill(' ', pad as nat))
            } else {
                m
            };
            m.queue(Command::ResetColor)
        },
        None => {
            let m = if vi == 0 {
                m.queue(Command::SetForegroundColor(Color::DarkGrey)).print(" "@ + num).queue(
                    Command::ResetColor,
                ).print("   "@)
            } else {
                m.print(blank)
            };
            highlight::row_printed(m, row, None)
        },
    };
    m.crlf()
}

fn print_row(
    out: &mut RenderOut,
    row: &Vec<Piece<String>>,
    vi: usize,
    lineno: usize,
    sign: Option<Sign>,
    lay: &DiffLayout,
)
    ensures
        final(out)@ == diff_row(
            old(out)@,
            highlight::row_view(row@),
            vi as int,
            lineno as int,
            sign,
            *lay,
        ),
{
    out.print("   ");
    let digits = number(lineno as u64);
    let num = align_right(digits.as_str(), lay.gutter_width);
    let blank = repeat_char(' ', lay.gutter_width.saturating_add(4));
    match sign {
        Some(s) => {
            out.queue(Command::SetBackgroundColor(s.bg));
            if vi == 0 {
                out.queue(Command::SetForegroundColor(Color::DarkGrey));
                let t = cat3(" ", num.as_str(), " ");
                out.print(t.as_str());
                out.queue(Command::SetForegroundColor(s.color));
                let mut c = String::new();
                c.push(s.ch);
                assert(c@ =~= seq![s.ch]);
                c.append(" ");
                out.print(c.as_str());
            } else {
                out.print(blank.as_str());
            }
            let cols: usize = print_split_regions(out, row, Some(s.bg));
            let prefix: usize = lay.gutter_width.saturating_add(7);
            let pad: usize = lay.term_width.saturating_sub(
                prefix.saturating_add(cols).saturating_add(RIGHT_MARGIN),
            );
            if pad > 0 {
                out.queue(Command::SetBackgroundColor(s.bg));
                let spaces = repeat_char(' ', pad);
                out.print(spaces.as_str());
            }
            out.queue(Command::ResetColor);
        },
        None => {
            if vi == 0 {
                out.queue(Command::SetForegroundColor(Color::DarkGrey));
                let t = cat(" ", num.as_str());
                out.print(t.as_str());
                out.queue(Command::ResetColor);
                out.print("   ");
            } else {
                out.print(blank.as_str());
            }
            let _ = print_split_regions(out, row, None);
        },
    }
    crlf(out);
}

/// Output with a window on its rows: rows seen so far, and rows printed.
pub struct Window {
    pub canvas: Canvas,
    pub seen: u16,
    pub emitted: u16,
}

/// One row more, which shows `drawn` where it lies in the window.
pub open spec fn window_row(w: Window, drawn: Canvas, skip: u16, limit: u16) -> Window {
    let w = if w.seen >= skip && w.emitted < limit {
        Window { canvas: drawn, emitted: out::rows_plus(w.emitted, 1), ..w }
    } else {
        w
    };
    Window { seen: out::rows_plus(w.seen, 1), ..w }
}

/// The first `n` rows of one line, of which those behind `skip` are printed,
/// `limit` rows at most.
pub open spec fn window_rows(
    w: Window,
    rows: Seq<Seq<Piece<Seq<char>>>>,
    n: int,
    lineno: int,
    sign: Option<Sign>,
    lay: DiffLayout,
    skip: u16,
    limit: u16,
) -> Window
    decreases n,
{
    if n <= 0 {
        w
    } else {
        let w = window_rows(w, rows, n - 1, lineno, sign, lay, skip, limit);
        window_row(
            w,
            diff_row(w.canvas, rows[n - 1], n - 1, lineno, sign, lay),
            skip,
            limit,
        )
    }
}

/// One line, given what the highlighter was fed before.
pub open spec fn window_line(
    w: Window,
    h: History,
    line: Seq<char>,
    lineno: int,
    sign: Option<Sign>,
    lay: DiffLayout,
    skip: u16,
    limit: u16,
) -> Window {
    let rows = highlight::split_rows(highlight::line_pieces(h, line), lay.max_content as int);
    window_rows(w, rows, rows.len() as int, lineno, sign, lay, skip, limit)
}

/// The first `n` of `ls`, the first of which is numbered `start + 1`; once
/// the limit is reached the rest is passed over.
pub open spec fn window_lines(
    w: Window,
    h: History,
    ls: Seq<Seq<char>>,
    n: int,
    start: int,
    sign: Option<Sign>,
    lay: DiffLayout,
    skip: u16,
    limit: u16,
) -> Window
    decreases n,
{
    if n <= 0 {
        w
    } else {
        let w = window_lines(w, h, ls, n - 1, start, sign, lay, skip, limit);
        if w.emitted >= limit {
            w
        } else {
            window_line(
                w,
                highlight::after_lines(h, ls, n - 1),
                ls[n - 1],
                bars::capped(start + n),
                sign,
                lay,
                skip,
                limit,
            )
        }
    }
}

/// How many rows were seen and printed.
#[derive(Clone, Copy)]
pub struct Rows {
    pub seen: u16,
    pub emitted: u16,
}

impl Rows {
    pub open spec fn on(self, canvas: Canvas) -> Window {
        Window { canvas, seen: self.seen, emitted: self.emitted }
    }
}

/// Prints those of the rows of one line that lie in the window.
pub fn print_rows_in_window(
    out: &mut RenderOut,
    rows: &Vec<Vec<Piece<String>>>,
    lineno: usize,
    sign: Option<Sign>,
    lay: &DiffLayout,
    skip: u16,
    limit: u16,
    at: Rows,
) -> (r: Rows)
    ensures
        r.on(final(out)@) == window_rows(
            at.on(old(out)@),
            highlight::rows_view(rows@),
            rows@.len() as int,
            lineno as int,
            sign,
            *lay,
            skip,
            limit,
        ),
{
    let ghost w0 = at.on(out@);
    let mut r = at;
    let ghost rv = highlight::rows_view(rows@);
    let mut k: usize = 0;
    while k < rows.len()
        invariant
            rv == highlight::rows_view(rows@),
            k <= rows@.len(),
            r.on(out@) == window_rows(w0, rv, k as int, lineno as int, sign, *lay, skip, limit),
        decreases rows@.len() - k,
    {
        assert(rv[k as int] == highlight::row_view(rows@[k as int]@));
        if r.seen >= skip && r.emitted < limit {
            print_row(out, &rows[k], k, lineno, sign, lay);
            r.emitted = r.emitted.saturating_add(1);
        }
        r.seen = r.seen.saturating_add(1);
        k = k + 1;
    }
    r
}

/// Prints those rows of a line that lie in the window.
fn print_diff_line(
    out: &mut RenderOut,
    h: &mut Highlighter,
    line: &str,
    lineno: usize,
    sign: Option<Sign>,
    lay: &DiffLayout,
    skip: u16,
    limit: u16,
    at: Rows,
) -> (r: Rows)
    ensures
        r.on(final(out)@) == window_line(
            at.on(old(out)@),
            old(h).history(),
            line@,
            lineno as int,
            sign,
            *lay,
            skip,
            limit,
        ),
        final(h).history() == highlight::after_line(old(h).history(), line@),
{
    let ps = h.feed(line);
    let rows = split_regions_into_rows(&ps, lay.max_content);
    assert(highlight::rows_view(rows@).len() == rows@.len());
    print_rows_in_window(out, &rows, lineno, sign, lay, skip, limit, at)
}

/// Prints those rows of `ls[from..to]` that lie in the window.
fn print_diff_lines_skip(
    out: &mut RenderOut,
    h: &mut Highlighter,
    ls: &Vec<String>,
    from: usize,
    to: usize,
    sign: Option<Sign>,
    lay: &DiffLayout,
    skip: u16,
    limit: u16,
    at: Rows,
) -> (r: Rows)
    requires
        from <= to <= ls@.len(),
    ensures
        ({
            let part = text::texts(ls@).subrange(from as int, to as int);
            &&& r.on(final(out)@) == window_lines(
                at.on(old(out)@),
                old(h).history(),
                part,
                to - from,
                from as int,
                sign,
                *lay,
                skip,
                limit,
            )
            &&& final(h).history() == highlight::after_lines(old(h).history(), part, to - from)
        }),
{
    let ghost part = text::texts(ls@).subrange(from as int, to as int);
    let ghost h0 = h.history();
    let ghost w0 = at.on(out@);
    let mut r = at;
    let mut i: usize = from;
    while i < to
        invariant
            from <= i <= to <= ls@.len(),
            part == text::texts(ls@).subrange(from as int, to as int),
            h.history() == highlight::after_lines(h0, part, i - from),
            r.on(out@) == window_lines(
                w0,
                h0,
                part,
                i - from,
                from as int,
                sign,
                *lay,
                skip,
                limit,
            ),
        decreases to - i,
    {
        assert(part[i - from] == ls@[i as int]@);
        if r.emitted < limit {
            r =
            print_diff_line(
                out,
                h,
                ls[i].as_str(),
                i.saturating_add(1),
                sign,
                lay,
                skip,
                limit,
                r,
            );
        } else {
            let _ = h.feed(ls[i].as_str());
        }
        i = i + 1;
    }
    r
}

/// Digits of a number.
pub open spec fn digits_of(n: int) -> int {
    text::dec(n as nat).len() as int
}

/// The limit on rows: no limit when it is zero.
pub open spec fn emit_limit(max_rows: u16) -> u16 {
    if max_rows == 0 {
        u16::MAX
    } else {
        max_rows
    }
}

fn limit_of(max_rows: u16) -> (r: u16)
    ensures
        r == emit_limit(max_rows),
{
    if max_rows == 0 {
        u16::MAX
    } else {
        max_rows
    }
}

fn digit_count(n: usize) -> (r: usize)
    ensures
        r == digits_of(n as int),
{
    let s = number(n as u64);
    char_count(s.as_str())
}

/// Widths of a file of `count` lines.
pub open spec fn file_layout(count: int, term_width: usize) -> DiffLayout {
    let g = digits_of(count);
    DiffLayout {
        gutter_width: g as usize,
        max_content: bars::at_least_zero(term_width - bars::capped(g + 8)) as usize,
        term_width,
    }
}

/// The window on a file with line numbers.
pub open spec fn file_window(
    m: Canvas,
    ls: Seq<Seq<char>>,
    ext: Seq<char>,
    skip: u16,
    max_rows: u16,
    term_width: usize,
) -> Window {
    window_lines(
        Window { canvas: m, seen: 0, emitted: 0 },
        highlight::fresh(highlight::chosen_syntax(ext, None)),
        ls,
        ls.len() as int,
        0,
        None,
        file_layout(ls.len() as int, term_width),
        skip,
        emit_limit(max_rows),
    )
}

/// Prints lines with numbers: those rows behind `skip`, `max_rows` at most
/// unless it is zero.  The result is how many were printed.
pub fn render_highlighted(
    out: &mut RenderOut,
    assets: &Assets,
    ls: &Vec<String>,
    ext: &str,
    skip: u16,
    max_rows: u16,
    term_width: usize,
) -> (r: u16)
    ensures
        final(out)@ == file_window(
            old(out)@,
            text::texts(ls@),
            ext@,
            skip,
            max_rows,
            term_width,
        ).canvas,
        r == file_window(
            old(out)@,
            text::texts(ls@),
            ext@,
            skip,
            max_rows,
            term_width,
        ).emitted,
{
    let g: usize = digit_count(ls.len());
    let lay = DiffLayout {
        gutter_width: g,
        max_content: term_width.saturating_sub(g.saturating_add(8)),
        term_width,
    };
    let mut h = Highlighter::new(assets, ext, None);
    assert(text::texts(ls@).subrange(0, ls@.len() as int) =~= text::texts(ls@));
    let r = print_diff_lines_skip(
        out,
        &mut h,
        ls,
        0,
        ls.len(),
        None,
        &lay,
        skip,
        limit_of(max_rows),
        Rows { seen: 0, emitted: 0 },
    );
    r.emitted
}

/// The extension by which a file is highlighted.
pub open spec fn file_extension(path: Seq<char>) -> Seq<char> {
    match text::extension_of(path) {
        Some(e) => e,
        None => "txt"@,
    }
}

/// Prints the content of a file with line numbers.
pub fn print_syntax_file(
    out: &mut RenderOut,
    assets: &Assets,
    content: &str,
    path: &str,
    skip: u16,
    max_rows: u16,
    term_width: usize,
) -> (r: u16)
    ensures
        final(out)@ == file_window(
            old(out)@,
            text::lines_of(content@),
            file_extension(path@),
            skip,
            max_rows,
            term_width,
        ).canvas,
        r == file_window(
            old(out)@,
            text::lines_of(content@),
            file_extension(path@),
            skip,
            max_rows,
            term_width,
        ).emitted,
{
    let ext = extension_or(path, "txt");
    let ls = lines(content);
    render_highlighted(out, assets, &ls, ext.as_str(), skip, max_rows, term_width)
}

// ── Differences ──────────────────────────────────────────────────────────

/// Whether a line is in both texts, only in the old one or only in the new
/// one.
#[derive(Clone, Copy, Debug, PartialEq, Eq, Structural)]
pub enum ChangeTag {
    Equal,
    Delete,
    Insert,
}

/// The line-by-line difference of two texts, in the sense of
/// `similar::TextDiff::from_lines` and `TextDiff::iter_all_changes`.
pub uninterp spec fn line_changes(old_text: Seq<char>, new_text: Seq<char>) -> Seq<
    (ChangeTag, Seq<char>),
>;

/// The lines of the old text, run together.
pub open spec fn old_side(cs: Seq<(ChangeTag, Seq<char>)>) -> Seq<char>
    decreases cs.len(),
{
    if cs.len() == 0 {
        seq![]
    } else if cs.last().0 is Insert {
        old_side(cs.drop_last())
    } else {
        old_side(cs.drop_last()) + cs.last().1
    }
}

/// The lines of the new text, run together.
pub open spec fn new_side(cs: Seq<(ChangeTag, Seq<char>)>) -> Seq<char>
    decreases cs.len(),
{
    if cs.len() == 0 {
        seq![]
    } else if cs.last().0 is Delete {
        new_side(cs.drop_last())
    } else {
        new_side(cs.drop_last()) + cs.last().1
    }
}

/// Tags and characters of each change.
pub open spec fn changes_view(v: Seq<(ChangeTag, String)>) -> Seq<(ChangeTag, Seq<char>)> {
    Seq::new(v.len(), |i: int| (v[i].0, v[i].1@))
}

/// `similar::TextDiff::from_lines`, flattened by `iter_all_changes`.  The
/// claim is that the changes depend on the two texts alone, and that they
/// hold the whole of both: without the inserted lines they are the old text,
/// without the deleted lines the new one.
#[verifier::external_body]
fn diff_lines(old_text: &str, new_text: &str) -> (r: Vec<(ChangeTag, String)>)
    ensures
        changes_view(r@) == line_changes(old_text@, new_text@),
        old_side(changes_view(r@)) == old_text@,
        new_side(changes_view(r@)) == new_text@,
{
    similar::TextDiff::from_lines(old_text, new_text).iter_all_changes().map(
        |c|
            {
                let tag = match c.tag() {
                    similar::ChangeTag::Equal => ChangeTag::Equal,
                    similar::ChangeTag::Delete => ChangeTag::Delete,
                    similar::ChangeTag::Insert => ChangeTag::Insert,
                };
                (tag, c.value().to_string())
            },
    ).collect()
}

/// Lines of context around a change.
pub const CONTEXT: usize = 3;

/// Where changed lines stand: first and last line that changes, and the
/// numbers of the next lines of both texts.
pub struct ModScan {
    pub first: Option<int>,
    pub last: Option<int>,
    pub new_line: int,
    pub old_line: int,
}

/// The scan after the first `n` changes.
pub open spec fn mod_scan(cs: Seq<(ChangeTag, Seq<char>)>, n: int, start: int) -> ModScan
    decreases n,
{
    if n <= 0 {
        ModScan { first: None, last: None, new_line: start, old_line: start }
    } else {
        let s = mod_scan(cs, n - 1, start);
        let first = match s.first {
            Some(f) => Some(f),
            None => Some(s.new_line),
        };
        match cs[n - 1].0 {
            ChangeTag::Equal => ModScan {
                new_line: bars::capped(s.new_line + 1),
                old_line: bars::capped(s.old_line + 1),
                ..s
            },
            ChangeTag::Delete => ModScan {
                first,
                last: Some(s.new_line),
                old_line: bars::capped(s.old_line + 1),
                ..s
            },
            ChangeTag::Insert => ModScan {
                first,
                last: Some(s.new_line),
                new_line: bars::capped(s.new_line + 1),
                ..s
            },
        }
    }
}

/// `a`, or `b` when there is none.
pub open spec fn value_or(a: Option<int>, b: int) -> int {
    match a {
        Some(x) => x,
        None => b,
    }
}

/// Which lines of a file a difference shows.
pub struct DiffView {
    pub start_line: int,
    pub first_mod: int,
    pub view_start: int,
    pub view_end: int,
    pub max_lineno: int,
}

/// Number of lines before the first occurrence of `lookup` in the file; zero
/// when there is none or nothing to look for.
pub open spec fn lines_before(file: Seq<char>, lookup: Seq<char>) -> int {
    let at = text::find_from(file, lookup, 0);
    if lookup.len() == 0 || at > file.len() {
        0
    } else {
        text::lines_of(file.take(at)).len() as int
    }
}

/// The text by which the place of a difference is found: `anchor`, or the old
/// or new text when it is empty.
pub open spec fn lookup_text(
    old_text: Seq<char>,
    new_text: Seq<char>,
    anchor: Seq<char>,
) -> Seq<char> {
    if anchor.len() > 0 {
        anchor
    } else if old_text.len() > 0 {
        old_text
    } else {
        new_text
    }
}

/// The part of a file that changes at the place of `lookup` show: three lines
/// around the lines that change.
pub open spec fn changes_part(
    file: Seq<char>,
    cs: Seq<(ChangeTag, Seq<char>)>,
    lookup: Seq<char>,
) -> DiffView {
    let start = lines_before(file, lookup);
    let s = mod_scan(cs, cs.len() as int, start);
    let first = value_or(s.first, start);
    let last = value_or(s.last, start);
    let view_end = table::smaller(
        bars::capped(last + 1 + CONTEXT),
        text::lines_of(file).len() as int,
    );
    DiffView {
        start_line: start,
        first_mod: first,
        view_start: bars::at_least_zero(first - CONTEXT),
        view_end,
        max_lineno: table::larger(table::larger(view_end, s.old_line), s.new_line),
    }
}

/// The part of a file that a difference shows.
pub open spec fn diff_view(
    file: Seq<char>,
    old_text: Seq<char>,
    new_text: Seq<char>,
    anchor: Seq<char>,
) -> DiffView {
    changes_part(
        file,
        line_changes(old_text, new_text),
        lookup_text(old_text, new_text, anchor),
    )
}

/// The lines of a file that a difference shows.
struct DiffViewData {
    file_lines: Vec<String>,
    start_line: usize,
    first_mod: usize,
    view_start: usize,
    view_end: usize,
    max_lineno: usize,
}

impl DiffViewData {
    spec fn is(
        self,
        file: Seq<char>,
        cs: Seq<(ChangeTag, Seq<char>)>,
        lookup: Seq<char>,
    ) -> bool {
        let v = changes_part(file, cs, lookup);
        &&& text::texts(self.file_lines@) == highlight::untabbed_lines(text::lines_of(file))
        &&& self.start_line == v.start_line
        &&& self.first_mod == v.first_mod
        &&& self.view_start == v.view_start
        &&& self.view_end == v.view_end
        &&& self.max_lineno == v.max_lineno
    }
}

fn count_lines_before(file: &str, lookup: &str) -> (r: usize)
    ensures
        r == lines_before(file@, lookup@),
{
    let f = chars_of(file);
    let l = chars_of(lookup);
    if l.len() == 0 {
        return 0;
    }
    match find_text(&f, &l, 0) {
        Some(at) => {
            let before = slice_text(&f, 0, at);
            assert(before@ =~= file@.take(at as int));
            let ls = lines(before.as_str());
            assert(text::texts(ls@).len() == ls@.len());
            ls.len()
        },
        None => 0,
    }
}

fn find_lookup<'a>(old_text: &'a str, new_text: &'a str, anchor: &'a str) -> (r: &'a str)
    ensures
        r@ == lookup_text(old_text@, new_text@, anchor@),
{
    if char_count(anchor) > 0 {
        anchor
    } else if char_count(old_text) > 0 {
        old_text
    } else {
        new_text
    }
}

fn compute_diff_view(file: &str, changes: &Vec<(ChangeTag, String)>, lookup: &str) -> (r:
    DiffViewData)
    ensures
        r.is(file@, changes_view(changes@), lookup@),
{
    let start: usize = count_lines_before(file, lookup);
    let raw = lines(file);
    let ghost rt = text::texts(raw@);
    let mut file_lines: Vec<String> = Vec::new();
    let mut i: usize = 0;
    while i < raw.len()
        invariant
            rt == text::texts(raw@),
            i <= raw@.len(),
            file_lines@.len() == i,
            forall|j: int|
                0 <= j < i ==> (#[trigger] file_lines@[j])@ == highlight::untabbed_lines(rt)[j],
        decreases raw@.len() - i,
    {
        assert(rt[i as int] == raw@[i as int]@);
        file_lines.push(expand_tabs(raw[i].as_str()));
        i = i + 1;
    }
    assert(text::texts(file_lines@) =~= highlight::untabbed_lines(rt));
    let ghost cs = changes_view(changes@);
    let mut first: Option<usize> = None;
    let mut last: Option<usize> = None;
    let mut new_line: usize = start;
    let mut old_line: usize = start;
    let mut i: usize = 0;
    while i < changes.len()
        invariant
            cs == changes_view(changes@),
            i <= changes@.len(),
            ({
                let s = mod_scan(cs, i as int, start as int);
                &&& new_line == s.new_line
                &&& old_line == s.old_line
                &&& match first {
                    Some(f) => s.first == Some(f as int),
                    None => s.first is None,
                }
                &&& match last {
                    Some(f) => s.last == Some(f as int),
                    None => s.last is None,
                }
            }),
        decreases changes@.len() - i,
    {
        assert(cs[i as int].0 == changes@[i as int].0);
        match changes[i].0 {
            ChangeTag::Equal => {
                new_line = new_line.saturating_add(1);
                old_line = old_line.saturating_add(1);
            },
            ChangeTag::Delete => {
                if first.is_none() {
                    first = Some(new_line);
                }
                last = Some(new_line);
                old_line = old_line.saturating_add(1);
            },
            ChangeTag::Insert => {
                if first.is_none() {
                    first = Some(new_line);
                }
                last = Some(new_line);
                new_line = new_line.saturating_add(1);
            },
        }
        i = i + 1;
    }
    let first_mod: usize = match first {
        Some(f) => f,
        None => start,
    };
    let last_mod: usize = match last {
        Some(f) => f,
        None => start,
    };
    let count: usize = file_lines.len();
    let below: usize = last_mod.saturating_add(1).saturating_add(CONTEXT);
    let view_end: usize = if below < count {
        below
    } else {
        count
    };
    let m1: usize = if view_end > old_line {
        view_end
    } else {
        old_line
    };
    let max_lineno: usize = if m1 > new_line {
        m1
    } else {
        new_line
    };
    assert(rt.len() == count);
    DiffViewData {
        file_lines,
        start_line: start,
        first_mod,
        view_start: first_mod.saturating_sub(CONTEXT),
        view_end,
        max_lineno,
    }
}

/// Whether line `i` is within `ctx` lines of a line that changes.
pub open spec fn near_change(cs: Seq<(ChangeTag, Seq<char>)>, i: int, ctx: int) -> bool {
    exists|j: int|
        0 <= j < cs.len() && !((#[trigger] cs[j]).0 is Equal) && j - ctx <= i <= j + ctx
}

/// Which lines are shown: those within `ctx` lines of a line that changes.
pub fn compute_change_visibility(changes: &Vec<(ChangeTag, String)>, ctx: usize) -> (r: Vec<bool>)
    requires
        ctx < usize::MAX,
    ensures
        r@.len() == changes@.len(),
        forall|i: int|
            0 <= i < r@.len() ==> #[trigger] r@[i] == near_change(
                changes_view(changes@),
                i,
                ctx as int,
            ),
{
    let n: usize = changes.len();
    let ghost cs = changes_view(changes@);
    let mut visible: Vec<bool> = Vec::new();
    // Distance from the last change before, `usize::MAX` when there is none.
    let mut d: usize = usize::MAX;
    let ghost mut at: int = -1;
    let mut i: usize = 0;
    while i < n
        invariant
            n == changes@.len(),
            ctx < usize::MAX,
            cs == changes_view(changes@),
            i <= n,
            visible@.len() == i,
            -1 <= at < i,
            at >= 0 ==> !(cs[at].0 is Equal) && d == i - at,
            at < 0 ==> d == usize::MAX,
            forall|j: int| at < j < i ==> (#[trigger] cs[j]).0 is Equal,
            forall|k: int|
                0 <= k < i ==> (#[trigger] visible@[k] <==> exists|j: int|
                    0 <= j <= k && !((#[trigger] cs[j]).0 is Equal) && k <= j + ctx),
        decreases n - i,
    {
        assert(cs[i as int].0 == changes@[i as int].0);
        let equal = match changes[i].0 {
            ChangeTag::Equal => true,
            _ => false,
        };
        if !equal {
            d = 0;
            proof {
                at = i as int;
            }
            visible.push(true);
        } else {
            visible.push(d <= ctx);
            proof {
                if d <= ctx {
                    assert(!(cs[at].0 is Equal) && i <= at + ctx);
                } else if at >= 0 {
                    assert forall|j: int| 0 <= j <= i && !((#[trigger] cs[j]).0 is Equal) implies i
                        > j + ctx by {
                        assert(j <= at);
                    }
                }
            }
        }
        d = d.saturating_add(1);
        i = i + 1;
    }
    let ghost fwd = visible@;
    let mut d: usize = usize::MAX;
    let ghost mut at: int = n as int;
    let mut i: usize = n;
    while i > 0
        invariant
            n == changes@.len(),
            ctx < usize::MAX,
            cs == changes_view(changes@),
            i <= n,
            visible@.len() == n,
            fwd.len() == n,
            i <= at <= n,
            at < n ==> !(cs[at].0 is Equal) && d == at - (i - 1),
            at == n ==> d == usize::MAX,
            forall|j: int| i <= j < at ==> (#[trigger] cs[j]).0 is Equal,
            forall|k: int|
                0 <= k < n ==> (#[trigger] fwd[k] <==> exists|j: int|
                    0 <= j <= k && !((#[trigger] cs[j]).0 is Equal) && k <= j + ctx),
            forall|k: int| 0 <= k < i ==> #[trigger] visible@[k] == fwd[k],
            forall|k: int|
                i <= k < n ==> #[trigger] visible@[k] == near_change(cs, k, ctx as int),
        decreases i,
    {
        let k: usize = i - 1;
        assert(cs[k as int].0 == changes@[k as int].0);
        assert(visible@[k as int] == fwd[k as int]);
        let equal = match changes[k].0 {
            ChangeTag::Equal => true,
            _ => false,
        };
        if !equal {
            d = 0;
            proof {
                at = k as int;
                assert(fwd[k as int]);
                assert(near_change(cs, k as int, ctx as int));
            }
        } else if d <= ctx {
            proof {
                assert(near_change(cs, k as int, ctx as int));
            }
            visible.set(k, true);
        } else {
            proof {
                if near_change(cs, k as int, ctx as int) {
                    let j = choose|j: int|
                        0 <= j < cs.len() && !((#[trigger] cs[j]).0 is Equal) && j - ctx <= k <= j
                            + ctx;
                    assert(j < k || j >= at);
                }
                if fwd[k as int] {
                    assert(near_change(cs, k as int, ctx as int));
                }
            }
        }
        d = d.saturating_add(1);
        i = k;
    }
    visible
}

// ── Inline difference ────────────────────────────────────────────────────

/// The deleted line's sign.
pub open spec fn delete_sign() -> Sign {
    Sign { ch: '-', color: Color::Red, bg: Color::Rgb { r: 60, g: 20, b: 20 } }
}

/// The inserted line's sign.
pub open spec fn insert_sign() -> Sign {
    Sign { ch: '+', color: Color::Green, bg: Color::Rgb { r: 20, g: 50, b: 20 } }
}

/// Where the printing of a difference stands.
pub struct DiffState {
    pub window: Window,
    pub old_no: int,
    pub new_no: int,
    /// Lines were passed over since the last one that was shown.
    pub pending: bool,
    pub any: bool,
    pub h_old: History,
    pub h_new: History,
}

/// A mark for lines that were passed over, if there are any.
pub open spec fn gap_mark(d: DiffState, lay: DiffLayout, skip: u16, limit: u16) -> DiffState {
    if d.pending {
        let dots = text::right_aligned("..."@, bars::capped(lay.gutter_width + 1));
        DiffState {
            window: window_row(
                d.window,
                d.window.canvas.print("   "@).queue(
                    Command::SetForegroundColor(Color::DarkGrey),
                ).print(dots).queue(Command::ResetColor).crlf(),
                skip,
                limit,
            ),
            pending: false,
            ..d
        }
    } else {
        d
    }
}

/// The text of a change as it is shown.
pub open spec fn change_text(value: Seq<char>) -> Seq<char> {
    text::untabbed(text::drop_back(value, |x: char| x == '\n'))
}

/// Prints one change, or passes it over when it is not visible.
pub open spec fn diff_step(
    d: DiffState,
    tag: ChangeTag,
    line: Seq<char>,
    visible: bool,
    v: DiffView,
    lay: DiffLayout,
    skip: u16,
    limit: u16,
) -> DiffState {
    if d.window.emitted >= limit {
        d
    } else {
        match tag {
            ChangeTag::Equal => {
                let d1 = if visible {
                    let d = gap_mark(d, lay, skip, limit);
                    if v.view_start <= d.new_no < v.view_end {
                        DiffState {
                            window: window_line(
                                d.window,
                                d.h_new,
                                line,
                                bars::capped(d.new_no + 1),
                                None,
                                lay,
                                skip,
                                limit,
                            ),
                            any: true,
                            h_new: highlight::after_line(d.h_new, line),
                            ..d
                        }
                    } else {
                        d
                    }
                } else {
                    DiffState {
                        pending: d.pending || d.any,
                        h_new: highlight::after_line(d.h_new, line),
                        ..d
                    }
                };
                DiffState {
                    h_old: highlight::after_line(d.h_old, line),
                    new_no: bars::capped(d.new_no + 1),
                    ..d1
                }
            },
            ChangeTag::Delete => {
                let d = gap_mark(d, lay, skip, limit);
                DiffState {
                    window: window_line(
                        d.window,
                        d.h_old,
                        line,
                        bars::capped(d.old_no + 1),
                        Some(delete_sign()),
                        lay,
                        skip,
                        limit,
                    ),
                    h_old: highlight::after_line(d.h_old, line),
                    old_no: bars::capped(d.old_no + 1),
                    ..d
                }
            },
            ChangeTag::Insert => {
                let d = gap_mark(d, lay, skip, limit);
                DiffState {
                    window: window_line(
                        d.window,
                        d.h_new,
                        line,
                        bars::capped(d.new_no + 1),
                        Some(insert_sign()),
                        lay,
                        skip,
                        limit,
                    ),
                    h_new: highlight::after_line(d.h_new, line),
                    new_no: bars::capped(d.new_no + 1),
                    ..d
                }
            },
        }
    }
}

/// Prints the first `n` changes.
pub open spec fn diff_steps(
    d: DiffState,
    cs: Seq<(ChangeTag, Seq<char>)>,
    n: int,
    v: DiffView,
    lay: DiffLayout,
    skip: u16,
    limit: u16,
) -> DiffState
    decreases n,
{
    if n <= 0 {
        d
    } else {
        diff_step(
            diff_steps(d, cs, n - 1, v, lay, skip, limit),
            cs[n - 1].0,
            change_text(cs[n - 1].1),
            near_change(cs, n - 1, CONTEXT as int),
            v,
            lay,
            skip,
            limit,
        )
    }
}

/// Widths of a difference whose line numbers go up to `max_lineno`.
pub open spec fn diff_layout(max_lineno: int, term_width: usize) -> DiffLayout {
    let g = digits_of(max_lineno);
    DiffLayout {
        gutter_width: g as usize,
        max_content: bars::at_least_zero(term_width - bars::capped(g + 10)) as usize,
        term_width,
    }
}

/// Changes in the file: the context before them, the changes, and the
/// context behind them, as far as their rows lie in the window.
pub open spec fn changes_printed(
    m: Canvas,
    file: Seq<char>,
    cs: Seq<(ChangeTag, Seq<char>)>,
    lookup: Seq<char>,
    ext: Seq<char>,
    anchor: Seq<char>,
    skip: u16,
    max_rows: u16,
    term_width: usize,
) -> (Canvas, u16) {
    let v = changes_part(file, cs, lookup);
    let ls = highlight::untabbed_lines(text::lines_of(file));
    let count = ls.len() as int;
    let lay = diff_layout(v.max_lineno, term_width);
    let limit = emit_limit(max_rows);
    let h = highlight::after_lines(
        highlight::fresh(highlight::chosen_syntax(ext, None)),
        ls,
        table::smaller(v.view_start, count),
    );
    let to = table::smaller(table::smaller(v.start_line, v.first_mod), count);
    let from = table::smaller(v.view_start, to);
    let before = ls.subrange(from, to);
    let w = window_lines(
        Window { canvas: m, seen: 0, emitted: 0 },
        h,
        before,
        to - from,
        from,
        None,
        lay,
        skip,
        limit,
    );
    let h = highlight::after_lines(h, before, to - from);
    let d = diff_steps(
        DiffState {
            window: w,
            old_no: v.start_line,
            new_no: v.start_line,
            pending: false,
            any: w.seen > 0,
            h_old: h,
            h_new: h,
        },
        cs,
        cs.len() as int,
        v,
        lay,
        skip,
        limit,
    );
    let after = bars::capped(v.start_line + text::lines_of(anchor).len());
    let end = table::smaller(v.view_end, count);
    let w = if after < end {
        window_lines(
            d.window,
            d.h_new,
            ls.subrange(after, end),
            end - after,
            after,
            None,
            lay,
            skip,
            limit,
        )
    } else {
        d.window
    };
    (w.canvas, w.emitted)
}

/// The difference of two texts in the file.
pub open spec fn inline_diff(
    m: Canvas,
    file: Seq<char>,
    old_text: Seq<char>,
    new_text: Seq<char>,
    ext: Seq<char>,
    anchor: Seq<char>,
    skip: u16,
    max_rows: u16,
    term_width: usize,
) -> (Canvas, u16) {
    changes_printed(
        m,
        file,
        line_changes(old_text, new_text),
        lookup_text(old_text, new_text, anchor),
        ext,
        anchor,
        skip,
        max_rows,
        term_width,
    )
}

/// Where the printing of a difference stands, in numbers.
struct Progress {
    rows: Rows,
    old_no: usize,
    new_no: usize,
    pending: bool,
    any: bool,
}

impl Progress {
    spec fn state(self, canvas: Canvas, h_old: History, h_new: History) -> DiffState {
        DiffState {
            window: self.rows.on(canvas),
            old_no: self.old_no as int,
            new_no: self.new_no as int,
            pending: self.pending,
            any: self.any,
            h_old,
            h_new,
        }
    }
}

fn print_gap_mark(
    out: &mut RenderOut,
    p: &mut Progress,
    lay: &DiffLayout,
    skip: u16,
    limit: u16,
    Ghost(h): Ghost<(History, History)>,
)
    ensures
        final(p).state(final(out)@, h.0, h.1) == gap_mark(
            old(p).state(old(out)@, h.0, h.1),
            *lay,
            skip,
            limit,
        ),
{
    if p.pending {
        p.pending = false;
        if p.rows.seen >= skip && p.rows.emitted < limit {
            out.print("   ");
            out.queue(Command::SetForegroundColor(Color::DarkGrey));
            let dots = align_right("...", lay.gutter_width.saturating_add(1));
            out.print(dots.as_str());
            out.queue(Command::ResetColor);
            crlf(out);
            p.rows.emitted = p.rows.emitted.saturating_add(1);
        }
        p.rows.seen = p.rows.seen.saturating_add(1);
    }
}

fn print_change(
    out: &mut RenderOut,
    p: &mut Progress,
    h_old: &mut Highlighter,
    h_new: &mut Highlighter,
    tag: ChangeTag,
    line: &str,
    visible: bool,
    view_start: usize,
    view_end: usize,
    lay: &DiffLayout,
    skip: u16,
    limit: u16,
    Ghost(v): Ghost<DiffView>,
)
    requires
        view_start == v.view_start,
        view_end == v.view_end,
    ensures
        final(p).state(final(out)@, final(h_old).history(), final(h_new).history()) == diff_step(
            old(p).state(old(out)@, old(h_old).history(), old(h_new).history()),
            tag,
            line@,
            visible,
            v,
            *lay,
            skip,
            limit,
        ),
{
    if p.rows.emitted >= limit {
        return;
    }
    match tag {
        ChangeTag::Equal => {
            if visible {
                print_gap_mark(
                    out,
                    p,
                    lay,
                    skip,
                    limit,
                    Ghost((h_old.history(), h_new.history())),
                );
                if p.new_no >= view_start && p.new_no < view_end {
                    let no: usize = p.new_no.saturating_add(1);
                    p.rows = print_diff_line(out, h_new, line, no, None, lay, skip, limit, p.rows);
                    p.any = true;
                }
            } else {
                if p.any {
                    p.pending = true;
                }
                let _ = h_new.feed(line);
            }
            let _ = h_old.feed(line);
            p.new_no = p.new_no.saturating_add(1);
        },
        ChangeTag::Delete => {
            print_gap_mark(
                out,
                p,
                lay,
                skip,
                limit,
                Ghost((h_old.history(), h_new.history())),
            );
            let sign = Sign { ch: '-', color: Color::Red, bg: Color::Rgb { r: 60, g: 20, b: 20 } };
            let no: usize = p.old_no.saturating_add(1);
            p.rows = print_diff_line(out, h_old, line, no, Some(sign), lay, skip, limit, p.rows);
            p.old_no = p.old_no.saturating_add(1);
        },
        ChangeTag::Insert => {
            print_gap_mark(
                out,
                p,
                lay,
                skip,
                limit,
                Ghost((h_old.history(), h_new.history())),
            );
            let sign = Sign {
                ch: '+',
                color: Color::Green,
                bg: Color::Rgb { r: 20, g: 50, b: 20 },
            };
            let no: usize = p.new_no.saturating_add(1);
            p.rows = print_diff_line(out, h_new, line, no, Some(sign), lay, skip, limit, p.rows);
            p.new_no = p.new_no.saturating_add(1);
        },
    }
}

fn feed_lines(h: &mut Highlighter, ls: &Vec<String>, from: usize, to: usize)
    requires
        from <= to <= ls@.len(),
    ensures
        final(h).history() == highlight::after_lines(
            old(h).history(),
            text::texts(ls@).subrange(from as int, to as int),
            to - from,
        ),
{
    let ghost part = text::texts(ls@).subrange(from as int, to as int);
    let ghost h0 = h.history();
    let mut i: usize = from;
    while i < to
        invariant
            from <= i <= to <= ls@.len(),
            part == text::texts(ls@).subrange(from as int, to as int),
            h.history() == highlight::after_lines(h0, part, i - from),
        decreases to - i,
    {
        assert(part[i - from] == ls@[i as int]@);
        let _ = h.feed(ls[i].as_str());
        i = i + 1;
    }
}

proof fn lemma_after_lines_prefix(h: History, a: Seq<Seq<char>>, b: Seq<Seq<char>>, n: int)
    requires
        0 <= n <= a.len(),
        n <= b.len(),
        forall|i: int| 0 <= i < n ==> a[i] == b[i],
    ensures
        highlight::after_lines(h, a, n) == highlight::after_lines(h, b, n),
    decreases n,
{
    if n > 0 {
        lemma_after_lines_prefix(h, a, b, n - 1);
    }
}

fn least(a: usize, b: usize) -> (r: usize)
    ensures
        r == table::smaller(a as int, b as int),
{
    if a < b {
        a
    } else {
        b
    }
}

/// Prints the difference of two texts as it stands in a file, with syntax
/// highlighting: rows behind `skip`, `max_rows` at most unless it is zero.
/// The result is how many rows were printed.
pub fn print_inline_diff(
    out: &mut RenderOut,
    assets: &Assets,
    env: &Env,
    old_text: &str,
    new_text: &str,
    path: &str,
    anchor: &str,
    skip: u16,
    max_rows: u16,
) -> (r: u16)
    ensures
        (final(out)@, r) == inline_diff(
            old(out)@,
            env.file(path@),
            old_text@,
            new_text@,
            file_extension(path@),
            anchor@,
            skip,
            max_rows,
            env.term_width,
        ),
{
    let ext = extension_or(path, "txt");
    print_inline_diff_ext(
        out,
        assets,
        env,
        old_text,
        new_text,
        path,
        ext.as_str(),
        anchor,
        skip,
        max_rows,
    )
}

/// Prints a difference that is highlighted by the extension `ext`.
pub fn print_inline_diff_ext(
    out: &mut RenderOut,
    assets: &Assets,
    env: &Env,
    old_text: &str,
    new_text: &str,
    path: &str,
    ext: &str,
    anchor: &str,
    skip: u16,
    max_rows: u16,
) -> (r: u16)
    ensures
        (final(out)@, r) == inline_diff(
            old(out)@,
            env.file(path@),
            old_text@,
            new_text@,
            ext@,
            anchor@,
            skip,
            max_rows,
            env.term_width,
        ),
{
    let file = env.read_file(path);
    let changes = diff_lines(old_text, new_text);
    print_changes(
        out,
        assets,
        file.as_str(),
        &changes,
        find_lookup(old_text, new_text, anchor),
        ext,
        anchor,
        skip,
        max_rows,
        env.term_width,
    )
}

/// Prints changes at the place of `lookup` in a file: rows behind `skip`,
/// `max_rows` at most unless it is zero.  The result is how many rows were
/// printed.
pub fn print_changes(
    out: &mut RenderOut,
    assets: &Assets,
    file: &str,
    changes: &Vec<(ChangeTag, String)>,
    lookup: &str,
    ext: &str,
    anchor: &str,
    skip: u16,
    max_rows: u16,
    term_width: usize,
) -> (r: u16)
    ensures
        (final(out)@, r) == changes_printed(
            old(out)@,
            file@,
            changes_view(changes@),
            lookup@,
            ext@,
            anchor@,
            skip,
            max_rows,
            term_width,
        ),
{
    let dv = compute_diff_view(file, changes, lookup);
    let ghost v = changes_part(file@, changes_view(changes@), lookup@);
    let ghost ls = highlight::untabbed_lines(text::lines_of(file@));
    let count: usize = dv.file_lines.len();
    assert(ls.len() == count) by {
        assert(text::texts(dv.file_lines@).len() == count);
    }
    let g: usize = digit_count(dv.max_lineno);
    let lay = DiffLayout {
        gutter_width: g,
        max_content: term_width.saturating_sub(g.saturating_add(10)),
        term_width,
    };
    let limit: u16 = limit_of(max_rows);
    let mut h_old = Highlighter::new(assets, ext, None);
    let mut h_new = Highlighter::new(assets, ext, None);
    let lead: usize = least(dv.view_start, count);
    let ghost h0 = h_old.history();
    feed_lines(&mut h_old, &dv.file_lines, 0, lead);
    feed_lines(&mut h_new, &dv.file_lines, 0, lead);
    proof {
        lemma_after_lines_prefix(h0, ls.subrange(0, lead as int), ls, lead as int);
    }
    let to: usize = least(least(dv.start_line, dv.first_mod), count);
    let from: usize = least(dv.view_start, to);
    let shown = print_diff_lines_skip(
        out,
        &mut h_new,
        &dv.file_lines,
        from,
        to,
        None,
        &lay,
        skip,
        limit,
        Rows { seen: 0, emitted: 0 },
    );
    feed_lines(&mut h_old, &dv.file_lines, from, to);
    let visible = compute_change_visibility(changes, CONTEXT);
    let mut p = Progress {
        rows: shown,
        old_no: dv.start_line,
        new_no: dv.start_line,
        pending: false,
        any: shown.seen > 0,
    };
    let ghost cs = changes_view(changes@);
    let ghost d0 = p.state(out@, h_old.history(), h_new.history());
    let mut i: usize = 0;
    while i < changes.len()
        invariant
            cs == changes_view(changes@),
            visible@.len() == changes@.len(),
            forall|k: int|
                0 <= k < visible@.len() ==> #[trigger] visible@[k] == near_change(
                    cs,
                    k,
                    CONTEXT as int,
                ),
            dv.view_start == v.view_start,
            dv.view_end == v.view_end,
            i <= changes@.len(),
            p.state(out@, h_old.history(), h_new.history()) == diff_steps(
                d0,
                cs,
                i as int,
                v,
                lay,
                skip,
                limit,
            ),
        decreases changes@.len() - i,
    {
        let bare = trim_end_char(changes[i].1.as_str(), '\n');
        let line = expand_tabs(bare.as_str());
        assert(cs[i as int] == (changes@[i as int].0, changes@[i as int].1@));
        assert(line@ == change_text(cs[i as int].1));
        print_change(
            out,
            &mut p,
            &mut h_old,
            &mut h_new,
            changes[i].0,
            line.as_str(),
            visible[i],
            dv.view_start,
            dv.view_end,
            &lay,
            skip,
            limit,
            Ghost(v),
        );
        i = i + 1;
    }
    let anchor_lines = lines(anchor);
    assert(text::texts(anchor_lines@).len() == anchor_lines@.len());
    let after: usize = dv.start_line.saturating_add(anchor_lines.len());
    let end: usize = least(dv.view_end, count);
    if after < end {
        let r = print_diff_lines_skip(
            out,
            &mut h_new,
            &dv.file_lines,
            after,
            end,
            None,
            &lay,
            skip,
            limit,
            p.rows,
        );
        r.emitted
    } else {
        p.rows.emitted
    }
}

// ── Counting rows ────────────────────────────────────────────────────────

/// Rows of the first `n` of `ls`, `start` added.
pub open spec fn rows_for_lines(ls: Seq<Seq<char>>, n: int, max_content: int, start: int) -> int
    decreases n,
{
    if n <= 0 {
        start
    } else {
        bars::capped(
            rows_for_lines(ls, n - 1, max_content, start) + highlight::line_rows(
                ls[n - 1],
                max_content,
            ),
        )
    }
}

/// Where the counting of rows stands.
pub struct RowCount {
    pub rows: int,
    pub new_no: int,
    pub pending: bool,
    pub any: bool,
}

/// Counts one change.
pub open spec fn count_step(
    c: RowCount,
    tag: ChangeTag,
    line: Seq<char>,
    visible: bool,
    v: DiffView,
    max_content: int,
) -> RowCount {
    let marked = RowCount {
        rows: bars::capped(c.rows + (if c.pending { 1int } else { 0 })),
        pending: false,
        ..c
    };
    let here = highlight::line_rows(line, max_content);
    match tag {
        ChangeTag::Equal => {
            let d = if visible {
                if v.view_start <= c.new_no < v.view_end {
                    RowCount { rows: bars::capped(marked.rows + here), any: true, ..marked }
                } else {
                    marked
                }
            } else {
                RowCount { pending: c.pending || c.any, ..c }
            };
            RowCount { new_no: bars::capped(c.new_no + 1), ..d }
        },
        ChangeTag::Delete => RowCount { rows: bars::capped(marked.rows + here), ..marked },
        ChangeTag::Insert => RowCount {
            rows: bars::capped(marked.rows + here),
            new_no: bars::capped(c.new_no + 1),
            ..marked
        },
    }
}

/// Counts the first `n` changes.
pub open spec fn count_steps(
    c: RowCount,
    cs: Seq<(ChangeTag, Seq<char>)>,
    n: int,
    v: DiffView,
    max_content: int,
) -> RowCount
    decreases n,
{
    if n <= 0 {
        c
    } else {
        count_step(
            count_steps(c, cs, n - 1, v, max_content),
            cs[n - 1].0,
            change_text(cs[n - 1].1),
            near_change(cs, n - 1, CONTEXT as int),
            v,
            max_content,
        )
    }
}

/// Rows that changes take.
pub open spec fn changes_row_count(
    file: Seq<char>,
    cs: Seq<(ChangeTag, Seq<char>)>,
    lookup: Seq<char>,
    anchor: Seq<char>,
    term_width: usize,
) -> u16 {
    let v = changes_part(file, cs, lookup);
    let ls = highlight::untabbed_lines(text::lines_of(file));
    let count = ls.len() as int;
    let max = diff_layout(v.max_lineno, term_width).max_content as int;
    let to = table::smaller(table::smaller(v.start_line, v.first_mod), count);
    let from = table::smaller(v.view_start, to);
    let before = rows_for_lines(ls.subrange(from, to), to - from, max, 0);
    let c = count_steps(
        RowCount { rows: before, new_no: v.start_line, pending: false, any: before > 0 },
        cs,
        cs.len() as int,
        v,
        max,
    );
    let after = bars::capped(v.start_line + text::lines_of(anchor).len());
    let end = table::smaller(v.view_end, count);
    let rows = if after < end {
        rows_for_lines(ls.subrange(after, end), end - after, max, c.rows)
    } else {
        c.rows
    };
    rows as u16
}

/// Rows that a difference takes.
pub open spec fn diff_row_count(
    file: Seq<char>,
    old_text: Seq<char>,
    new_text: Seq<char>,
    anchor: Seq<char>,
    term_width: usize,
) -> u16 {
    changes_row_count(
        file,
        line_changes(old_text, new_text),
        lookup_text(old_text, new_text, anchor),
        anchor,
        term_width,
    )
}

fn count_lines(ls: &Vec<String>, from: usize, to: usize, max_content: usize, start: usize) -> (r:
    usize)
    requires
        from <= to <= ls@.len(),
    ensures
        r == rows_for_lines(
            text::texts(ls@).subrange(from as int, to as int),
            to - from,
            max_content as int,
            start as int,
        ),
{
    let ghost part = text::texts(ls@).subrange(from as int, to as int);
    let mut rows: usize = start;
    let mut i: usize = from;
    while i < to
        invariant
            from <= i <= to <= ls@.len(),
            part == text::texts(ls@).subrange(from as int, to as int),
            rows == rows_for_lines(part, i - from, max_content as int, start as int),
        decreases to - i,
    {
        assert(part[i - from] == ls@[i as int]@);
        rows = rows.saturating_add(count_line_rows(ls[i].as_str(), max_content));
        i = i + 1;
    }
    rows
}

/// Rows that the difference of two texts takes in a file.
pub fn count_inline_diff_rows(
    env: &Env,
    old_text: &str,
    new_text: &str,
    path: &str,
    anchor: &str,
) -> (r: u16)
    ensures
        r == diff_row_count(
            env.file(path@),
            old_text@,
            new_text@,
            anchor@,
            env.term_width,
        ),
{
    let file = env.read_file(path);
    let changes = diff_lines(old_text, new_text);
    count_change_rows(
        file.as_str(),
        &changes,
        find_lookup(old_text, new_text, anchor),
        anchor,
        env.term_width,
    )
}

/// Rows that changes take at the place of `lookup` in a file.
pub fn count_change_rows(
    file: &str,
    changes: &Vec<(ChangeTag, String)>,
    lookup: &str,
    anchor: &str,
    term_width: usize,
) -> (r: u16)
    ensures
        r == changes_row_count(
            file@,
            changes_view(changes@),
            lookup@,
            anchor@,
            term_width,
        ),
{
    let dv = compute_diff_view(file, changes, lookup);
    let ghost v = changes_part(file@, changes_view(changes@), lookup@);
    let ghost ls = highlight::untabbed_lines(text::lines_of(file@));
    let count: usize = dv.file_lines.len();
    assert(ls.len() == count) by {
        assert(text::texts(dv.file_lines@).len() == count);
    }
    let g: usize = digit_count(dv.max_lineno);
    let max_content: usize = term_width.saturating_sub(g.saturating_add(10));
    let to: usize = least(least(dv.start_line, dv.first_mod), count);
    let from: usize = least(dv.view_start, to);
    let before: usize = count_lines(&dv.file_lines, from, to, max_content, 0);
    let visible = compute_change_visibility(changes, CONTEXT);
    let mut rows: usize = before;
    let mut new_no: usize = dv.start_line;
    let mut pending = false;
    let mut any = before > 0;
    let ghost cs = changes_view(changes@);
    let ghost c0 = RowCount {
        rows: before as int,
        new_no: v.start_line,
        pending: false,
        any: before > 0,
    };
    let mut i: usize = 0;
    while i < changes.len()
        invariant
            cs == changes_view(changes@),
            visible@.len() == changes@.len(),
            forall|k: int|
                0 <= k < visible@.len() ==> #[trigger] visible@[k] == near_change(
                    cs,
                    k,
                    CONTEXT as int,
                ),
            dv.view_start == v.view_start,
            dv.view_end == v.view_end,
            i <= changes@.len(),
            (RowCount { rows: rows as int, new_no: new_no as int, pending, any }) == count_steps(
                c0,
                cs,
                i as int,
                v,
                max_content as int,
            ),
        decreases changes@.len() - i,
    {
        let bare = trim_end_char(changes[i].1.as_str(), '\n');
        let line = expand_tabs(bare.as_str());
        assert(cs[i as int] == (changes@[i as int].0, changes@[i as int].1@));
        assert(line@ == change_text(cs[i as int].1));
        let here: usize = count_line_rows(line.as_str(), max_content);
        match changes[i].0 {
            ChangeTag::Equal => {
                if visible[i] {
                    if pending {
                        pending = false;
                        rows = rows.saturating_add(1);
                    }
                    if new_no >= dv.view_start && new_no < dv.view_end {
                        rows = rows.saturating_add(here);
                        any = true;
                    }
                } else if any {
                    pending = true;
                }
                new_no = new_no.saturating_add(1);
            },
            ChangeTag::Delete => {
                if pending {
                    pending = false;
                    rows = rows.saturating_add(1);
                }
                rows = rows.saturating_add(here);
            },
            ChangeTag::Insert => {
                if pending {
                    pending = false;
                    rows = rows.saturating_add(1);
                }
                rows = rows.saturating_add(here);
                new_no = new_no.saturating_add(1);
            },
        }
        i = i + 1;
    }
    let anchor_lines = lines(anchor);
    assert(text::texts(anchor_lines@).len() == anchor_lines@.len());
    let after: usize = dv.start_line.saturating_add(anchor_lines.len());
    let end: usize = least(dv.view_end, count);
    if after < end {
        rows = count_lines(&dv.file_lines, after, end, max_content, rows);
    }
    #[verifier::truncate]
    let r: u16 = rows as u16;
    r
}

} // verus!
