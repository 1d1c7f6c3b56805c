//! Syntax highlighting: coloured pieces of lines, code blocks and files.

use vstd::prelude::*;

use syntect::easy::HighlightLines;
use syntect::parsing::{SyntaxReference, SyntaxSet};
use two_face::theme::{EmbeddedLazyThemeSet, EmbeddedThemeName};

use crate::render::bars;
use crate::render::out;
use crate::render::out::{crlf, Attribute, Canvas, Color, Command, RenderOut};
use crate::render::styled;
use crate::render::styled::BoxContext;
use crate::render::wrap;
use crate::render::wrap::{column_of, display_char_width};
use crate::text;
use crate::text::{
    cat, char_count, chars_of, expand_tabs, repeat_char, same_text, slice_text, trim_end_char,
};
use crate::theme;

verus! {

// ── Outside highlighter ──────────────────────────────────────────────────

/// `syntect::parsing::SyntaxSet`.
#[verifier::external_type_specification]
#[verifier::external_body]
pub struct ExSyntaxSet(SyntaxSet);

/// `syntect::parsing::SyntaxReference`.
#[verifier::external_type_specification]
#[verifier::external_body]
pub struct ExSyntaxReference(SyntaxReference);

/// `syntect::easy::HighlightLines`.
#[verifier::external_type_specification]
#[verifier::external_body]
pub struct ExHighlightLines<'a>(HighlightLines<'a>);

/// `two_face::theme::EmbeddedLazyThemeSet`.
#[verifier::external_type_specification]
#[verifier::external_body]
pub struct ExEmbeddedLazyThemeSet(EmbeddedLazyThemeSet);

/// The syntaxes and colour themes that highlighting uses.  The only values
/// are those of [`Assets::load`], so every lookup gives the same answer on
/// each of them.
pub struct Assets {
    syntaxes: SyntaxSet,
    themes: EmbeddedLazyThemeSet,
}

/// Which syntax a reference stands for: a key for its definition.
pub uninterp spec fn syntax_key(s: SyntaxReference) -> Seq<char>;

/// The key of the default syntax for a file extension, in the sense of
/// `SyntaxSet::find_syntax_by_extension`.
pub uninterp spec fn extension_syntax(ext: Seq<char>) -> Option<Seq<char>>;

/// The key of the default syntax with a name, in the sense of
/// `SyntaxSet::find_syntax_by_name`.
pub uninterp spec fn named_syntax(name: Seq<char>) -> Option<Seq<char>>;

/// What a highlighter has been given: the key of its syntax, and behind it
/// the lines fed so far.
pub uninterp spec fn fed(h: HighlightLines) -> Seq<Seq<char>>;

/// The coloured pieces of a line, given what the highlighter was fed before:
/// red, green, blue and text of each.
pub uninterp spec fn coloured(before: Seq<Seq<char>>, line: Seq<char>) -> Seq<
    (u8, u8, u8, Seq<char>),
>;

/// `SyntaxSet::load_defaults_newlines`: the syntaxes that come with syntect.
#[verifier::external_body]
fn load_syntaxes() -> SyntaxSet {
    SyntaxSet::load_defaults_newlines()
}

/// `two_face::theme::extra`: the themes that come with two-face.
#[verifier::external_body]
fn load_themes() -> EmbeddedLazyThemeSet {
    two_face::theme::extra()
}

/// `SyntaxSet::find_syntax_by_extension` on the default syntaxes.  The claim
/// is that what is found depends on the extension alone.
#[verifier::external_body]
fn syntax_by_extension<'a>(assets: &'a Assets, ext: &str) -> (r: Option<&'a SyntaxReference>)
    ensures
        match r {
            Some(s) => extension_syntax(ext@) == Some(syntax_key(*s)),
            None => extension_syntax(ext@) is None,
        },
{
    assets.syntaxes.find_syntax_by_extension(ext)
}

/// `SyntaxSet::find_syntax_by_name` on the default syntaxes.  The claim is
/// that what is found depends on the name alone.
#[verifier::external_body]
fn syntax_by_name<'a>(assets: &'a Assets, name: &str) -> (r: Option<&'a SyntaxReference>)
    ensures
        match r {
            Some(s) => named_syntax(name@) == Some(syntax_key(*s)),
            None => named_syntax(name@) is None,
        },
{
    assets.syntaxes.find_syntax_by_name(name)
}

/// `HighlightLines::new` with the Monokai Extended theme: a highlighter that
/// was fed nothing yet.
#[verifier::external_body]
fn start_highlighter<'a>(assets: &'a Assets, syntax: &SyntaxReference) -> (r: HighlightLines<'a>)
    ensures
        fed(r) == seq![syntax_key(*syntax)],
{
    HighlightLines::new(syntax, assets.themes.get(EmbeddedThemeName::MonokaiExtended))
}

/// `HighlightLines::highlight_line` on the default syntaxes; no pieces when
/// it fails.  The claim is that the pieces depend on the syntax, the lines
/// fed before and the line, and that the line counts as fed afterwards.
#[verifier::external_body]
fn highlight_line(assets: &Assets, h: &mut HighlightLines, line: &str) -> (r: Vec<
    (u8, u8, u8, String),
>)
    ensures
        pieces_view(r@) == coloured(fed(*old(h)), line@),
        fed(*final(h)) == fed(*old(h)).push(line@),
{
    let regions = h.highlight_line(line, &assets.syntaxes).unwrap_or_default();
    regions.into_iter().map(
        |(s, t)| (s.foreground.r, s.foreground.g, s.foreground.b, t.to_string()),
    ).collect()
}

/// Red, green, blue and characters of each piece.
pub open spec fn pieces_view(v: Seq<(u8, u8, u8, String)>) -> Seq<(u8, u8, u8, Seq<char>)> {
    Seq::new(v.len(), |i: int| (v[i].0, v[i].1, v[i].2, v[i].3@))
}

impl Assets {
    /// Loads the syntaxes and themes.
    pub fn load() -> Assets {
        Assets { syntaxes: load_syntaxes(), themes: load_themes() }
    }
}

/// The key of the syntax for a file extension, else of the syntax with a
/// name, else of plain text; nothing when there is not even that.
pub open spec fn chosen_syntax(ext: Seq<char>, name: Option<Seq<char>>) -> Option<Seq<char>> {
    match extension_syntax(ext) {
        Some(k) => Some(k),
        None => match name {
            Some(n) => match named_syntax(n) {
                Some(k) => Some(k),
                None => named_syntax("Plain Text"@),
            },
            None => named_syntax("Plain Text"@),
        },
    }
}

/// What a highlighter was fed: the key of its syntax and the lines, or
/// nothing when there is no syntax.
pub type History = Option<Seq<Seq<char>>>;

/// A highlighter just started.
pub open spec fn fresh(syntax: Option<Seq<char>>) -> History {
    match syntax {
        Some(k) => Some(seq![k]),
        None => None,
    }
}

/// A line with the line feed that the highlighter expects.
pub open spec fn with_nl(line: Seq<char>) -> Seq<char> {
    line + "\n"@
}

/// The highlighter after one more line.
pub open spec fn after_line(h: History, line: Seq<char>) -> History {
    match h {
        Some(f) => Some(f.push(with_nl(line))),
        None => None,
    }
}

/// The highlighter after the first `n` of `lines`.
pub open spec fn after_lines(h: History, lines: Seq<Seq<char>>, n: int) -> History
    decreases n,
{
    if n <= 0 {
        h
    } else {
        after_line(after_lines(h, lines, n - 1), lines[n - 1])
    }
}

/// The coloured pieces of a line; none when there is no syntax.
pub open spec fn line_pieces(h: History, line: Seq<char>) -> Seq<(u8, u8, u8, Seq<char>)> {
    match h {
        Some(f) => coloured(f, with_nl(line)),
        None => seq![],
    }
}

/// A highlighter that keeps its state from line to line.
pub struct Highlighter<'a> {
    assets: &'a Assets,
    lines: Option<HighlightLines<'a>>,
}

impl<'a> Highlighter<'a> {
    pub closed spec fn history(self) -> History {
        match self.lines {
            Some(h) => Some(fed(h)),
            None => None,
        }
    }

    /// A highlighter for files with an extension, or for a language by name.
    pub fn new(assets: &'a Assets, ext: &str, name: Option<&str>) -> (r: Highlighter<'a>)
        ensures
            r.history() == fresh(chosen_syntax(ext@, theme::opt_text(name))),
    {
        let by_name: Option<&'a SyntaxReference> = match syntax_by_extension(assets, ext) {
            Some(s) => Some(s),
            None => match name {
                Some(n) => syntax_by_name(assets, n),
                None => None,
            },
        };
        let syntax: Option<&'a SyntaxReference> = match by_name {
            Some(s) => Some(s),
            None => syntax_by_name(assets, "Plain Text"),
        };
        let lines: Option<HighlightLines<'a>> = match syntax {
            Some(s) => Some(start_highlighter(assets, s)),
            None => None,
        };
        Highlighter { assets, lines }
    }

    /// Feeds one line; the result is its coloured pieces.
    pub fn feed(&mut self, line: &str) -> (r: Vec<(u8, u8, u8, String)>)
        ensures
            pieces_view(r@) == line_pieces(old(self).history(), line@),
            final(self).history() == after_line(old(self).history(), line@),
    {
        let whole = cat(line, "\n");
        let taken: Option<HighlightLines<'a>> = self.lines.take();
        match taken {
            Some(h) => {
                let mut h = h;
                let r = highlight_line(self.assets, &mut h, whole.as_str());
                self.lines = Some(h);
                r
            },
            None => {
                let r: Vec<(u8, u8, u8, String)> = Vec::new();
                assert(pieces_view(r@) =~= seq![]);
                r
            },
        }
    }
}

// ── Pieces on rows ───────────────────────────────────────────────────────

/// A piece of text in one colour.  `T` is the text type.
pub struct Piece<T> {
    pub color: Color,
    pub text: T,
}

/// Pieces with their texts taken as sequences of characters.
pub open spec fn row_view(v: Seq<Piece<String>>) -> Seq<Piece<Seq<char>>> {
    Seq::new(v.len(), |i: int| Piece { color: v[i].color, text: v[i].text@ })
}

/// Rows of pieces.
pub open spec fn rows_view(v: Seq<Vec<Piece<String>>>) -> Seq<Seq<Piece<Seq<char>>>> {
    Seq::new(v.len(), |i: int| row_view(v[i]@))
}

/// The text of a piece without line feeds and carriage returns at its end.
pub open spec fn without_line_end(t: Seq<char>) -> Seq<char> {
    text::drop_back(text::drop_back(t, |x: char| x == '\n'), |x: char| x == '\r')
}

fn trim_line_end(t: &str) -> (r: String)
    ensures
        r@ == without_line_end(t@),
{
    let a = trim_end_char(t, '\n');
    trim_end_char(a.as_str(), '\r')
}

/// Rows under construction: those that are complete, the open one, and the
/// column that it has reached.
pub struct Splitting {
    pub rows: Seq<Seq<Piece<Seq<char>>>>,
    pub open: Seq<Piece<Seq<char>>>,
    pub col: usize,
}

/// How many characters at the front of `t` fit when they are printed from
/// column `col` on and `max` columns are there.
pub open spec fn fitting(t: Seq<char>, col: usize, max: int) -> int
    decreases t.len(),
{
    if t.len() == 0 {
        0
    } else {
        let next = wrap::columns_plus(col, wrap::columns_at(t[0], col));
        if next > max {
            0
        } else {
            1 + fitting(t.skip(1), next, max)
        }
    }
}

pub proof fn lemma_fitting(t: Seq<char>, col: usize, max: int)
    ensures
        0 <= fitting(t, col, max) <= t.len(),
    decreases t.len(),
{
    if t.len() > 0 {
        let next = wrap::columns_plus(col, wrap::columns_at(t[0], col));
        lemma_fitting(t.skip(1), next, max);
    }
}

/// Adds text of one colour, `max` columns per row; a character that is wider
/// than that has a row of its own.
pub open spec fn place_text(s: Splitting, color: Color, t: Seq<char>, max: int) -> Splitting
    decreases t.len(), s.col,
{
    if t.len() == 0 {
        s
    } else {
        proof {
            lemma_fitting(t, s.col, max);
        }
        let k = fitting(t, s.col, max);
        if k <= 0 && s.col > 0 {
            place_text(
                Splitting { rows: s.rows.push(s.open), open: seq![], col: 0 },
                color,
                t,
                max,
            )
        } else {
            let n = if k <= 0 {
                1
            } else {
                k
            };
            place_text(
                Splitting {
                    rows: s.rows,
                    open: s.open.push(Piece { color, text: t.take(n) }),
                    col: wrap::column_after(t.take(n), s.col),
                },
                color,
                t.skip(n),
                max,
            )
        }
    }
}

/// How many of the characters from `from` on fit, and the column that they
/// reach.
fn count_fitting(chars: &Vec<char>, from: usize, col: usize, max: usize) -> (r: (usize, usize))
    requires
        from <= chars@.len(),
    ensures
        r.0 == fitting(chars@.skip(from as int), col, max as int),
        from + r.0 <= chars@.len(),
        r.1 == wrap::column_after(chars@.subrange(from as int, from + r.0), col),
{
    let mut c: usize = col;
    let mut i: usize = from;
    let ghost t = chars@.skip(from as int);
    assert(chars@.subrange(from as int, from as int).len() == 0);
    while i < chars.len()
        invariant_except_break
            fitting(t, col, max as int) == i - from + fitting(
                chars@.skip(i as int),
                c,
                max as int,
            ),
        invariant
            from <= i <= chars@.len(),
            c == wrap::column_after(chars@.subrange(from as int, i as int), col),
        ensures
            fitting(t, col, max as int) == i - from,
        decreases chars@.len() - i,
    {
        let next: usize = c.saturating_add(display_char_width(chars[i], c));
        assert(chars@.skip(i as int)[0] == chars@[i as int]);
        assert(chars@.skip(i as int).skip(1) =~= chars@.skip(i + 1));
        if next > max {
            break;
        }
        let ghost part = chars@.subrange(from as int, i + 1);
        assert(part.drop_last() =~= chars@.subrange(from as int, i as int));
        assert(part.last() == chars@[i as int]);
        c = next;
        i = i + 1;
    }
    (i - from, c)
}

/// The colour of a piece.
pub open spec fn piece_color(p: (u8, u8, u8, Seq<char>)) -> Color {
    Color::Rgb { r: p.0, g: p.1, b: p.2 }
}

/// Adds the first `n` pieces.
pub open spec fn place_pieces(ps: Seq<(u8, u8, u8, Seq<char>)>, n: int, max: int) -> Splitting
    decreases n,
{
    if n <= 0 {
        Splitting { rows: seq![], open: seq![], col: 0 }
    } else {
        place_text(
            place_pieces(ps, n - 1, max),
            piece_color(ps[n - 1]),
            without_line_end(ps[n - 1].3),
            max,
        )
    }
}

/// The pieces of a line on rows of `max` columns, at least one row.  A
/// width of zero counts as one.
pub open spec fn split_rows(ps: Seq<(u8, u8, u8, Seq<char>)>, max: int) -> Seq<
    Seq<Piece<Seq<char>>>,
> {
    let s = place_pieces(ps, ps.len() as int, if max < 1 { 1 } else { max });
    if s.open.len() > 0 {
        s.rows.push(s.open)
    } else if s.rows.len() == 0 {
        seq![seq![]]
    } else {
        s.rows
    }
}

proof fn lemma_row_push(v: Seq<Piece<String>>, p: Piece<String>)
    ensures
        row_view(v.push(p)) == row_view(v).push(Piece { color: p.color, text: p.text@ }),
{
    assert(row_view(v.push(p)) =~= row_view(v).push(Piece { color: p.color, text: p.text@ }));
}

proof fn lemma_rows_push(v: Seq<Vec<Piece<String>>>, r: Vec<Piece<String>>)
    ensures
        rows_view(v.push(r)) == rows_view(v).push(row_view(r@)),
{
    assert(rows_view(v.push(r)) =~= rows_view(v).push(row_view(r@)));
}

/// Puts the pieces of a line on rows of at most `max_width` columns.
pub fn split_regions_into_rows(ps: &Vec<(u8, u8, u8, String)>, max_width: usize) -> (r: Vec<
    Vec<Piece<String>>,
>)
    ensures
        rows_view(r@) == split_rows(pieces_view(ps@), max_width as int),
        r@.len() >= 1,
{
    let max: usize = if max_width < 1 {
        1
    } else {
        max_width
    };
    let ghost pv = pieces_view(ps@);
    let mut rows: Vec<Vec<Piece<String>>> = Vec::new();
    let mut open: Vec<Piece<String>> = Vec::new();
    let mut col: usize = 0;
    let mut i: usize = 0;
    assert(rows_view(rows@) =~= seq![]);
    assert(row_view(open@) =~= seq![]);
    while i < ps.len()
        invariant
            pv == pieces_view(ps@),
            max >= 1,
            i <= ps@.len(),
            rows_view(rows@) == place_pieces(pv, i as int, max as int).rows,
            row_view(open@) == place_pieces(pv, i as int, max as int).open,
            col == place_pieces(pv, i as int, max as int).col,
        decreases ps@.len() - i,
    {
        let t = trim_line_end(ps[i].3.as_str());
        let color = Color::Rgb { r: ps[i].0, g: ps[i].1, b: ps[i].2 };
        let chars = chars_of(t.as_str());
        let ghost start = place_pieces(pv, i as int, max as int);
        let ghost whole = place_text(start, color, chars@, max as int);
        let mut from: usize = 0;
        assert(chars@.skip(0) =~= chars@);
        assert(start == (Splitting {
            rows: rows_view(rows@),
            open: row_view(open@),
            col,
        }));
        while from < chars.len()
            invariant
                max >= 1,
                from <= chars@.len(),
                whole == place_text(
                    Splitting { rows: rows_view(rows@), open: row_view(open@), col },
                    color,
                    chars@.skip(from as int),
                    max as int,
                ),
            decreases chars@.len() - from, col,
        {
            let ghost t = chars@.skip(from as int);
            proof {
                lemma_fitting(t, col, max as int);
            }
            let (k, reached) = count_fitting(&chars, from, col, max);
            if k == 0 && col > 0 {
                let ghost before = rows@;
                let ghost row = open;
                rows.push(open);
                proof {
                    lemma_rows_push(before, row);
                }
                open = Vec::new();
                assert(row_view(open@) =~= seq![]);
                col = 0;
            } else {
                let n: usize = if k == 0 {
                    1
                } else {
                    k
                };
                let part = slice_text(&chars, from, from + n);
                let ghost before = open@;
                let p = Piece { color, text: part };
                open.push(p);
                proof {
                    lemma_row_push(before, p);
                    assert(part@ =~= t.take(n as int));
                    assert(t.skip(n as int) =~= chars@.skip(from + n));
                }
                col = if k == 0 {
                    column_of(&chars, from, from + n, col)
                } else {
                    reached
                };
                from = from + n;
            }
        }
        assert(chars@.skip(from as int).len() == 0);
        i = i + 1;
    }
    if open.len() > 0 {
        let ghost before = rows@;
        let ghost row = open;
        rows.push(open);
        proof {
            lemma_rows_push(before, row);
        }
    }
    if rows.len() == 0 {
        let e: Vec<Piece<String>> = Vec::new();
        assert(row_view(e@) =~= seq![]);
        rows.push(e);
        assert(rows_view(rows@) =~= seq![seq![]]);
    }
    assert(rows_view(rows@).len() == rows@.len());
    rows
}

/// Where text stands that is put on rows: how many rows are complete, and the
/// column that the open one has reached.
pub struct RowsAt {
    pub breaks: int,
    pub col: usize,
}

/// One character more, `max` columns per row.
pub open spec fn char_placed(s: RowsAt, c: char, max: int) -> RowsAt {
    let next = wrap::columns_plus(s.col, wrap::columns_at(c, s.col));
    if next > max && s.col > 0 {
        RowsAt { breaks: s.breaks + 1, col: wrap::columns_at(c, 0) }
    } else {
        RowsAt { breaks: s.breaks, col: next }
    }
}

/// The characters of `t` more.
pub open spec fn chars_placed(s: RowsAt, t: Seq<char>, max: int) -> RowsAt
    decreases t.len(),
{
    if t.len() == 0 {
        s
    } else {
        char_placed(chars_placed(s, t.drop_last(), max), t.last(), max)
    }
}

/// Rows of a line on rows of `max` columns, at least one.  A width of zero
/// counts as one.
pub open spec fn line_rows(t: Seq<char>, max: int) -> int {
    bars::capped(
        chars_placed(
            RowsAt { breaks: 0, col: 0 },
            t,
            if max < 1 {
                1
            } else {
                max
            },
        ).breaks + 1,
    )
}

/// Counts the rows of a line on rows of `max_width` columns.
pub(crate) fn count_line_rows(line: &str, max_width: usize) -> (r: usize)
    ensures
        r == line_rows(line@, max_width as int),
        r >= 1,
{
    let max: usize = if max_width < 1 {
        1
    } else {
        max_width
    };
    let chars = chars_of(line);
    let ghost s0 = RowsAt { breaks: 0, col: 0 };
    let mut breaks: usize = 0;
    let mut col: usize = 0;
    let mut i: usize = 0;
    assert(chars@.take(0).len() == 0);
    while i < chars.len()
        invariant
            i <= chars@.len(),
            breaks <= i,
            (RowsAt { breaks: breaks as int, col }) == chars_placed(
                s0,
                chars@.take(i as int),
                max as int,
            ),
        decreases chars@.len() - i,
    {
        assert(chars@.take(i + 1).drop_last() =~= chars@.take(i as int));
        assert(chars@.take(i + 1).last() == chars@[i as int]);
        let next: usize = col.saturating_add(display_char_width(chars[i], col));
        if next > max && col > 0 {
            breaks = breaks + 1;
            col = display_char_width(chars[i], 0);
        } else {
            col = next;
        }
        i = i + 1;
    }
    assert(chars@.take(i as int) =~= line@);
    breaks.saturating_add(1)
}

/// The first `n` pieces of a row, over a background if there is one.
pub open spec fn pieces_printed(
    m: Canvas,
    row: Seq<Piece<Seq<char>>>,
    n: int,
    bg: Option<Color>,
) -> Canvas
    decreases n,
{
    if n <= 0 {
        m
    } else {
        let m = pieces_printed(m, row, n - 1, bg);
        let p = row[n - 1];
        if p.text.len() == 0 {
            m
        } else {
            let m = match bg {
                Some(b) => m.queue(Command::SetBackgroundColor(b)),
                None => m,
            };
            m.queue(Command::SetForegroundColor(p.color)).print(p.text)
        }
    }
}

/// The column that the first `n` pieces of a row reach.
pub open spec fn pieces_column(row: Seq<Piece<Seq<char>>>, n: int) -> usize
    decreases n,
{
    if n <= 0 {
        0
    } else {
        wrap::column_after(row[n - 1].text, pieces_column(row, n - 1))
    }
}

/// A row of coloured pieces, and a reset of the colours.
pub open spec fn row_printed(m: Canvas, row: Seq<Piece<Seq<char>>>, bg: Option<Color>) -> Canvas {
    pieces_printed(m, row, row.len() as int, bg).queue(Command::ResetColor)
}

/// Prints a row of coloured pieces; the result is its number of columns.
pub fn print_split_regions(out: &mut RenderOut, row: &Vec<Piece<String>>, bg: Option<Color>) -> (r:
    usize)
    ensures
        final(out)@ == row_printed(old(out)@, row_view(row@), bg),
        r == pieces_column(row_view(row@), row@.len() as int),
{
    let ghost rv = row_view(row@);
    let mut col: usize = 0;
    let mut i: usize = 0;
    while i < row.len()
        invariant
            rv == row_view(row@),
            i <= row@.len(),
            col == pieces_column(rv, i as int),
            out@ == pieces_printed(old(out)@, rv, i as int, bg),
        decreases row@.len() - i,
    {
        let chars = chars_of(row[i].text.as_str());
        let n: usize = chars.len();
        assert(chars@.subrange(0, n as int) =~= chars@);
        if n > 0 {
            if let Some(b) = bg {
                out.queue(Command::SetBackgroundColor(b));
            }
            out.queue(Command::SetForegroundColor(row[i].color));
            out.print(row[i].text.as_str());
        }
        col = column_of(&chars, 0, n, col);
        i = i + 1;
    }
    out.queue(Command::ResetColor);
    col
}

// ── Shell lines ──────────────────────────────────────────────────────────

/// The history of a highlighter for shell code.
pub open spec fn shell_history() -> History {
    fresh(chosen_syntax("sh"@, None))
}

/// The first `n` pieces of a line.
pub open spec fn line_printed(m: Canvas, ps: Seq<(u8, u8, u8, Seq<char>)>, n: int) -> Canvas
    decreases n,
{
    if n <= 0 {
        m
    } else {
        let m = line_printed(m, ps, n - 1);
        let t = without_line_end(ps[n - 1].3);
        if t.len() == 0 {
            m
        } else {
            m.queue(Command::SetForegroundColor(piece_color(ps[n - 1]))).print(t)
        }
    }
}

/// The pieces of a line, and a reset of the colours.
pub open spec fn pieces_line(m: Canvas, ps: Seq<(u8, u8, u8, Seq<char>)>) -> Canvas {
    line_printed(m, ps, ps.len() as int).queue(Command::ResetColor)
}

/// A highlighted line, and a reset of the colours.
pub open spec fn shell_line(m: Canvas, h: History, line: Seq<char>) -> Canvas {
    pieces_line(m, line_pieces(h, line))
}

/// Prints the pieces of a line without its line end.
pub fn print_pieces(out: &mut RenderOut, ps: &Vec<(u8, u8, u8, String)>)
    ensures
        final(out)@ == pieces_line(old(out)@, pieces_view(ps@)),
{
    let ghost pv = pieces_view(ps@);
    let mut i: usize = 0;
    while i < ps.len()
        invariant
            pv == pieces_view(ps@),
            i <= ps@.len(),
            out@ == line_printed(old(out)@, pv, i as int),
        decreases ps@.len() - i,
    {
        let t = trim_line_end(ps[i].3.as_str());
        if char_count(t.as_str()) > 0 {
            out.queue(
                Command::SetForegroundColor(Color::Rgb { r: ps[i].0, g: ps[i].1, b: ps[i].2 }),
            );
            out.print(t.as_str());
        }
        i = i + 1;
    }
    out.queue(Command::ResetColor);
}

/// A highlighter for shell code that keeps its state from line to line.
pub struct BashHighlighter<'a> {
    h: Highlighter<'a>,
}

impl<'a> BashHighlighter<'a> {
    pub closed spec fn history(self) -> History {
        self.h.history()
    }

    pub fn new(assets: &'a Assets) -> (r: BashHighlighter<'a>)
        ensures
            r.history() == shell_history(),
    {
        BashHighlighter { h: Highlighter::new(assets, "sh", None) }
    }

    /// Feeds a line without printing it.
    pub fn advance(&mut self, line: &str)
        ensures
            final(self).history() == after_line(old(self).history(), line@),
    {
        let _ = self.h.feed(line);
    }

    /// Prints a line; the line end is the caller's.
    pub fn print_line(&mut self, out: &mut RenderOut, line: &str)
        ensures
            final(out)@ == shell_line(old(out)@, old(self).history(), line@),
            final(self).history() == after_line(old(self).history(), line@),
    {
        let ps = self.h.feed(line);
        print_pieces(out, &ps);
    }
}

/// Prints a single line of shell code.
pub fn print_highlighted_bash_line(out: &mut RenderOut, assets: &Assets, line: &str)
    ensures
        final(out)@ == shell_line(old(out)@, shell_history(), line@),
{
    let mut h = BashHighlighter::new(assets);
    h.print_line(out, line);
}

// ── Code blocks ──────────────────────────────────────────────────────────

/// The file extension for the language of a code block.
pub open spec fn lang_extension(lang: Seq<char>) -> Seq<char> {
    if lang == ""@ {
        "txt"@
    } else if lang == "js"@ || lang == "javascript"@ {
        "js"@
    } else if lang == "ts"@ || lang == "typescript"@ {
        "ts"@
    } else if lang == "py"@ || lang == "python"@ {
        "py"@
    } else if lang == "rb"@ || lang == "ruby"@ {
        "rb"@
    } else if lang == "rs"@ || lang == "rust"@ {
        "rs"@
    } else if lang == "sh"@ || lang == "bash"@ || lang == "zsh"@ || lang == "shell"@ {
        "sh"@
    } else if lang == "yml"@ {
        "yaml"@
    } else {
        lang
    }
}

fn extension_for(lang: &str) -> (r: String)
    ensures
        r@ == lang_extension(lang@),
{
    if same_text(lang, "") {
        "txt".to_owned()
    } else if same_text(lang, "js") || same_text(lang, "javascript") {
        "js".to_owned()
    } else if same_text(lang, "ts") || same_text(lang, "typescript") {
        "ts".to_owned()
    } else if same_text(lang, "py") || same_text(lang, "python") {
        "py".to_owned()
    } else if same_text(lang, "rb") || same_text(lang, "ruby") {
        "rb".to_owned()
    } else if same_text(lang, "rs") || same_text(lang, "rust") {
        "rs".to_owned()
    } else if same_text(lang, "sh") || same_text(lang, "bash") || same_text(lang, "zsh")
        || same_text(lang, "shell") {
        "sh".to_owned()
    } else if same_text(lang, "yml") {
        "yaml".to_owned()
    } else {
        lang.to_owned()
    }
}

/// The lines with every tab turned into four spaces.
pub open spec fn untabbed_lines(lines: Seq<Seq<char>>) -> Seq<Seq<char>> {
    Seq::new(lines.len(), |i: int| text::untabbed(lines[i]))
}

/// The length of the longest of the first `n` lines.
pub open spec fn longest(lines: Seq<Seq<char>>, n: int) -> int
    decreases n,
{
    if n <= 0 {
        0
    } else {
        let k = longest(lines, n - 1);
        if lines[n - 1].len() > k {
            lines[n - 1].len() as int
        } else {
            k
        }
    }
}

/// How a code block is drawn.
#[derive(Clone, Copy)]
pub struct CodeLook {
    pub boxed: Option<BoxContext>,
    pub edge: Color,
    pub bg: Color,
}

/// What goes before a line of the block.
pub open spec fn code_start(m: Canvas, look: CodeLook) -> Canvas {
    match look.boxed {
        Some(b) => styled::box_left(m, b),
        None => m,
    }
}

/// What goes behind a line of `cols` columns.
pub open spec fn code_end(m: Canvas, look: CodeLook, cols: int) -> Canvas {
    match look.boxed {
        Some(b) => styled::box_right(m, b, cols).crlf(),
        None => m.crlf(),
    }
}

fn code_line_start(out: &mut RenderOut, look: &CodeLook)
    ensures
        final(out)@ == code_start(old(out)@, *look),
{
    if let Some(b) = look.boxed {
        b.print_left(out);
    }
}

fn code_line_end(out: &mut RenderOut, look: &CodeLook, cols: usize)
    ensures
        final(out)@ == code_end(old(out)@, *look, cols as int),
{
    if let Some(b) = look.boxed {
        b.print_right(out, cols);
    }
    crlf(out);
}

/// A border or padding line of the block: `c` over its whole width, in the
/// colour that `on` switches on.
pub open spec fn code_edge(
    m: Canvas,
    look: CodeLook,
    on: Command<Seq<char>>,
    c: char,
    w: int,
) -> Canvas {
    code_end(
        code_start(m, look).queue(on).print(text::fill(c, w as nat)).queue(Command::ResetColor),
        look,
        w,
    )
}

/// The first `n` rows of a line of the block.
pub open spec fn code_rows(
    m: Canvas,
    rows: Seq<Seq<Piece<Seq<char>>>>,
    n: int,
    look: CodeLook,
    w: int,
) -> Canvas
    decreases n,
{
    if n <= 0 {
        m
    } else {
        let m = code_start(code_rows(m, rows, n - 1, look, w), look);
        let row = rows[n - 1];
        let cols = pieces_column(row, row.len() as int) as int;
        let m = row_printed(m, row, Some(look.bg));
        let m = if w > cols {
            m.queue(Command::SetBackgroundColor(look.bg)).print(text::fill(' ', (w - cols) as nat))
        } else {
            m
        };
        code_end(
            m.queue(Command::ResetColor),
            look,
            if w > cols {
                w
            } else {
                cols
            },
        )
    }
}

/// The rows of line `i` of a code block.
pub open spec fn code_line_rows(
    h: History,
    lines: Seq<Seq<char>>,
    i: int,
    text_w: int,
) -> Seq<Seq<Piece<Seq<char>>>> {
    split_rows(line_pieces(after_lines(h, lines, i), lines[i]), text_w)
}

/// The first `n` lines of a code block.
pub open spec fn code_lines(
    m: Canvas,
    h: History,
    lines: Seq<Seq<char>>,
    n: int,
    look: CodeLook,
    text_w: int,
    w: int,
) -> Canvas
    decreases n,
{
    if n <= 0 {
        m
    } else {
        let rows = code_line_rows(h, lines, n - 1, text_w);
        code_rows(
            code_lines(m, h, lines, n - 1, look, text_w, w),
            rows,
            rows.len() as int,
            look,
            w,
        )
    }
}

/// Rows of the first `n` lines of a code block, `start` added.
pub open spec fn code_count(
    h: History,
    lines: Seq<Seq<char>>,
    n: int,
    text_w: int,
    start: u16,
) -> u16
    decreases n,
{
    if n <= 0 {
        start
    } else {
        out::rows_plus(
            code_count(h, lines, n - 1, text_w, start),
            code_line_rows(h, lines, n - 1, text_w).len() as u16,
        )
    }
}

/// A code block: a border, padding, the lines, padding and a border, all as
/// wide as the longest line or as the columns that there are.
pub open spec fn code_block(
    m: Canvas,
    lines: Seq<Seq<char>>,
    lang: Seq<char>,
    width: int,
    dim: bool,
    look: CodeLook,
) -> (Canvas, u16) {
    let h = fresh(chosen_syntax(lang_extension(lang), Some(lang)));
    let lines = untabbed_lines(lines);
    let n = lines.len() as int;
    let text_w = if width > 1 {
        width - 1
    } else {
        1
    };
    let most = longest(lines, n);
    let w = bars::capped((if most > text_w { text_w } else { most }) + 1);
    let m = if dim {
        m.queue(Command::SetAttribute(Attribute::Dim))
    } else {
        m
    };
    let m = code_edge(m, look, Command::SetForegroundColor(look.edge), '\u{2581}', w);
    let m = code_edge(m, look, Command::SetBackgroundColor(look.bg), ' ', w);
    let m = code_lines(m, h, lines, n, look, text_w, w);
    let m = code_edge(m, look, Command::SetBackgroundColor(look.bg), ' ', w);
    let m = code_edge(m, look, Command::SetForegroundColor(look.edge), '\u{2594}', w);
    let m = if dim {
        m.queue(Command::SetAttribute(Attribute::NormalIntensity))
    } else {
        m
    };
    (m, out::rows_plus(out::rows_plus(code_count(h, lines, n, text_w, 2), 1), 1))
}

fn render_edge(
    out: &mut RenderOut,
    look: &CodeLook,
    on: Command<String>,
    c: char,
    w: usize,
)
    ensures
        final(out)@ == code_edge(old(out)@, *look, out::command_view(on), c, w as int),
{
    code_line_start(out, look);
    out.queue(on);
    let line = repeat_char(c, w);
    out.print(line.as_str());
    out.queue(Command::ResetColor);
    code_line_end(out, look, w);
}

/// Prints the rows of one line of a code block that is `w` columns wide.
pub fn print_code_rows(
    out: &mut RenderOut,
    rows: &Vec<Vec<Piece<String>>>,
    look: &CodeLook,
    w: usize,
)
    ensures
        final(out)@ == code_rows(
            old(out)@,
            rows_view(rows@),
            rows@.len() as int,
            *look,
            w as int,
        ),
{
    let ghost sv = rows_view(rows@);
    let mut k: usize = 0;
    while k < rows.len()
        invariant
            sv == rows_view(rows@),
            k <= rows@.len(),
            out@ == code_rows(old(out)@, sv, k as int, *look, w as int),
        decreases rows@.len() - k,
    {
        code_line_start(out, look);
        assert(sv[k as int] == row_view(rows@[k as int]@));
        let cols: usize = print_split_regions(out, &rows[k], Some(look.bg));
        let pad: usize = w.saturating_sub(cols);
        if pad > 0 {
            out.queue(Command::SetBackgroundColor(look.bg));
            let spaces = repeat_char(' ', pad);
            out.print(spaces.as_str());
        }
        out.queue(Command::ResetColor);
        code_line_end(
            out,
            look,
            if w > cols {
                w
            } else {
                cols
            },
        );
        k = k + 1;
    }
}

/// The look of code blocks in a theme.
pub open spec fn code_look(t: theme::Theme, boxed: Option<BoxContext>) -> CodeLook {
    CodeLook { boxed, edge: t.user_bg_color(), bg: t.code_block_bg_color() }
}

/// Draws a code block; the result is the number of rows.
pub fn render_code_block(
    out: &mut RenderOut,
    assets: &Assets,
    lines: &Vec<String>,
    lang: &str,
    width: usize,
    dim: bool,
    boxed: Option<BoxContext>,
    theme: &theme::Theme,
) -> (r: u16)
    ensures
        final(out)@ == code_block(
            old(out)@,
            text::texts(lines@),
            lang@,
            width as int,
            dim,
            code_look(*theme, boxed),
        ).0,
        r == code_block(
            old(out)@,
            text::texts(lines@),
            lang@,
            width as int,
            dim,
            code_look(*theme, boxed),
        ).1,
{
    let look = CodeLook { boxed, edge: theme::user_bg(theme), bg: theme::code_block_bg(theme) };
    let ghost ts = text::texts(lines@);
    let ghost us = untabbed_lines(ts);
    let ext = extension_for(lang);
    let mut h = Highlighter::new(assets, ext.as_str(), Some(lang));
    let ghost h0 = h.history();
    if dim {
        out.queue(Command::SetAttribute(Attribute::Dim));
    }
    let text_w: usize = if width > 1 {
        width - 1
    } else {
        1
    };
    let mut expanded: Vec<String> = Vec::new();
    let mut most: usize = 0;
    let mut i: usize = 0;
    while i < lines.len()
        invariant
            ts == text::texts(lines@),
            us == untabbed_lines(ts),
            i <= lines@.len(),
            expanded@.len() == i,
            forall|j: int| 0 <= j < i ==> (#[trigger] expanded@[j])@ == us[j],
            most == longest(us, i as int),
        decreases lines@.len() - i,
    {
        assert(ts[i as int] == lines@[i as int]@);
        let e = expand_tabs(lines[i].as_str());
        let n: usize = char_count(e.as_str());
        if n > most {
            most = n;
        }
        expanded.push(e);
        i = i + 1;
    }
    let w: usize = (if most > text_w {
        text_w
    } else {
        most
    }).saturating_add(1);
    let mut rows: u16 = 2;
    render_edge(out, &look, Command::SetForegroundColor(look.edge), '\u{2581}', w);
    render_edge(out, &look, Command::SetBackgroundColor(look.bg), ' ', w);
    let ghost m = out@;
    let mut i: usize = 0;
    while i < expanded.len()
        invariant
            us.len() == expanded@.len(),
            forall|j: int| 0 <= j < us.len() ==> (#[trigger] expanded@[j])@ == us[j],
            i <= expanded@.len(),
            h.history() == after_lines(h0, us, i as int),
            out@ == code_lines(m, h0, us, i as int, look, text_w as int, w as int),
            rows == code_count(h0, us, i as int, text_w as int, 2),
        decreases expanded@.len() - i,
    {
        assert(expanded@[i as int]@ == us[i as int]);
        let ps = h.feed(expanded[i].as_str());
        let split = split_regions_into_rows(&ps, text_w);
        print_code_rows(out, &split, &look, w);
        assert(rows_view(split@) == code_line_rows(h0, us, i as int, text_w as int));
        assert(rows_view(split@).len() == split@.len());
        #[verifier::truncate]
        let n: u16 = split.len() as u16;
        rows = rows.saturating_add(n);
        i = i + 1;
    }
    render_edge(out, &look, Command::SetBackgroundColor(look.bg), ' ', w);
    rows = rows.saturating_add(1);
    render_edge(out, &look, Command::SetForegroundColor(look.edge), '\u{2594}', w);
    rows = rows.saturating_add(1);
    if dim {
        out.queue(Command::SetAttribute(Attribute::NormalIntensity));
    }
    rows
}

} // verus!
