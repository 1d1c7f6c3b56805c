//! Inline markdown: bold, italic and code spans, and cells of tables.

use vstd::prelude::*;

use crate::render::wrap;
use crate::render::wrap::display_text_width;
use crate::text;
use crate::text::{chars_of, find_char, slice_text};

verus! {

/// What a stretch of inline markdown is.
#[derive(Clone, Copy, Debug, PartialEq, Eq, Structural)]
pub enum Mark {
    Plain,
    Bold,
    Italic,
    Code,
}

/// One stretch: its kind, where its text starts and ends, and where the next
/// stretch starts.
pub struct Stretch {
    pub mark: Mark,
    pub from: int,
    pub to: int,
    pub next: int,
}

/// The first position at or behind `from` with two stars, or `s.len()`.
pub open spec fn stars_from(s: Seq<char>, from: int) -> int
    decreases s.len() - from,
{
    if from + 1 >= s.len() {
        s.len() as int
    } else if s[from] == '*' && s[from + 1] == '*' {
        from
    } else {
        stars_from(s, from + 1)
    }
}

/// The stretch that starts at `i`: between two pairs of stars, between two
/// stars or between two backquotes, when the closing mark is there; a single
/// character otherwise.
pub open spec fn stretch_at(s: Seq<char>, i: int) -> Stretch {
    let single = Stretch { mark: Mark::Plain, from: i, to: i + 1, next: i + 1 };
    let stars = stars_from(s, i + 2);
    let star = text::char_from(s, '*', i + 1);
    let tick = text::char_from(s, '`', i + 1);
    if i + 1 < s.len() && s[i] == '*' && s[i + 1] == '*' && stars < s.len() {
        Stretch { mark: Mark::Bold, from: i + 2, to: stars, next: stars + 2 }
    } else if s[i] == '*' && i + 1 < s.len() && s[i + 1] != '*' && star < s.len() {
        Stretch { mark: Mark::Italic, from: i + 1, to: star, next: star + 1 }
    } else if s[i] == '`' && tick < s.len() {
        Stretch { mark: Mark::Code, from: i + 1, to: tick, next: tick + 1 }
    } else {
        single
    }
}

pub proof fn lemma_stars_from(s: Seq<char>, from: int)
    requires
        0 <= from,
    ensures
        stars_from(s, from) < s.len() ==> from <= stars_from(s, from) && stars_from(s, from) + 1
            < s.len(),
        stars_from(s, from) <= s.len(),
    decreases s.len() - from,
{
    if from + 1 < s.len() && !(s[from] == '*' && s[from + 1] == '*') {
        lemma_stars_from(s, from + 1);
    }
}

/// A stretch lies in the text and the next one starts behind it.
pub proof fn lemma_stretch(s: Seq<char>, i: int)
    requires
        0 <= i < s.len(),
    ensures
        ({
            let t = stretch_at(s, i);
            i <= t.from <= t.to <= s.len() && t.to <= t.next && i < t.next <= s.len()
        }),
        stretch_at(s, i).mark is Plain ==> stretch_at(s, i).next == i + 1,
{
    lemma_stars_from(s, i + 2);
    text::lemma_char_from(s, '*', i + 1);
    text::lemma_char_from(s, '`', i + 1);
}

/// The text from `i` on without the marks of its spans.
pub open spec fn stripped_from(s: Seq<char>, i: int) -> Seq<char>
    decreases s.len() - i,
{
    if i < 0 || i >= s.len() {
        seq![]
    } else {
        proof {
            lemma_stretch(s, i);
        }
        let t = stretch_at(s, i);
        s.subrange(t.from, t.to) + stripped_from(s, t.next)
    }
}

/// The text without the marks of its spans.
pub open spec fn stripped(s: Seq<char>) -> Seq<char> {
    stripped_from(s, 0)
}

/// Whether a plain character stands at `k`, when stretches are read from `i`
/// on.
pub open spec fn plain_from(s: Seq<char>, i: int, k: int) -> bool
    decreases s.len() - i,
{
    if i < 0 || i >= s.len() || i > k {
        false
    } else if i == k {
        stretch_at(s, i).mark is Plain
    } else {
        proof {
            lemma_stretch(s, i);
        }
        plain_from(s, stretch_at(s, i).next, k)
    }
}

/// Whether the line may be broken at `k`: a space outside all spans.
pub open spec fn breakable(s: Seq<char>, k: int) -> bool {
    plain_from(s, 0, k) && s[k] == ' '
}

/// One stretch as it is found in a text.
pub struct FoundStretch {
    pub mark: Mark,
    pub from: usize,
    pub to: usize,
    pub next: usize,
}

fn find_stars(s: &Vec<char>, from: usize) -> (r: usize)
    requires
        from <= s@.len(),
    ensures
        r == stars_from(s@, from as int),
{
    let total: usize = s.len();
    let mut i: usize = from;
    while i < total && total - i >= 2
        invariant
            total == s@.len(),
            from <= i <= total,
            stars_from(s@, from as int) == stars_from(s@, i as int),
        decreases total - i,
    {
        if s[i] == '*' && s[i + 1] == '*' {
            return i;
        }
        i = i + 1;
    }
    total
}

/// The stretch of inline markdown that starts at `i`.
pub fn find_stretch(s: &Vec<char>, i: usize) -> (r: FoundStretch)
    requires
        i < s@.len(),
    ensures
        ({
            let t = stretch_at(s@, i as int);
            r.mark == t.mark && r.from == t.from && r.to == t.to && r.next == t.next
        }),
        i <= r.from <= r.to <= s@.len(),
        i < r.next <= s@.len(),
        r.mark is Plain ==> r.next == i + 1,
{
    proof {
        lemma_stretch(s@, i as int);
        lemma_stars_from(s@, i + 2);
    }
    let total: usize = s.len();
    if total - i >= 2 && s[i] == '*' && s[i + 1] == '*' {
        let j: usize = find_stars(s, i + 2);
        if j < total {
            return FoundStretch { mark: Mark::Bold, from: i + 2, to: j, next: j + 2 };
        }
    }
    if s[i] == '*' && total - i >= 2 && s[i + 1] != '*' {
        let j: usize = find_char(s, '*', i + 1);
        if j < total {
            return FoundStretch { mark: Mark::Italic, from: i + 1, to: j, next: j + 1 };
        }
    }
    if s[i] == '`' {
        let j: usize = find_char(s, '`', i + 1);
        if j < total {
            return FoundStretch { mark: Mark::Code, from: i + 1, to: j, next: j + 1 };
        }
    }
    FoundStretch { mark: Mark::Plain, from: i, to: i + 1, next: i + 1 }
}

/// `text` without the marks of its bold, italic and code spans.
pub fn strip_markdown_markers(s: &str) -> (r: String)
    ensures
        r@ == stripped(s@),
{
    let chars = chars_of(s);
    let mut out = String::new();
    let mut i: usize = 0;
    assert(out@ + stripped_from(s@, 0) =~= stripped(s@));
    while i < chars.len()
        invariant
            chars@ == s@,
            i <= chars@.len(),
            out@ + stripped_from(s@, i as int) == stripped(s@),
        decreases chars@.len() - i,
    {
        let t = find_stretch(&chars, i);
        let part = slice_text(&chars, t.from, t.to);
        let ghost before = out@;
        out.append(part.as_str());
        assert(out@ + stripped_from(s@, t.next as int) =~= before + stripped_from(s@, i as int));
        i = t.next;
    }
    assert(out@ + stripped_from(s@, i as int) =~= out@);
    out
}

/// Where the text may be broken.
fn break_points(chars: &Vec<char>) -> (r: Vec<bool>)
    ensures
        r@.len() == chars@.len(),
        forall|k: int| 0 <= k < chars@.len() ==> r@[k] == #[trigger] breakable(chars@, k),
{
    let ghost s = chars@;
    let mut r: Vec<bool> = Vec::new();
    let mut i: usize = 0;
    while i < chars.len()
        invariant
            s == chars@,
            i <= s.len(),
            r@.len() == i,
            forall|k: int| 0 <= k < i ==> r@[k] == #[trigger] breakable(s, k),
            forall|k: int| i <= k < s.len() ==> #[trigger] plain_from(s, 0, k) == plain_from(s, i as int, k),
        decreases s.len() - i,
    {
        let t = find_stretch(chars, i);
        let ghost start = i as int;
        let open = match t.mark {
            Mark::Plain => chars[i] == ' ',
            _ => false,
        };
        let mut k: usize = i;
        assert(plain_from(s, 0, start) == plain_from(s, start, start));
        while k < t.next
            invariant
                s == chars@,
                start <= k <= t.next <= s.len(),
                r@.len() == k,
                start == i,
                t.next == stretch_at(s, start).next,
                start < s.len(),
                stretch_at(s, start).mark is Plain ==> t.next == start + 1,
                open == (stretch_at(s, start).mark is Plain && s[start] == ' '),
                forall|j: int| 0 <= j < start ==> r@[j] == #[trigger] breakable(s, j),
                forall|j: int| start <= j < s.len() ==> #[trigger] plain_from(s, 0, j) == plain_from(s, start, j),
                forall|j: int| start <= j < k ==> r@[j] == #[trigger] breakable(s, j),
            decreases t.next - k,
        {
            proof {
                lemma_stretch(s, start);
                assert(plain_from(s, 0, k as int) == plain_from(s, start, k as int));
                if k > start {
                    assert(!plain_from(s, t.next as int, k as int));
                    assert(!plain_from(s, start, k as int));
                }
            }
            r.push(k == i && open);
            k = k + 1;
        }
        proof {
            assert forall|j: int| t.next <= j < s.len() implies #[trigger] plain_from(s, 0, j)
                == plain_from(s, t.next as int, j) by {
                lemma_stretch(s, start);
                assert(plain_from(s, start, j) == plain_from(s, t.next as int, j));
            }
        }
        i = t.next;
    }
    r
}

/// Columns of a stretch of the text without the marks of its spans.
pub open spec fn visible_columns(s: Seq<char>) -> int {
    wrap::text_width(stripped(s)) as int
}

/// Columns of the text without the marks of its spans.
pub fn visible_width(s: &str) -> (r: usize)
    ensures
        r == visible_columns(s@),
{
    let plain = strip_markdown_markers(s);
    display_text_width(plain.as_str())
}

/// Lines of a cell under construction.
pub struct CellLines {
    pub done: Seq<Seq<char>>,
    pub start: int,
    /// The last place to break on the open line, or -1.
    pub last: int,
}

/// The lines after the first `n` characters.
pub open spec fn cell_lines(s: Seq<char>, n: int, max: int) -> CellLines
    decreases n,
{
    if n <= 0 {
        CellLines { done: seq![], start: 0, last: -1 }
    } else {
        let c = cell_lines(s, n - 1, max);
        let last = if breakable(s, n - 1) {
            n - 1
        } else {
            c.last
        };
        if visible_columns(s.subrange(c.start, n)) > max && last >= 0 {
            CellLines { done: c.done.push(s.subrange(c.start, last)), start: last + 1, last: -1 }
        } else {
            CellLines { done: c.done, start: c.start, last }
        }
    }
}

/// The lines of a cell of `max` columns: broken at a space outside all spans
/// as soon as the open line is too wide; a width of zero breaks nothing.
pub open spec fn cell_wrapped(s: Seq<char>, max: int) -> Seq<Seq<char>> {
    if max == 0 {
        seq![s]
    } else {
        let c = cell_lines(s, s.len() as int, max);
        if c.start < s.len() {
            c.done.push(s.skip(c.start))
        } else if c.done.len() == 0 {
            seq![seq![]]
        } else {
            c.done
        }
    }
}

proof fn lemma_cell_lines(s: Seq<char>, n: int, max: int)
    requires
        0 <= n <= s.len(),
    ensures
        ({
            let c = cell_lines(s, n, max);
            0 <= c.start <= n && -1 <= c.last < n && (c.last >= 0 ==> c.start <= c.last)
        }),
    decreases n,
{
    if n > 0 {
        lemma_cell_lines(s, n - 1, max);
    }
}

/// Breaks a table cell into lines of at most `max_width` columns where that
/// can be done without breaking a span or a word.
pub fn wrap_cell_words(s: &str, max_width: usize) -> (r: Vec<String>)
    ensures
        text::texts(r@) == cell_wrapped(s@, max_width as int),
        r@.len() >= 1,
{
    let mut lines: Vec<String> = Vec::new();
    if max_width == 0 {
        lines.push(s.to_owned());
        assert(text::texts(lines@) =~= seq![s@]);
        return lines;
    }
    let chars = chars_of(s);
    let marks = break_points(&chars);
    let mut start: usize = 0;
    let mut last: Option<usize> = None;
    let mut ci: usize = 0;
    assert(text::texts(lines@) =~= seq![]);
    while ci < chars.len()
        invariant
            chars@ == s@,
            marks@.len() == chars@.len(),
            forall|k: int| 0 <= k < chars@.len() ==> marks@[k] == #[trigger] breakable(s@, k),
            ci <= chars@.len(),
            start == cell_lines(s@, ci as int, max_width as int).start,
            start <= ci,
            match last {
                Some(b) => b == cell_lines(s@, ci as int, max_width as int).last && start <= b < ci,
                None => cell_lines(s@, ci as int, max_width as int).last == -1,
            },
            text::texts(lines@) == cell_lines(s@, ci as int, max_width as int).done,
        decreases chars@.len() - ci,
    {
        assert(marks@[ci as int] == breakable(s@, ci as int));
        if marks[ci] {
            last = Some(ci);
        }
        let part = slice_text(&chars, start, ci + 1);
        let wide: usize = visible_width(part.as_str());
        if wide > max_width {
            if let Some(b) = last {
                let line = slice_text(&chars, start, b);
                let ghost before = lines@;
                lines.push(line);
                proof {
                    text::lemma_texts_push(before, line);
                }
                start = b + 1;
                last = None;
            }
        }
        ci = ci + 1;
    }
    if start < chars.len() {
        let line = slice_text(&chars, start, chars.len());
        let ghost before = lines@;
        lines.push(line);
        proof {
            text::lemma_texts_push(before, line);
            assert(line@ =~= s@.skip(start as int));
        }
    }
    assert(text::texts(lines@).len() == lines@.len());
    if lines.len() == 0 {
        lines.push(String::new());
        assert(text::texts(lines@) =~= seq![seq![]]);
    }
    lines
}

/// Start of the open segment and columns of the widest complete one, after
/// the first `n` characters.
pub open spec fn segments(s: Seq<char>, n: int) -> (int, int)
    decreases n,
{
    if n <= 0 {
        (0, 0)
    } else {
        let (start, widest) = segments(s, n - 1);
        if breakable(s, n - 1) {
            if n - 1 > start && visible_columns(s.subrange(start, n - 1)) > widest {
                (n, visible_columns(s.subrange(start, n - 1)))
            } else {
                (n, widest)
            }
        } else {
            (start, widest)
        }
    }
}

/// Columns of the widest segment that is never broken.
pub open spec fn widest_segment(s: Seq<char>) -> int {
    let (start, widest) = segments(s, s.len() as int);
    if start < s.len() && visible_columns(s.skip(start)) > widest {
        visible_columns(s.skip(start))
    } else {
        widest
    }
}

/// Columns of the widest segment of a cell that is never broken.
pub fn min_visual_width(s: &str) -> (r: usize)
    ensures
        r == widest_segment(s@),
{
    let chars = chars_of(s);
    let marks = break_points(&chars);
    let mut widest: usize = 0;
    let mut start: usize = 0;
    let mut ci: usize = 0;
    while ci < chars.len()
        invariant
            chars@ == s@,
            marks@.len() == chars@.len(),
            forall|k: int| 0 <= k < chars@.len() ==> marks@[k] == #[trigger] breakable(s@, k),
            ci <= chars@.len(),
            start <= ci,
            segments(s@, ci as int) == (start as int, widest as int),
        decreases chars@.len() - ci,
    {
        assert(marks@[ci as int] == breakable(s@, ci as int));
        if marks[ci] {
            if ci > start {
                let part = slice_text(&chars, start, ci);
                let w: usize = visible_width(part.as_str());
                if w > widest {
                    widest = w;
                }
            }
            start = ci + 1;
        }
        ci = ci + 1;
    }
    if start < chars.len() {
        let part = slice_text(&chars, start, chars.len());
        assert(part@ =~= s@.skip(start as int));
        let w: usize = visible_width(part.as_str());
        if w > widest {
            widest = w;
        }
    }
    widest
}

/// The text from `a` up to `b` has no place to break.
pub open spec fn solid(s: Seq<char>, a: int, b: int) -> bool {
    forall|k: int| a <= k < b ==> !#[trigger] breakable(s, k)
}

/// The text from `a` up to `b` fits on a line, or cannot be broken.
pub open spec fn fits_or_solid(s: Seq<char>, a: int, b: int, max: int) -> bool {
    visible_columns(s.subrange(a, b)) <= max || solid(s, a, b)
}

/// The line is the text from `a` up to `b`.
pub open spec fn is_stretch(s: Seq<char>, line: Seq<char>, a: int, b: int) -> bool {
    0 <= a <= b <= s.len() && line == s.subrange(a, b)
}

/// The line fits, or cannot be broken.
pub open spec fn cell_line_fits(s: Seq<char>, line: Seq<char>, max: int) -> bool {
    exists|a: int, b: int| #[trigger] is_stretch(s, line, a, b) && fits_or_solid(s, a, b, max)
}

proof fn lemma_cell_lines_fit(s: Seq<char>, n: int, max: int)
    requires
        0 <= n <= s.len(),
    ensures
        ({
            let c = cell_lines(s, n, max);
            &&& forall|i: int|
                0 <= i < c.done.len() ==> cell_line_fits(s, #[trigger] c.done[i], max)
            &&& c.last < 0 ==> solid(s, c.start, n)
            &&& c.last >= 0 ==> {
                &&& visible_columns(s.subrange(c.start, n)) <= max
                &&& fits_or_solid(s, c.start, c.last, max)
                &&& solid(s, c.last + 1, n)
            }
        }),
    decreases n,
{
    lemma_cell_lines(s, n, max);
    if n > 0 {
        lemma_cell_lines_fit(s, n - 1, max);
        lemma_cell_lines(s, n - 1, max);
        let c = cell_lines(s, n - 1, max);
        let d = cell_lines(s, n, max);
        let last = if breakable(s, n - 1) {
            n - 1
        } else {
            c.last
        };
        if last >= 0 {
            assert(fits_or_solid(s, c.start, last, max));
        }
        if visible_columns(s.subrange(c.start, n)) > max && last >= 0 {
            let line = s.subrange(c.start, last);
            assert(is_stretch(s, line, c.start, last));
            assert(cell_line_fits(s, line, max));
            assert forall|i: int| 0 <= i < d.done.len() implies cell_line_fits(
                s,
                #[trigger] d.done[i],
                max,
            ) by {
                if i < c.done.len() {
                    assert(d.done[i] == c.done[i]);
                }
            }
        }
    }
}

/// Every line of a cell fits on its width, but for lines that cannot be
/// broken at a space outside all spans.
pub proof fn law_cell_lines_fit(s: Seq<char>, max: int, i: int)
    requires
        max > 0,
        0 <= i < cell_wrapped(s, max).len(),
    ensures
        cell_line_fits(s, cell_wrapped(s, max)[i], max),
{
    let n = s.len() as int;
    let c = cell_lines(s, n, max);
    lemma_cell_lines(s, n, max);
    lemma_cell_lines_fit(s, n, max);
    let line = cell_wrapped(s, max)[i];
    if i < c.done.len() {
        assert(line == c.done[i]);
    } else {
        assert(s.skip(c.start) =~= s.subrange(c.start, n));
        assert(line =~= s.subrange(c.start, n));
        assert(is_stretch(s, line, c.start, n));
        assert(fits_or_solid(s, c.start, n, max));
    }
}

/// Whether a segment starts at `a`.
spec fn starts_segment(s: Seq<char>, a: int) -> bool {
    a == 0 || a > 0 && breakable(s, a - 1)
}

/// Whether the text from `a` up to `b` is a segment with a break behind it.
spec fn is_segment(s: Seq<char>, a: int, b: int) -> bool {
    starts_segment(s, a) && solid(s, a, b) && breakable(s, b)
}

proof fn lemma_segments(s: Seq<char>, n: int)
    requires
        0 <= n <= s.len(),
    ensures
        ({
            let (start, widest) = segments(s, n);
            &&& 0 <= start <= n
            &&& starts_segment(s, start)
            &&& solid(s, start, n)
            &&& forall|a: int, b: int|
                0 <= a < b < n && #[trigger] is_segment(s, a, b) ==> visible_columns(
                    s.subrange(a, b),
                ) <= widest
        }),
    decreases n,
{
    if n > 0 {
        lemma_segments(s, n - 1);
        let (start, widest) = segments(s, n - 1);
        let (_, w) = segments(s, n);
        if breakable(s, n - 1) {
            assert forall|a: int, b: int| 0 <= a < b < n && #[trigger] is_segment(
                s,
                a,
                b,
            ) implies visible_columns(s.subrange(a, b)) <= w by {
                if b == n - 1 {
                    if a < start {
                        assert(breakable(s, start - 1));
                    } else if a > start {
                        assert(breakable(s, a - 1));
                    }
                }
            }
        }
    }
}

proof fn lemma_segment_fits(s: Seq<char>, a: int, b: int)
    requires
        0 <= a <= b < s.len(),
        is_segment(s, a, b),
    ensures
        visible_columns(s.subrange(a, b)) <= widest_segment(s) || a == b,
{
    lemma_segments(s, s.len() as int);
}

proof fn lemma_last_segment_fits(s: Seq<char>, a: int)
    requires
        0 <= a < s.len(),
        starts_segment(s, a),
        solid(s, a, s.len() as int),
    ensures
        visible_columns(s.skip(a)) <= widest_segment(s),
{
    lemma_segments(s, s.len() as int);
    let start = segments(s, s.len() as int).0;
    if a < start {
        assert(breakable(s, start - 1));
    } else if a > start {
        assert(breakable(s, a - 1));
    }
}

proof fn lemma_cell_lines_narrow(s: Seq<char>, n: int, max: int)
    requires
        0 <= n <= s.len(),
        max > 0,
        widest_segment(s) <= max,
    ensures
        starts_segment(s, cell_lines(s, n, max).start),
        forall|i: int|
            0 <= i < cell_lines(s, n, max).done.len() ==> visible_columns(
                #[trigger] cell_lines(s, n, max).done[i],
            ) <= max,
    decreases n,
{
    if n > 0 {
        lemma_cell_lines_narrow(s, n - 1, max);
        lemma_cell_lines(s, n - 1, max);
        lemma_cell_lines_fit(s, n - 1, max);
        lemma_cell_text(s, n - 1, max);
        let c = cell_lines(s, n - 1, max);
        let d = cell_lines(s, n, max);
        let last = if breakable(s, n - 1) {
            n - 1
        } else {
            c.last
        };
        if visible_columns(s.subrange(c.start, n)) > max && last >= 0 {
            assert(breakable(s, last));
            assert(fits_or_solid(s, c.start, last, max));
            if solid(s, c.start, last) {
                lemma_segment_fits(s, c.start, last);
                if c.start == last {
                    assert(s.subrange(c.start, last) =~= seq![]);
                    assert(stripped(s.subrange(c.start, last)) =~= seq![]);
                }
            }
            assert forall|i: int| 0 <= i < d.done.len() implies visible_columns(
                #[trigger] d.done[i],
            ) <= max by {
                if i < c.done.len() {
                    assert(d.done[i] == c.done[i]);
                }
            }
        }
    }
}

/// When a cell is as wide as its widest segment, every line of it fits.
pub proof fn law_least_width_is_enough(s: Seq<char>, max: int, i: int)
    requires
        max > 0,
        widest_segment(s) <= max,
        0 <= i < cell_wrapped(s, max).len(),
    ensures
        visible_columns(cell_wrapped(s, max)[i]) <= max,
{
    let n = s.len() as int;
    let c = cell_lines(s, n, max);
    lemma_cell_lines(s, n, max);
    lemma_cell_lines_fit(s, n, max);
    lemma_cell_lines_narrow(s, n, max);
    let line = cell_wrapped(s, max)[i];
    if i < c.done.len() {
        assert(line == c.done[i]);
    } else if c.start < n {
        assert(s.skip(c.start) =~= s.subrange(c.start, n));
        if c.last < 0 {
            lemma_last_segment_fits(s, c.start);
        }
    } else {
        assert(line =~= seq![]);
        assert(stripped(line) =~= seq![]);
    }
}

/// Lines, each with a space behind it.
pub open spec fn spaced(lines: Seq<Seq<char>>) -> Seq<char>
    decreases lines.len(),
{
    if lines.len() == 0 {
        seq![]
    } else {
        spaced(lines.drop_last()) + lines.last().push(' ')
    }
}

proof fn lemma_cell_text(s: Seq<char>, n: int, max: int)
    requires
        0 <= n <= s.len(),
    ensures
        spaced(cell_lines(s, n, max).done) == s.take(cell_lines(s, n, max).start),
        cell_lines(s, n, max).last >= 0 ==> breakable(s, cell_lines(s, n, max).last),
    decreases n,
{
    lemma_cell_lines(s, n, max);
    if n > 0 {
        lemma_cell_text(s, n - 1, max);
        lemma_cell_lines(s, n - 1, max);
        let c = cell_lines(s, n - 1, max);
        let d = cell_lines(s, n, max);
        let last = if breakable(s, n - 1) {
            n - 1
        } else {
            c.last
        };
        if visible_columns(s.subrange(c.start, n)) > max && last >= 0 {
            assert(s[last] == ' ');
            assert(d.done.drop_last() =~= c.done);
            assert(spaced(d.done) =~= s.take(last + 1));
        }
    } else {
        assert(s.take(0) =~= seq![]);
    }
}

/// The lines of a cell hold its text: with a space behind each of them they
/// are the text, with a space behind it unless it ends at a break.
pub proof fn law_cell_lines_keep_text(s: Seq<char>, max: int)
    requires
        max > 0,
    ensures
        spaced(cell_wrapped(s, max)) == s.push(' ') || spaced(cell_wrapped(s, max)) == s,
{
    let n = s.len() as int;
    let c = cell_lines(s, n, max);
    lemma_cell_lines(s, n, max);
    lemma_cell_text(s, n, max);
    let w = cell_wrapped(s, max);
    if c.start < n {
        assert(w.drop_last() =~= c.done);
        assert(spaced(w) =~= s.push(' '));
    } else if c.done.len() == 0 {
        assert(w.drop_last() =~= seq![]);
        assert(spaced(w.drop_last()) =~= seq![]);
        assert(spaced(w) =~= s.push(' '));
    } else {
        assert(s.take(n) =~= s);
    }
}

} // verus!
