//! Horizontal bars: the status line and the rules around the prompt, with
//! spans that give way when the line is narrow.

use vstd::prelude::*;

use crate::render::out::{Canvas, ClearType, Color, Command, RenderOut, StyleState};
use crate::text;
use crate::text::{char_count, repeat_char, truncate_str};
use crate::theme;

verus! {

/// `n`, or `usize::MAX` when `n` is larger.
pub open spec fn capped(n: int) -> int {
    if n > usize::MAX {
        usize::MAX as int
    } else {
        n
    }
}

/// `n`, or zero when `n` is negative.
pub open spec fn at_least_zero(n: int) -> int {
    if n < 0 {
        0
    } else {
        n
    }
}

// ── Bars ─────────────────────────────────────────────────────────────────

/// A piece of text on a bar.
pub struct BarSpan<T> {
    pub text: T,
    pub color: Color,
    pub bg: Option<Color>,
    pub bold: bool,
    pub dim: bool,
    /// Zero is always shown; higher values are dropped first.
    pub priority: u8,
}

/// Characters for text.
pub open spec fn bar_view(s: BarSpan<String>) -> BarSpan<Seq<char>> {
    BarSpan {
        text: s.text@,
        color: s.color,
        bg: s.bg,
        bold: s.bold,
        dim: s.dim,
        priority: s.priority,
    }
}

/// Characters for text, in each span.
pub open spec fn bars_view(v: Seq<BarSpan<String>>) -> Seq<BarSpan<Seq<char>>> {
    Seq::new(v.len(), |i: int| bar_view(v[i]))
}

/// The spans of an optional list; none for none.
pub open spec fn spans_of(spans: Option<&Vec<BarSpan<String>>>) -> Seq<BarSpan<Seq<char>>> {
    match spans {
        Some(v) => bars_view(v@),
        None => seq![],
    }
}

/// The highest priority among the first `n` spans, zero when there is none.
pub open spec fn top_bar_priority(spans: Seq<BarSpan<Seq<char>>>, n: int) -> int
    decreases n,
{
    if n <= 0 {
        0
    } else {
        let p = top_bar_priority(spans, n - 1);
        if spans[n - 1].priority > p {
            spans[n - 1].priority as int
        } else {
            p
        }
    }
}

/// Characters of those of the first `n` spans whose priority is below `level`.
pub open spec fn bar_chars(spans: Seq<BarSpan<Seq<char>>>, n: int, level: int) -> int
    decreases n,
{
    if n <= 0 {
        0
    } else {
        bar_chars(spans, n - 1, level) + (if spans[n - 1].priority < level {
            spans[n - 1].text.len() as int
        } else {
            0
        })
    }
}

/// Whether one of the first `n` spans has a priority below `level`.
pub open spec fn bar_shows(spans: Seq<BarSpan<Seq<char>>>, n: int, level: int) -> bool
    decreases n,
{
    n > 0 && (bar_shows(spans, n - 1, level) || spans[n - 1].priority < level)
}

/// Dashes that a bar keeps free between its two sides.
pub const MIN_DASHES: usize = 4;

/// Columns that a bar needs when the spans below `level` are shown: a space
/// behind the left side, a space and a dash behind the right side.
pub open spec fn bar_needs(left: Seq<BarSpan<Seq<char>>>, right: Seq<BarSpan<Seq<char>>>, level: int) -> int {
    let l = bar_chars(left, left.len() as int, level);
    let r = bar_chars(right, right.len() as int, level);
    (if l > 0 { l + 1 } else { 0 }) + MIN_DASHES + (if r > 0 { r + 2 } else { 0 })
}

/// The highest level, at most `level`, at which the bar fits; one when it
/// fits at none.
pub open spec fn bar_level(
    left: Seq<BarSpan<Seq<char>>>,
    right: Seq<BarSpan<Seq<char>>>,
    width: int,
    level: int,
) -> int
    decreases level,
{
    if level <= 1 || capped(bar_needs(left, right, level)) <= width {
        level
    } else {
        bar_level(left, right, width, level - 1)
    }
}

/// The style of a span.
pub open spec fn bar_style(s: BarSpan<Seq<char>>) -> StyleState {
    StyleState {
        fg: Some(s.color),
        bg: s.bg,
        bold: s.bold,
        dim: s.dim,
        italic: false,
        crossedout: false,
        underline: false,
    }
}

/// Prints those of the first `n` spans whose priority is below `level`.
pub open spec fn bar_spans(m: Canvas, spans: Seq<BarSpan<Seq<char>>>, n: int, level: int) -> Canvas
    decreases n,
{
    if n <= 0 {
        m
    } else {
        let m = bar_spans(m, spans, n - 1, level);
        let s = spans[n - 1];
        if s.priority < level {
            m.push_style(bar_style(s)).print(s.text).pop_style()
        } else {
            m
        }
    }
}

/// A bar of `width` columns in `color`, with text at its left and right ends.
/// Spans are dropped from the highest priority down until the bar fits.
pub open spec fn bar_drawn(
    m: Canvas,
    width: int,
    left: Seq<BarSpan<Seq<char>>>,
    right: Seq<BarSpan<Seq<char>>>,
    color: Color,
) -> Canvas {
    let ll = left.len() as int;
    let rl = right.len() as int;
    let lp = top_bar_priority(left, ll);
    let rp = top_bar_priority(right, rl);
    let level = bar_level(left, right, width, (if lp > rp { lp } else { rp }) + 1);
    let left_len = if bar_shows(left, ll, level) {
        bar_chars(left, ll, level) + 1
    } else {
        0
    };
    let right_len = if bar_shows(right, rl, level) {
        bar_chars(right, rl, level) + 2
    } else {
        0
    };
    let m = if bar_shows(left, ll, level) {
        bar_spans(m, left, ll, level).print(" "@)
    } else {
        m
    };
    let m = m.push_fg(color).print(
        text::fill('\u{2500}', at_least_zero(width - (left_len + right_len)) as nat),
    ).pop_style();
    if bar_shows(right, rl, level) {
        bar_spans(m, right, rl, level).print(" "@).push_fg(color).print(
            "\u{2500}"@,
        ).pop_style()
    } else {
        m
    }
}

/// What a pass over spans finds: characters shown and whether any is shown.
fn measure_bar(spans: Option<&Vec<BarSpan<String>>>, level: u16) -> (r: (usize, bool))
    ensures
        r.0 == capped(bar_chars(spans_of(spans), spans_of(spans).len() as int, level as int)),
        r.1 == bar_shows(spans_of(spans), spans_of(spans).len() as int, level as int),
        bar_chars(spans_of(spans), spans_of(spans).len() as int, level as int) >= 0,
{
    let mut chars: usize = 0;
    let mut any = false;
    if let Some(v) = spans {
        let ghost bv = bars_view(v@);
        let mut i: usize = 0;
        while i < v.len()
            invariant
                bv == bars_view(v@),
                i <= v@.len(),
                chars == capped(bar_chars(bv, i as int, level as int)),
                bar_chars(bv, i as int, level as int) >= 0,
                any == bar_shows(bv, i as int, level as int),
            decreases v@.len() - i,
        {
            assert(bv[i as int] == bar_view(v@[i as int]));
            if (v[i].priority as u16) < level {
                any = true;
                chars = chars.saturating_add(char_count(v[i].text.as_str()));
            }
            i = i + 1;
        }
    }
    (chars, any)
}

fn highest_priority(spans: Option<&Vec<BarSpan<String>>>) -> (r: u16)
    ensures
        r == top_bar_priority(spans_of(spans), spans_of(spans).len() as int),
        r <= 255,
{
    let mut p: u16 = 0;
    if let Some(v) = spans {
        let ghost bv = bars_view(v@);
        let mut i: usize = 0;
        while i < v.len()
            invariant
                bv == bars_view(v@),
                i <= v@.len(),
                p == top_bar_priority(bv, i as int),
                p <= 255,
            decreases v@.len() - i,
        {
            assert(bv[i as int] == bar_view(v@[i as int]));
            if v[i].priority as u16 > p {
                p = v[i].priority as u16;
            }
            i = i + 1;
        }
    }
    p
}

fn print_bar_spans(out: &mut RenderOut, spans: Option<&Vec<BarSpan<String>>>, level: u16)
    ensures
        final(out)@ == bar_spans(
            old(out)@,
            spans_of(spans),
            spans_of(spans).len() as int,
            level as int,
        ),
{
    if let Some(v) = spans {
        let ghost bv = bars_view(v@);
        let mut i: usize = 0;
        while i < v.len()
            invariant
                bv == bars_view(v@),
                i <= v@.len(),
                out@ == bar_spans(old(out)@, bv, i as int, level as int),
            decreases v@.len() - i,
        {
            assert(bv[i as int] == bar_view(v@[i as int]));
            let s = &v[i];
            if (s.priority as u16) < level {
                out.push_style(
                    StyleState {
                        fg: Some(s.color),
                        bg: s.bg,
                        bold: s.bold,
                        dim: s.dim,
                        italic: false,
                        crossedout: false,
                        underline: false,
                    },
                );
                out.print(s.text.as_str());
                out.pop_style();
            }
            i = i + 1;
        }
    }
}

/// Draws a horizontal bar with text at its ends.
pub fn draw_bar(
    out: &mut RenderOut,
    width: usize,
    left: Option<&Vec<BarSpan<String>>>,
    right: Option<&Vec<BarSpan<String>>>,
    bar_color: Color,
)
    ensures
        final(out)@ == bar_drawn(
            old(out)@,
            width as int,
            spans_of(left),
            spans_of(right),
            bar_color,
        ),
{
    let lp: u16 = highest_priority(left);
    let rp: u16 = highest_priority(right);
    let top: u16 = (if lp > rp {
        lp
    } else {
        rp
    }) + 1;
    let mut level: u16 = top;
    let ghost l = spans_of(left);
    let ghost r = spans_of(right);
    loop
        invariant
            l == spans_of(left),
            r == spans_of(right),
            1 <= level <= top,
            bar_level(l, r, width as int, top as int) == bar_level(
                l,
                r,
                width as int,
                level as int,
            ),
        ensures
            level == bar_level(l, r, width as int, top as int),
        decreases level,
    {
        let (lc, _) = measure_bar(left, level);
        let (rc, _) = measure_bar(right, level);
        let ln: usize = if lc > 0 {
            lc.saturating_add(1)
        } else {
            0
        };
        let rn: usize = if rc > 0 {
            rc.saturating_add(2)
        } else {
            0
        };
        let total: usize = ln.saturating_add(MIN_DASHES).saturating_add(rn);
        assert(total == capped(bar_needs(l, r, level as int)));
        if total <= width || level == 1 {
            break;
        }
        level = level - 1;
    }
    let (lc, left_shown) = measure_bar(left, level);
    let (rc, right_shown) = measure_bar(right, level);
    let left_len: usize = if left_shown {
        lc.saturating_add(1)
    } else {
        0
    };
    let right_len: usize = if right_shown {
        rc.saturating_add(2)
    } else {
        0
    };
    let bar_len: usize = width.saturating_sub(left_len.saturating_add(right_len));
    if left_shown {
        print_bar_spans(out, left, level);
        out.print(" ");
    }
    out.push_fg(bar_color);
    let dashes = repeat_char('\u{2500}', bar_len);
    out.print(dashes.as_str());
    out.pop_style();
    if right_shown {
        print_bar_spans(out, right, level);
        out.print(" ");
        out.push_fg(bar_color);
        out.print("\u{2500}");
        out.pop_style();
    }
}

/// A span without a background.
pub open spec fn bar_span(
    t: Seq<char>,
    color: Color,
    bold: bool,
    dim: bool,
    priority: u8,
) -> BarSpan<Seq<char>> {
    BarSpan { text: t, color, bg: None, bold, dim, priority }
}

/// Adds a span without a background.
pub fn push_bar(
    v: &mut Vec<BarSpan<String>>,
    t: String,
    color: Color,
    bold: bool,
    dim: bool,
    priority: u8,
)
    ensures
        bars_view(final(v)@) == bars_view(old(v)@).push(bar_span(t@, color, bold, dim, priority)),
{
    let ghost before = v@;
    let s = BarSpan { text: t, color, bg: None, bold, dim, priority };
    v.push(s);
    assert(bars_view(v@) =~= bars_view(before).push(bar_view(s)));
}

// ── Status line ──────────────────────────────────────────────────────────

/// A piece of the status line.  `T` is the text type: `String` when stored,
/// `Seq<char>` in specifications.
pub struct StatusSpan<T> {
    pub text: T,
    pub style: StyleState,
    /// Zero is always shown; higher values are dropped first.
    pub priority: u8,
    /// Whether a separator goes before the span.
    pub group: bool,
    /// Whether the text may be cut before the span is dropped.
    pub truncatable: bool,
}

/// The span with its text taken as a sequence of characters.
pub open spec fn status_view(s: StatusSpan<String>) -> StatusSpan<Seq<char>> {
    StatusSpan {
        text: s.text@,
        style: s.style,
        priority: s.priority,
        group: s.group,
        truncatable: s.truncatable,
    }
}

/// The spans with their texts taken as sequences of characters.
pub open spec fn statuses_view(v: Seq<StatusSpan<String>>) -> Seq<StatusSpan<Seq<char>>> {
    Seq::new(v.len(), |i: int| status_view(v[i]))
}

/// Columns of the separator between groups.
pub const STATUS_SEP_LEN: usize = 3;

/// Columns of the first `n` spans with the separators between their groups.
pub open spec fn status_width(spans: Seq<StatusSpan<Seq<char>>>, n: int) -> int
    decreases n,
{
    if n <= 0 {
        0
    } else {
        let w = status_width(spans, n - 1);
        w + (if spans[n - 1].group && w > 0 {
            STATUS_SEP_LEN as int
        } else {
            0
        }) + spans[n - 1].text.len()
    }
}

/// The highest priority among the first `n` spans, zero when there is none.
pub open spec fn top_priority(spans: Seq<StatusSpan<Seq<char>>>, n: int) -> int
    decreases n,
{
    if n <= 0 {
        0
    } else {
        let p = top_priority(spans, n - 1);
        if spans[n - 1].priority > p {
            spans[n - 1].priority as int
        } else {
            p
        }
    }
}

/// The last of the first `n` spans with priority `p`, or -1.
pub open spec fn last_with(spans: Seq<StatusSpan<Seq<char>>>, n: int, p: int) -> int
    decreases n,
{
    if n <= 0 {
        -1
    } else if spans[n - 1].priority == p {
        n - 1
    } else {
        last_with(spans, n - 1, p)
    }
}

/// Characters and spans that are left; it shrinks with every step of
/// [`fitted`].
pub open spec fn status_size(spans: Seq<StatusSpan<Seq<char>>>) -> nat
    decreases spans.len(),
{
    if spans.len() == 0 {
        0
    } else {
        status_size(spans.drop_last()) + spans.last().text.len() + 1
    }
}

pub proof fn lemma_size_update(
    spans: Seq<StatusSpan<Seq<char>>>,
    i: int,
    s: StatusSpan<Seq<char>>,
)
    requires
        0 <= i < spans.len(),
    ensures
        status_size(spans.update(i, s)) == status_size(spans) - spans[i].text.len() + s.text.len(),
    decreases spans.len(),
{
    let u = spans.update(i, s);
    if i == spans.len() - 1 {
        assert(u.drop_last() =~= spans.drop_last());
    } else {
        lemma_size_update(spans.drop_last(), i, s);
        assert(u.drop_last() =~= spans.drop_last().update(i, s));
    }
}

pub proof fn lemma_size_remove(spans: Seq<StatusSpan<Seq<char>>>, i: int)
    requires
        0 <= i < spans.len(),
    ensures
        status_size(spans.remove(i)) == status_size(spans) - spans[i].text.len() - 1,
    decreases spans.len(),
{
    let u = spans.remove(i);
    if i == spans.len() - 1 {
        assert(u =~= spans.drop_last());
    } else {
        lemma_size_remove(spans.drop_last(), i);
        assert(u.drop_last() =~= spans.drop_last().remove(i));
        assert(u.last() == spans.last());
    }
}

pub proof fn lemma_last_with(spans: Seq<StatusSpan<Seq<char>>>, n: int)
    requires
        0 <= n <= spans.len(),
    ensures
        0 <= top_priority(spans, n) <= 255,
        n > 0 ==> 0 <= last_with(spans, n, top_priority(spans, n)) < n,
    decreases n,
{
    if n > 0 {
        lemma_last_with(spans, n - 1);
        if n == 1 {
            assert(top_priority(spans, 0) == 0);
        }
    }
}

pub proof fn lemma_status_width(spans: Seq<StatusSpan<Seq<char>>>, n: int)
    requires
        0 <= n <= spans.len(),
    ensures
        status_width(spans, n) >= 0,
        forall|i: int| 0 <= i < n ==> (#[trigger] spans[i]).text.len() <= status_width(spans, n),
    decreases n,
{
    if n > 0 {
        lemma_status_width(spans, n - 1);
    }
}

/// The spans that are shown on `width` columns: while they do not fit, the
/// last one of the highest priority is cut to the columns that the others
/// leave, if it may be cut and two columns or more are left, and dropped
/// otherwise.  Spans of priority zero stay.
pub open spec fn fitted(spans: Seq<StatusSpan<Seq<char>>>, width: int) -> Seq<
    StatusSpan<Seq<char>>,
>
    decreases status_size(spans),
{
    let n = spans.len() as int;
    let total = capped(status_width(spans, n));
    let p = top_priority(spans, n);
    if total > width && n > 0 && p > 0 {
        let i = last_with(spans, n, p);
        let s = spans[i];
        let room = at_least_zero(width - at_least_zero(total - s.text.len()));
        proof {
            lemma_last_with(spans, n);
            lemma_status_width(spans, n);
            lemma_size_update(spans, i, StatusSpan { text: text::clipped(s.text, room), ..s });
            lemma_size_remove(spans, i);
        }
        if s.truncatable && room >= 2 && room < s.text.len() {
            fitted(spans.update(i, StatusSpan { text: text::clipped(s.text, room), ..s }), width)
        } else {
            fitted(spans.remove(i), width)
        }
    } else {
        spans
    }
}

/// A style with only a background.
pub open spec fn bg_style(bg: Color) -> StyleState {
    StyleState { bg: Some(bg), ..crate::render::out::plain_style() }
}

/// Prints the first `n` spans with a separator between groups.
pub open spec fn status_printed(
    m: Canvas,
    spans: Seq<StatusSpan<Seq<char>>>,
    n: int,
    fill_bg: Color,
) -> Canvas
    decreases n,
{
    if n <= 0 {
        m
    } else {
        let m = status_printed(m, spans, n - 1, fill_bg);
        let s = spans[n - 1];
        let m = if s.group && status_width(spans, n - 1) > 0 {
            m.push_style(
                StyleState { fg: Some(Color::AnsiValue(theme::MUTED)), ..bg_style(fill_bg) },
            ).print(" \u{00b7} "@).pop_style()
        } else {
            m
        };
        m.push_style(s.style).print(s.text).pop_style()
    }
}

/// The status line: the spans that fit, and the background up to the end of
/// the line when there is room behind them.
pub open spec fn status_drawn(
    m: Canvas,
    spans: Seq<StatusSpan<Seq<char>>>,
    width: int,
    fill_bg: Color,
) -> Canvas {
    let spans = fitted(spans, width);
    let n = spans.len() as int;
    let m = status_printed(m, spans, n, fill_bg);
    let m = if capped(status_width(spans, n)) < width {
        m.push_style(bg_style(fill_bg)).queue(
            Command::Clear(ClearType::UntilNewLine),
        ).pop_style()
    } else {
        m
    };
    m.reset_style()
}

fn total_width(spans: &Vec<StatusSpan<String>>) -> (r: usize)
    ensures
        r == capped(status_width(statuses_view(spans@), spans@.len() as int)),
{
    let ghost v = statuses_view(spans@);
    let mut w: usize = 0;
    let mut i: usize = 0;
    while i < spans.len()
        invariant
            v == statuses_view(spans@),
            i <= spans@.len(),
            w == capped(status_width(v, i as int)),
            status_width(v, i as int) >= 0,
        decreases spans@.len() - i,
    {
        assert(v[i as int] == status_view(spans@[i as int]));
        if spans[i].group && w > 0 {
            w = w.saturating_add(STATUS_SEP_LEN);
        }
        w = w.saturating_add(char_count(spans[i].text.as_str()));
        i = i + 1;
    }
    w
}

fn highest_status(spans: &Vec<StatusSpan<String>>) -> (r: u8)
    ensures
        r == top_priority(statuses_view(spans@), spans@.len() as int),
{
    let ghost v = statuses_view(spans@);
    let mut p: u8 = 0;
    let mut i: usize = 0;
    while i < spans.len()
        invariant
            v == statuses_view(spans@),
            i <= spans@.len(),
            p == top_priority(v, i as int),
        decreases spans@.len() - i,
    {
        assert(v[i as int] == status_view(spans@[i as int]));
        if spans[i].priority > p {
            p = spans[i].priority;
        }
        i = i + 1;
    }
    p
}

/// Prints the status line; `spans` is left with what was shown.
pub fn render_status_spans(
    out: &mut RenderOut,
    spans: &mut Vec<StatusSpan<String>>,
    width: usize,
    fill_bg: Color,
)
    ensures
        final(out)@ == status_drawn(
            old(out)@,
            statuses_view(old(spans)@),
            width as int,
            fill_bg,
        ),
        statuses_view(final(spans)@) == fitted(statuses_view(old(spans)@), width as int),
{
    let ghost start = statuses_view(spans@);
    loop
        invariant
            fitted(start, width as int) == fitted(statuses_view(spans@), width as int),
        ensures
            fitted(start, width as int) == statuses_view(spans@),
        decreases status_size(statuses_view(spans@)),
    {
        let ghost v = statuses_view(spans@);
        let total: usize = total_width(spans);
        let top: u8 = highest_status(spans);
        if total <= width || spans.len() == 0 || top == 0 {
            break;
        }
        proof {
            lemma_last_with(v, v.len() as int);
            lemma_status_width(v, v.len() as int);
        }
        let mut idx: usize = spans.len() - 1;
        while spans[idx].priority != top
            invariant
                v == statuses_view(spans@),
                idx < spans@.len(),
                last_with(v, v.len() as int, top as int) == last_with(v, idx + 1, top as int),
                last_with(v, v.len() as int, top as int) >= 0,
            decreases idx,
        {
            assert(v[idx as int] == status_view(spans@[idx as int]));
            assert(last_with(v, idx + 1, top as int) == last_with(v, idx as int, top as int));
            assert(idx > 0) by {
                assert(last_with(v, 0, top as int) == -1);
            }
            idx = idx - 1;
        }
        assert(v[idx as int] == status_view(spans@[idx as int]));
        let len: usize = char_count(spans[idx].text.as_str());
        let room: usize = width.saturating_sub(total.saturating_sub(len));
        if spans[idx].truncatable && room >= 2 && room < len {
            let cut = truncate_str(spans[idx].text.as_str(), room);
            let ghost s = v[idx as int];
            proof {
                lemma_size_update(
                    v,
                    idx as int,
                    StatusSpan { text: text::clipped(s.text, room as int), ..s },
                );
            }
            let fresh = StatusSpan {
                text: cut,
                style: spans[idx].style,
                priority: spans[idx].priority,
                group: spans[idx].group,
                truncatable: spans[idx].truncatable,
            };
            spans[idx] = fresh;
            assert(statuses_view(spans@) =~= v.update(
                idx as int,
                StatusSpan { text: text::clipped(s.text, room as int), ..s },
            ));
        } else {
            proof {
                lemma_size_remove(v, idx as int);
            }
            spans.remove(idx);
            assert(statuses_view(spans@) =~= v.remove(idx as int));
        }
    }
    let ghost v = statuses_view(spans@);
    let sep = StyleState {
        fg: Some(Color::AnsiValue(theme::MUTED)),
        bg: Some(fill_bg),
        bold: false,
        dim: false,
        italic: false,
        crossedout: false,
        underline: false,
    };
    let mut col: usize = 0;
    let mut i: usize = 0;
    while i < spans.len()
        invariant
            v == statuses_view(spans@),
            i <= spans@.len(),
            col == capped(status_width(v, i as int)),
            status_width(v, i as int) >= 0,
            sep == (StyleState { fg: Some(Color::AnsiValue(theme::MUTED)), ..bg_style(fill_bg) }),
            out@ == status_printed(old(out)@, v, i as int, fill_bg),
        decreases spans@.len() - i,
    {
        assert(v[i as int] == status_view(spans@[i as int]));
        if spans[i].group && col > 0 {
            out.push_style(sep);
            out.print(" \u{00b7} ");
            out.pop_style();
            col = col.saturating_add(STATUS_SEP_LEN);
        }
        out.push_style(spans[i].style);
        out.print(spans[i].text.as_str());
        out.pop_style();
        col = col.saturating_add(char_count(spans[i].text.as_str()));
        i = i + 1;
    }
    if col < width {
        out.push_style(
            StyleState {
                fg: None,
                bg: Some(fill_bg),
                bold: false,
                dim: false,
                italic: false,
                crossedout: false,
                underline: false,
            },
        );
        out.queue(Command::Clear(ClearType::UntilNewLine));
        out.pop_style();
    }
    out.reset_style();
}

/// The status line fits, unless only spans of priority zero are left.
pub proof fn law_status_fits(spans: Seq<StatusSpan<Seq<char>>>, width: int)
    ensures
        ({
            let f = fitted(spans, width);
            capped(status_width(f, f.len() as int)) <= width || top_priority(f, f.len() as int)
                == 0
        }),
    decreases status_size(spans),
{
    let n = spans.len() as int;
    let total = capped(status_width(spans, n));
    let p = top_priority(spans, n);
    lemma_last_with(spans, n);
    if total > width && n > 0 && p > 0 {
        let i = last_with(spans, n, p);
        let s = spans[i];
        let room = at_least_zero(width - at_least_zero(total - s.text.len()));
        lemma_size_update(spans, i, StatusSpan { text: text::clipped(s.text, room), ..s });
        lemma_size_remove(spans, i);
        if s.truncatable && room >= 2 && room < s.text.len() {
            law_status_fits(
                spans.update(i, StatusSpan { text: text::clipped(s.text, room), ..s }),
                width,
            );
        } else {
            law_status_fits(spans.remove(i), width);
        }
    }
}

/// Those of the first `n` spans that have priority `q`.
pub open spec fn with_priority(spans: Seq<StatusSpan<Seq<char>>>, n: int, q: int) -> Seq<
    StatusSpan<Seq<char>>,
>
    decreases n,
{
    if n <= 0 {
        seq![]
    } else if spans[n - 1].priority == q {
        with_priority(spans, n - 1, q).push(spans[n - 1])
    } else {
        with_priority(spans, n - 1, q)
    }
}

proof fn lemma_update_keeps(
    spans: Seq<StatusSpan<Seq<char>>>,
    i: int,
    s: StatusSpan<Seq<char>>,
    n: int,
    q: int,
)
    requires
        0 <= i < spans.len(),
        0 <= n <= spans.len(),
        s.priority == spans[i].priority,
    ensures
        q != s.priority ==> with_priority(spans.update(i, s), n, q) == with_priority(spans, n, q),
        top_priority(spans.update(i, s), n) == top_priority(spans, n),
    decreases n,
{
    if n > 0 {
        lemma_update_keeps(spans, i, s, n - 1, q);
    }
}

proof fn lemma_prefix_keeps(
    a: Seq<StatusSpan<Seq<char>>>,
    b: Seq<StatusSpan<Seq<char>>>,
    n: int,
    q: int,
)
    requires
        0 <= n <= a.len(),
        n <= b.len(),
        forall|i: int| 0 <= i < n ==> a[i] == b[i],
    ensures
        with_priority(a, n, q) == with_priority(b, n, q),
        top_priority(a, n) == top_priority(b, n),
    decreases n,
{
    if n > 0 {
        lemma_prefix_keeps(a, b, n - 1, q);
    }
}

proof fn lemma_remove_keeps(spans: Seq<StatusSpan<Seq<char>>>, i: int, n: int, q: int)
    requires
        0 <= i < n <= spans.len(),
    ensures
        q != spans[i].priority ==> with_priority(spans.remove(i), n - 1, q) == with_priority(
            spans,
            n,
            q,
        ),
        top_priority(spans.remove(i), n - 1) <= top_priority(spans, n),
    decreases n,
{
    if n - 1 == i {
        lemma_prefix_keeps(spans.remove(i), spans, i, q);
    } else {
        lemma_remove_keeps(spans, i, n - 1, q);
        assert(spans.remove(i)[n - 2] == spans[n - 1]);
    }
}

/// On the status line the highest priority goes first: spans of a lower
/// priority than one that is left, and those of priority zero, are all shown
/// as they are.
pub proof fn law_status_drops_highest_first(
    spans: Seq<StatusSpan<Seq<char>>>,
    width: int,
    q: int,
)
    requires
        0 <= q,
    ensures
        ({
            let f = fitted(spans, width);
            let left = f.len() as int;
            let n = spans.len() as int;
            &&& top_priority(f, left) <= top_priority(spans, n)
            &&& q < top_priority(f, left) || q == 0 ==> with_priority(f, left, q) == with_priority(
                spans,
                n,
                q,
            )
        }),
    decreases status_size(spans),
{
    let n = spans.len() as int;
    let total = capped(status_width(spans, n));
    let p = top_priority(spans, n);
    lemma_last_with(spans, n);
    if total > width && n > 0 && p > 0 {
        let i = last_with(spans, n, p);
        let s = spans[i];
        lemma_last_has(spans, n, p);
        let room = at_least_zero(width - at_least_zero(total - s.text.len()));
        let cut = StatusSpan { text: text::clipped(s.text, room), ..s };
        lemma_size_update(spans, i, cut);
        lemma_size_remove(spans, i);
        if s.truncatable && room >= 2 && room < s.text.len() {
            lemma_update_keeps(spans, i, cut, n, q);
            law_status_drops_highest_first(spans.update(i, cut), width, q);
        } else {
            lemma_remove_keeps(spans, i, n, q);
            law_status_drops_highest_first(spans.remove(i), width, q);
        }
    }
}

proof fn lemma_last_has(spans: Seq<StatusSpan<Seq<char>>>, n: int, p: int)
    requires
        0 <= n <= spans.len(),
        last_with(spans, n, p) >= 0,
    ensures
        last_with(spans, n, p) < n,
        spans[last_with(spans, n, p)].priority == p,
    decreases n,
{
    if n > 0 && spans[n - 1].priority != p {
        lemma_last_has(spans, n - 1, p);
    }
}

/// Those of the first `n` spans of a bar whose priority lies below `level`.
pub open spec fn shown_spans(spans: Seq<BarSpan<Seq<char>>>, n: int, level: int) -> Seq<
    BarSpan<Seq<char>>,
>
    decreases n,
{
    if n <= 0 {
        seq![]
    } else if spans[n - 1].priority < level {
        shown_spans(spans, n - 1, level).push(spans[n - 1])
    } else {
        shown_spans(spans, n - 1, level)
    }
}

/// A bar shows exactly the spans whose priority lies below its level, in
/// order.
pub proof fn law_bar_drops_highest_first(
    m: Canvas,
    spans: Seq<BarSpan<Seq<char>>>,
    n: int,
    level: int,
)
    requires
        0 <= n <= spans.len(),
    ensures
        ({
            let shown = shown_spans(spans, n, level);
            bar_spans(m, spans, n, level) == bar_spans(m, shown, shown.len() as int, level)
        }),
    decreases n,
{
    if n > 0 {
        law_bar_drops_highest_first(m, spans, n - 1, level);
        let before = shown_spans(spans, n - 1, level);
        let shown = shown_spans(spans, n, level);
        if spans[n - 1].priority < level {
            lemma_bar_prefix(m, before, shown, before.len() as int, level);
        }
    }
}

proof fn lemma_bar_prefix(
    m: Canvas,
    a: Seq<BarSpan<Seq<char>>>,
    b: Seq<BarSpan<Seq<char>>>,
    n: int,
    level: int,
)
    requires
        0 <= n <= a.len(),
        n <= b.len(),
        forall|i: int| 0 <= i < n ==> a[i] == b[i],
    ensures
        bar_spans(m, a, n, level) == bar_spans(m, b, n, level),
    decreases n,
{
    if n > 0 {
        lemma_bar_prefix(m, a, b, n - 1, level);
    }
}

/// A bar whose spans fit is not cut: when everything fits, every span is
/// shown.
pub proof fn law_bar_shows_all_when_it_fits(
    left: Seq<BarSpan<Seq<char>>>,
    right: Seq<BarSpan<Seq<char>>>,
    width: int,
    level: int,
)
    requires
        capped(bar_needs(left, right, level)) <= width,
    ensures
        bar_level(left, right, width, level) == level,
{
}

/// A bar fits at the level at which it is shown, unless only spans of
/// priority zero are left; those are always shown.
pub proof fn law_bar_fits(left: Seq<BarSpan<Seq<char>>>, right: Seq<BarSpan<Seq<char>>>, width: int, level: int)
    requires
        level >= 1,
    ensures
        ({
            let shown = bar_level(left, right, width, level);
            1 <= shown <= level && (shown == 1 || capped(bar_needs(left, right, shown)) <= width)
        }),
    decreases level,
{
    if level > 1 && capped(bar_needs(left, right, level)) > width {
        law_bar_fits(left, right, width, level - 1);
    }
}

} // verus!
