//! What line breaking keeps: the characters, the widths and the positions.

use vstd::prelude::*;

use crate::render::wrap;
use crate::render::wrap::{Folding, SpanKind, VisualLine, Wrapping, PROMPT_COL};
use crate::text;

verus! {

/// All characters of lines under construction, in order.
spec fn run(w: Wrapping) -> Seq<char> {
    w.done.flatten() + w.open
}

/// A line fits on `width` columns, or there is nothing to see on it before
/// its last character.
pub open spec fn fits(line: Seq<char>, width: int) -> bool {
    ||| wrap::column_after(line, 0) <= width
    ||| line.len() > 0 && wrap::column_after(line.drop_last(), 0) == 0
}

/// Every line under construction fits.
spec fn narrow(w: Wrapping, width: int) -> bool {
    fits(w.open, width) && forall|i: int|
        0 <= i < w.done.len() ==> fits(#[trigger] w.done[i], width)
}

proof fn lemma_add_chars(w: Wrapping, word: Seq<char>, n: int, width: int)
    requires
        0 <= n <= word.len(),
        width > 0,
    ensures
        run(wrap::add_chars(w, word, n, width)) == run(w) + word.take(n),
        narrow(w, width) ==> narrow(wrap::add_chars(w, word, n, width), width),
    decreases n,
{
    if n <= 0 {
        assert(run(w) + word.take(0) =~= run(w));
    } else {
        lemma_add_chars(w, word, n - 1, width);
        let v = wrap::add_chars(w, word, n - 1, width);
        v.done.lemma_flatten_push(v.open);
        assert(word.take(n) =~= word.take(n - 1).push(word[n - 1]));
        let x = wrap::add_chars(w, word, n, width);
        let c = word[n - 1];
        let col = wrap::open_column(v);
        let full = wrap::columns_plus(col, wrap::columns_at(c, col)) > width && col > 0;
        assert(run(x) =~= run(v) + seq![c]) by {
            if full {
                assert(x.done.flatten() =~= run(v));
            }
        }
        if narrow(w, width) {
            assert(fits(x.open, width)) by {
                if full {
                    assert(seq![c].drop_last() =~= seq![]);
                } else {
                    assert(v.open.push(c).drop_last() =~= v.open);
                }
            }
            assert forall|i: int| 0 <= i < x.done.len() implies fits(
                #[trigger] x.done[i],
                width,
            ) by {
                if i < v.done.len() {
                    assert(x.done[i] == v.done[i]);
                }
            }
        }
        assert(run(v) + seq![word[n - 1]] =~= run(w) + word.take(n));
    }
}

proof fn lemma_add_word(w: Wrapping, word: Seq<char>, width: int)
    requires
        width > 0,
    ensures
        run(wrap::add_word(w, word, width)) == run(w) + word,
        narrow(w, width) ==> narrow(wrap::add_word(w, word, width), width),
{
    w.done.lemma_flatten_push(w.open);
    let col = wrap::open_column(w);
    let v = if wrap::column_after(word, col) > width && col > 0 {
        Wrapping { done: w.done.push(w.open), open: seq![] }
    } else {
        w
    };
    assert(run(v) =~= run(w));
    if narrow(w, width) {
        assert forall|i: int| 0 <= i < v.done.len() implies fits(#[trigger] v.done[i], width) by {
            if i < w.done.len() {
                assert(v.done[i] == w.done[i]);
            }
        }
    }
    if wrap::column_after(word, wrap::open_column(v)) > width {
        lemma_add_chars(v, word, word.len() as int, width);
        assert(word.take(word.len() as int) =~= word);
    } else {
        assert(run(wrap::add_word(w, word, width)) =~= run(v) + word);
        wrap::lemma_column_run(v.open, word, 0);
    }
}

proof fn lemma_add_words(w: Wrapping, words: Seq<Seq<char>>, n: int, width: int)
    requires
        0 <= n <= words.len(),
        width > 0,
    ensures
        run(wrap::add_words(w, words, n, width)) == run(w) + words.take(n).flatten(),
        narrow(w, width) ==> narrow(wrap::add_words(w, words, n, width), width),
    decreases n,
{
    if n <= 0 {
        assert(words.take(0) =~= seq![]);
        assert(run(w) + words.take(0).flatten() =~= run(w));
    } else {
        lemma_add_words(w, words, n - 1, width);
        lemma_add_word(wrap::add_words(w, words, n - 1, width), words[n - 1], width);
        assert(words.take(n) =~= words.take(n - 1).push(words[n - 1]));
        words.take(n - 1).lemma_flatten_push(words[n - 1]);
        assert(run(wrap::add_words(w, words, n, width)) =~= run(w) + words.take(n).flatten());
    }
}

proof fn lemma_words_run(s: Seq<char>, from: int)
    requires
        0 <= from <= s.len(),
    ensures
        wrap::words_from(s, from).flatten() == s.skip(from),
    decreases s.len() - from,
{
    if from < s.len() {
        text::lemma_char_from(s, ' ', from);
        let end = wrap::word_end(s, from);
        lemma_words_run(s, end);
        let w = s.subrange(from, end);
        let rest = wrap::words_from(s, end);
        assert(wrap::words_from(s, from) == seq![w] + rest);
        seq![w].lemma_flatten_one_element();
        vstd::seq_lib::lemma_flatten_concat(seq![w], rest);
        assert(w + s.skip(end) =~= s.skip(from));
    } else {
        assert(wrap::words_from(s, from).flatten() =~= s.skip(from));
    }
}

proof fn lemma_wrapped_logical(line: Seq<char>, width: int)
    requires
        width > 0,
    ensures
        wrap::wrapped_logical(line, width).flatten() == line,
        forall|i: int|
            0 <= i < wrap::wrapped_logical(line, width).len() ==> fits(
                #[trigger] wrap::wrapped_logical(line, width)[i],
                width,
            ),
{
    let words = wrap::words_of(line);
    let start = Wrapping { done: seq![], open: seq![] };
    let w = wrap::add_words(start, words, words.len() as int, width);
    lemma_add_words(start, words, words.len() as int, width);
    lemma_words_run(line, 0);
    assert(words.take(words.len() as int) =~= words);
    assert(run(start) =~= seq![]);
    assert(narrow(start, width));
    w.done.lemma_flatten_push(w.open);
    assert(line.skip(0) =~= line);
    assert(wrap::wrapped_logical(line, width).flatten() =~= line);
}

proof fn lemma_wrapped_lines(parts: Seq<Seq<char>>, n: int, width: int)
    requires
        0 <= n <= parts.len(),
        width > 0,
    ensures
        wrap::wrapped_lines(parts, n, width).flatten() == parts.take(n).flatten(),
        forall|i: int|
            0 <= i < wrap::wrapped_lines(parts, n, width).len() ==> fits(
                #[trigger] wrap::wrapped_lines(parts, n, width)[i],
                width,
            ),
    decreases n,
{
    if n <= 0 {
        assert(parts.take(0) =~= seq![]);
    } else {
        lemma_wrapped_lines(parts, n - 1, width);
        lemma_wrapped_logical(parts[n - 1], width);
        let a = wrap::wrapped_lines(parts, n - 1, width);
        let b = wrap::wrapped_logical(parts[n - 1], width);
        assert forall|i: int| 0 <= i < (a + b).len() implies fits(
            #[trigger] (a + b)[i],
            width,
        ) by {
            if i < a.len() {
                assert((a + b)[i] == a[i]);
            } else {
                assert((a + b)[i] == b[i - a.len()]);
            }
        }
        vstd::seq_lib::lemma_flatten_concat(
            wrap::wrapped_lines(parts, n - 1, width),
            wrap::wrapped_logical(parts[n - 1], width),
        );
        assert(parts.take(n) =~= parts.take(n - 1).push(parts[n - 1]));
        parts.take(n - 1).lemma_flatten_push(parts[n - 1]);
    }
}

/// Wrapping loses no character and changes no order: the wrapped lines run
/// together are the lines of the text run together.
pub proof fn law_wrap_keeps_characters(s: Seq<char>, width: int)
    requires
        width > 0,
    ensures
        wrap::wrapped(s, width).flatten() == text::split_on(s, '\n').flatten(),
{
    let parts = text::split_on(s, '\n');
    lemma_wrapped_lines(parts, parts.len() as int, width);
    assert(parts.take(parts.len() as int) =~= parts);
}

/// No wrapped line takes more columns than the width, but for one on which a
/// single character is wider than that.
pub proof fn law_wrap_respects_width(s: Seq<char>, width: int, i: int)
    requires
        width > 0,
        0 <= i < wrap::wrapped(s, width).len(),
    ensures
        fits(wrap::wrapped(s, width)[i], width),
{
    let parts = text::split_on(s, '\n');
    lemma_wrapped_lines(parts, parts.len() as int, width);
}

/// The parts of a split text with the separator between them are the text.
pub proof fn law_split_joins_back(s: Seq<char>, c: char)
    ensures
        text::join_texts(text::split_on(s, c), seq![c]) == s,
{
    lemma_split_joins_back(s, c, 0);
    assert(s.skip(0) =~= s);
}

pub proof fn lemma_join_front(a: Seq<char>, rest: Seq<Seq<char>>, sep: Seq<char>)
    requires
        rest.len() > 0,
    ensures
        text::join_texts(seq![a] + rest, sep) == a + sep + text::join_texts(rest, sep),
    decreases rest.len(),
{
    let all = seq![a] + rest;
    reveal_with_fuel(text::join_texts, 3);
    if rest.len() == 1 {
        assert(all.drop_last() =~= seq![a]);
        assert(text::join_texts(all, sep) =~= a + sep + rest[0]);
    } else {
        lemma_join_front(a, rest.drop_last(), sep);
        assert(all.drop_last() =~= seq![a] + rest.drop_last());
        assert(text::join_texts(all, sep) =~= a + sep + text::join_texts(rest, sep));
    }
}

proof fn lemma_split_joins_back(s: Seq<char>, c: char, from: int)
    requires
        0 <= from <= s.len(),
    ensures
        text::join_texts(text::split_from(s, c, from), seq![c]) == s.skip(from),
        text::split_from(s, c, from).len() > 0,
    decreases s.len() - from,
{
    text::lemma_char_from(s, c, from);
    let end = text::char_from(s, c, from);
    if end < s.len() {
        lemma_split_joins_back(s, c, end + 1);
        lemma_join_front(s.subrange(from, end), text::split_from(s, c, end + 1), seq![c]);
        assert(s.subrange(from, end) + seq![c] + s.skip(end + 1) =~= s.skip(from));
    }
}

// ── Prompt layout ────────────────────────────────────────────────────────

/// Line `i` shows its stretch of `line`, is not empty, and ends where the next
/// line starts, the last one at `to`.  `line` starts at `base`.
spec fn linked(lines: Seq<VisualLine>, i: int, line: Seq<char>, base: int, to: int) -> bool {
    let l = lines[i];
    let end = if i + 1 < lines.len() {
        lines[i + 1].start
    } else {
        to
    };
    &&& l.text.len() > 0
    &&& l.start >= base
    &&& l.start + l.text.len() == end
    &&& end - base <= line.len()
    &&& l.text == line.subrange(l.start - base, end - base)
}

/// The lines show `line` from `base` up to `to`, one behind the other.
spec fn in_a_row(lines: Seq<VisualLine>, line: Seq<char>, base: int, to: int) -> bool {
    &&& lines.len() == 0 ==> to == base
    &&& lines.len() > 0 ==> lines[0].start == base
    &&& forall|i: int| 0 <= i < lines.len() ==> #[trigger] linked(lines, i, line, base, to)
}

proof fn lemma_row_push(
    lines: Seq<VisualLine>,
    line: Seq<char>,
    base: int,
    to: int,
    l: VisualLine,
)
    requires
        in_a_row(lines, line, base, to),
        l.start == to,
        l.text.len() > 0,
        base <= to,
        to + l.text.len() <= base + line.len(),
        l.text == line.subrange(to - base, to - base + l.text.len()),
    ensures
        in_a_row(lines.push(l), line, base, to + l.text.len()),
{
    let all = lines.push(l);
    let end = to + l.text.len();
    assert forall|i: int| 0 <= i < all.len() implies #[trigger] linked(all, i, line, base, end) by {
        if i < lines.len() {
            assert(linked(lines, i, line, base, to));
        }
    }
}

/// Printing that starts further right ends no further left.
proof fn lemma_column_rises(chars: Seq<char>, from: usize, to: usize)
    requires
        from <= to,
    ensures
        wrap::column_after(chars, from) <= wrap::column_after(chars, to),
    decreases chars.len(),
{
    if chars.len() > 0 {
        lemma_column_rises(chars.drop_last(), from, to);
        let a: usize = wrap::column_after(chars.drop_last(), from);
        let b: usize = wrap::column_after(chars.drop_last(), to);
        assert(a / wrap::TAB_STOP <= b / wrap::TAB_STOP);
        assert(a + (wrap::TAB_STOP - a % wrap::TAB_STOP) <= b + (wrap::TAB_STOP - b
            % wrap::TAB_STOP));
    }
}

/// The last characters are no wider than the whole.
proof fn lemma_back_width(chars: Seq<char>, n: int)
    requires
        0 <= n <= chars.len(),
    ensures
        wrap::columns_of(chars.skip(n), PROMPT_COL) <= wrap::columns_of(chars, PROMPT_COL),
{
    assert(chars =~= chars.take(n) + chars.skip(n));
    wrap::lemma_column_run(chars.take(n), chars.skip(n), PROMPT_COL);
    wrap::lemma_column_after(chars.take(n), PROMPT_COL);
    wrap::lemma_column_after(chars.skip(n), PROMPT_COL);
    lemma_column_rises(chars.skip(n), PROMPT_COL, wrap::column_after(chars.take(n), PROMPT_COL));
}

/// The first characters are no wider than the whole.
proof fn lemma_front_width(chars: Seq<char>, n: int)
    requires
        0 <= n <= chars.len(),
    ensures
        wrap::columns_of(chars.take(n), PROMPT_COL) <= wrap::columns_of(chars, PROMPT_COL),
{
    assert(chars =~= chars.take(n) + chars.skip(n));
    wrap::lemma_column_run(chars.take(n), chars.skip(n), PROMPT_COL);
    wrap::lemma_column_after(chars.take(n), PROMPT_COL);
    wrap::lemma_column_after(chars.skip(n), wrap::column_after(chars.take(n), PROMPT_COL));
}

/// A line is within `max` columns, or it is a single character.
spec fn within(text: Seq<char>, max: usize) -> bool {
    text.len() <= 1 || wrap::columns_of(text, PROMPT_COL) <= max
}

/// Every complete line and the open one are within `max` columns.
spec fn all_within(f: Folding, max: usize) -> bool {
    &&& within(f.open, max)
    &&& forall|i: int| 0 <= i < f.done.len() ==> within((#[trigger] f.done[i]).text, max)
}

/// `f` holds the first `n` characters of `line`, which starts at `base`.
spec fn holds(f: Folding, line: Seq<char>, base: int, n: int) -> bool {
    &&& 0 <= n <= line.len()
    &&& base <= f.start
    &&& f.start + f.open.len() == base + n
    &&& f.open == line.subrange(f.start - base, n)
    &&& in_a_row(f.done, line, base, f.start)
    &&& forall|i: int| 0 <= i < f.done.len() ==> !(#[trigger] f.done[i]).last
}

proof fn lemma_make_room(
    f: Folding,
    c: char,
    kinds: Seq<SpanKind>,
    max: usize,
    line: Seq<char>,
    base: int,
    n: int,
)
    requires
        holds(f, line, base, n),
    ensures
        holds(wrap::make_room(f, c, kinds, max), line, base, n),
        !wrap::overflows(wrap::make_room(f, c, kinds, max).open, c, max),
        all_within(f, max) ==> all_within(wrap::make_room(f, c, kinds, max), max),
    decreases f.open.len(),
{
    wrap::lemma_break_at(f.open);
    if wrap::overflows(f.open, c, max) {
        let b = wrap::break_at(f.open);
        let l = wrap::visual_line(f.open.take(b), kinds, f.start, false);
        let g = Folding { done: f.done.push(l), open: f.open.skip(b), start: f.start + b };
        assert(l.text =~= line.subrange(f.start - base, f.start - base + b));
        lemma_row_push(f.done, line, base, f.start, l);
        assert(g.open =~= line.subrange(g.start - base, n));
        if all_within(f, max) {
            lemma_front_width(f.open, b);
            lemma_back_width(f.open, b);
            assert(all_within(g, max));
        }
        lemma_make_room(g, c, kinds, max, line, base, n);
    }
}

proof fn lemma_fold_chars(
    line: Seq<char>,
    base: int,
    n: int,
    kinds: Seq<SpanKind>,
    max: usize,
)
    requires
        0 <= n <= line.len(),
    ensures
        ({
            let f = wrap::fold_chars(
                Folding { done: seq![], open: seq![], start: base },
                line,
                n,
                kinds,
                max,
            );
            &&& holds(f, line, base, n)
            &&& n > 0 ==> f.open.len() > 0
            &&& all_within(f, max)
        }),
    decreases n,
{
    let start = Folding { done: seq![], open: seq![], start: base };
    if n <= 0 {
        assert(start.open =~= line.subrange(0, 0));
    } else {
        lemma_fold_chars(line, base, n - 1, kinds, max);
        let f = wrap::fold_chars(start, line, n - 1, kinds, max);
        let c = line[n - 1];
        lemma_make_room(f, c, kinds, max, line, base, n - 1);
        let g = wrap::make_room(f, c, kinds, max);
        assert(g.open.push(c) =~= line.subrange(g.start - base, n));
        assert(g.open.push(c).drop_last() =~= g.open);
        wrap::lemma_column_after(g.open, PROMPT_COL);
    }
}

/// The lines of one line of text: one behind the other, only the last one
/// marked as last, and within the width.
proof fn lemma_folded(line: Seq<char>, base: int, kinds: Seq<SpanKind>, max: usize)
    ensures
        ({
            let v = wrap::folded(line, base, kinds, max);
            &&& v.len() > 0
            &&& v.last().last
            &&& v.last().start + v.last().text.len() == base + line.len()
            &&& forall|i: int| 0 <= i < v.len() - 1 ==> !(#[trigger] v[i]).last
            &&& line.len() > 0 ==> in_a_row(v, line, base, base + line.len())
            &&& line.len() == 0 ==> v =~= seq![wrap::visual_line(seq![], kinds, base, true)]
            &&& forall|i: int| 0 <= i < v.len() ==> within((#[trigger] v[i]).text, max)
        }),
{
    lemma_fold_chars(line, base, line.len() as int, kinds, max);
    let f = wrap::fold_chars(
        Folding { done: seq![], open: seq![], start: base },
        line,
        line.len() as int,
        kinds,
        max,
    );
    let l = wrap::visual_line(f.open, kinds, f.start, true);
    if line.len() > 0 {
        lemma_row_push(f.done, line, base, f.start, l);
    } else {
        assert(f.open =~= seq![]);
    }
}

/// The start of each visual line of `lines`.
pub open spec fn starts_of(lines: Seq<VisualLine>) -> Seq<int> {
    Seq::new(lines.len(), |i: int| lines[i].start)
}

/// The length of each visual line of `lines`.
pub open spec fn lens_of(lines: Seq<VisualLine>) -> Seq<int> {
    Seq::new(lines.len(), |i: int| lines[i].text.len() as int)
}

proof fn lemma_covering(
    lens: Seq<int>,
    vl: int,
    v: Seq<VisualLine>,
    k: int,
    line: Seq<char>,
    base: int,
)
    requires
        in_a_row(v, line, base, base + line.len()),
        0 <= k <= v.len(),
        0 <= vl,
        vl + v.len() <= lens.len(),
        forall|i: int| 0 <= i < v.len() ==> #[trigger] lens[vl + i] == v[i].text.len(),
    ensures
        wrap::covering(
            lens,
            vl + k,
            base,
            (if k < v.len() {
                v[k].start - base
            } else {
                line.len() as int
            }),
            line.len() as int,
        ) == starts_of(v).skip(k),
    decreases v.len() - k,
{
    if k < v.len() {
        assert(linked(v, k, line, base, base + line.len()));
        lemma_covering(lens, vl, v, k + 1, line, base);
        assert(lens[vl + k] == v[k].text.len());
        assert(starts_of(v).skip(k) =~= seq![v[k].start] + starts_of(v).skip(k + 1));
    } else {
        assert(starts_of(v).skip(k) =~= seq![]);
    }
}

proof fn lemma_part_offsets(
    parts: Seq<Seq<char>>,
    n: int,
    kinds: Seq<SpanKind>,
    max: usize,
    lens: Seq<int>,
)
    requires
        0 <= n <= parts.len(),
        wrap::folded_parts(parts, n, kinds, max).len() <= lens.len(),
        forall|i: int|
            0 <= i < wrap::folded_parts(parts, n, kinds, max).len() ==> #[trigger] lens[i]
                == wrap::folded_parts(parts, n, kinds, max)[i].text.len(),
    ensures
        wrap::part_offsets(parts, n, lens) == starts_of(wrap::folded_parts(parts, n, kinds, max)),
    decreases n,
{
    let all = wrap::folded_parts(parts, n, kinds, max);
    if n <= 0 {
        assert(starts_of(all) =~= seq![]);
    } else {
        let before = wrap::folded_parts(parts, n - 1, kinds, max);
        let base = wrap::part_start(parts, n - 1);
        let line = parts[n - 1];
        let v = wrap::folded(line, base, kinds, max);
        assert forall|i: int| 0 <= i < before.len() implies #[trigger] lens[i]
            == before[i].text.len() by {
            assert(all[i] == before[i]);
        }
        lemma_part_offsets(parts, n - 1, kinds, max, lens);
        lemma_folded(line, base, kinds, max);
        assert(starts_of(all) =~= starts_of(before) + starts_of(v));
        if line.len() > 0 {
            assert forall|i: int| 0 <= i < v.len() implies #[trigger] lens[before.len() + i]
                == v[i].text.len() by {
                assert(all[before.len() + i] == v[i]);
            }
            lemma_covering(lens, before.len() as int, v, 0, line, base);
            assert(starts_of(v).skip(0) =~= starts_of(v));
        } else {
            assert(starts_of(v) =~= seq![base]);
            assert(starts_of(before).push(base) =~= starts_of(all));
        }
    }
}

/// The positions computed from the visual lines are the positions at which
/// the layout put them.
pub proof fn law_offsets_are_starts(buf: Seq<char>, kinds: Seq<SpanKind>, usable: usize)
    ensures
        wrap::line_offsets(buf, lens_of(wrap::visual_layout(buf, kinds, usable))) == starts_of(
            wrap::visual_layout(buf, kinds, usable),
        ),
{
    let parts = text::split_on(buf, '\n');
    let max = if usable > 1 {
        usable
    } else {
        1
    };
    let lines = wrap::visual_layout(buf, kinds, usable);
    lemma_part_offsets(parts, parts.len() as int, kinds, max, lens_of(lines));
    assert(wrap::line_offsets(buf, lens_of(lines)) =~= starts_of(lines));
}

/// Each of the lines starts behind the one before it.
pub open spec fn rising(starts: Seq<int>) -> bool {
    forall|i: int, j: int| 0 <= i < j < starts.len() ==> starts[i] < starts[j]
}

proof fn lemma_row_rises(v: Seq<VisualLine>, line: Seq<char>, base: int, i: int, j: int)
    requires
        in_a_row(v, line, base, base + line.len()),
        0 <= i <= j < v.len(),
    ensures
        base <= v[i].start <= v[j].start < base + line.len(),
        i < j ==> v[i].start < v[j].start,
    decreases j - i,
{
    assert(linked(v, j, line, base, base + line.len()));
    if i < j {
        lemma_row_rises(v, line, base, i, j - 1);
        assert(linked(v, j - 1, line, base, base + line.len()));
    }
}

proof fn lemma_parts_rise(parts: Seq<Seq<char>>, n: int, kinds: Seq<SpanKind>, max: usize)
    requires
        0 <= n <= parts.len(),
    ensures
        rising(starts_of(wrap::folded_parts(parts, n, kinds, max))),
        forall|i: int|
            0 <= i < wrap::folded_parts(parts, n, kinds, max).len() ==> (
            #[trigger] wrap::folded_parts(parts, n, kinds, max)[i]).start < wrap::part_start(
                parts,
                n,
            ),
    decreases n,
{
    if n > 0 {
        lemma_parts_rise(parts, n - 1, kinds, max);
        let before = wrap::folded_parts(parts, n - 1, kinds, max);
        let all = wrap::folded_parts(parts, n, kinds, max);
        let base = wrap::part_start(parts, n - 1);
        let line = parts[n - 1];
        let v = wrap::folded(line, base, kinds, max);
        let k = before.len() as int;
        lemma_folded(line, base, kinds, max);
        assert(all =~= before + v);
        assert forall|i: int| k <= i < all.len() implies base <= (#[trigger] all[i]).start
            <= base + line.len() by {
            assert(all[i] == v[i - k]);
            if line.len() > 0 {
                lemma_row_rises(v, line, base, i - k, i - k);
            }
        }
        assert forall|i: int, j: int| 0 <= i < j < all.len() implies starts_of(all)[i] < starts_of(
            all,
        )[j] by {
            if j < k {
                assert(starts_of(before)[i] < starts_of(before)[j]);
                assert(all[i] == before[i] && all[j] == before[j]);
            } else if i < k {
                assert(all[i] == before[i]);
                assert(all[j].start >= base);
            } else {
                assert(all[i] == v[i - k] && all[j] == v[j - k]);
                lemma_row_rises(v, line, base, i - k, j - k);
            }
        }
        assert forall|i: int| 0 <= i < all.len() implies (#[trigger] all[i]).start
            < wrap::part_start(parts, n) by {
            if i < k {
                assert(all[i] == before[i]);
            }
        }
    }
}

/// The positions of the visual lines strictly increase.
pub proof fn law_offsets_increase(buf: Seq<char>, kinds: Seq<SpanKind>, usable: usize)
    ensures
        rising(
            wrap::line_offsets(buf, lens_of(wrap::visual_layout(buf, kinds, usable))),
        ),
{
    let parts = text::split_on(buf, '\n');
    law_offsets_are_starts(buf, kinds, usable);
    lemma_parts_rise(
        parts,
        parts.len() as int,
        kinds,
        if usable > 1 {
            usable
        } else {
            1
        },
    );
}

proof fn lemma_folded_parts_at(
    parts: Seq<Seq<char>>,
    n: int,
    kinds: Seq<SpanKind>,
    max: usize,
    i: int,
) -> (r: (int, int))
    requires
        0 <= n <= parts.len(),
        0 <= i < wrap::folded_parts(parts, n, kinds, max).len(),
    ensures
        0 <= r.0 < n,
        ({
            let v = wrap::folded(parts[r.0], wrap::part_start(parts, r.0), kinds, max);
            0 <= r.1 < v.len() && wrap::folded_parts(parts, n, kinds, max)[i] == v[r.1]
        }),
    decreases n,
{
    let before = wrap::folded_parts(parts, n - 1, kinds, max);
    if i < before.len() {
        lemma_folded_parts_at(parts, n - 1, kinds, max, i)
    } else {
        (n - 1, i - before.len())
    }
}

proof fn lemma_part_text(s: Seq<char>, c: char, from: int, n: int)
    requires
        0 <= from <= s.len(),
        0 <= n < text::split_from(s, c, from).len(),
    ensures
        ({
            let parts = text::split_from(s, c, from);
            let at = from + wrap::part_start(parts, n);
            parts[n] == s.subrange(at, at + parts[n].len())
        }),
    decreases s.len() - from,
{
    text::lemma_char_from(s, c, from);
    let end = text::char_from(s, c, from);
    if end < s.len() {
        let rest = text::split_from(s, c, end + 1);
        if n >= 1 {
            wrap::lemma_part_start_front(s.subrange(from, end), rest, n);
            lemma_part_text(s, c, end + 1, n - 1);
        }
    } else {
        assert(s.skip(from) =~= s.subrange(from, s.len() as int));
    }
}

/// Each visual line shows the stretch of the text that starts at its
/// position.
pub proof fn law_layout_shows_text(buf: Seq<char>, kinds: Seq<SpanKind>, usable: usize, i: int)
    requires
        0 <= i < wrap::visual_layout(buf, kinds, usable).len(),
    ensures
        ({
            let l = wrap::visual_layout(buf, kinds, usable)[i];
            &&& 0 <= l.start
            &&& l.start + l.text.len() <= buf.len()
            &&& l.text == buf.subrange(l.start, l.start + l.text.len())
        }),
{
    let parts = text::split_on(buf, '\n');
    let max = if usable > 1 {
        usable
    } else {
        1
    };
    let (p, k) = lemma_folded_parts_at(parts, parts.len() as int, kinds, max, i);
    let base = wrap::part_start(parts, p);
    let v = wrap::folded(parts[p], base, kinds, max);
    lemma_folded(parts[p], base, kinds, max);
    wrap::lemma_parts_inside(buf, '\n', 0, p);
    lemma_part_text(buf, '\n', 0, p);
    let l = v[k];
    if parts[p].len() > 0 {
        assert(linked(v, k, parts[p], base, base + parts[p].len()));
        assert(l.text =~= buf.subrange(l.start, l.start + l.text.len()));
    } else {
        assert(l.text =~= buf.subrange(l.start, l.start + l.text.len()));
    }
}

/// No visual line is wider than the usable columns (at least one), unless it is
/// a single character.
pub proof fn law_layout_respects_width(buf: Seq<char>, kinds: Seq<SpanKind>, usable: usize, i: int)
    requires
        0 <= i < wrap::visual_layout(buf, kinds, usable).len(),
    ensures
        ({
            let l = wrap::visual_layout(buf, kinds, usable)[i];
            l.text.len() <= 1 || wrap::columns_of(l.text, PROMPT_COL) <= (if usable > 1 {
                usable
            } else {
                1
            })
        }),
{
    let parts = text::split_on(buf, '\n');
    let max = if usable > 1 {
        usable
    } else {
        1
    };
    let (p, k) = lemma_folded_parts_at(parts, parts.len() as int, kinds, max, i);
    lemma_folded(parts[p], wrap::part_start(parts, p), kinds, max);
    assert(within(wrap::visual_layout(buf, kinds, usable)[i].text, max));
}

proof fn lemma_row_covers(v: Seq<VisualLine>, line: Seq<char>, base: int, at: int, n: int) -> (k:
    int)
    requires
        in_a_row(v, line, base, base + line.len()),
        base <= at,
        0 < n <= v.len(),
        at < v[n - 1].start + v[n - 1].text.len(),
    ensures
        0 <= k < n,
        v[k].start <= at < v[k].start + v[k].text.len(),
    decreases n,
{
    assert(linked(v, n - 1, line, base, base + line.len()));
    if v[n - 1].start <= at {
        n - 1
    } else {
        assert(linked(v, n - 2, line, base, base + line.len()));
        lemma_row_covers(v, line, base, at, n - 1)
    }
}

proof fn lemma_part_with(s: Seq<char>, c: char, from: int, at: int) -> (n: int)
    requires
        0 <= from <= at <= s.len(),
    ensures
        ({
            let parts = text::split_from(s, c, from);
            0 <= n < parts.len() && from + wrap::part_start(parts, n) <= at <= from + wrap::part_start(
                parts,
                n,
            ) + parts[n].len()
        }),
    decreases s.len() - from,
{
    text::lemma_char_from(s, c, from);
    let end = text::char_from(s, c, from);
    if end < s.len() && at > end {
        let n = lemma_part_with(s, c, end + 1, at);
        wrap::lemma_part_start_front(s.subrange(from, end), text::split_from(s, c, end + 1), n + 1);
        n + 1
    } else {
        0
    }
}

proof fn lemma_line_at(
    parts: Seq<Seq<char>>,
    n: int,
    kinds: Seq<SpanKind>,
    max: usize,
    p: int,
    k: int,
) -> (i: int)
    requires
        0 <= p < n <= parts.len(),
        0 <= k < wrap::folded(parts[p], wrap::part_start(parts, p), kinds, max).len(),
    ensures
        0 <= i < wrap::folded_parts(parts, n, kinds, max).len(),
        wrap::folded_parts(parts, n, kinds, max)[i] == wrap::folded(
            parts[p],
            wrap::part_start(parts, p),
            kinds,
            max,
        )[k],
    decreases n,
{
    let before = wrap::folded_parts(parts, n - 1, kinds, max);
    if p < n - 1 {
        lemma_line_at(parts, n - 1, kinds, max, p, k)
    } else {
        before.len() + k
    }
}

/// Every cursor position of the text, its end included, is shown on some
/// visual line.
pub proof fn law_cursor_is_shown(buf: Seq<char>, kinds: Seq<SpanKind>, usable: usize, at: int) -> (i:
    int)
    requires
        0 <= at <= buf.len(),
    ensures
        0 <= i < wrap::visual_layout(buf, kinds, usable).len(),
        wrap::shows(wrap::visual_layout(buf, kinds, usable)[i], at),
{
    let parts = text::split_on(buf, '\n');
    let max = if usable > 1 {
        usable
    } else {
        1
    };
    let p = lemma_part_with(buf, '\n', 0, at);
    let base = wrap::part_start(parts, p);
    let v = wrap::folded(parts[p], base, kinds, max);
    lemma_folded(parts[p], base, kinds, max);
    let k = if at == base + parts[p].len() {
        v.len() - 1
    } else {
        lemma_row_covers(v, parts[p], base, at, v.len() as int)
    };
    lemma_line_at(parts, parts.len() as int, kinds, max, p, k)
}

/// Whether each line carries the kinds of its own characters.
spec fn marked(lines: Seq<VisualLine>, kinds: Seq<SpanKind>) -> bool {
    forall|i: int|
        0 <= i < lines.len() ==> (#[trigger] lines[i]).kinds == wrap::kinds_at(
            kinds,
            lines[i].start,
            lines[i].text.len(),
        )
}

proof fn lemma_make_room_marked(f: Folding, c: char, kinds: Seq<SpanKind>, max: usize)
    requires
        marked(f.done, kinds),
    ensures
        marked(wrap::make_room(f, c, kinds, max).done, kinds),
    decreases f.open.len(),
{
    if wrap::overflows(f.open, c, max) {
        let b = wrap::break_at(f.open);
        if 0 < b <= f.open.len() {
            lemma_make_room_marked(
                Folding {
                    done: f.done.push(wrap::visual_line(f.open.take(b), kinds, f.start, false)),
                    open: f.open.skip(b),
                    start: f.start + b,
                },
                c,
                kinds,
                max,
            );
        }
    }
}

proof fn lemma_fold_chars_marked(f: Folding, line: Seq<char>, n: int, kinds: Seq<SpanKind>, max: usize)
    requires
        marked(f.done, kinds),
    ensures
        marked(wrap::fold_chars(f, line, n, kinds, max).done, kinds),
    decreases n,
{
    if n > 0 {
        lemma_fold_chars_marked(f, line, n - 1, kinds, max);
        lemma_make_room_marked(
            wrap::fold_chars(f, line, n - 1, kinds, max),
            line[n - 1],
            kinds,
            max,
        );
    }
}

proof fn lemma_folded_parts_marked(
    parts: Seq<Seq<char>>,
    n: int,
    kinds: Seq<SpanKind>,
    max: usize,
)
    ensures
        marked(wrap::folded_parts(parts, n, kinds, max), kinds),
    decreases n,
{
    if n > 0 {
        lemma_folded_parts_marked(parts, n - 1, kinds, max);
        let start = wrap::part_start(parts, n - 1);
        lemma_fold_chars_marked(
            Folding { done: seq![], open: seq![], start },
            parts[n - 1],
            parts[n - 1].len() as int,
            kinds,
            max,
        );
        assert(marked(wrap::folded(parts[n - 1], start, kinds, max), kinds));
    }
}

/// Each visual line carries the kinds of the characters that it shows.
pub proof fn law_layout_shows_kinds(buf: Seq<char>, kinds: Seq<SpanKind>, usable: usize, i: int)
    requires
        0 <= i < wrap::visual_layout(buf, kinds, usable).len(),
    ensures
        ({
            let l = wrap::visual_layout(buf, kinds, usable)[i];
            l.kinds == wrap::kinds_at(kinds, l.start, l.text.len())
        }),
{
    let parts = text::split_on(buf, '\n');
    lemma_folded_parts_marked(
        parts,
        parts.len() as int,
        kinds,
        if usable > 1 {
            usable
        } else {
            1
        },
    );
}

} // verus!
