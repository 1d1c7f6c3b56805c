//! Breaking text into lines: words for prose, display columns for the prompt.

use vstd::prelude::*;

use crate::text;
use crate::text::{chars_of, slice_text, split};

verus! {

/// Columns of a character on the terminal, in the sense of
/// `unicode_width::UnicodeWidthChar::width`.
pub uninterp spec fn char_columns(c: char) -> Option<usize>;

/// `unicode_width::UnicodeWidthChar::width`: the number of columns that a
/// character takes, none for a control character.  The claim is that the
/// answer depends on the character alone, that printable ASCII takes one
/// column and that ASCII control characters have no width.
#[verifier::external_body]
fn unicode_char_width(c: char) -> (r: Option<usize>)
    ensures
        r == char_columns(c),
        ' ' <= c <= '~' ==> r == Some(1usize),
        !(' ' <= c) || c == '\u{7f}' ==> r is None,
{
    unicode_width::UnicodeWidthChar::width(c)
}

/// Columns of a text on the terminal, in the sense of
/// `unicode_width::UnicodeWidthStr::width`.
pub uninterp spec fn text_columns(s: Seq<char>) -> usize;

/// Whether a text holds printable ASCII alone.
pub open spec fn is_plain(s: Seq<char>) -> bool {
    forall|i: int| 0 <= i < s.len() ==> ' ' <= #[trigger] s[i] <= '~'
}

/// `unicode_width::UnicodeWidthStr::width`: the number of columns that a text
/// takes.  The claim is that it depends on the characters alone, and that
/// each character of printable ASCII takes one column.
#[verifier::external_body]
fn unicode_text_width(s: &str) -> (r: usize)
    ensures
        r == text_columns(s@),
        is_plain(s@) ==> r == s@.len(),
{
    unicode_width::UnicodeWidthStr::width(s)
}

/// Columns of a text on the terminal.
pub open spec fn text_width(s: Seq<char>) -> usize {
    if is_plain(s) {
        s.len() as usize
    } else {
        text_columns(s)
    }
}

/// Columns of a text on the terminal.
pub fn display_text_width(s: &str) -> (r: usize)
    ensures
        r == text_width(s@),
{
    unicode_text_width(s)
}

/// `a + b`, or `usize::MAX` when that does not fit.
pub open spec fn columns_plus(a: usize, b: usize) -> usize {
    if a + b > usize::MAX {
        usize::MAX
    } else {
        (a + b) as usize
    }
}

/// Distance between tab stops.
pub const TAB_STOP: usize = 8;

/// Columns that `c` takes when it is printed at column `col`: a tab reaches
/// to the next tab stop, other control characters take none, and printable
/// ASCII takes one.
pub open spec fn columns_at(c: char, col: usize) -> usize {
    if c == '\t' {
        (TAB_STOP - col % TAB_STOP) as usize
    } else if !(' ' <= c) || c == '\u{7f}' {
        0
    } else if c <= '~' {
        1
    } else {
        match char_columns(c) {
            Some(w) => w,
            None => 0,
        }
    }
}

/// Columns that `c` takes when it is printed at column `col`.
pub fn display_char_width(c: char, col: usize) -> (r: usize)
    ensures
        r == columns_at(c, col),
{
    if c == '\t' {
        TAB_STOP - (col % TAB_STOP)
    } else {
        match unicode_char_width(c) {
            Some(w) => w,
            None => 0,
        }
    }
}

/// The column that is reached when `chars` are printed from column `from` on.
pub open spec fn column_after(chars: Seq<char>, from: usize) -> usize
    decreases chars.len(),
{
    if chars.len() == 0 {
        from
    } else {
        let col = column_after(chars.drop_last(), from);
        columns_plus(col, columns_at(chars.last(), col))
    }
}

/// Columns that `chars` take when they are printed from column `from` on.
pub open spec fn columns_of(chars: Seq<char>, from: usize) -> usize {
    (column_after(chars, from) - from) as usize
}

/// Printing never goes back.
pub proof fn lemma_column_after(chars: Seq<char>, from: usize)
    ensures
        column_after(chars, from) >= from,
    decreases chars.len(),
{
    if chars.len() > 0 {
        lemma_column_after(chars.drop_last(), from);
    }
}

/// Columns that `chars[..n]` take when they are printed from column `from` on.
pub fn display_width(chars: &Vec<char>, n: usize, from: usize) -> (r: usize)
    requires
        n <= chars@.len(),
    ensures
        r == columns_of(chars@.take(n as int), from),
{
    let mut col: usize = from;
    let mut i: usize = 0;
    assert(chars@.take(0).len() == 0);
    while i < n
        invariant
            i <= n <= chars@.len(),
            col == column_after(chars@.take(i as int), from),
        decreases n - i,
    {
        assert(chars@.take(i + 1).drop_last() =~= chars@.take(i as int));
        assert(chars@.take(i + 1).last() == chars@[i as int]);
        col = col.saturating_add(display_char_width(chars[i], col));
        i = i + 1;
    }
    proof {
        lemma_column_after(chars@.take(n as int), from);
    }
    col - from
}

// ── Word wrapping ────────────────────────────────────────────────────────

/// The end of the word that starts at `from`: behind the next space, or the
/// end of the text.
pub open spec fn word_end(s: Seq<char>, from: int) -> int {
    let sp = text::char_from(s, ' ', from);
    if sp < s.len() {
        sp + 1
    } else {
        s.len() as int
    }
}

/// The words of `s` from position `from` on, each with the space behind it.
pub open spec fn words_from(s: Seq<char>, from: int) -> Seq<Seq<char>>
    decreases s.len() - from,
{
    if from < 0 || from >= s.len() || word_end(s, from) <= from {
        seq![]
    } else {
        seq![s.subrange(from, word_end(s, from))] + words_from(s, word_end(s, from))
    }
}

/// The words of `s`, each with the space behind it.
pub open spec fn words_of(s: Seq<char>) -> Seq<Seq<char>> {
    words_from(s, 0)
}

/// Lines under construction: those that are complete, and the open one.
pub struct Wrapping {
    pub done: Seq<Seq<char>>,
    pub open: Seq<char>,
}

/// The column that the open line has reached.
pub open spec fn open_column(w: Wrapping) -> usize {
    column_after(w.open, 0)
}

/// Adds the first `n` characters of `word`, starting a new line whenever the
/// next one does not fit on the open one.
pub open spec fn add_chars(w: Wrapping, word: Seq<char>, n: int, width: int) -> Wrapping
    decreases n,
{
    if n <= 0 {
        w
    } else {
        let w = add_chars(w, word, n - 1, width);
        let c = word[n - 1];
        let col = open_column(w);
        if columns_plus(col, columns_at(c, col)) > width && col > 0 {
            Wrapping { done: w.done.push(w.open), open: seq![c] }
        } else {
            Wrapping { done: w.done, open: w.open.push(c) }
        }
    }
}

/// Adds one word: on a new line when it does not fit on the open one, and
/// character by character when it is wider than a line.
pub open spec fn add_word(w: Wrapping, word: Seq<char>, width: int) -> Wrapping {
    let w = if column_after(word, open_column(w)) > width && open_column(w) > 0 {
        Wrapping { done: w.done.push(w.open), open: seq![] }
    } else {
        w
    };
    if column_after(word, open_column(w)) > width {
        add_chars(w, word, word.len() as int, width)
    } else {
        Wrapping { done: w.done, open: w.open + word }
    }
}

/// Adds the first `n` words.
pub open spec fn add_words(w: Wrapping, words: Seq<Seq<char>>, n: int, width: int) -> Wrapping
    decreases n,
{
    if n <= 0 {
        w
    } else {
        add_word(add_words(w, words, n - 1, width), words[n - 1], width)
    }
}

/// The lines that one line of text is broken into.
pub open spec fn wrapped_logical(line: Seq<char>, width: int) -> Seq<Seq<char>> {
    let words = words_of(line);
    let w = add_words(
        Wrapping { done: seq![], open: seq![] },
        words,
        words.len() as int,
        width,
    );
    w.done.push(w.open)
}

/// The lines that the first `n` lines of text are broken into.
pub open spec fn wrapped_lines(parts: Seq<Seq<char>>, n: int, width: int) -> Seq<Seq<char>>
    decreases n,
{
    if n <= 0 {
        seq![]
    } else {
        wrapped_lines(parts, n - 1, width) + wrapped_logical(parts[n - 1], width)
    }
}

/// The lines that a text is broken into for `width` columns per line.
/// Line feeds always break; a width of zero breaks nothing.
pub open spec fn wrapped(s: Seq<char>, width: int) -> Seq<Seq<char>> {
    if width == 0 {
        seq![s]
    } else {
        let parts = text::split_on(s, '\n');
        wrapped_lines(parts, parts.len() as int, width)
    }
}

/// Printing two texts one behind the other goes as far as printing them
/// together.
pub proof fn lemma_column_run(a: Seq<char>, b: Seq<char>, from: usize)
    ensures
        column_after(a + b, from) == column_after(b, column_after(a, from)),
    decreases b.len(),
{
    if b.len() == 0 {
        assert(a + b =~= a);
    } else {
        lemma_column_run(a, b.drop_last(), from);
        assert((a + b).drop_last() =~= a + b.drop_last());
        assert((a + b).last() == b.last());
    }
}

/// The column that is reached when `chars[from..to]` is printed from column
/// `col` on.
pub(crate) fn column_of(chars: &Vec<char>, from: usize, to: usize, col: usize) -> (r: usize)
    requires
        from <= to <= chars@.len(),
    ensures
        r == column_after(chars@.subrange(from as int, to as int), col),
{
    let mut c: usize = col;
    let mut i: usize = from;
    assert(chars@.subrange(from as int, from as int).len() == 0);
    while i < to
        invariant
            from <= i <= to <= chars@.len(),
            c == column_after(chars@.subrange(from as int, i as int), col),
        decreases to - i,
    {
        let ghost part = chars@.subrange(from as int, i + 1);
        assert(part.drop_last() =~= chars@.subrange(from as int, i as int));
        assert(part.last() == chars@[i as int]);
        c = c.saturating_add(display_char_width(chars[i], c));
        i = i + 1;
    }
    c
}

/// Breaks `line[from..to]` as one word wider than a line.
fn push_long_word(
    chunks: &mut Vec<String>,
    current: String,
    col: usize,
    chars: &Vec<char>,
    from: usize,
    to: usize,
    width: usize,
) -> (r: (String, usize))
    requires
        from <= to <= chars@.len(),
        col == column_after(current@, 0),
    ensures
        ({
            let w = add_chars(
                Wrapping { done: text::texts(old(chunks)@), open: current@ },
                chars@.subrange(from as int, to as int),
                to - from,
                width as int,
            );
            text::texts(final(chunks)@) == w.done && r.0@ == w.open && r.1 == open_column(w)
        }),
{
    let ghost start = Wrapping { done: text::texts(chunks@), open: current@ };
    let ghost word = chars@.subrange(from as int, to as int);
    let mut current = current;
    let mut col: usize = col;
    let mut i: usize = from;
    while i < to
        invariant
            from <= i <= to <= chars@.len(),
            word == chars@.subrange(from as int, to as int),
            col == column_after(current@, 0),
            text::texts(chunks@) == add_chars(start, word, i - from, width as int).done,
            current@ == add_chars(start, word, i - from, width as int).open,
        decreases to - i,
    {
        assert(word[i - from] == chars@[i as int]);
        let ghost w0 = add_chars(start, word, i - from, width as int);
        let c: char = chars[i];
        let next: usize = col.saturating_add(display_char_width(c, col));
        if next > width && col > 0 {
            let ghost before = chunks@;
            let ghost cur = current;
            chunks.push(current);
            proof {
                text::lemma_texts_push(before, cur);
            }
            current = String::new();
            current.push(c);
            assert(current@ =~= seq![c]);
            assert(seq![c].drop_last() =~= seq![]);
            col = display_char_width(c, 0);
            assert(col == column_after(seq![c], 0)) by {
                reveal_with_fuel(column_after, 2);
            }
        } else {
            current.push(c);
            assert(w0.open.push(c).drop_last() =~= w0.open);
            col = next;
        }
        assert(current@ == add_chars(start, word, i + 1 - from, width as int).open);
        i = i + 1;
    }
    (current, col)
}

/// Breaks one line of text into lines of at most `width` columns.
fn wrap_logical(chunks: &mut Vec<String>, line: &str, width: usize)
    requires
        width > 0,
    ensures
        text::texts(final(chunks)@) == text::texts(old(chunks)@) + wrapped_logical(line@, width as int),
{
    let chars = chars_of(line);
    let ghost words = words_of(line@);
    let ghost start = Wrapping { done: seq![], open: seq![] };
    let ghost base = text::texts(chunks@);
    let mut current = String::new();
    let mut col: usize = 0;
    let mut from: usize = 0;
    let ghost mut n: int = 0;
    assert(base + start.done =~= base);
    while from < chars.len()
        invariant
            width > 0,
            chars@ == line@,
            from <= chars@.len(),
            words == words_of(line@),
            start == (Wrapping { done: seq![], open: seq![] }),
            0 <= n <= words.len(),
            words.skip(n) == words_from(line@, from as int),
            col == column_after(current@, 0),
            text::texts(chunks@) == base + add_words(start, words, n, width as int).done,
            current@ == add_words(start, words, n, width as int).open,
        decreases chars@.len() - from,
    {
        let sp: usize = text::find_char(&chars, ' ', from);
        let to: usize = if sp < chars.len() {
            sp + 1
        } else {
            chars.len()
        };
        let ghost word = line@.subrange(from as int, to as int);
        proof {
            assert(to == word_end(line@, from as int));
            assert(words_from(line@, from as int).len() > 0);
            assert(words.skip(n).len() == words.len() - n);
            assert(words.skip(n)[0] == words[n]);
            assert(words[n] == word);
            assert(words.skip(n + 1) =~= words.skip(n).skip(1));
            assert(words_from(line@, from as int).skip(1) =~= words_from(line@, to as int));
        }
        let ghost w0 = add_words(start, words, n, width as int);
        assert(chars@.subrange(from as int, to as int) == word);
        let ghost w1 = if column_after(word, open_column(w0)) > width && open_column(w0) > 0 {
            Wrapping { done: w0.done.push(w0.open), open: seq![] }
        } else {
            w0
        };
        if column_of(&chars, from, to, col) > width && col > 0 {
            let ghost before = chunks@;
            let ghost cur = current;
            chunks.push(current);
            proof {
                text::lemma_texts_push(before, cur);
                assert(text::texts(chunks@) =~= base + w0.done.push(w0.open));
            }
            current = String::new();
            col = 0;
            assert(current@ =~= Seq::<char>::empty());
        }
        assert(current@ == w1.open && col == open_column(w1));
        assert(text::texts(chunks@) == base + w1.done);
        let end: usize = column_of(&chars, from, to, col);
        if end > width {
            let (c, k) = push_long_word(chunks, current, col, &chars, from, to, width);
            proof {
                lemma_add_chars_base(base, w1.done, w1.open, word, word.len() as int, width as int);
            }
            current = c;
            col = k;
        } else {
            let part = slice_text(&chars, from, to);
            current.append(part.as_str());
            proof {
                lemma_column_run(w1.open, word, 0);
            }
            col = end;
        }
        proof {
            assert(add_words(start, words, n + 1, width as int) == add_word(
                w0,
                words[n],
                width as int,
            ));
            n = n + 1;
        }
        from = to;
    }
    proof {
        assert(words_from(line@, from as int).len() == 0);
        assert(words.skip(n).len() == words.len() - n);
    }
    let ghost before = chunks@;
    let ghost cur = current;
    chunks.push(current);
    proof {
        text::lemma_texts_push(before, cur);
        assert(text::texts(chunks@) =~= base + wrapped_logical(line@, width as int));
    }
}

/// Lines that stand before the ones under construction do not matter.
proof fn lemma_add_chars_base(
    base: Seq<Seq<char>>,
    done: Seq<Seq<char>>,
    open: Seq<char>,
    word: Seq<char>,
    n: int,
    width: int,
)
    ensures
        add_chars(Wrapping { done: base + done, open }, word, n, width).done == base + add_chars(
            Wrapping { done, open },
            word,
            n,
            width,
        ).done,
        add_chars(Wrapping { done: base + done, open }, word, n, width).open == add_chars(
            Wrapping { done, open },
            word,
            n,
            width,
        ).open,
    decreases n,
{
    if n > 0 {
        lemma_add_chars_base(base, done, open, word, n - 1, width);
        let a = add_chars(Wrapping { done: base + done, open }, word, n - 1, width);
        let b = add_chars(Wrapping { done, open }, word, n - 1, width);
        assert(a.done.push(a.open) =~= base + b.done.push(b.open));
    }
}

/// Breaks a text into lines of at most `width` columns, at spaces where
/// possible; a word wider than a line is broken between characters.
pub fn wrap_line(line: &str, width: usize) -> (r: Vec<String>)
    ensures
        text::texts(r@) == wrapped(line@, width as int),
        r@.len() >= 1,
{
    let mut chunks: Vec<String> = Vec::new();
    if width == 0 {
        let ghost before = chunks@;
        let t: String = line.to_owned();
        chunks.push(t);
        assert(text::texts(chunks@) =~= seq![line@]);
        return chunks;
    }
    let parts = split(line, '\n');
    let mut i: usize = 0;
    assert(text::texts(chunks@) =~= seq![]);
    while i < parts.len()
        invariant
            width > 0,
            i <= parts@.len(),
            text::texts(chunks@) == wrapped_lines(text::texts(parts@), i as int, width as int),
            i > 0 ==> chunks@.len() >= 1,
        decreases parts@.len() - i,
    {
        wrap_logical(&mut chunks, parts[i].as_str(), width);
        assert(text::texts(parts@)[i as int] == parts@[i as int]@);
        assert(text::texts(chunks@).len() == chunks@.len());
        i = i + 1;
    }
    chunks
}


// ── Prompt layout ────────────────────────────────────────────────────────

/// How a stretch of the prompt is shown.
#[derive(Clone, Copy, Debug, PartialEq, Eq, Structural)]
pub enum SpanKind {
    Plain,
    Attachment,
    AtRef,
}

/// The column at which prompt text starts.
pub const PROMPT_COL: usize = 1;

/// One line of the prompt as it is shown.
pub struct VisualLine {
    pub text: Seq<char>,
    pub kinds: Seq<SpanKind>,
    /// Position of its first character in the prompt text.
    pub start: int,
    /// Whether a line of the prompt text ends here.
    pub last: bool,
}

/// The kind of the character at `i`; plain where none is given.
pub open spec fn kind_at(kinds: Seq<SpanKind>, i: int) -> SpanKind {
    if 0 <= i < kinds.len() {
        kinds[i]
    } else {
        SpanKind::Plain
    }
}

/// The kinds of the `n` characters from `start` on.
pub open spec fn kinds_at(kinds: Seq<SpanKind>, start: int, n: nat) -> Seq<SpanKind> {
    Seq::new(n, |i: int| kind_at(kinds, start + i))
}

/// The line that shows `text`, whose first character stands at `start`.
pub open spec fn visual_line(
    text: Seq<char>,
    kinds: Seq<SpanKind>,
    start: int,
    last: bool,
) -> VisualLine {
    VisualLine { text, kinds: kinds_at(kinds, start, text.len()), start, last }
}

/// The position behind the last space of `chars`, zero when there is none.
pub open spec fn behind_last_space(chars: Seq<char>) -> int
    decreases chars.len(),
{
    if chars.len() == 0 {
        0
    } else if chars.last() == ' ' {
        chars.len() as int
    } else {
        behind_last_space(chars.drop_last())
    }
}

/// Where an open line is broken: behind its last space, or at its end.
pub open spec fn break_at(chars: Seq<char>) -> int {
    if behind_last_space(chars) > 0 {
        behind_last_space(chars)
    } else {
        chars.len() as int
    }
}

/// A space is a place to break a line at.
pub proof fn lemma_break_at(chars: Seq<char>)
    ensures
        0 <= behind_last_space(chars) <= chars.len(),
        chars.len() > 0 ==> 0 < break_at(chars) <= chars.len(),
    decreases chars.len(),
{
    if chars.len() > 0 {
        lemma_break_at(chars.drop_last());
    }
}

/// Visual lines under construction: those that are complete, and the open
/// one with the position of its first character.
pub struct Folding {
    pub done: Seq<VisualLine>,
    pub open: Seq<char>,
    pub start: int,
}

/// Whether `c` goes beyond `max` columns behind the open line.
pub open spec fn overflows(open: Seq<char>, c: char, max: usize) -> bool {
    let w = columns_of(open, PROMPT_COL);
    open.len() > 0 && columns_plus(w, columns_at(c, columns_plus(PROMPT_COL, w))) > max
}

/// Completes lines until `c` fits on the open one, or the open one is empty.
pub open spec fn make_room(f: Folding, c: char, kinds: Seq<SpanKind>, max: usize) -> Folding
    decreases f.open.len(),
{
    if overflows(f.open, c, max) {
        let b = break_at(f.open);
        if 0 < b <= f.open.len() {
            make_room(
                Folding {
                    done: f.done.push(visual_line(f.open.take(b), kinds, f.start, false)),
                    open: f.open.skip(b),
                    start: f.start + b,
                },
                c,
                kinds,
                max,
            )
        } else {
            f
        }
    } else {
        f
    }
}

/// Adds one character.
pub open spec fn fold_char(f: Folding, c: char, kinds: Seq<SpanKind>, max: usize) -> Folding {
    let f = make_room(f, c, kinds, max);
    Folding { open: f.open.push(c), ..f }
}

/// Adds the first `n` characters of `line`.
pub open spec fn fold_chars(
    f: Folding,
    line: Seq<char>,
    n: int,
    kinds: Seq<SpanKind>,
    max: usize,
) -> Folding
    decreases n,
{
    if n <= 0 {
        f
    } else {
        fold_char(fold_chars(f, line, n - 1, kinds, max), line[n - 1], kinds, max)
    }
}

/// The visual lines of one line of the prompt text that starts at `start`.
pub open spec fn folded(line: Seq<char>, start: int, kinds: Seq<SpanKind>, max: usize) -> Seq<
    VisualLine,
> {
    let f = fold_chars(
        Folding { done: seq![], open: seq![], start },
        line,
        line.len() as int,
        kinds,
        max,
    );
    f.done.push(visual_line(f.open, kinds, f.start, true))
}

/// Where the `n`-th line of the prompt text starts.
pub open spec fn part_start(parts: Seq<Seq<char>>, n: int) -> int
    decreases n,
{
    if n <= 0 {
        0
    } else {
        part_start(parts, n - 1) + parts[n - 1].len() + 1
    }
}

/// The visual lines of the first `n` lines of the prompt text.
pub open spec fn folded_parts(
    parts: Seq<Seq<char>>,
    n: int,
    kinds: Seq<SpanKind>,
    max: usize,
) -> Seq<VisualLine>
    decreases n,
{
    if n <= 0 {
        seq![]
    } else {
        folded_parts(parts, n - 1, kinds, max) + folded(
            parts[n - 1],
            part_start(parts, n - 1),
            kinds,
            max,
        )
    }
}

/// The visual lines of the prompt text, for `usable` columns per line.
pub open spec fn visual_layout(buf: Seq<char>, kinds: Seq<SpanKind>, usable: usize) -> Seq<
    VisualLine,
> {
    let parts = text::split_on(buf, '\n');
    folded_parts(parts, parts.len() as int, kinds, if usable > 1 { usable } else { 1 })
}

/// Whether the cursor position `at` is shown on line `l`: on one of its
/// characters, or behind them where a line of the prompt text ends.
pub open spec fn shows(l: VisualLine, at: int) -> bool {
    l.start <= at && (at < l.start + l.text.len() || l.last && at == l.start + l.text.len())
}

/// The first of the first `n` lines that shows `at`, or `n` when none does.
pub open spec fn line_showing(lines: Seq<VisualLine>, n: int, at: int) -> int
    decreases n,
{
    if n <= 0 {
        0
    } else {
        let k = line_showing(lines, n - 1, at);
        if k < n - 1 || shows(lines[n - 1], at) {
            k
        } else {
            n
        }
    }
}

/// Line and column of the cursor at `at`; the origin when no line shows it.
pub open spec fn cursor_in(lines: Seq<VisualLine>, at: int) -> (int, int) {
    let k = line_showing(lines, lines.len() as int, at);
    if k < lines.len() {
        (k, columns_of(lines[k].text.take(at - lines[k].start), PROMPT_COL) as int)
    } else {
        (0, 0)
    }
}

/// Texts and kinds of visual lines, as they are stored.
pub open spec fn shows_layout(v: Seq<(String, Vec<SpanKind>)>, lines: Seq<VisualLine>) -> bool {
    v.len() == lines.len() && forall|i: int|
        0 <= i < v.len() ==> (#[trigger] v[i]).0@ == lines[i].text && v[i].1@ == lines[i].kinds
}


/// The start of a part counts the parts before it and their separators.
pub proof fn lemma_part_start_front(a: Seq<char>, rest: Seq<Seq<char>>, n: int)
    requires
        1 <= n <= rest.len() + 1,
    ensures
        part_start(seq![a] + rest, n) == a.len() + 1 + part_start(rest, n - 1),
    decreases n,
{
    let all = seq![a] + rest;
    if n == 1 {
        assert(part_start(all, 0) == 0);
        assert(all[0] == a);
    } else {
        lemma_part_start_front(a, rest, n - 1);
        assert(all[n - 1] == rest[n - 2]);
    }
}

/// Each part of a split text lies inside the text, and the last one ends it.
pub proof fn lemma_parts_inside(s: Seq<char>, c: char, from: int, n: int)
    requires
        0 <= from <= s.len(),
        0 <= n < text::split_from(s, c, from).len(),
    ensures
        ({
            let parts = text::split_from(s, c, from);
            &&& 0 <= part_start(parts, n)
            &&& from + part_start(parts, n) + parts[n].len() <= s.len()
            &&& n == parts.len() - 1 <==> from + part_start(parts, n) + parts[n].len() == s.len()
        }),
    decreases s.len() - from,
{
    let end = text::char_from(s, c, from);
    text::lemma_char_from(s, c, from);
    let parts = text::split_from(s, c, from);
    if end < s.len() {
        let rest = text::split_from(s, c, end + 1);
        let a = s.subrange(from, end);
        assert(parts == seq![a] + rest);
        if n >= 1 {
            lemma_part_start_front(a, rest, n);
            lemma_parts_inside(s, c, end + 1, n - 1);
        } else {
            lemma_split_nonempty(s, c, end + 1);
        }
    }
}

/// Splitting gives at least one part.
pub proof fn lemma_split_nonempty(s: Seq<char>, c: char, from: int)
    requires
        0 <= from <= s.len(),
    ensures
        text::split_from(s, c, from).len() >= 1,
    decreases s.len() - from,
{
    let end = text::char_from(s, c, from);
    text::lemma_char_from(s, c, from);
    if end < s.len() {
        lemma_split_nonempty(s, c, end + 1);
    }
}

/// Lines behind the first `n` do not matter for the first `n`.
proof fn lemma_line_showing_prefix(a: Seq<VisualLine>, b: Seq<VisualLine>, n: int, at: int)
    requires
        n <= a.len(),
        n <= b.len(),
        forall|i: int| 0 <= i < n ==> a[i] == b[i],
    ensures
        line_showing(a, n, at) == line_showing(b, n, at),
    decreases n,
{
    if n > 0 {
        lemma_line_showing_prefix(a, b, n - 1, at);
    }
}

/// The line that shows a position is one of the lines, and shows it.
proof fn lemma_line_showing(a: Seq<VisualLine>, n: int, at: int)
    requires
        0 <= n <= a.len(),
    ensures
        0 <= line_showing(a, n, at) <= n,
        line_showing(a, n, at) < n ==> shows(a[line_showing(a, n, at)], at),
        forall|i: int| 0 <= i < line_showing(a, n, at) ==> !shows(a[i], at),
    decreases n,
{
    if n > 0 {
        lemma_line_showing(a, n - 1, at);
    }
}

/// `c` is where the cursor `at` stands among `lines`, if it stands there.
spec fn cursor_found(c: Option<(usize, usize)>, lines: Seq<VisualLine>, at: int) -> bool {
    let k = line_showing(lines, lines.len() as int, at);
    match c {
        Some(p) => k == p.0 && k < lines.len() && p.1 == columns_of(
            lines[k].text.take(at - lines[k].start),
            PROMPT_COL,
        ),
        None => k == lines.len(),
    }
}

/// Appends one visual line and notes the cursor when the line is the first
/// to show it.
fn push_visual_line(
    visual_lines: &mut Vec<(String, Vec<SpanKind>)>,
    cursor: &mut Option<(usize, usize)>,
    start: usize,
    chars: &Vec<char>,
    n: usize,
    char_kinds: &Vec<SpanKind>,
    cursor_char: usize,
    last: bool,
    Ghost(lines): Ghost<Seq<VisualLine>>,
)
    requires
        n <= chars@.len(),
        start + n <= usize::MAX,
        shows_layout(old(visual_lines)@, lines),
        cursor_found(*old(cursor), lines, cursor_char as int),
    ensures
        ({
            let l = lines.push(
                visual_line(chars@.take(n as int), char_kinds@, start as int, last),
            );
            &&& shows_layout(final(visual_lines)@, l)
            &&& cursor_found(*final(cursor), l, cursor_char as int)
        }),
{
    let ghost line = visual_line(chars@.take(n as int), char_kinds@, start as int, last);
    let ghost all = lines.push(line);
    let end: usize = start + n;
    proof {
        lemma_line_showing_prefix(all, lines, lines.len() as int, cursor_char as int);
        lemma_line_showing(lines, lines.len() as int, cursor_char as int);
        assert(line.text.len() == n);
        assert(all[all.len() - 1] == line);
        assert(line_showing(all, all.len() as int, cursor_char as int) == ({
            let k = line_showing(all, all.len() - 1, cursor_char as int);
            if k < all.len() - 1 || shows(line, cursor_char as int) {
                k
            } else {
                all.len() as int
            }
        }));
    }
    if cursor.is_none() && cursor_char >= start && (cursor_char < end || (last && cursor_char
        == end)) {
        let col: usize = display_width(chars, cursor_char - start, PROMPT_COL);
        assert(line.text.take(cursor_char - start) =~= chars@.take(cursor_char - start));
        *cursor = Some((visual_lines.len(), col));
    } else {
        proof {
            if let Some(p) = *cursor {
                assert(all[p.0 as int] == lines[p.0 as int]);
            }
        }
    }
    let mut kinds: Vec<SpanKind> = Vec::new();
    let mut i: usize = 0;
    while i < n
        invariant
            i <= n,
            start + n <= usize::MAX,
            kinds@ == kinds_at(char_kinds@, start as int, i as nat),
        decreases n - i,
    {
        let k: SpanKind = if start + i < char_kinds.len() {
            char_kinds[start + i]
        } else {
            SpanKind::Plain
        };
        kinds.push(k);
        i = i + 1;
        assert(kinds@ =~= kinds_at(char_kinds@, start as int, i as nat));
    }
    let text = slice_text(chars, 0, n);
    assert(chars@.subrange(0, n as int) =~= chars@.take(n as int));
    visual_lines.push((text, kinds));
}

/// The position behind the last space of `chars`, or their number when there
/// is none.
fn break_position(chars: &Vec<char>) -> (r: usize)
    ensures
        r == break_at(chars@),
{
    let mut n: usize = chars.len();
    assert(chars@.take(n as int) =~= chars@);
    while n > 0
        invariant
            n <= chars@.len(),
            behind_last_space(chars@) == behind_last_space(chars@.take(n as int)),
        decreases n,
    {
        if chars[n - 1] == ' ' {
            return n;
        }
        assert(chars@.take(n as int).drop_last() =~= chars@.take(n - 1));
        n = n - 1;
    }
    chars.len()
}

/// `chars[n..]`.
fn chars_from(chars: &Vec<char>, n: usize) -> (r: Vec<char>)
    requires
        n <= chars@.len(),
    ensures
        r@ == chars@.skip(n as int),
{
    let mut v: Vec<char> = Vec::new();
    let mut i: usize = n;
    while i < chars.len()
        invariant
            n <= i <= chars@.len(),
            v@ == chars@.subrange(n as int, i as int),
        decreases chars@.len() - i,
    {
        v.push(chars[i]);
        i = i + 1;
        assert(v@ =~= chars@.subrange(n as int, i as int));
    }
    assert(v@ =~= chars@.skip(n as int));
    v
}

/// Breaks the prompt text into visual lines of `usable` columns and finds the
/// cursor, which stands before the character `cursor_char`.
///
/// Lines break behind a space where they can.  The results are the lines with
/// the kinds of their characters, and the line and column of the cursor.
pub fn wrap_and_locate_cursor(
    buf: &str,
    char_kinds: &Vec<SpanKind>,
    cursor_char: usize,
    usable: usize,
) -> (r: (Vec<(String, Vec<SpanKind>)>, usize, usize))
    ensures
        shows_layout(r.0@, visual_layout(buf@, char_kinds@, usable)),
        r.1 == cursor_in(visual_layout(buf@, char_kinds@, usable), cursor_char as int).0,
        r.2 == cursor_in(visual_layout(buf@, char_kinds@, usable), cursor_char as int).1,
        r.0@.len() >= 1,
{
    let max_col: usize = if usable > 1 {
        usable
    } else {
        1
    };
    let all_chars: usize = text::char_count(buf);
    let parts = split(buf, '\n');
    let ghost tp = text::texts(parts@);
    let ghost kinds = char_kinds@;
    let mut visual_lines: Vec<(String, Vec<SpanKind>)> = Vec::new();
    let mut cursor: Option<(usize, usize)> = None;
    let mut chars_seen: usize = 0;
    let mut p: usize = 0;
    while p < parts.len()
        invariant
            all_chars == buf@.len(),
            kinds == char_kinds@,
            tp == text::texts(parts@),
            tp == text::split_on(buf@, '\n'),
            p <= parts@.len(),
            p < parts@.len() ==> chars_seen == part_start(tp, p as int),
            shows_layout(visual_lines@, folded_parts(tp, p as int, kinds, max_col)),
            cursor_found(cursor, folded_parts(tp, p as int, kinds, max_col), cursor_char as int),
            p > 0 ==> visual_lines@.len() >= 1,
        decreases parts@.len() - p,
    {
        let chars = chars_of(parts[p].as_str());
        let ghost base = folded_parts(tp, p as int, kinds, max_col);
        let ghost line = tp[p as int];
        let ghost begin = Folding { done: seq![], open: seq![], start: chars_seen as int };
        proof {
            lemma_parts_inside(buf@, '\n', 0, p as int);
            assert(line == parts@[p as int]@);
        }
        let mut open: Vec<char> = Vec::new();
        let mut width: usize = 0;
        let mut start: usize = chars_seen;
        let mut i: usize = 0;
        let ghost mut f = begin;
        assert(base + f.done =~= base);
        while i < chars.len()
            invariant
                all_chars == buf@.len(),
                kinds == char_kinds@,
                chars@ == line,
                chars_seen + chars@.len() <= all_chars,
                i <= chars@.len(),
                begin == (Folding { done: seq![], open: seq![], start: chars_seen as int }),
                f == fold_chars(begin, line, i as int, kinds, max_col) || (i < chars@.len()
                    && make_room(f, chars@[i as int], kinds, max_col) == make_room(
                    fold_chars(begin, line, i as int, kinds, max_col),
                    chars@[i as int],
                    kinds,
                    max_col,
                )),
                f.open == open@,
                f.start == start,
                start + open@.len() == chars_seen + i,
                width == columns_of(open@, PROMPT_COL),
                shows_layout(visual_lines@, base + f.done),
                cursor_found(cursor, base + f.done, cursor_char as int),
            ensures
                f == fold_chars(begin, line, line.len() as int, kinds, max_col),
            decreases chars@.len() - i, open@.len(),
        {
            let c: char = chars[i];
            let ghost g = fold_chars(begin, line, i as int, kinds, max_col);
            proof {
                lemma_column_after(open@, PROMPT_COL);
                lemma_break_at(open@);
                assert(make_room(f, c, kinds, max_col) == make_room(g, c, kinds, max_col));
            }
            let here: usize = PROMPT_COL + width;
            let w: usize = display_char_width(c, here);
            if open.len() > 0 && width.saturating_add(w) > max_col {
                assert(overflows(open@, c, max_col));
                let b: usize = break_position(&open);
                let ghost done = base + f.done;
                push_visual_line(
                    &mut visual_lines,
                    &mut cursor,
                    start,
                    &open,
                    b,
                    char_kinds,
                    cursor_char,
                    false,
                    Ghost(done),
                );
                proof {
                    let l = visual_line(open@.take(b as int), kinds, start as int, false);
                    f = Folding {
                        done: f.done.push(l),
                        open: f.open.skip(b as int),
                        start: f.start + b,
                    };
                    assert(done.push(l) =~= base + f.done);
                }
                open = chars_from(&open, b);
                start = start + b;
                width = display_width(&open, open.len(), PROMPT_COL);
                assert(open@.take(open@.len() as int) =~= open@);
            } else {
                proof {
                    assert(make_room(f, c, kinds, max_col) == f);
                    assert(f == make_room(g, c, kinds, max_col));
                    assert(fold_chars(begin, line, i + 1, kinds, max_col) == fold_char(
                        g,
                        line[i as int],
                        kinds,
                        max_col,
                    ));
                    f = Folding { open: f.open.push(c), ..f };
                    assert(open@.push(c).drop_last() =~= open@);
                    assert(columns_of(open@.push(c), PROMPT_COL) == columns_plus(here, w)
                        - PROMPT_COL);
                }
                let next: usize = here.saturating_add(w);
                open.push(c);
                width = next - PROMPT_COL;
                i = i + 1;
            }
        }
        let ghost done = base + f.done;
        push_visual_line(
            &mut visual_lines,
            &mut cursor,
            start,
            &open,
            open.len(),
            char_kinds,
            cursor_char,
            true,
            Ghost(done),
        );
        proof {
            assert(open@.take(open@.len() as int) =~= open@);
            let l = visual_line(open@, kinds, start as int, true);
            assert(done.push(l) =~= base + folded(line, chars_seen as int, kinds, max_col));
            assert(folded_parts(tp, p + 1, kinds, max_col) == base + folded(
                line,
                part_start(tp, p as int),
                kinds,
                max_col,
            ));
        }
        if p + 1 < parts.len() {
            chars_seen = chars_seen + chars.len() + 1;
        }
        p = p + 1;
    }
    match cursor {
        Some(at) => (visual_lines, at.0, at.1),
        None => (visual_lines, 0, 0),
    }
}


/// The lengths of the stored visual lines.
pub open spec fn line_lens(v: Seq<(String, Vec<SpanKind>)>) -> Seq<int> {
    Seq::new(v.len(), |i: int| v[i].0@.len() as int)
}

/// Positions of the lines from `vl` on that cover the rest of a line of
/// `total` characters, of which `consumed` are covered; the line starts at
/// `seen`.
pub open spec fn covering(lens: Seq<int>, vl: int, seen: int, consumed: int, total: int) -> Seq<int>
    decreases lens.len() - vl,
{
    if 0 <= vl < lens.len() && consumed < total {
        seq![seen + consumed] + covering(lens, vl + 1, seen, consumed + lens[vl], total)
    } else {
        seq![]
    }
}

/// Positions of the visual lines of the first `n` lines of the prompt text:
/// an empty line takes one, another as many as cover it.
pub open spec fn part_offsets(parts: Seq<Seq<char>>, n: int, lens: Seq<int>) -> Seq<int>
    decreases n,
{
    if n <= 0 {
        seq![]
    } else {
        let offs = part_offsets(parts, n - 1, lens);
        let seen = part_start(parts, n - 1);
        if parts[n - 1].len() > 0 {
            offs + covering(lens, offs.len() as int, seen, 0, parts[n - 1].len() as int)
        } else if offs.len() < lens.len() {
            offs.push(seen)
        } else {
            offs
        }
    }
}

/// Positions of the visual lines in the prompt text; lines that nothing is
/// left for stand at its end.
pub open spec fn line_offsets(buf: Seq<char>, lens: Seq<int>) -> Seq<int> {
    let parts = text::split_on(buf, '\n');
    let offs = part_offsets(parts, parts.len() as int, lens);
    Seq::new(
        if offs.len() < lens.len() {
            lens.len()
        } else {
            offs.len()
        },
        |i: int| if i < offs.len() { offs[i] } else { buf.len() as int },
    )
}

/// `v` as mathematical integers.
pub open spec fn as_ints(v: Seq<usize>) -> Seq<int> {
    Seq::new(v.len(), |i: int| v[i] as int)
}

/// The position in the prompt text at which each visual line starts.
pub fn compute_visual_line_offsets(
    display_buf: &str,
    visual_lines: &Vec<(String, Vec<SpanKind>)>,
) -> (r: Vec<usize>)
    ensures
        as_ints(r@) == line_offsets(display_buf@, line_lens(visual_lines@)),
{
    let all_chars: usize = text::char_count(display_buf);
    let parts = split(display_buf, '\n');
    let ghost tp = text::texts(parts@);
    let ghost lens = line_lens(visual_lines@);
    let mut offsets: Vec<usize> = Vec::new();
    let mut seen: usize = 0;
    let mut p: usize = 0;
    assert(as_ints(offsets@) =~= seq![]);
    while p < parts.len()
        invariant
            all_chars == display_buf@.len(),
            tp == text::texts(parts@),
            tp == text::split_on(display_buf@, '\n'),
            lens == line_lens(visual_lines@),
            p <= parts@.len(),
            p < parts@.len() ==> seen == part_start(tp, p as int),
            as_ints(offsets@) == part_offsets(tp, p as int, lens),
        decreases parts@.len() - p,
    {
        let total: usize = text::char_count(parts[p].as_str());
        proof {
            lemma_parts_inside(display_buf@, '\n', 0, p as int);
            assert(tp[p as int] == parts@[p as int]@);
        }
        let ghost offs = part_offsets(tp, p as int, lens);
        if total == 0 {
            if offsets.len() < visual_lines.len() {
                offsets.push(seen);
                assert(as_ints(offsets@) =~= offs.push(seen as int));
            }
        } else {
            let mut consumed: usize = 0;
            assert(offs + covering(lens, offs.len() as int, seen as int, 0, total as int)
                =~= as_ints(offsets@) + covering(
                lens,
                offsets@.len() as int,
                seen as int,
                0,
                total as int,
            ));
            while offsets.len() < visual_lines.len() && consumed < total
                invariant
                    all_chars == display_buf@.len(),
                    lens == line_lens(visual_lines@),
                    seen + total <= all_chars,
                    offs + covering(lens, offs.len() as int, seen as int, 0, total as int)
                        == as_ints(offsets@) + covering(
                        lens,
                        offsets@.len() as int,
                        seen as int,
                        consumed as int,
                        total as int,
                    ),
                decreases visual_lines@.len() - offsets@.len(),
            {
                let ghost before = as_ints(offsets@);
                let ghost vl = offsets@.len() as int;
                let len: usize = text::char_count(visual_lines[offsets.len()].0.as_str());
                offsets.push(seen + consumed);
                let ghost was = consumed as int;
                proof {
                    assert(lens[vl] == len);
                    assert(as_ints(offsets@) =~= before + seq![seen + was]);
                    assert(covering(lens, vl, seen as int, was, total as int) == seq![seen + was]
                        + covering(lens, vl + 1, seen as int, was + len, total as int));
                    assert(before + (seq![seen + was] + covering(
                        lens,
                        vl + 1,
                        seen as int,
                        was + len,
                        total as int,
                    )) =~= (before + seq![seen + was]) + covering(
                        lens,
                        vl + 1,
                        seen as int,
                        was + len,
                        total as int,
                    ));
                }
                if len < total - consumed {
                    consumed = consumed + len;
                } else {
                    consumed = total;
                    proof {
                        assert(covering(lens, vl + 1, seen as int, was + len, total as int)
                            =~= covering(lens, vl + 1, seen as int, total as int, total as int));
                    }
                }
            }
            assert(as_ints(offsets@) + Seq::<int>::empty() =~= as_ints(offsets@));
        }
        if p + 1 < parts.len() {
            seen = seen + total + 1;
        }
        p = p + 1;
    }
    let ghost offs = as_ints(offsets@);
    while offsets.len() < visual_lines.len()
        invariant
            offs.len() <= offsets@.len(),
            offsets@.len() <= visual_lines@.len() || offsets@.len() == offs.len(),
            forall|i: int|
                0 <= i < offsets@.len() ==> (#[trigger] offsets@[i]) as int == (if i < offs.len() {
                    offs[i]
                } else {
                    all_chars as int
                }),
        decreases visual_lines@.len() - offsets@.len(),
    {
        offsets.push(all_chars);
    }
    assert(as_ints(offsets@) =~= line_offsets(display_buf@, lens));
    offsets
}

} // verus!
