//! A text of several lines that can be edited.

use vstd::prelude::*;

use crate::dialogs::keys::{KeyCode, KeyModifiers};
use crate::render::out;
use crate::render::out::{crlf, Canvas, RenderOut};
use crate::render::table;
use crate::text;
use crate::text::{char_count, chars_of, join, repeat_char, slice_text};

verus! {

// ── Chunks ───────────────────────────────────────────────────────────────

/// The text from `from` on in chunks of `w` characters; as a whole when `w`
/// is zero.
pub open spec fn chunks_from(s: Seq<char>, from: int, w: int) -> Seq<Seq<char>>
    decreases s.len() - from,
{
    if w <= 0 || s.len() - from <= w {
        seq![s.skip(from)]
    } else {
        seq![s.subrange(from, from + w)] + chunks_from(s, from + w, w)
    }
}

/// A line in chunks of `w` characters.
pub open spec fn chunked(s: Seq<char>, w: int) -> Seq<Seq<char>> {
    chunks_from(s, 0, w)
}

/// A line in chunks of `w` characters; as a whole when `w` is zero.
pub fn chunk_line(line: &str, w: usize) -> (r: Vec<String>)
    ensures
        text::texts(r@) == chunked(line@, w as int),
        r@.len() >= 1,
{
    let chars = chars_of(line);
    let total: usize = chars.len();
    let mut v: Vec<String> = Vec::new();
    let mut from: usize = 0;
    assert(text::texts(v@) =~= Seq::<Seq<char>>::empty());
    assert(text::texts(v@) + chunks_from(line@, 0, w as int) =~= chunked(line@, w as int));
    while w > 0 && total - from > w
        invariant
            chars@ == line@,
            total == chars@.len(),
            from <= total,
            text::texts(v@) + chunks_from(line@, from as int, w as int) == chunked(
                line@,
                w as int,
            ),
        decreases total - from,
    {
        let c = slice_text(&chars, from, from + w);
        proof {
            text::lemma_texts_push(v@, c);
            assert(text::texts(v@.push(c)) + chunks_from(line@, from + w, w as int)
                =~= text::texts(v@) + (seq![c@] + chunks_from(line@, from + w, w as int)));
        }
        v.push(c);
        from = from + w;
    }
    let c = slice_text(&chars, from, total);
    proof {
        text::lemma_texts_push(v@, c);
        assert(c@ =~= line@.skip(from as int));
        assert(text::texts(v@.push(c)) =~= text::texts(v@) + seq![c@]);
    }
    v.push(c);
    v
}

proof fn lemma_chunks_join(s: Seq<char>, from: int, w: int)
    requires
        0 <= from <= s.len(),
    ensures
        chunks_from(s, from, w).flatten() == s.skip(from),
        chunks_from(s, from, w).len() >= 1,
    decreases s.len() - from,
{
    if w <= 0 || s.len() - from <= w {
        seq![s.skip(from)].lemma_flatten_one_element();
    } else {
        lemma_chunks_join(s, from + w, w);
        let a = s.subrange(from, from + w);
        let rest = chunks_from(s, from + w, w);
        let all = chunks_from(s, from, w);
        assert(all =~= seq![a] + rest);
        assert(all.drop_first() =~= rest);
        assert(all.first() == a);
        assert(s.skip(from) =~= a + s.skip(from + w));
    }
}

/// The chunks of a line hold its characters, in order.
pub proof fn law_chunks_keep_characters(s: Seq<char>, w: int)
    ensures
        chunked(s, w).flatten() == s,
{
    lemma_chunks_join(s, 0, w);
    assert(s.skip(0) =~= s);
}

// ── The text ─────────────────────────────────────────────────────────────

/// A text, with the place of the cursor.
#[verifier::ext_equal]
pub struct AreaView {
    pub lines: Seq<Seq<char>>,
    pub row: int,
    pub col: int,
}

/// A text that can be edited.
pub struct TextArea {
    pub lines: Vec<String>,
    pub row: usize,
    pub col: usize,
}

impl View for TextArea {
    type V = AreaView;

    open spec fn view(&self) -> AreaView {
        AreaView {
            lines: text::texts(self.lines@),
            row: self.row as int,
            col: self.col as int,
        }
    }
}

impl AreaView {
    pub open spec fn blank() -> AreaView {
        AreaView { lines: seq![seq![]], row: 0, col: 0 }
    }

    /// The cursor is in the text.
    pub open spec fn wf(self) -> bool {
        &&& 0 <= self.row < self.lines.len()
        &&& 0 <= self.col <= self.lines[self.row].len()
    }

    /// The line of the cursor.
    pub open spec fn line(self) -> Seq<char> {
        self.lines[self.row]
    }

    pub open spec fn empty(self) -> bool {
        self.lines.len() == 1 && self.lines[0].len() == 0
    }

    /// The text as one.
    pub open spec fn text(self) -> Seq<char> {
        text::join_texts(self.lines, "\n"@)
    }

    pub open spec fn with_char(self, c: char) -> AreaView {
        AreaView {
            lines: self.lines.update(
                self.row,
                self.line().take(self.col).push(c) + self.line().skip(self.col),
            ),
            col: self.col + 1,
            ..self
        }
    }

    pub open spec fn with_newline(self) -> AreaView {
        AreaView {
            lines: self.lines.update(self.row, self.line().take(self.col)).insert(
                self.row + 1,
                self.line().skip(self.col),
            ),
            row: self.row + 1,
            col: 0,
        }
    }

    /// Without the characters between `from` and the cursor.
    pub open spec fn without(self, from: int) -> AreaView {
        AreaView {
            lines: self.lines.update(
                self.row,
                self.line().take(from) + self.line().skip(self.col),
            ),
            col: from,
            ..self
        }
    }

    /// Without what stands before the cursor: a character, or the end of the
    /// line above.
    pub open spec fn backspaced(self) -> AreaView {
        if self.col > 0 {
            self.without(self.col - 1)
        } else if self.row > 0 {
            let above = self.lines[self.row - 1];
            AreaView {
                lines: self.lines.remove(self.row).update(self.row - 1, above + self.line()),
                row: self.row - 1,
                col: above.len() as int,
            }
        } else {
            self
        }
    }

    /// Without the word before the cursor, which starts at `word_start`.
    pub open spec fn word_deleted(self, word_start: int) -> AreaView {
        if self.col == 0 {
            self
        } else {
            self.without(table::smaller(word_start, self.col))
        }
    }

    pub open spec fn left(self) -> AreaView {
        if self.col > 0 {
            AreaView { col: self.col - 1, ..self }
        } else if self.row > 0 {
            AreaView {
                row: self.row - 1,
                col: self.lines[self.row - 1].len() as int,
                ..self
            }
        } else {
            self
        }
    }

    pub open spec fn right(self) -> AreaView {
        if self.col < self.line().len() {
            AreaView { col: self.col + 1, ..self }
        } else if self.row + 1 < self.lines.len() {
            AreaView { row: self.row + 1, col: 0, ..self }
        } else {
            self
        }
    }

    /// The cursor in line `row`, in its column or at the end of the line.
    pub open spec fn in_row(self, row: int) -> AreaView {
        AreaView {
            row,
            col: table::smaller(self.col, self.lines[row].len() as int),
            ..self
        }
    }

    pub open spec fn up(self) -> AreaView {
        if self.row > 0 {
            self.in_row(self.row - 1)
        } else {
            self
        }
    }

    pub open spec fn down(self) -> AreaView {
        if self.row + 1 < self.lines.len() {
            self.in_row(self.row + 1)
        } else {
            self
        }
    }

    pub open spec fn home(self) -> AreaView {
        AreaView { col: 0, ..self }
    }

    pub open spec fn end(self) -> AreaView {
        AreaView { col: self.line().len() as int, ..self }
    }

    /// What a key does, if it does anything; the word before the cursor
    /// starts at `word_start`.
    pub open spec fn after_key(self, code: KeyCode, mods: KeyModifiers, word_start: int) -> Option<
        AreaView,
    > {
        match code {
            KeyCode::Char(c) => if mods.typing() {
                Some(self.with_char(c))
            } else {
                None
            },
            KeyCode::Enter => Some(self.with_newline()),
            KeyCode::Backspace => if mods.control || mods.alt {
                Some(self.word_deleted(word_start))
            } else {
                Some(self.backspaced())
            },
            KeyCode::Left => Some(self.left()),
            KeyCode::Right => Some(self.right()),
            KeyCode::Up => Some(self.up()),
            KeyCode::Down => Some(self.down()),
            KeyCode::Home => Some(self.home()),
            KeyCode::End => Some(self.end()),
            _ => None,
        }
    }

    /// The first `n` lines in chunks of `w` characters.
    pub open spec fn visual(self, n: int, w: int) -> Seq<Seq<char>>
        decreases n,
    {
        if n <= 0 {
            seq![]
        } else {
            self.visual(n - 1, w) + chunked(self.lines[n - 1], w)
        }
    }

    /// Rows of the first `n` lines in chunks of `w` characters.
    pub open spec fn rows(self, n: int, w: int) -> u16
        decreases n,
    {
        if n <= 0 {
            0
        } else {
            out::rows_plus(
                self.rows(n - 1, w),
                chunked(self.lines[n - 1], w).len() as u16,
            )
        }
    }

    /// Where the cursor is among the chunks: its chunk and its column.
    pub open spec fn visual_cursor(self, w: int) -> (int, int) {
        let start = self.visual(self.row, w).len() as int;
        if self.line().len() == 0 || w == 0 {
            (start, self.col)
        } else {
            let cs = chunked(self.line(), w);
            if self.col / w >= cs.len() {
                (start + cs.len() - 1, cs.last().len() as int)
            } else {
                (start + self.col / w, self.col % w)
            }
        }
    }
}

/// A text area counts as empty exactly when its text is.
pub proof fn law_empty_has_no_text(s: AreaView)
    requires
        s.wf(),
    ensures
        s.empty() <==> s.text().len() == 0,
{
    reveal_strlit("\n");
}

/// The rows counted for a text area are the lines that it is wrapped into, as
/// long as their number can be counted.
pub proof fn law_rows_are_wrapped_lines(s: AreaView, n: int, w: int)
    requires
        0 <= n <= s.lines.len(),
        s.visual(n, w).len() <= u16::MAX,
    ensures
        s.rows(n, w) == s.visual(n, w).len(),
    decreases n,
{
    if n > 0 {
        law_rows_are_wrapped_lines(s, n - 1, w);
    }
}

impl TextArea {
    /// Whether the cursor is in the text.
    pub fn is_wf(&self) -> (r: bool)
        ensures
            r == self@.wf(),
    {
        let n: usize = self.lines.len();
        assert(self@.lines.len() == n);
        if self.row < n {
            assert(self@.lines[self.row as int] == self.lines@[self.row as int]@);
            self.col <= char_count(self.lines[self.row].as_str())
        } else {
            false
        }
    }

    pub fn new() -> (r: TextArea)
        ensures
            r@ == AreaView::blank(),
            r@.wf(),
    {
        let mut lines: Vec<String> = Vec::new();
        let s = String::new();
        assert(s@ =~= Seq::<char>::empty());
        lines.push(s);
        let r = TextArea { lines, row: 0, col: 0 };
        assert(r@.lines =~= seq![Seq::<char>::empty()]);
        r
    }

    pub fn is_empty(&self) -> (r: bool)
        ensures
            r == self@.empty(),
    {
        assert(self.lines@.len() > 0 ==> text::texts(self.lines@)[0] == self.lines@[0]@);
        self.lines.len() == 1 && char_count(self.lines[0].as_str()) == 0
    }

    pub fn text(&self) -> (r: String)
        ensures
            r@ == self@.text(),
    {
        join(&self.lines, "\n")
    }

    pub fn visual_row_count(&self, wrap_w: usize) -> (r: u16)
        ensures
            r == self@.rows(self@.lines.len() as int, wrap_w as int),
    {
        let n: usize = self.lines.len();
        let mut rows: u16 = 0;
        let mut i: usize = 0;
        while i < n
            invariant
                n == self.lines@.len(),
                i <= n,
                rows == self@.rows(i as int, wrap_w as int),
            decreases n - i,
        {
            assert(self@.lines[i as int] == self.lines@[i as int]@);
            let cs = chunk_line(self.lines[i].as_str(), wrap_w);
            let k: usize = cs.len();
            assert(text::texts(cs@).len() == k);
            #[verifier::truncate]
            let more: u16 = k as u16;
            rows = rows.saturating_add(more);
            i = i + 1;
        }
        rows
    }

    /// The text in chunks of `wrap_w` characters, and where the cursor is
    /// among them.
    pub fn wrap(&self, wrap_w: usize) -> (r: (Vec<String>, (usize, usize)))
        requires
            self@.wf(),
        ensures
            text::texts(r.0@) == self@.visual(self@.lines.len() as int, wrap_w as int),
            ((r.1).0 as int, (r.1).1 as int) == self@.visual_cursor(wrap_w as int),
    {
        let n: usize = self.lines.len();
        let mut v: Vec<String> = Vec::new();
        let mut cursor: (usize, usize) = (0, 0);
        let mut i: usize = 0;
        assert(text::texts(v@) =~= Seq::<Seq<char>>::empty());
        while i < n
            invariant
                self@.wf(),
                n == self.lines@.len(),
                i <= n,
                text::texts(v@) == self@.visual(i as int, wrap_w as int),
                i > self.row ==> {
                    let (a, b) = cursor;
                    (a as int, b as int) == self@.visual_cursor(wrap_w as int)
                },
            decreases n - i,
        {
            assert(self@.lines[i as int] == self.lines@[i as int]@);
            let line = self.lines[i].as_str();
            let start: usize = v.len();
            assert(text::texts(v@).len() == start);
            let mut cs = chunk_line(line, wrap_w);
            let num: usize = cs.len();
            let ghost cv = text::texts(cs@);
            assert(cv.len() == num);
            assert(cv[num - 1] == cs@[num - 1]@);
            let last: usize = char_count(cs[num - 1].as_str());
            let ghost v0 = v@;
            let ghost c0 = cs@;
            v.append(&mut cs);
            assert(text::texts(v@) =~= text::texts(v0) + text::texts(c0));
            if i == self.row {
                let count: usize = char_count(line);
                let total: usize = v.len();
                assert(total == start + num);
                if count == 0 || wrap_w == 0 {
                    cursor = (start, self.col);
                } else {
                    let off: usize = self.col / wrap_w;
                    cursor = if off >= num {
                        (start + num - 1, last)
                    } else {
                        (start + off, self.col % wrap_w)
                    };
                }
            }
            i = i + 1;
        }
        (v, cursor)
    }

    pub fn clear(&mut self)
        ensures
            final(self)@ == AreaView::blank(),
    {
        *self = TextArea::new();
    }

    fn set_line(&mut self, row: usize, s: String)
        requires
            row < old(self).lines@.len(),
        ensures
            text::texts(final(self).lines@) == text::texts(old(self).lines@).update(
                row as int,
                s@,
            ),
            final(self).row == old(self).row,
            final(self).col == old(self).col,
    {
        self.lines.set(row, s);
        assert(text::texts(self.lines@) =~= text::texts(old(self).lines@).update(row as int, s@));
    }

    fn line_chars(&self, row: usize) -> (r: Vec<char>)
        requires
            row < self.lines@.len(),
        ensures
            r@ == self@.lines[row as int],
    {
        assert(self@.lines[row as int] == self.lines@[row as int]@);
        chars_of(self.lines[row].as_str())
    }

    pub fn insert_char(&mut self, c: char)
        requires
            old(self)@.wf(),
        ensures
            final(self)@ == old(self)@.with_char(c),
            final(self)@.wf(),
    {
        let chars = self.line_chars(self.row);
        let mut s = slice_text(&chars, 0, self.col);
        s.push(c);
        let rest = slice_text(&chars, self.col, chars.len());
        s.append(rest.as_str());
        assert(s@ =~= old(self)@.line().take(self.col as int).push(c) + old(self)@.line().skip(
            self.col as int,
        ));
        let len: usize = char_count(s.as_str());
        assert(self.col + 1 <= len);
        self.set_line(self.row, s);
        self.col = self.col + 1;
    }

    pub fn insert_newline(&mut self)
        requires
            old(self)@.wf(),
        ensures
            final(self)@ == old(self)@.with_newline(),
            final(self)@.wf(),
    {
        let chars = self.line_chars(self.row);
        let head = slice_text(&chars, 0, self.col);
        let rest = slice_text(&chars, self.col, chars.len());
        assert(head@ =~= old(self)@.line().take(self.col as int));
        assert(rest@ =~= old(self)@.line().skip(self.col as int));
        self.set_line(self.row, head);
        let ghost ls = self.lines@;
        let total: usize = self.lines.len();
        assert(text::texts(ls).len() == total);
        self.lines.insert(self.row + 1, rest);
        self.row = self.row + 1;
        self.col = 0;
        assert(text::texts(self.lines@) =~= text::texts(ls).insert(self.row as int, rest@));
    }

    fn delete_to(&mut self, from: usize)
        requires
            old(self)@.wf(),
            from <= old(self).col,
        ensures
            final(self)@ == old(self)@.without(from as int),
            final(self)@.wf(),
    {
        let chars = self.line_chars(self.row);
        let mut s = slice_text(&chars, 0, from);
        let rest = slice_text(&chars, self.col, chars.len());
        s.append(rest.as_str());
        assert(s@ =~= old(self)@.line().take(from as int) + old(self)@.line().skip(
            self.col as int,
        ));
        self.set_line(self.row, s);
        self.col = from;
    }

    pub fn backspace(&mut self)
        requires
            old(self)@.wf(),
        ensures
            final(self)@ == old(self)@.backspaced(),
            final(self)@.wf(),
    {
        if self.col > 0 {
            self.delete_to(self.col - 1);
        } else if self.row > 0 {
            let ghost v0 = self@;
            let above = self.line_chars(self.row - 1);
            let ghost ls = self.lines@;
            let removed = self.lines.remove(self.row);
            assert(text::texts(self.lines@) =~= text::texts(ls).remove(self.row as int));
            assert(removed@ == v0.line());
            let mut s = slice_text(&above, 0, above.len());
            s.append(removed.as_str());
            assert(s@ =~= v0.lines[self.row - 1] + v0.line());
            self.row = self.row - 1;
            self.set_line(self.row, s);
            self.col = above.len();
        }
    }

    /// Deletes the word before the cursor, which starts at `word_start`.
    pub fn delete_word_backward(&mut self, word_start: usize)
        requires
            old(self)@.wf(),
        ensures
            final(self)@ == old(self)@.word_deleted(word_start as int),
            final(self)@.wf(),
    {
        if self.col == 0 {
            return;
        }
        self.delete_to(
            if word_start < self.col {
                word_start
            } else {
                self.col
            },
        );
    }

    fn line_len(&self, row: usize) -> (r: usize)
        requires
            row < self.lines@.len(),
        ensures
            r == self@.lines[row as int].len(),
    {
        assert(self@.lines[row as int] == self.lines@[row as int]@);
        char_count(self.lines[row].as_str())
    }

    pub fn move_left(&mut self)
        requires
            old(self)@.wf(),
        ensures
            final(self)@ == old(self)@.left(),
            final(self)@.wf(),
    {
        if self.col > 0 {
            self.col = self.col - 1;
        } else if self.row > 0 {
            self.row = self.row - 1;
            self.col = self.line_len(self.row);
        }
    }

    pub fn move_right(&mut self)
        requires
            old(self)@.wf(),
        ensures
            final(self)@ == old(self)@.right(),
            final(self)@.wf(),
    {
        let total: usize = self.lines.len();
        assert(self@.lines.len() == total);
        if self.col < self.line_len(self.row) {
            self.col = self.col + 1;
        } else if self.row + 1 < total {
            self.row = self.row + 1;
            self.col = 0;
        }
    }

    fn enter_row(&mut self, row: usize)
        requires
            row < old(self).lines@.len(),
        ensures
            final(self)@ == old(self)@.in_row(row as int),
            final(self)@.wf(),
    {
        self.row = row;
        let len: usize = self.line_len(row);
        if self.col > len {
            self.col = len;
        }
    }

    pub fn move_up(&mut self)
        requires
            old(self)@.wf(),
        ensures
            final(self)@ == old(self)@.up(),
            final(self)@.wf(),
    {
        if self.row > 0 {
            self.enter_row(self.row - 1);
        }
    }

    pub fn move_down(&mut self)
        requires
            old(self)@.wf(),
        ensures
            final(self)@ == old(self)@.down(),
            final(self)@.wf(),
    {
        let total: usize = self.lines.len();
        assert(self@.lines.len() == total);
        if self.row + 1 < total {
            self.enter_row(self.row + 1);
        }
    }

    pub fn move_home(&mut self)
        requires
            old(self)@.wf(),
        ensures
            final(self)@ == old(self)@.home(),
            final(self)@.wf(),
    {
        self.col = 0;
    }

    pub fn move_end(&mut self)
        requires
            old(self)@.wf(),
        ensures
            final(self)@ == old(self)@.end(),
            final(self)@.wf(),
    {
        self.col = self.line_len(self.row);
    }

    /// Takes a key; the result is whether it did anything.  The word before
    /// the cursor starts at `word_start`.
    pub fn handle_key(&mut self, code: KeyCode, modifiers: KeyModifiers, word_start: usize) -> (r:
        bool)
        requires
            old(self)@.wf(),
        ensures
            match old(self)@.after_key(code, modifiers, word_start as int) {
                Some(v) => r && final(self)@ == v,
                None => !r && final(self)@ == old(self)@,
            },
            final(self)@.wf(),
    {
        match code {
            KeyCode::Char(c) => {
                if !modifiers.is_typing() {
                    return false;
                }
                self.insert_char(c)
            },
            KeyCode::Enter => self.insert_newline(),
            KeyCode::Backspace => {
                if modifiers.control || modifiers.alt {
                    self.delete_word_backward(word_start)
                } else {
                    self.backspace()
                }
            },
            KeyCode::Left => self.move_left(),
            KeyCode::Right => self.move_right(),
            KeyCode::Up => self.move_up(),
            KeyCode::Down => self.move_down(),
            KeyCode::Home => self.move_home(),
            KeyCode::End => self.move_end(),
            _ => return false,
        }
        true
    }
}

// ── Laws ─────────────────────────────────────────────────────────────────

/// Deleting undoes typing a character.
pub proof fn law_backspace_undoes_char(a: AreaView, c: char)
    requires
        a.wf(),
    ensures
        a.with_char(c).backspaced() == a,
{
    let b = a.with_char(c);
    assert(b.line().take(a.col) =~= a.line().take(a.col));
    assert(b.line().skip(b.col) =~= a.line().skip(a.col));
    assert(a.line().take(a.col) + a.line().skip(a.col) =~= a.line());
    assert(b.backspaced().lines =~= a.lines);
}

/// Deleting undoes a line break.
pub proof fn law_backspace_undoes_newline(a: AreaView)
    requires
        a.wf(),
    ensures
        a.with_newline().backspaced() == a,
{
    let b = a.with_newline();
    assert(b.line() =~= a.line().skip(a.col));
    assert(b.lines[b.row - 1] =~= a.line().take(a.col));
    assert(a.line().take(a.col) + a.line().skip(a.col) =~= a.line());
    assert(b.backspaced().lines =~= a.lines);
}

/// A step to the right and one to the left lead back, unless the cursor is at
/// the end of the text.
pub proof fn law_left_undoes_right(a: AreaView)
    requires
        a.wf(),
        a.col < a.line().len() || a.row + 1 < a.lines.len(),
    ensures
        a.right().left() == a,
{
}

/// No key takes the cursor out of the text.
pub proof fn law_keys_keep_cursor(a: AreaView, code: KeyCode, mods: KeyModifiers, word_start: int)
    requires
        a.wf(),
        word_start >= 0,
    ensures
        match a.after_key(code, mods, word_start) {
            Some(b) => b.wf(),
            None => true,
        },
{
}

// ── Behind an option ─────────────────────────────────────────────────────

/// What drawing a text behind an option leaves.
pub struct AreaDrawn {
    pub canvas: Canvas,
    pub row: u16,
    pub cursor: Option<(u16, u16)>,
}

/// Draws the first `n` chunks, starting in row `row`; the cursor is at `at`.
pub open spec fn chunks_drawn(
    m: Canvas,
    cs: Seq<Seq<char>>,
    n: int,
    at: (int, int),
    editing: bool,
    text_col: u16,
    row: u16,
) -> AreaDrawn
    decreases n,
{
    if n <= 0 {
        AreaDrawn { canvas: m, row, cursor: None }
    } else {
        let a = chunks_drawn(m, cs, n - 1, at, editing, text_col, row);
        AreaDrawn {
            canvas: a.canvas.print(
                if n == 1 {
                    ", "@
                } else {
                    text::fill(' ', text_col as nat)
                },
            ).print(cs[n - 1]).crlf(),
            row: out::rows_plus(a.row, 1),
            cursor: if editing && n - 1 == at.0 {
                Some((out::rows_plus(text_col, at.1 as u16), a.row))
            } else {
                a.cursor
            },
        }
    }
}

/// Draws a text behind an option, starting in row `row`.
#[verifier::opaque]
pub open spec fn area_drawn(
    m: Canvas,
    a: AreaView,
    editing: bool,
    text_col: u16,
    wrap_w: int,
    row: u16,
) -> AreaDrawn {
    let cs = a.visual(a.lines.len() as int, wrap_w);
    chunks_drawn(m, cs, cs.len() as int, a.visual_cursor(wrap_w), editing, text_col, row)
}

/// Draws a text behind an option: the row behind it, and where the cursor is
/// while the text is edited.
pub fn render_inline_textarea(
    out: &mut RenderOut,
    ta: &TextArea,
    editing: bool,
    text_col: u16,
    wrap_w: usize,
    row: u16,
) -> (r: (u16, Option<(u16, u16)>))
    requires
        ta@.wf(),
    ensures
        (AreaDrawn { canvas: final(out)@, row: r.0, cursor: r.1 }) == area_drawn(
            old(out)@,
            ta@,
            editing,
            text_col,
            wrap_w as int,
            row,
        ),
{
    proof {
        reveal(area_drawn);
    }
    let (vis, at) = ta.wrap(wrap_w);
    let ghost cs = text::texts(vis@);
    let (at_line, at_col) = at;
    let pad = repeat_char(' ', text_col as usize);
    let ghost m = out@;
    let ghost row0 = row;
    let ghost g = (at_line as int, at_col as int);
    let n: usize = vis.len();
    let mut row: u16 = row;
    let mut cursor: Option<(u16, u16)> = None;
    let mut i: usize = 0;
    while i < n
        invariant
            n == vis@.len(),
            i <= n,
            cs == text::texts(vis@),
            g == (at_line as int, at_col as int),
            pad@ == text::fill(' ', text_col as nat),
            (AreaDrawn { canvas: out@, row, cursor }) == chunks_drawn(
                m,
                cs,
                i as int,
                g,
                editing,
                text_col,
                row0,
            ),
        decreases n - i,
    {
        assert(cs[i as int] == vis@[i as int]@);
        if i == 0 {
            out.print(", ");
        } else {
            out.print(pad.as_str());
        }
        out.print(vis[i].as_str());
        if editing && i == at_line {
            #[verifier::truncate]
            let c: u16 = at_col as u16;
            cursor = Some((text_col.saturating_add(c), row));
        }
        crlf(out);
        row = row.saturating_add(1);
        i = i + 1;
    }
    (row, cursor)
}

} // verus!
