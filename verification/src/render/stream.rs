//! Text and thoughts that come in pieces: lines that are complete become
//! blocks, the rest waits.

use vstd::prelude::*;

use crate::render::bars;
use crate::render::history::{BlockHistory, HistoryView, ModeView};
use crate::render::model::Block;
use crate::render::styled;
use crate::render::styled::is_table_separator;
use crate::text;
use crate::text::{
    char_count, chars_of, join, starts_with, trim, trim_start, trim_start_char,
};

verus! {

// ── Blocks that are added ────────────────────────────────────────────────

/// A block that streaming adds.
pub enum Sketch {
    Text(Seq<char>),
    CodeLine(Seq<char>, Seq<char>),
    Thinking(Seq<char>),
}

/// Whether a block is the one that was sketched.
pub open spec fn is_block(b: Block, s: Sketch) -> bool {
    match (b, s) {
        (Block::Text { content }, Sketch::Text(t)) => content@ == t,
        (Block::CodeLine { content, lang }, Sketch::CodeLine(t, l)) => content@ == t && lang@ == l,
        (Block::Thinking { content }, Sketch::Thinking(t)) => content@ == t,
        _ => false,
    }
}

/// `n` blocks more, of which nothing is kept.
pub open spec fn mode_grown(a: ModeView, n: nat) -> ModeView
    decreases n,
{
    if n == 0 {
        a
    } else {
        mode_grown(a, (n - 1) as nat).pushed()
    }
}

/// Whether `b` is `a` with the sketched blocks added.
pub open spec fn grown(a: HistoryView, b: HistoryView, new: Seq<Sketch>) -> bool {
    &&& b.blocks.len() == a.blocks.len() + new.len()
    &&& b.blocks.take(a.blocks.len() as int) == a.blocks
    &&& forall|i: int|
        0 <= i < new.len() ==> is_block(#[trigger] b.blocks[a.blocks.len() + i], new[i])
    &&& b == (HistoryView {
        blocks: b.blocks,
        visible: mode_grown(a.visible, new.len()),
        hidden: mode_grown(a.hidden, new.len()),
        ..a
    })
}

proof fn lemma_mode_grown(a: ModeView, n: nat, k: nat)
    ensures
        mode_grown(mode_grown(a, n), k) == mode_grown(a, n + k),
    decreases k,
{
    if k > 0 {
        lemma_mode_grown(a, n, (k - 1) as nat);
    }
}

proof fn lemma_mode_grown_holds(a: ModeView, n: nat, k: nat)
    requires
        a.holds(n),
    ensures
        mode_grown(a, k).holds(n + k),
    decreases k,
{
    if k > 0 {
        lemma_mode_grown_holds(a, n, (k - 1) as nat);
    }
}

/// A history that has grown is as sound as before.
pub proof fn lemma_grown_wf(a: HistoryView, b: HistoryView, new: Seq<Sketch>)
    requires
        a.wf(),
        grown(a, b, new),
    ensures
        b.wf(),
{
    lemma_mode_grown_holds(a.visible, a.blocks.len(), new.len());
    lemma_mode_grown_holds(a.hidden, a.blocks.len(), new.len());
}

/// What is added in two steps is added.
pub proof fn lemma_grown_twice(
    a: HistoryView,
    b: HistoryView,
    c: HistoryView,
    s: Seq<Sketch>,
    t: Seq<Sketch>,
)
    requires
        grown(a, b, s),
        grown(b, c, t),
    ensures
        grown(a, c, s + t),
{
    lemma_mode_grown(a.visible, s.len(), t.len());
    lemma_mode_grown(a.hidden, s.len(), t.len());
    let n = a.blocks.len() as int;
    let k = b.blocks.len() as int;
    assert(c.blocks.take(n) =~= c.blocks.take(k).take(n));
    assert forall|i: int| 0 <= i < (s + t).len() implies is_block(
        #[trigger] c.blocks[n + i],
        (s + t)[i],
    ) by {
        if i < s.len() {
            assert(c.blocks[n + i] == c.blocks.take(k)[n + i]);
            assert(is_block(b.blocks[n + i], s[i]));
        } else {
            assert(is_block(c.blocks[k + (i - s.len())], t[i - s.len()]));
        }
    }
}

/// Nothing added.
pub proof fn lemma_grown_none(a: HistoryView)
    ensures
        grown(a, a, seq![]),
{
    assert(a.blocks.take(a.blocks.len() as int) =~= a.blocks);
}

fn add_block(history: &mut BlockHistory, block: Block, Ghost(s): Ghost<Sketch>)
    requires
        is_block(block, s),
    ensures
        grown(old(history)@, final(history)@, seq![s]),
{
    let ghost a = history@;
    history.push(block);
    proof {
        let b = history@;
        assert(b.blocks.take(a.blocks.len() as int) =~= a.blocks);
        assert(mode_grown(a.visible, 0) == a.visible);
        assert(mode_grown(a.hidden, 0) == a.hidden);
        assert(mode_grown(a.visible, 1) == a.visible.pushed());
        assert(mode_grown(a.hidden, 1) == a.hidden.pushed());
        assert(b.blocks[a.blocks.len() + 0int] == block);
    }
}

// ── Thoughts ─────────────────────────────────────────────────────────────

/// Thoughts that come in.
pub struct ActiveThinking {
    pub current_line: String,
    pub paragraph: String,
}

/// Thoughts that come in, and the blocks that came of them.
pub struct ThinkState {
    pub line: Seq<char>,
    pub paragraph: Seq<char>,
    pub new: Seq<Sketch>,
}

/// `b` behind `a`, in a line of its own unless `a` is empty.
pub open spec fn below(a: Seq<char>, b: Seq<char>) -> Seq<char> {
    if a.len() > 0 {
        a.push('\n') + b
    } else {
        a + b
    }
}

/// Takes a character: a blank line ends a paragraph, which becomes a block.
pub open spec fn think_char(s: ThinkState, c: char) -> ThinkState {
    if c == '\r' {
        s
    } else if c == '\n' {
        if text::trimmed(s.line).len() == 0 && s.paragraph.len() > 0 {
            ThinkState {
                line: seq![],
                paragraph: seq![],
                new: s.new.push(Sketch::Thinking(s.paragraph.push('\n'))),
            }
        } else {
            ThinkState { line: seq![], paragraph: below(s.paragraph, s.line), ..s }
        }
    } else {
        ThinkState { line: s.line.push(c), ..s }
    }
}

/// Takes the first `n` characters.
pub open spec fn think_chars(s: ThinkState, delta: Seq<char>, n: int) -> ThinkState
    decreases n,
{
    if n <= 0 {
        s
    } else {
        think_char(think_chars(s, delta, n - 1), delta[n - 1])
    }
}

/// The block that is left when the thoughts end, if any.
pub open spec fn think_rest(line: Seq<char>, paragraph: Seq<char>) -> Seq<Sketch> {
    let p = if line.len() > 0 {
        below(paragraph, line)
    } else {
        paragraph
    };
    let t = text::trimmed(p);
    if t.len() > 0 {
        seq![Sketch::Thinking(t)]
    } else {
        seq![]
    }
}

fn put_below(a: &mut String, b: &str)
    ensures
        final(a)@ == below(old(a)@, b@),
{
    if char_count(a.as_str()) > 0 {
        a.push('\n');
    }
    a.append(b);
}

impl ActiveThinking {
    pub fn new() -> (r: ActiveThinking)
        ensures
            r.current_line@ == Seq::<char>::empty(),
            r.paragraph@ == Seq::<char>::empty(),
    {
        let r = ActiveThinking { current_line: String::new(), paragraph: String::new() };
        assert(r.current_line@ =~= Seq::<char>::empty());
        assert(r.paragraph@ =~= Seq::<char>::empty());
        r
    }

    /// The state, with the blocks that came so far.
    pub open spec fn state(self, new: Seq<Sketch>) -> ThinkState {
        ThinkState { line: self.current_line@, paragraph: self.paragraph@, new }
    }

    /// Takes a piece of thoughts; paragraphs that are complete become blocks.
    pub fn feed(&mut self, history: &mut BlockHistory, delta: &str)
        ensures
            ({
                let s = think_chars(old(self).state(seq![]), delta@, delta@.len() as int);
                &&& final(self).state(s.new) == s
                &&& grown(old(history)@, final(history)@, s.new)
            }),
    {
        let chars = chars_of(delta);
        let ghost s0 = self.state(seq![]);
        let ghost h0 = history@;
        let mut i: usize = 0;
        proof {
            lemma_grown_none(h0);
        }
        while i < chars.len()
            invariant
                chars@ == delta@,
                i <= chars@.len(),
                ({
                    let s = think_chars(s0, delta@, i as int);
                    &&& self.state(s.new) == s
                    &&& grown(h0, history@, s.new)
                }),
            decreases chars@.len() - i,
        {
            let ghost s = think_chars(s0, delta@, i as int);
            let ghost h1 = history@;
            let c = chars[i];
            if c == '\r' {
            } else if c == '\n' {
                let t = trim(self.current_line.as_str());
                if char_count(t.as_str()) == 0 && char_count(self.paragraph.as_str()) > 0 {
                    let mut p = self.paragraph.clone();
                    p.push('\n');
                    add_block(
                        history,
                        Block::Thinking { content: p },
                        Ghost(Sketch::Thinking(p@)),
                    );
                    proof {
                        lemma_grown_twice(h0, h1, history@, s.new, seq![Sketch::Thinking(p@)]);
                        assert(s.new + seq![Sketch::Thinking(p@)] =~= s.new.push(
                            Sketch::Thinking(p@),
                        ));
                    }
                    self.paragraph = String::new();
                    assert(self.paragraph@ =~= Seq::<char>::empty());
                } else {
                    put_below(&mut self.paragraph, self.current_line.as_str());
                }
                self.current_line = String::new();
                assert(self.current_line@ =~= Seq::<char>::empty());
            } else {
                self.current_line.push(c);
            }
            i = i + 1;
        }
    }

    /// Ends the thoughts; what is left becomes a block.
    pub fn finish(self, history: &mut BlockHistory)
        ensures
            grown(
                old(history)@,
                final(history)@,
                think_rest(self.current_line@, self.paragraph@),
            ),
    {
        let mut p = self.paragraph;
        if char_count(self.current_line.as_str()) > 0 {
            put_below(&mut p, self.current_line.as_str());
        }
        let t = trim(p.as_str());
        if char_count(t.as_str()) > 0 {
            let ghost tv = t@;
            add_block(history, Block::Thinking { content: t }, Ghost(Sketch::Thinking(tv)));
        } else {
            proof {
                lemma_grown_none(history@);
            }
        }
    }
}

// ── Text ─────────────────────────────────────────────────────────────────

/// Text that comes in.
pub struct ActiveText {
    pub current_line: String,
    pub paragraph: String,
    /// The language of the code block that is open.
    pub in_code_block: Option<String>,
    /// The rows of the table that is open.
    pub table_rows: Vec<String>,
    /// How many of them are no separators.
    pub table_data_rows: usize,
}

/// Text that comes in, and the blocks that came of it.
pub struct TextState {
    pub line: Seq<char>,
    pub paragraph: Seq<char>,
    pub code: Option<Seq<char>>,
    pub table: Seq<Seq<char>>,
    pub data_rows: int,
    pub new: Seq<Sketch>,
}

/// Ends the paragraph.
pub open spec fn paragraph_done(s: TextState) -> TextState {
    let t = text::trimmed(s.paragraph);
    TextState {
        paragraph: seq![],
        new: if t.len() > 0 {
            s.new.push(Sketch::Text(t))
        } else {
            s.new
        },
        ..s
    }
}

/// Ends the table.
pub open spec fn table_done(s: TextState) -> TextState {
    if s.table.len() > 0 {
        TextState {
            table: seq![],
            data_rows: 0,
            new: s.new.push(Sketch::Text(text::join_texts(s.table, "\n"@))),
            ..s
        }
    } else {
        s
    }
}

/// Whether a line opens or closes a code block.
pub open spec fn is_fence(line: Seq<char>) -> bool {
    text::has_prefix(text::trim_front(line), "```"@)
}

/// Whether a line is a row of a table.
pub open spec fn is_row(line: Seq<char>) -> bool {
    let t = text::trim_front(line);
    t.len() > 0 && t[0] == '|'
}

/// The language behind the backticks that open a code block.
pub open spec fn language(line: Seq<char>) -> Seq<char> {
    text::trimmed(text::drop_front(text::trim_front(line), |x: char| x == '`'))
}

/// Takes a complete line: fences open and close code blocks, whose lines
/// become blocks at once; rows of a table wait for its end; blank lines end
/// paragraphs.
pub open spec fn text_line(s: TextState, line: Seq<char>) -> TextState {
    if is_fence(line) {
        match s.code {
            Some(_) => TextState { code: None, ..s },
            None => TextState {
                code: Some(language(line)),
                ..table_done(paragraph_done(s))
            },
        }
    } else {
        match s.code {
            Some(lang) => TextState { new: s.new.push(Sketch::CodeLine(line, lang)), ..s },
            None => if is_row(line) {
                let p = paragraph_done(s);
                TextState {
                    data_rows: if styled::table_separator(line) {
                        p.data_rows
                    } else {
                        bars::capped(p.data_rows + 1)
                    },
                    table: p.table.push(line),
                    ..p
                }
            } else if text::trimmed(line).len() == 0 {
                if s.table.len() > 0 || s.paragraph.len() == 0 {
                    s
                } else {
                    paragraph_done(s)
                }
            } else {
                let t = table_done(s);
                TextState { paragraph: below(t.paragraph, line), ..t }
            },
        }
    }
}

/// Takes a character.
pub open spec fn text_char(s: TextState, c: char) -> TextState {
    if c == '\r' {
        s
    } else if c == '\n' {
        text_line(TextState { line: seq![], ..s }, s.line)
    } else {
        TextState { line: s.line.push(c), ..s }
    }
}

/// Takes the first `n` characters.
pub open spec fn text_chars(s: TextState, delta: Seq<char>, n: int) -> TextState
    decreases n,
{
    if n <= 0 {
        s
    } else {
        text_char(text_chars(s, delta, n - 1), delta[n - 1])
    }
}

/// Ends the text: an open line of code becomes a block unless it is a fence,
/// an open row belongs to its table, and the rest is a paragraph.
pub open spec fn text_end(s: TextState) -> TextState {
    let s = match s.code {
        Some(lang) => {
            let s = if is_fence(s.line) {
                TextState { line: seq![], ..s }
            } else if s.line.len() > 0 {
                TextState {
                    new: s.new.push(Sketch::CodeLine(s.line, lang)),
                    line: seq![],
                    ..s
                }
            } else {
                s
            };
            TextState { code: None, ..s }
        },
        None => s,
    };
    let s = if s.line.len() > 0 && is_row(s.line) {
        TextState { table: s.table.push(s.line), line: seq![], ..s }
    } else {
        s
    };
    let s = table_done(s);
    let s = if s.line.len() > 0 {
        TextState { paragraph: below(s.paragraph, s.line), ..s }
    } else {
        s
    };
    paragraph_done(s)
}

fn line_is_fence(line: &str) -> (r: bool)
    ensures
        r == is_fence(line@),
{
    let t = trim_start(line);
    starts_with(t.as_str(), "```")
}

fn line_is_row(line: &str) -> (r: bool)
    ensures
        r == is_row(line@),
{
    let t = trim_start(line);
    let c = chars_of(t.as_str());
    c.len() > 0 && c[0] == '|'
}

impl ActiveText {
    /// The state, with the blocks that came so far.
    pub open spec fn state(self, new: Seq<Sketch>) -> TextState {
        TextState {
            line: self.current_line@,
            paragraph: self.paragraph@,
            code: match self.in_code_block {
                Some(l) => Some(l@),
                None => None,
            },
            table: text::texts(self.table_rows@),
            data_rows: self.table_data_rows as int,
            new,
        }
    }

    pub fn new() -> (r: ActiveText)
        ensures
            r.state(seq![]) == (TextState {
                line: seq![],
                paragraph: seq![],
                code: None,
                table: seq![],
                data_rows: 0,
                new: seq![],
            }),
    {
        let r = ActiveText {
            current_line: String::new(),
            paragraph: String::new(),
            in_code_block: None,
            table_rows: Vec::new(),
            table_data_rows: 0,
        };
        assert(r.current_line@ =~= Seq::<char>::empty());
        assert(r.paragraph@ =~= Seq::<char>::empty());
        assert(text::texts(r.table_rows@) =~= seq![]);
        r
    }

    fn commit_paragraph(
        &mut self,
        history: &mut BlockHistory,
        Ghost(h0): Ghost<HistoryView>,
        Ghost(new): Ghost<Seq<Sketch>>,
    )
        requires
            grown(h0, old(history)@, new),
        ensures
            ({
                let s = paragraph_done(old(self).state(new));
                final(self).state(s.new) == s && grown(h0, final(history)@, s.new)
            }),
    {
        let ghost h1 = history@;
        let t = trim(self.paragraph.as_str());
        if char_count(t.as_str()) > 0 {
            let ghost tv = t@;
            add_block(history, Block::Text { content: t }, Ghost(Sketch::Text(tv)));
            proof {
                lemma_grown_twice(h0, h1, history@, new, seq![Sketch::Text(tv)]);
                assert(new + seq![Sketch::Text(tv)] =~= new.push(Sketch::Text(tv)));
            }
        }
        self.paragraph = String::new();
        assert(self.paragraph@ =~= Seq::<char>::empty());
    }

    fn commit_table(
        &mut self,
        history: &mut BlockHistory,
        Ghost(h0): Ghost<HistoryView>,
        Ghost(new): Ghost<Seq<Sketch>>,
    )
        requires
            grown(h0, old(history)@, new),
        ensures
            ({
                let s = table_done(old(self).state(new));
                final(self).state(s.new) == s && grown(h0, final(history)@, s.new)
            }),
    {
        let ghost h1 = history@;
        assert(text::texts(self.table_rows@).len() == self.table_rows@.len());
        if self.table_rows.len() > 0 {
            let t = join(&self.table_rows, "\n");
            let ghost tv = t@;
            add_block(history, Block::Text { content: t }, Ghost(Sketch::Text(tv)));
            proof {
                lemma_grown_twice(h0, h1, history@, new, seq![Sketch::Text(tv)]);
                assert(new + seq![Sketch::Text(tv)] =~= new.push(Sketch::Text(tv)));
            }
            self.table_rows = Vec::new();
            self.table_data_rows = 0;
            assert(text::texts(self.table_rows@) =~= seq![]);
        }
    }

    fn commit_code_line(
        &self,
        history: &mut BlockHistory,
        line: &str,
        lang: &str,
        Ghost(h0): Ghost<HistoryView>,
        Ghost(new): Ghost<Seq<Sketch>>,
    )
        requires
            grown(h0, old(history)@, new),
        ensures
            grown(h0, final(history)@, new.push(Sketch::CodeLine(line@, lang@))),
    {
        let ghost h1 = history@;
        let ghost s = Sketch::CodeLine(line@, lang@);
        add_block(
            history,
            Block::CodeLine { content: line.to_owned(), lang: lang.to_owned() },
            Ghost(s),
        );
        proof {
            lemma_grown_twice(h0, h1, history@, new, seq![s]);
            assert(new + seq![s] =~= new.push(s));
        }
    }

    fn push_row(&mut self, row: String)
        ensures
            final(self).state(seq![]) == (TextState {
                table: old(self).state(seq![]).table.push(row@),
                ..old(self).state(seq![])
            }),
    {
        let ghost before = self.table_rows@;
        self.table_rows.push(row);
        proof {
            text::lemma_texts_push(before, row);
        }
    }

    fn process_line(
        &mut self,
        history: &mut BlockHistory,
        line: &str,
        Ghost(h0): Ghost<HistoryView>,
        Ghost(new): Ghost<Seq<Sketch>>,
    )
        requires
            grown(h0, old(history)@, new),
        ensures
            ({
                let s = text_line(old(self).state(new), line@);
                final(self).state(s.new) == s && grown(h0, final(history)@, s.new)
            }),
    {
        if line_is_fence(line) {
            if self.in_code_block.is_some() {
                self.in_code_block = None;
            } else {
                self.commit_paragraph(history, Ghost(h0), Ghost(new));
                let ghost n2 = paragraph_done(old(self).state(new)).new;
                self.commit_table(history, Ghost(h0), Ghost(n2));
                let t = trim_start(line);
                let t = trim_start_char(t.as_str(), '`');
                self.in_code_block = Some(trim(t.as_str()));
            }
            return;
        }
        match &self.in_code_block {
            Some(lang) => {
                self.commit_code_line(history, line, lang.as_str(), Ghost(h0), Ghost(new));
                return;
            },
            None => {},
        }
        if line_is_row(line) {
            self.commit_paragraph(history, Ghost(h0), Ghost(new));
            if !is_table_separator(line) {
                self.table_data_rows = self.table_data_rows.saturating_add(1);
            }
            self.push_row(line.to_owned());
            return;
        }
        let t = trim(line);
        assert(text::texts(self.table_rows@).len() == self.table_rows@.len());
        if char_count(t.as_str()) == 0 {
            if self.table_rows.len() == 0 && char_count(self.paragraph.as_str()) > 0 {
                self.commit_paragraph(history, Ghost(h0), Ghost(new));
            }
            return;
        }
        self.commit_table(history, Ghost(h0), Ghost(new));
        put_below(&mut self.paragraph, line);
    }

    /// Takes a piece of text; what is complete becomes blocks.
    pub fn feed(&mut self, history: &mut BlockHistory, delta: &str)
        ensures
            ({
                let s = text_chars(old(self).state(seq![]), delta@, delta@.len() as int);
                &&& final(self).state(s.new) == s
                &&& grown(old(history)@, final(history)@, s.new)
            }),
    {
        let chars = chars_of(delta);
        let ghost s0 = self.state(seq![]);
        let ghost h0 = history@;
        let mut i: usize = 0;
        proof {
            lemma_grown_none(h0);
        }
        while i < chars.len()
            invariant
                chars@ == delta@,
                i <= chars@.len(),
                ({
                    let s = text_chars(s0, delta@, i as int);
                    &&& self.state(s.new) == s
                    &&& grown(h0, history@, s.new)
                }),
            decreases chars@.len() - i,
        {
            let ghost s = text_chars(s0, delta@, i as int);
            let c = chars[i];
            if c == '\r' {
            } else if c == '\n' {
                let line = self.current_line.clone();
                self.current_line = String::new();
                assert(self.current_line@ =~= Seq::<char>::empty());
                self.process_line(history, line.as_str(), Ghost(h0), Ghost(s.new));
            } else {
                self.current_line.push(c);
            }
            i = i + 1;
        }
    }

    /// Ends the text; what is left becomes blocks.
    pub fn finish(self, history: &mut BlockHistory)
        ensures
            grown(
                old(history)@,
                final(history)@,
                text_end(self.state(seq![])).new,
            ),
    {
        let ghost h0 = history@;
        let mut at = self;
        proof {
            lemma_grown_none(h0);
        }
        let ghost mut new: Seq<Sketch> = seq![];
        match &at.in_code_block {
            Some(lang) => {
                if line_is_fence(at.current_line.as_str()) {
                    at.current_line = String::new();
                } else if char_count(at.current_line.as_str()) > 0 {
                    at.commit_code_line(
                        history,
                        at.current_line.as_str(),
                        lang.as_str(),
                        Ghost(h0),
                        Ghost(new),
                    );
                    proof {
                        new = new.push(Sketch::CodeLine(at.current_line@, lang@));
                    }
                    at.current_line = String::new();
                }
                assert(at.current_line@ =~= Seq::<char>::empty());
                at.in_code_block = None;
            },
            None => {},
        }
        if char_count(at.current_line.as_str()) > 0 && line_is_row(at.current_line.as_str()) {
            let row = at.current_line.clone();
            at.push_row(row);
            at.current_line = String::new();
            assert(at.current_line@ =~= Seq::<char>::empty());
        }
        let ghost s1 = at.state(new);
        at.commit_table(history, Ghost(h0), Ghost(new));
        let ghost n2 = table_done(s1).new;
        if char_count(at.current_line.as_str()) > 0 {
            put_below(&mut at.paragraph, at.current_line.as_str());
        }
        at.commit_paragraph(history, Ghost(h0), Ghost(n2));
    }
}

// ── Laws ─────────────────────────────────────────────────────────────────

proof fn lemma_text_chars_prefix(s: TextState, a: Seq<char>, b: Seq<char>, n: int)
    requires
        0 <= n <= a.len(),
        n <= b.len(),
        forall|i: int| 0 <= i < n ==> a[i] == b[i],
    ensures
        text_chars(s, a, n) == text_chars(s, b, n),
    decreases n,
{
    if n > 0 {
        lemma_text_chars_prefix(s, a, b, n - 1);
    }
}

/// It does not matter in which pieces text comes: a piece and then another
/// leave what both together leave.
pub proof fn law_text_pieces_do_not_matter(s: TextState, a: Seq<char>, b: Seq<char>, n: int)
    requires
        0 <= n <= b.len(),
    ensures
        text_chars(s, a + b, a.len() + n) == text_chars(
            text_chars(s, a, a.len() as int),
            b,
            n,
        ),
    decreases n,
{
    if n > 0 {
        law_text_pieces_do_not_matter(s, a, b, n - 1);
    } else {
        lemma_text_chars_prefix(s, a + b, a, a.len() as int);
    }
}

proof fn lemma_think_chars_prefix(s: ThinkState, a: Seq<char>, b: Seq<char>, n: int)
    requires
        0 <= n <= a.len(),
        n <= b.len(),
        forall|i: int| 0 <= i < n ==> a[i] == b[i],
    ensures
        think_chars(s, a, n) == think_chars(s, b, n),
    decreases n,
{
    if n > 0 {
        lemma_think_chars_prefix(s, a, b, n - 1);
    }
}

/// It does not matter in which pieces thoughts come.
pub proof fn law_thinking_pieces_do_not_matter(s: ThinkState, a: Seq<char>, b: Seq<char>, n: int)
    requires
        0 <= n <= b.len(),
    ensures
        think_chars(s, a + b, a.len() + n) == think_chars(
            think_chars(s, a, a.len() as int),
            b,
            n,
        ),
    decreases n,
{
    if n > 0 {
        law_thinking_pieces_do_not_matter(s, a, b, n - 1);
    } else {
        lemma_think_chars_prefix(s, a + b, a, a.len() as int);
    }
}

/// Carriage returns make no difference.
pub proof fn law_carriage_returns_are_dropped(s: TextState, t: ThinkState)
    ensures
        text_char(s, '\r') == s,
        think_char(t, '\r') == t,
{
}

/// Blocks that came stay: taking more only adds to them.
pub proof fn law_streaming_only_adds(s: TextState, delta: Seq<char>, n: int)
    requires
        0 <= n <= delta.len(),
    ensures
        text_chars(s, delta, n).new.len() >= s.new.len(),
        text_chars(s, delta, n).new.take(s.new.len() as int) == s.new,
        text_end(s).new.len() >= s.new.len(),
        text_end(s).new.take(s.new.len() as int) == s.new,
    decreases n,
{
    assert(s.new.take(s.new.len() as int) =~= s.new);
    assert(text_end(s).new.take(s.new.len() as int) =~= s.new);
    if n > 0 {
        law_streaming_only_adds(s, delta, n - 1);
        let a = text_chars(s, delta, n - 1);
        let b = text_chars(s, delta, n);
        assert(b.new.len() >= a.new.len());
        assert(b.new.take(a.new.len() as int) =~= a.new);
        assert(b.new.take(s.new.len() as int) =~= a.new.take(s.new.len() as int));
    }
}

} // verus!
