//! What becomes of streamed text: code is kept character for character, and
//! no visible character is lost.

use vstd::prelude::*;

use crate::render::seen;
use crate::render::stream;
use crate::render::stream::{Sketch, TextState, ThinkState};
use crate::text;

verus! {

/// Lines as they are typed: each ends in a line break.
pub open spec fn typed(lines: Seq<Seq<char>>) -> Seq<char>
    decreases lines.len(),
{
    if lines.len() == 0 {
        seq![]
    } else {
        typed(lines.drop_last()) + lines.last().push('\n')
    }
}

/// Whether a text is a single line.
pub open spec fn unbroken(t: Seq<char>) -> bool {
    forall|i: int| 0 <= i < t.len() ==> #[trigger] t[i] != '\n' && t[i] != '\r'
}

/// Whether every text is a single line.
pub open spec fn all_unbroken(lines: Seq<Seq<char>>) -> bool {
    forall|i: int| 0 <= i < lines.len() ==> unbroken(#[trigger] lines[i])
}

/// Whether a line starts, behind white space, with three backticks.
pub open spec fn fenced(line: Seq<char>) -> bool {
    text::has_prefix(text::trim_front(line), "```"@)
}

/// Lines of code.
pub open spec fn code_lines(lines: Seq<Seq<char>>, lang: Seq<char>) -> Seq<Sketch> {
    Seq::new(lines.len(), |i: int| Sketch::CodeLine(lines[i], lang))
}

/// The text of a block.
pub open spec fn content(b: Sketch) -> Seq<char> {
    match b {
        Sketch::Text(t) => t,
        Sketch::CodeLine(t, _) => t,
        Sketch::Thinking(t) => t,
    }
}

/// The texts of blocks.
pub open spec fn contents(v: Seq<Sketch>) -> Seq<Seq<char>> {
    Seq::new(v.len(), |i: int| content(v[i]))
}

/// Nothing received yet.
pub open spec fn fresh_text() -> TextState {
    TextState {
        line: seq![],
        paragraph: seq![],
        code: None,
        table: seq![],
        data_rows: 0,
        new: seq![],
    }
}

/// No thought received yet.
pub open spec fn fresh_thoughts() -> ThinkState {
    ThinkState { line: seq![], paragraph: seq![], new: seq![] }
}

proof fn lemma_line_grows(s: TextState, t: Seq<char>, n: int)
    requires
        unbroken(t),
        0 <= n <= t.len(),
    ensures
        stream::text_chars(s, t, n) == (TextState { line: s.line + t.take(n), ..s }),
    decreases n,
{
    if n > 0 {
        lemma_line_grows(s, t, n - 1);
        assert(t[n - 1] != '\n');
        assert(s.line + t.take(n) =~= (s.line + t.take(n - 1)).push(t[n - 1]));
    } else {
        assert(s.line + t.take(0) =~= s.line);
    }
}

proof fn lemma_typed_line(s: TextState, t: Seq<char>)
    requires
        s.line.len() == 0,
        unbroken(t),
    ensures
        stream::text_chars(s, t.push('\n'), t.len() as int + 1) == stream::text_line(s, t),
{
    lemma_line_grows(s, t, t.len() as int);
    stream::law_text_pieces_do_not_matter(s, t, seq!['\n'], 1);
    assert(t + seq!['\n'] =~= t.push('\n'));
    let a = stream::text_chars(s, t, t.len() as int);
    assert(a.line =~= t);
    assert(stream::text_chars(a, seq!['\n'], 0) == a);
    assert(stream::text_chars(a, seq!['\n'], 1) == stream::text_char(a, '\n'));
    let b = TextState { line: seq![], ..a };
    assert(s.line =~= seq![]);
    assert(b == s);
}

/// Text received line by line.
pub open spec fn received(s: TextState, lines: Seq<Seq<char>>) -> TextState {
    stream::text_chars(s, typed(lines), typed(lines).len() as int)
}

proof fn lemma_received(s: TextState, lines: Seq<Seq<char>>)
    requires
        s.line.len() == 0,
        all_unbroken(lines),
    ensures
        received(s, lines).line.len() == 0,
        lines.len() == 0 ==> received(s, lines) == s,
        lines.len() > 0 ==> received(s, lines) == stream::text_line(
            received(s, lines.drop_last()),
            lines.last(),
        ),
    decreases lines.len(),
{
    if lines.len() > 0 {
        let a = lines.drop_last();
        assert(all_unbroken(a)) by {
            assert forall|i: int| 0 <= i < a.len() implies unbroken(#[trigger] a[i]) by {
                assert(unbroken(lines[i]));
            }
        }
        lemma_received(s, a);
        let t = lines.last();
        assert(unbroken(lines[lines.len() - 1]));
        lemma_typed_line(received(s, a), t);
        stream::law_text_pieces_do_not_matter(
            s,
            typed(a),
            t.push('\n'),
            t.len() as int + 1,
        );
    }
}

proof fn lemma_received_twice(s: TextState, a: Seq<Seq<char>>, b: Seq<Seq<char>>)
    requires
        s.line.len() == 0,
        all_unbroken(a),
        all_unbroken(b),
    ensures
        received(s, a + b) == received(received(s, a), b),
        all_unbroken(a + b),
    decreases b.len(),
{
    let ab = a + b;
    assert(all_unbroken(ab)) by {
        assert forall|i: int| 0 <= i < ab.len() implies unbroken(#[trigger] ab[i]) by {
            if i < a.len() {
                assert(unbroken(a[i]));
            } else {
                assert(unbroken(b[i - a.len()]));
            }
        }
    }
    lemma_received(s, a);
    lemma_received(s, ab);
    lemma_received(received(s, a), b);
    if b.len() == 0 {
        assert(ab =~= a);
    } else {
        assert(ab.drop_last() =~= a + b.drop_last());
        assert(all_unbroken(b.drop_last())) by {
            assert forall|i: int| 0 <= i < b.drop_last().len() implies unbroken(
                #[trigger] b.drop_last()[i],
            ) by {
                assert(unbroken(b[i]));
            }
        }
        lemma_received_twice(s, a, b.drop_last());
    }
}

// ── Code ─────────────────────────────────────────────────────────────────

/// Lines that are received while a code block is open, and are no fences,
/// become one block each, which holds the line character for character and
/// the language of the block; nothing else changes.
pub proof fn law_code_is_kept(s: TextState, lang: Seq<char>, lines: Seq<Seq<char>>)
    requires
        s.line.len() == 0,
        s.code == Some(lang),
        all_unbroken(lines),
        forall|i: int| 0 <= i < lines.len() ==> !fenced(#[trigger] lines[i]),
    ensures
        received(s, lines) == (TextState { new: s.new + code_lines(lines, lang), ..s }),
    decreases lines.len(),
{
    lemma_received(s, lines);
    if lines.len() == 0 {
        assert(s.new + code_lines(lines, lang) =~= s.new);
    } else {
        let a = lines.drop_last();
        assert(all_unbroken(a)) by {
            assert forall|i: int| 0 <= i < a.len() implies unbroken(#[trigger] a[i]) by {
                assert(unbroken(lines[i]));
            }
        }
        assert forall|i: int| 0 <= i < a.len() implies !fenced(#[trigger] a[i]) by {
            assert(!fenced(lines[i]));
        }
        law_code_is_kept(s, lang, a);
        assert(!fenced(lines[lines.len() - 1]));
        assert(s.new + code_lines(lines, lang) =~= (s.new + code_lines(a, lang)).push(
            Sketch::CodeLine(lines.last(), lang),
        ));
    }
}

/// Text between two fences becomes one block for each of its lines, which
/// holds the line character for character: joined by line breaks, the blocks
/// are the text between the fences. Their language is what stands behind the
/// backticks. A block that the text does not close is kept alike, its last
/// line included.
pub proof fn law_fenced_text_is_kept(
    s: TextState,
    info: Seq<char>,
    lines: Seq<Seq<char>>,
    close: Seq<char>,
    rest: Seq<char>,
)
    requires
        s.line.len() == 0,
        s.code is None,
        s.paragraph.len() == 0,
        s.table.len() == 0,
        unbroken(info),
        info.len() > 0 ==> info[0] != '`',
        all_unbroken(lines),
        forall|i: int| 0 <= i < lines.len() ==> !fenced(#[trigger] lines[i]),
        unbroken(close),
        fenced(close),
        unbroken(rest),
        !fenced(rest),
        rest.len() > 0,
    ensures
        received(s, seq!["```"@ + info] + lines + seq![close]) == (TextState {
            new: s.new + code_lines(lines, text::trimmed(info)),
            ..s
        }),
        ({
            let open = received(s, seq!["```"@ + info] + lines);
            stream::text_end(
                stream::text_chars(open, rest, rest.len() as int),
            ).new == s.new + code_lines(lines.push(rest), text::trimmed(info))
        }),
{
    let lang = text::trimmed(info);
    let first = "```"@ + info;
    reveal_strlit("```");
    assert(unbroken(first)) by {
        assert forall|i: int| 0 <= i < first.len() implies #[trigger] first[i] != '\n' && first[i]
            != '\r' by {
            if i >= 3 {
                assert(first[i] == info[i - 3]);
            }
        }
    }
    assert(all_unbroken(seq![first]));
    assert(all_unbroken(seq![close]));
    assert(text::trim_front(first) == first);
    assert(first.take(3) =~= "```"@);
    assert(fenced(first));
    let tick = |x: char| x == '`';
    assert(text::drop_front(first, tick) == info) by {
        let a = first.skip(1);
        let b = a.skip(1);
        assert(b.skip(1) =~= info);
        assert(first[0] == '`' && a[0] == '`' && b[0] == '`');
        assert(text::drop_front(info, tick) == info);
        assert(text::drop_front(b, tick) == text::drop_front(b.skip(1), tick));
        assert(text::drop_front(a, tick) == text::drop_front(b, tick));
        assert(text::drop_front(first, tick) == text::drop_front(a, tick));
    }
    lemma_received(s, seq![first]);
    assert(seq![first].drop_last() =~= seq![]);
    lemma_received(s, seq![]);
    let o = received(s, seq![first]);
    assert(s.paragraph =~= seq![]);
    assert(text::trimmed(s.paragraph) == s.paragraph);
    assert(o == (TextState { code: Some(lang), ..s }));
    law_code_is_kept(o, lang, lines);
    lemma_received_twice(s, seq![first], lines);
    let open = received(s, seq![first] + lines);
    lemma_received_twice(s, seq![first] + lines, seq![close]);
    lemma_received(open, seq![close]);
    assert(seq![close].drop_last() =~= seq![]);
    lemma_received(open, seq![]);
    assert(s.code == None::<Seq<char>>);
    lemma_line_grows(open, rest, rest.len() as int);
    assert(open.line + rest.take(rest.len() as int) =~= rest);
    assert(s.new + code_lines(lines.push(rest), lang) =~= (s.new + code_lines(lines, lang)).push(
        Sketch::CodeLine(rest, lang),
    ));
}

// ── Paragraphs and tables ────────────────────────────────────────────────

/// Whether a line is part of a paragraph: not blank, no fence, and no row of
/// a table.
pub open spec fn prose(line: Seq<char>) -> bool {
    &&& text::trimmed(line).len() > 0
    &&& !fenced(line)
    &&& text::trim_front(line)[0] != '|'
}

/// Whether a line is a row of a table: it starts, behind white space, with a
/// bar.
pub open spec fn tabular(line: Seq<char>) -> bool {
    text::trim_front(line).len() > 0 && text::trim_front(line)[0] == '|'
}

/// Lines up to a blank line become one block, which holds them joined by
/// line breaks, without white space around the whole.
pub proof fn law_paragraph_is_one_block(lines: Seq<Seq<char>>, blank: Seq<char>)
    requires
        lines.len() > 0,
        all_unbroken(lines),
        forall|i: int| 0 <= i < lines.len() ==> prose(#[trigger] lines[i]),
        unbroken(blank),
        seen::ink(blank).len() == 0,
    ensures
        received(fresh_text(), lines) == (TextState {
            paragraph: text::join_texts(lines, "\n"@),
            ..fresh_text()
        }),
        received(fresh_text(), lines.push(blank)) == (TextState {
            new: seq![Sketch::Text(text::trimmed(text::join_texts(lines, "\n"@)))],
            ..fresh_text()
        }),
    decreases lines.len(),
{
    let s = fresh_text();
    let a = lines.drop_last();
    reveal_strlit("\n");
    lemma_received(s, lines);
    assert(prose(lines[lines.len() - 1]));
    if lines.len() == 1 {
        assert(a =~= seq![]);
        lemma_received(s, a);
        assert(s.paragraph + lines.last() =~= lines[0]);
        assert(text::join_texts(lines, "\n"@) == lines[0]);
        lemma_trimmed_inside(lines[0]);
    } else {
        assert(all_unbroken(a)) by {
            assert forall|i: int| 0 <= i < a.len() implies unbroken(#[trigger] a[i]) by {
                assert(unbroken(lines[i]));
            }
        }
        assert forall|i: int| 0 <= i < a.len() implies prose(#[trigger] a[i]) by {
            assert(prose(lines[i]));
        }
        law_paragraph_is_one_block(a, blank);
        let p = text::join_texts(a, "\n"@);
        lemma_joined_not_empty(a);
        assert(p.push('\n') + lines.last() =~= p + "\n"@ + lines.last());
    }
    lemma_joined_not_empty(lines);
    let all = lines.push(blank);
    assert(all_unbroken(all)) by {
        assert forall|i: int| 0 <= i < all.len() implies unbroken(#[trigger] all[i]) by {
            if i < lines.len() {
                assert(unbroken(lines[i]));
            }
        }
    }
    lemma_received(s, all);
    assert(all.drop_last() =~= lines);
    lemma_blank(blank);
    assert(s.new.push(Sketch::Text(text::trimmed(text::join_texts(lines, "\n"@)))) =~= seq![
        Sketch::Text(text::trimmed(text::join_texts(lines, "\n"@))),
    ]);
}

proof fn lemma_blank(t: Seq<char>)
    requires
        seen::ink(t).len() == 0,
    ensures
        text::trim_front(t).len() == 0,
        text::trimmed(t).len() == 0,
        !fenced(t),
{
    reveal_strlit("```");
    lemma_ink_of_front(t);
}

proof fn lemma_ink_of_front(t: Seq<char>)
    requires
        seen::ink(t).len() == 0,
    ensures
        text::trim_front(t).len() == 0,
    decreases t.len(),
{
    if t.len() > 0 {
        assert(t =~= t.take(1) + t.skip(1));
        seen::lemma_ink_add(t.take(1), t.skip(1));
        assert(t.take(1).drop_last() =~= seq![]);
        assert(t.take(1).last() == t[0]);
        lemma_ink_of_front(t.skip(1));
    }
}

proof fn lemma_trimmed_inside(t: Seq<char>)
    requires
        text::trimmed(t).len() > 0,
    ensures
        seen::ink(t).len() > 0,
        text::trim_front(t).len() > 0,
        t.len() > 0,
{
    if seen::ink(t).len() == 0 {
        lemma_ink_of_front(t);
    }
    if t.len() == 0 {
        assert(seen::ink(t).len() == 0);
    }
}

proof fn lemma_joined_not_empty(lines: Seq<Seq<char>>)
    requires
        lines.len() > 0,
        forall|i: int| 0 <= i < lines.len() ==> prose(#[trigger] lines[i]),
    ensures
        text::join_texts(lines, "\n"@).len() > 0,
        text::trimmed(text::join_texts(lines, "\n"@)).len() > 0,
{
    broadcast use seen::lemma_ink_add;

    let p = text::join_texts(lines, "\n"@);
    assert(prose(lines[lines.len() - 1]));
    lemma_trimmed_inside(lines[lines.len() - 1]);
    if lines.len() > 1 {
        assert(seen::ink(p).len() >= seen::ink(lines.last()).len());
    }
    if text::trimmed(p).len() == 0 {
        seen::lemma_ink_trimmed(p);
        assert(seen::ink(text::trimmed(p)).len() == 0);
    }
    if p.len() == 0 {
        assert(seen::ink(p).len() == 0);
    }
}

/// Rows of a table become one block, which holds them joined by line breaks,
/// when a line of another kind comes or the text ends.
pub proof fn law_table_is_one_block(rows: Seq<Seq<char>>, next: Seq<char>)
    requires
        rows.len() > 0,
        all_unbroken(rows),
        forall|i: int| 0 <= i < rows.len() ==> tabular(#[trigger] rows[i]),
        unbroken(next),
        prose(next),
    ensures
        received(fresh_text(), rows).table == rows,
        received(fresh_text(), rows).new.len() == 0,
        received(fresh_text(), rows.push(next)) == (TextState {
            paragraph: next,
            new: seq![Sketch::Text(text::join_texts(rows, "\n"@))],
            ..fresh_text()
        }),
        stream::text_end(received(fresh_text(), rows)).new == seq![
            Sketch::Text(text::join_texts(rows, "\n"@)),
        ],
    decreases rows.len(),
{
    let s = fresh_text();
    lemma_rows_wait(rows);
    let r = received(s, rows);
    let all = rows.push(next);
    assert(all_unbroken(all)) by {
        assert forall|i: int| 0 <= i < all.len() implies unbroken(#[trigger] all[i]) by {
            if i < rows.len() {
                assert(unbroken(rows[i]));
            }
        }
    }
    lemma_received(s, all);
    assert(all.drop_last() =~= rows);
    let b = Sketch::Text(text::join_texts(rows, "\n"@));
    assert(s.new.push(b) =~= seq![b]);
    assert(s.paragraph + next =~= next);
    assert(text::trimmed(s.paragraph).len() == 0) by {
        assert(seen::ink(s.paragraph).len() == 0);
        lemma_blank(s.paragraph);
    }
}

proof fn lemma_tabular(row: Seq<char>)
    requires
        tabular(row),
    ensures
        stream::is_row(row),
        !stream::is_fence(row),
{
    reveal_strlit("```");
    let t = text::trim_front(row);
    if text::has_prefix(t, "```"@) {
        assert(t.take(3)[0] == '`');
    }
}

proof fn lemma_rows_wait(rows: Seq<Seq<char>>)
    requires
        all_unbroken(rows),
        forall|i: int| 0 <= i < rows.len() ==> tabular(#[trigger] rows[i]),
    ensures
        ({
            let r = received(fresh_text(), rows);
            r == TextState { table: rows, data_rows: r.data_rows, ..fresh_text() }
        }),
    decreases rows.len(),
{
    let s = fresh_text();
    lemma_received(s, rows);
    if rows.len() == 0 {
        assert(s.table =~= rows);
    } else {
        let a = rows.drop_last();
        assert(all_unbroken(a)) by {
            assert forall|i: int| 0 <= i < a.len() implies unbroken(#[trigger] a[i]) by {
                assert(unbroken(rows[i]));
            }
        }
        assert forall|i: int| 0 <= i < a.len() implies tabular(#[trigger] a[i]) by {
            assert(tabular(rows[i]));
        }
        lemma_rows_wait(a);
        assert(tabular(rows[rows.len() - 1]));
        lemma_tabular(rows.last());
        assert(a.push(rows.last()) =~= rows);
        assert(seen::ink(s.paragraph).len() == 0);
        lemma_blank(s.paragraph);
        assert(s.paragraph =~= seq![]);
    }
}

// ── Nothing is lost ──────────────────────────────────────────────────────

/// The lines that are no fences.
pub open spec fn without_fences(lines: Seq<Seq<char>>) -> Seq<Seq<char>>
    decreases lines.len(),
{
    if lines.len() == 0 {
        seq![]
    } else if fenced(lines.last()) {
        without_fences(lines.drop_last())
    } else {
        without_fences(lines.drop_last()).push(lines.last())
    }
}

/// What can be seen of the blocks so far, and of what waits.
pub open spec fn held(s: TextState) -> Seq<char> {
    seen::ink(seen::flat(contents(s.new))) + seen::ink(seen::flat(s.table)) + seen::ink(s.paragraph)
}

spec fn one_waits(s: TextState) -> bool {
    &&& s.line.len() == 0
    &&& s.table.len() == 0 || s.paragraph.len() == 0
    &&& s.code is Some ==> s.table.len() == 0 && s.paragraph.len() == 0
}

proof fn lemma_contents_push(v: Seq<Sketch>, b: Sketch)
    ensures
        seen::ink(seen::flat(contents(v.push(b)))) == seen::ink(seen::flat(contents(v)))
            + seen::ink(content(b)),
{
    broadcast use {seen::lemma_ink_add, seen::lemma_flat_push};

    assert(contents(v.push(b)) =~= contents(v).push(content(b)));
}

proof fn lemma_nothing()
    ensures
        seen::ink(Seq::<char>::empty()) == Seq::<char>::empty(),
        seen::flat(Seq::<Seq<char>>::empty()) == Seq::<char>::empty(),
{
}

proof fn lemma_paragraph_done(s: TextState)
    requires
        s.table.len() == 0 || s.paragraph.len() == 0,
    ensures
        held(stream::paragraph_done(s)) == held(s),
        stream::paragraph_done(s).paragraph.len() == 0,
{
    lemma_nothing();
    let t = text::trimmed(s.paragraph);
    seen::lemma_ink_trimmed(s.paragraph);
    lemma_contents_push(s.new, Sketch::Text(t));
    if s.paragraph.len() == 0 {
        assert(seen::ink(s.paragraph).len() == 0);
    } else {
        assert(seen::ink(seen::flat(s.table)).len() == 0);
    }
    if t.len() == 0 {
        assert(seen::ink(t).len() == 0);
    }
    assert(held(stream::paragraph_done(s)) =~= held(s));
}

proof fn lemma_table_done(s: TextState)
    ensures
        held(stream::table_done(s)) == held(s),
        stream::table_done(s).table.len() == 0,
        stream::table_done(s).paragraph == s.paragraph,
{
    lemma_nothing();
    reveal_strlit("\n");
    seen::lemma_ink_white("\n"@);
    seen::lemma_ink_join(s.table, "\n"@);
    lemma_contents_push(s.new, Sketch::Text(text::join_texts(s.table, "\n"@)));
    assert(held(stream::table_done(s)) =~= held(s));
}

proof fn lemma_below(a: Seq<char>, b: Seq<char>)
    ensures
        seen::ink(stream::below(a, b)) == seen::ink(a) + seen::ink(b),
{
    broadcast use {seen::lemma_ink_add, seen::lemma_ink_push};

}

proof fn lemma_line_is_held(s: TextState, line: Seq<char>)
    requires
        one_waits(s),
    ensures
        one_waits(stream::text_line(s, line)),
        held(stream::text_line(s, line)) == held(s) + if fenced(line) {
            Seq::<char>::empty()
        } else {
            seen::ink(line)
        },
{
    broadcast use {seen::lemma_ink_add, seen::lemma_flat_push};

    lemma_nothing();
    let r = stream::text_line(s, line);
    lemma_paragraph_done(s);
    let p = stream::paragraph_done(s);
    if fenced(line) {
        lemma_table_done(p);
        assert(held(s) + Seq::<char>::empty() =~= held(s));
    } else {
        match s.code {
            Some(lang) => {
                lemma_contents_push(s.new, Sketch::CodeLine(line, lang));
                assert(seen::ink(s.paragraph).len() == 0);
                assert(seen::ink(seen::flat(s.table)).len() == 0);
                assert(held(r) =~= held(s) + seen::ink(line));
            },
            None => {
                if stream::is_row(line) {
                    assert(seen::ink(p.paragraph).len() == 0);
                    assert(held(r) =~= held(p) + seen::ink(line));
                } else if text::trimmed(line).len() == 0 {
                    seen::lemma_ink_trimmed(line);
                    assert(seen::ink(text::trimmed(line)).len() == 0);
                    assert(held(s) + seen::ink(line) =~= held(s));
                } else {
                    lemma_table_done(s);
                    let t = stream::table_done(s);
                    lemma_below(t.paragraph, line);
                    assert(held(r) =~= held(t) + seen::ink(line));
                }
            },
        }
    }
}

proof fn lemma_lines_are_held(s: TextState, lines: Seq<Seq<char>>)
    requires
        one_waits(s),
        all_unbroken(lines),
    ensures
        one_waits(received(s, lines)),
        held(received(s, lines)) == held(s) + seen::ink(seen::flat(without_fences(lines))),
    decreases lines.len(),
{
    broadcast use {seen::lemma_ink_add, seen::lemma_flat_push};

    lemma_nothing();
    lemma_received(s, lines);
    if lines.len() == 0 {
        assert(held(s) + Seq::<char>::empty() =~= held(s));
    } else {
        let a = lines.drop_last();
        assert(all_unbroken(a)) by {
            assert forall|i: int| 0 <= i < a.len() implies unbroken(#[trigger] a[i]) by {
                assert(unbroken(lines[i]));
            }
        }
        lemma_lines_are_held(s, a);
        lemma_line_is_held(received(s, a), lines.last());
        assert(held(received(s, lines)) =~= held(s) + seen::ink(
            seen::flat(without_fences(lines)),
        ));
    }
}

/// No visible character of a text is lost, and none is added: the blocks
/// that come of it hold, in order, what its lines hold, fences aside.
pub proof fn law_text_is_kept(lines: Seq<Seq<char>>)
    requires
        all_unbroken(lines),
    ensures
        seen::ink(
            seen::flat(contents(stream::text_end(received(fresh_text(), lines)).new)),
        ) == seen::ink(seen::flat(without_fences(lines))),
{
    lemma_nothing();
    let s = fresh_text();
    assert(contents(s.new) =~= seq![]);
    lemma_lines_are_held(s, lines);
    let r = received(s, lines);
    let c = TextState { code: None, ..r };
    assert(!stream::is_row(r.line)) by {
        assert(text::trim_front(r.line) == r.line);
    }
    assert(stream::text_end(r) == stream::paragraph_done(stream::table_done(c)) || r.code is Some);
    if r.code is Some {
        reveal_strlit("```");
        assert(r.line =~= seq![]);
    }
    assert(stream::text_end(r) == stream::paragraph_done(stream::table_done(c)));
    lemma_table_done(c);
    lemma_paragraph_done(stream::table_done(c));
    let e = stream::text_end(r);
    assert(seen::ink(e.paragraph).len() == 0);
    assert(held(e) =~= seen::ink(seen::flat(contents(e.new))));
    assert(held(s) =~= seq![]);
    assert(seen::ink(seen::flat(contents(e.new))) =~= seen::ink(
        seen::flat(without_fences(lines)),
    ));
}

/// What can be seen of the thoughts so far, and of what waits.
pub open spec fn thought(s: ThinkState) -> Seq<char> {
    seen::ink(seen::flat(contents(s.new))) + seen::ink(s.paragraph) + seen::ink(s.line)
}

proof fn lemma_thoughts_are_held(s: ThinkState, t: Seq<char>, n: int)
    requires
        0 <= n <= t.len(),
    ensures
        thought(stream::think_chars(s, t, n)) == thought(s) + seen::ink(t.take(n)),
    decreases n,
{
    broadcast use {seen::lemma_ink_add, seen::lemma_ink_push};

    lemma_nothing();
    if n <= 0 {
        assert(t.take(n) =~= seq![]);
        assert(thought(s) + seen::ink(t.take(n)) =~= thought(s));
    } else {
        lemma_thoughts_are_held(s, t, n - 1);
        let a = stream::think_chars(s, t, n - 1);
        let c = t[n - 1];
        assert(t.take(n) =~= t.take(n - 1).push(c));
        let b = stream::think_char(a, c);
        if c == '\n' {
            lemma_contents_push(a.new, Sketch::Thinking(a.paragraph.push('\n')));
            lemma_below(a.paragraph, a.line);
            seen::lemma_ink_trimmed(a.line);
            if text::trimmed(a.line).len() == 0 {
                assert(seen::ink(text::trimmed(a.line)).len() == 0);
            }
            assert(thought(b) =~= thought(a));
        } else if c != '\r' {
            assert(b.line == a.line.push(c));
            assert(thought(b) =~= thought(a) + seen::ink(seq![].push(c)));
        }
        assert(seen::ink(t.take(n)) =~= seen::ink(t.take(n - 1)) + seen::ink(seq![].push(c)));
        if c == '\n' || c == '\r' {
            assert(seen::ink(seq![].push(c)).len() == 0);
        }
        assert(thought(b) =~= thought(s) + seen::ink(t.take(n)));
    }
}

/// No visible character of a thought is lost, and none is added: the blocks
/// that come of it hold, in order, what was received.
pub proof fn law_thoughts_are_kept(t: Seq<char>)
    ensures
        ({
            let s = stream::think_chars(fresh_thoughts(), t, t.len() as int);
            seen::ink(
                seen::flat(contents(s.new + stream::think_rest(s.line, s.paragraph))),
            ) == seen::ink(t)
        }),
{
    lemma_nothing();
    let f = fresh_thoughts();
    assert(contents(f.new) =~= seq![]);
    lemma_thoughts_are_held(f, t, t.len() as int);
    assert(t.take(t.len() as int) =~= t);
    let s = stream::think_chars(f, t, t.len() as int);
    let p = if s.line.len() > 0 {
        stream::below(s.paragraph, s.line)
    } else {
        s.paragraph
    };
    lemma_below(s.paragraph, s.line);
    assert(s.line.len() == 0 ==> seen::ink(s.line).len() == 0);
    let q = text::trimmed(p);
    seen::lemma_ink_trimmed(p);
    lemma_contents_push(s.new, Sketch::Thinking(q));
    let rest = stream::think_rest(s.line, s.paragraph);
    if q.len() > 0 {
        assert(s.new + rest =~= s.new.push(Sketch::Thinking(q)));
    } else {
        assert(s.new + rest =~= s.new);
        assert(seen::ink(q).len() == 0);
    }
    assert(thought(f) =~= seq![]);
    assert(seen::ink(seen::flat(contents(s.new + rest))) =~= seen::ink(t));
}

} // verus!
