//! What is read from text comes back as it was written.

use vstd::prelude::*;

use crate::render::markdown;
use crate::render::styled;
use crate::render::wrap_laws;
use crate::text;

verus! {

proof fn lemma_split_parts(s: Seq<char>, c: char, from: int, parts: Seq<Seq<char>>)
    requires
        0 <= from <= s.len(),
        parts.len() > 0,
        forall|i: int| 0 <= i < parts.len() ==> !(#[trigger] parts[i]).contains(c),
        s.skip(from) == text::join_texts(parts, seq![c]),
    ensures
        text::split_from(s, c, from) == parts,
    decreases parts.len(),
{
    let end = text::char_from(s, c, from);
    text::lemma_char_from(s, c, from);
    let a = parts[0];
    let tail = s.skip(from);
    assert(!a.contains(c));
    if parts.len() == 1 {
        assert(tail == a);
        if end < s.len() {
            assert(tail[end - from] == c);
            assert(false);
        }
        assert(text::split_from(s, c, from) =~= parts);
    } else {
        let rest = parts.skip(1);
        assert(parts =~= seq![a] + rest);
        wrap_laws::lemma_join_front(a, rest, seq![c]);
        let more = text::join_texts(rest, seq![c]);
        assert(tail == a + seq![c] + more);
        let k = from + a.len();
        assert(s[k] == tail[a.len() as int]);
        if end < k {
            assert(s[end] == tail[end - from]);
            assert(a[end - from] == c);
            assert(false);
        }
        assert(end == k);
        assert(s.skip(k + 1) =~= more) by {
            assert(s.skip(k + 1) =~= tail.skip(a.len() as int + 1));
            assert((a + seq![c] + more).skip(a.len() as int + 1) =~= more);
        }
        assert forall|i: int| 0 <= i < rest.len() implies !(#[trigger] rest[i]).contains(c) by {
            assert(rest[i] == parts[i + 1]);
        }
        lemma_split_parts(s, c, k + 1, rest);
        assert(s.subrange(from, end) =~= a) by {
            assert forall|i: int| 0 <= i < a.len() implies s.subrange(from, end)[i] == a[i] by {
                assert(s[from + i] == tail[i]);
            }
        }
        assert(text::split_from(s, c, from) =~= parts);
    }
}

/// Parts that do not hold the separator come back from the text that they
/// were joined to.
pub proof fn law_joined_parts_come_back(parts: Seq<Seq<char>>, c: char)
    requires
        parts.len() > 0,
        forall|i: int| 0 <= i < parts.len() ==> !(#[trigger] parts[i]).contains(c),
    ensures
        text::split_on(text::join_texts(parts, seq![c]), c) == parts,
{
    let s = text::join_texts(parts, seq![c]);
    assert(s.skip(0) =~= s);
    lemma_split_parts(s, c, 0, parts);
}

/// A text with no white space at its ends.
pub open spec fn trim(s: Seq<char>) -> bool {
    s.len() > 0 ==> !text::is_white(s[0]) && !text::is_white(s.last())
}

/// A space before the text and one behind it.
pub open spec fn spaced(s: Seq<char>) -> Seq<char> {
    seq![' '] + s + seq![' ']
}

/// A table's row as it is written: bars round the cells.
pub open spec fn row_of(cells: Seq<Seq<char>>) -> Seq<char> {
    seq!['|'] + text::join_texts(Seq::new(cells.len(), |i: int| spaced(cells[i])), seq!['|']) + seq![
        '|',
    ]
}

proof fn lemma_trimmed(s: Seq<char>)
    requires
        trim(s),
    ensures
        text::trimmed(s) == s,
        text::trimmed(spaced(s)) == s,
{
    reveal_with_fuel(text::drop_front, 3);
    reveal_with_fuel(text::drop_back, 3);
    let t = spaced(s);
    assert(t.skip(1) =~= s + seq![' ']);
    assert((s + seq![' ']).drop_last() =~= s);
    if s.len() == 0 {
        assert(t.skip(1).skip(1) =~= s);
    }
}

proof fn lemma_ends(parts: Seq<Seq<char>>, sep: Seq<char>)
    requires
        parts.len() > 0,
        forall|i: int| 0 <= i < parts.len() ==> (#[trigger] parts[i]).len() > 0,
    ensures
        text::join_texts(parts, sep).len() > 0,
        text::join_texts(parts, sep)[0] == parts[0][0],
        text::join_texts(parts, sep).last() == parts.last().last(),
    decreases parts.len(),
{
    assert(parts[parts.len() - 1].len() > 0);
    assert(parts[0].len() > 0);
    if parts.len() > 1 {
        lemma_ends(parts.drop_last(), sep);
    }
}

/// The cells of a table's row are read as they were written, empty ones
/// too.
pub proof fn law_cells_are_read(cells: Seq<Seq<char>>)
    requires
        cells.len() > 0,
        forall|i: int|
            0 <= i < cells.len() ==> !(#[trigger] cells[i]).contains('|') && trim(cells[i]),
    ensures
        markdown::cells_of(row_of(cells)) == cells,
{
    let ps = Seq::new(cells.len(), |i: int| spaced(cells[i]));
    let body = text::join_texts(ps, seq!['|']);
    let line = row_of(cells);
    assert forall|i: int| 0 <= i < ps.len() implies !(#[trigger] ps[i]).contains('|') && ps[i].len()
        > 0 by {
        let x = cells[i];
        assert(!x.contains('|'));
        if ps[i].contains('|') {
            let k = ps[i].index_of('|');
            assert(ps[i][k] == '|');
            assert(x[k - 1] == '|');
        }
    }
    lemma_ends(ps, seq!['|']);
    assert(ps[0][0] == ' ');
    assert(ps.last().last() == ' ');
    assert(trim(line));
    lemma_trimmed(line);
    let bar = |x: char| x == '|';
    reveal_with_fuel(text::drop_front, 3);
    reveal_with_fuel(text::drop_back, 3);
    let front = text::drop_front(line, bar);
    assert(line.skip(1) =~= body + seq!['|']);
    assert(front =~= body + seq!['|']);
    assert(front.drop_last() =~= body);
    assert(text::drop_back(front, bar) =~= body);
    law_joined_parts_come_back(ps, '|');
    assert forall|i: int| 0 <= i < cells.len() implies text::trimmed(ps[i]) == #[trigger] cells[i] by {
        lemma_trimmed(cells[i]);
    }
    assert(markdown::cells_of(line) =~= cells);
}

/// Every line of a table that is no separator is a row of its own, in order.
pub proof fn law_rows_are_read(ls: Seq<Seq<char>>, n: int)
    requires
        0 <= n <= ls.len(),
        forall|i: int| 0 <= i < n ==> !styled::table_separator(#[trigger] ls[i]),
    ensures
        markdown::table_rows(ls, n) == Seq::new(n as nat, |i: int| markdown::cells_of(ls[i])),
    decreases n,
{
    if n > 0 {
        law_rows_are_read(ls, n - 1);
    }
    assert(markdown::table_rows(ls, n) =~= Seq::new(
        n as nat,
        |i: int| markdown::cells_of(ls[i]),
    ));
}

} // verus!
