//! What a reader sees of recorded commands: the texts that were printed.

use vstd::prelude::*;

use crate::render::highlight;
use crate::render::out;
use crate::render::out::{Canvas, Color, Command, StyleState};
use crate::render::wrap;
use crate::render::wrap_laws;
use crate::text;

verus! {

// ── Reading ──────────────────────────────────────────────────────────────

/// The texts that commands print, in order.
pub open spec fn prints_of(cmds: Seq<Command<Seq<char>>>) -> Seq<Seq<char>>
    decreases cmds.len(),
{
    if cmds.len() == 0 {
        seq![]
    } else {
        let before = prints_of(cmds.drop_last());
        match cmds.last() {
            Command::Print(t) => before.push(t),
            _ => before,
        }
    }
}

/// The texts that were printed, in order.
pub open spec fn prints(m: Canvas) -> Seq<Seq<char>> {
    prints_of(m.cmds)
}

/// The texts that are printed directly behind a command, such as one that
/// selects a colour.
pub open spec fn prints_behind(cmds: Seq<Command<Seq<char>>>, c: Command<Seq<char>>) -> Seq<
    Seq<char>,
>
    decreases cmds.len(),
{
    if cmds.len() < 2 {
        seq![]
    } else {
        let before = prints_behind(cmds.drop_last(), c);
        match cmds.last() {
            Command::Print(t) => if cmds[cmds.len() - 2] == c {
                before.push(t)
            } else {
                before
            },
            _ => before,
        }
    }
}

/// Texts run together.
pub open spec fn flat(parts: Seq<Seq<char>>) -> Seq<char>
    decreases parts.len(),
{
    if parts.len() == 0 {
        seq![]
    } else {
        flat(parts.drop_last()) + parts.last()
    }
}

/// The characters of a text that leave a mark: all but white space.
pub open spec fn ink(s: Seq<char>) -> Seq<char>
    decreases s.len(),
{
    if s.len() == 0 {
        seq![]
    } else {
        let before = ink(s.drop_last());
        if text::is_white(s.last()) {
            before
        } else {
            before.push(s.last())
        }
    }
}

/// The characters that can be seen, in the order in which they were printed.
pub open spec fn seen(m: Canvas) -> Seq<char> {
    ink(flat(prints(m)))
}

// ── Texts ────────────────────────────────────────────────────────────────

pub broadcast proof fn lemma_ink_add(a: Seq<char>, b: Seq<char>)
    ensures
        #[trigger] ink(a + b) == ink(a) + ink(b),
    decreases b.len(),
{
    if b.len() == 0 {
        assert(a + b =~= a);
    } else {
        assert((a + b).drop_last() =~= a + b.drop_last());
        lemma_ink_add(a, b.drop_last());
        assert(ink(a + b) =~= ink(a) + ink(b));
    }
}

pub proof fn lemma_ink_white(s: Seq<char>)
    requires
        forall|i: int| 0 <= i < s.len() ==> text::is_white(#[trigger] s[i]),
    ensures
        ink(s) == Seq::<char>::empty(),
    decreases s.len(),
{
    if s.len() > 0 {
        assert(text::is_white(s[s.len() - 1]));
        assert forall|i: int| 0 <= i < s.drop_last().len() implies text::is_white(
            #[trigger] s.drop_last()[i],
        ) by {
            assert(text::is_white(s[i]));
        }
        lemma_ink_white(s.drop_last());
    }
}

pub broadcast proof fn lemma_ink_fill(n: nat)
    ensures
        #[trigger] ink(text::fill(' ', n)) == Seq::<char>::empty(),
{
    lemma_ink_white(text::fill(' ', n));
}

pub broadcast proof fn lemma_ink_push(s: Seq<char>, c: char)
    ensures
        #[trigger] ink(s.push(c)) == if text::is_white(c) {
            ink(s)
        } else {
            ink(s).push(c)
        },
{
    assert(s.push(c).drop_last() =~= s);
}

pub proof fn lemma_ink_front(s: Seq<char>)
    ensures
        ink(text::trim_front(s)) == ink(s),
    decreases s.len(),
{
    if s.len() > 0 && text::is_white(s[0]) {
        lemma_ink_front(s.skip(1));
        assert(s =~= s.take(1) + s.skip(1));
        lemma_ink_add(s.take(1), s.skip(1));
        lemma_ink_white(s.take(1));
    }
}

pub proof fn lemma_ink_back(s: Seq<char>)
    ensures
        ink(text::trim_back(s)) == ink(s),
    decreases s.len(),
{
    if s.len() > 0 && text::is_white(s.last()) {
        lemma_ink_back(s.drop_last());
    }
}

pub broadcast proof fn lemma_ink_trimmed(s: Seq<char>)
    ensures
        #[trigger] ink(text::trimmed(s)) == ink(s),
{
    lemma_ink_front(s);
    lemma_ink_back(s);
    lemma_ink_back(text::trim_front(s));
    lemma_ink_front(text::trim_back(s));
}

pub proof fn lemma_flat_add(a: Seq<Seq<char>>, b: Seq<Seq<char>>)
    ensures
        flat(a + b) == flat(a) + flat(b),
    decreases b.len(),
{
    if b.len() == 0 {
        assert(a + b =~= a);
        assert(flat(a) + flat(b) =~= flat(a));
    } else {
        assert((a + b).drop_last() =~= a + b.drop_last());
        lemma_flat_add(a, b.drop_last());
        assert(flat(a + b) =~= flat(a) + flat(b));
    }
}

pub broadcast proof fn lemma_flat_push(a: Seq<Seq<char>>, t: Seq<char>)
    ensures
        #[trigger] flat(a.push(t)) == flat(a) + t,
{
    assert(a.push(t).drop_last() =~= a);
}

/// Joined texts show what the texts show, when what is put between them
/// shows nothing.
pub proof fn lemma_ink_join(parts: Seq<Seq<char>>, sep: Seq<char>)
    requires
        ink(sep) == Seq::<char>::empty(),
    ensures
        ink(text::join_texts(parts, sep)) == ink(flat(parts)),
    decreases parts.len(),
{
    broadcast use lemma_ink_add;

    if parts.len() == 1 {
        assert(flat(parts.drop_last()) == Seq::<char>::empty());
        assert(flat(parts) =~= parts[0]);
    } else if parts.len() > 1 {
        lemma_ink_join(parts.drop_last(), sep);
        let a = text::join_texts(parts.drop_last(), sep);
        assert(ink(a + sep + parts.last()) =~= ink(a) + ink(parts.last()));
    }
}

pub proof fn lemma_flat_is_flatten(parts: Seq<Seq<char>>)
    ensures
        flat(parts) == parts.flatten(),
    decreases parts.len(),
{
    parts.lemma_flatten_and_flatten_alt_are_equivalent();
    if parts.len() > 0 {
        lemma_flat_is_flatten(parts.drop_last());
        parts.drop_last().lemma_flatten_and_flatten_alt_are_equivalent();
    }
}

/// Breaking a text into lines for a width loses nothing that can be seen.
pub broadcast proof fn lemma_ink_wrapped(s: Seq<char>, width: int)
    requires
        width >= 0,
    ensures
        ink(flat(#[trigger] wrap::wrapped(s, width))) == ink(s),
{
    if width == 0 {
        assert(wrap::wrapped(s, width) =~= Seq::<Seq<char>>::empty().push(s));
        lemma_flat_push(Seq::<Seq<char>>::empty(), s);
        assert(flat(Seq::<Seq<char>>::empty()) + s =~= s);
    } else {
        let parts = text::split_on(s, '\n');
        wrap_laws::law_wrap_keeps_characters(s, width);
        lemma_flat_is_flatten(wrap::wrapped(s, width));
        lemma_flat_is_flatten(parts);
        wrap_laws::law_split_joins_back(s, '\n');
        lemma_ink_white(seq!['\n']);
        lemma_ink_join(parts, seq!['\n']);
    }
}

proof fn lemma_ink_lines_from(s: Seq<char>, from: int)
    requires
        0 <= from <= s.len(),
    ensures
        ink(flat(text::lines_from(s, from))) == ink(s.skip(from)),
    decreases s.len() - from,
{
    broadcast use {lemma_ink_add, lemma_ink_push};

    let end = text::char_from(s, '\n', from);
    text::lemma_char_from(s, '\n', from);
    let none = Seq::<Seq<char>>::empty();
    if from >= s.len() {
        assert(s.skip(from) =~= Seq::<char>::empty());
    } else if end >= s.len() {
        assert(text::lines_from(s, from) =~= none.push(s.skip(from)));
        lemma_flat_push(none, s.skip(from));
        assert(flat(none) + s.skip(from) =~= s.skip(from));
    } else {
        let l = s.subrange(from, end);
        lemma_ink_lines_from(s, end + 1);
        let rest = text::lines_from(s, end + 1);
        lemma_flat_add(seq![text::without_cr(l)], rest);
        assert(seq![text::without_cr(l)] =~= none.push(text::without_cr(l)));
        lemma_flat_push(none, text::without_cr(l));
        assert(flat(none) + text::without_cr(l) =~= text::without_cr(l));
        if l.len() > 0 && l.last() == '\r' {
            assert(l =~= l.drop_last().push('\r'));
        }
        assert(ink(text::without_cr(l)) == ink(l));
        assert(s.skip(from) =~= l.push('\n') + s.skip(end + 1));
    }
}

/// The lines of a text show what the text shows.
pub broadcast proof fn lemma_ink_lines(s: Seq<char>)
    ensures
        ink(flat(#[trigger] text::lines_of(s))) == ink(s),
{
    lemma_ink_lines_from(s, 0);
    assert(s.skip(0) =~= s);
}

/// Tabs show nothing, and neither do the spaces in their place.
pub proof fn lemma_ink_untabbed(s: Seq<char>)
    ensures
        ink(text::untabbed(s)) == ink(s),
    decreases s.len(),
{
    broadcast use {lemma_ink_add, lemma_ink_push, lemma_ink_fill};

    if s.len() > 0 {
        lemma_ink_untabbed(s.drop_last());
        assert(s =~= s.drop_last().push(s.last()));
        assert(ink(text::untabbed(s.drop_last())) + Seq::<char>::empty() =~= ink(
            text::untabbed(s.drop_last()),
        ));
    }
}

pub proof fn lemma_ink_untabbed_lines(ls: Seq<Seq<char>>)
    ensures
        ink(flat(highlight::untabbed_lines(ls))) == ink(flat(ls)),
    decreases ls.len(),
{
    broadcast use lemma_ink_add;

    if ls.len() > 0 {
        lemma_ink_untabbed_lines(ls.drop_last());
        lemma_ink_untabbed(ls.last());
        assert(highlight::untabbed_lines(ls).drop_last() =~= highlight::untabbed_lines(
            ls.drop_last(),
        ));
    }
}

// ── Commands ─────────────────────────────────────────────────────────────

pub proof fn lemma_prints_add(a: Seq<Command<Seq<char>>>, b: Seq<Command<Seq<char>>>)
    ensures
        prints_of(a + b) == prints_of(a) + prints_of(b),
    decreases b.len(),
{
    if b.len() == 0 {
        assert(a + b =~= a);
        assert(prints_of(a) + prints_of(b) =~= prints_of(a));
    } else {
        assert((a + b).drop_last() =~= a + b.drop_last());
        lemma_prints_add(a, b.drop_last());
        assert(prints_of(a + b) =~= prints_of(a) + prints_of(b));
    }
}

pub proof fn lemma_behind_push(
    a: Seq<Command<Seq<char>>>,
    x: Command<Seq<char>>,
    c: Command<Seq<char>>,
)
    ensures
        prints_behind(a.push(x), c) == match x {
            Command::Print(t) => if a.len() > 0 && a.last() == c {
                prints_behind(a, c).push(t)
            } else {
                prints_behind(a, c)
            },
            _ => prints_behind(a, c),
        },
{
    assert(a.push(x).drop_last() =~= a);
}

pub proof fn lemma_prints_push(a: Seq<Command<Seq<char>>>, c: Command<Seq<char>>)
    ensures
        prints_of(a.push(c)) == match c {
            Command::Print(t) => prints_of(a).push(t),
            _ => prints_of(a),
        },
{
    assert(a.push(c).drop_last() =~= a);
}

proof fn lemma_prints_when(a: Seq<Command<Seq<char>>>, b: bool, c: Command<Seq<char>>)
    requires
        !(c is Print),
    ensures
        prints_of(out::when(a, b, c)) == prints_of(a),
{
    lemma_prints_push(a, c);
}

proof fn lemma_prints_style(a: Seq<Command<Seq<char>>>, to: StyleState)
    ensures
        prints_of(out::then_style(a, to)) == prints_of(a),
{
    assert forall|x: Seq<Command<Seq<char>>>, b: bool, c: Command<Seq<char>>|
        !(c is Print) implies prints_of(#[trigger] out::when(x, b, c)) == prints_of(x) by {
        lemma_prints_when(x, b, c);
    }
}

proof fn lemma_prints_style_change(a: Seq<Command<Seq<char>>>, from: StyleState, to: StyleState)
    ensures
        prints_of(out::then_style_change(a, from, to)) == prints_of(a),
{
    if out::needs_reset(from, to) {
        let x = a.push(Command::SetAttribute(out::Attribute::Reset));
        lemma_prints_push(a, Command::SetAttribute(out::Attribute::Reset));
        lemma_prints_push(x, Command::ResetColor);
        lemma_prints_style(x.push(Command::ResetColor), to);
    } else {
        assert forall|x: Seq<Command<Seq<char>>>, b: bool, c: Command<Seq<char>>|
            !(c is Print) implies prints_of(#[trigger] out::when(x, b, c)) == prints_of(x) by {
            lemma_prints_when(x, b, c);
        }
    }
}

pub broadcast proof fn lemma_print(m: Canvas, t: Seq<char>)
    ensures
        #[trigger] prints(m.print(t)) == prints(m).push(t),
{
    reveal(Canvas::print);
    lemma_prints_push(m.cmds, Command::Print(t));
}

pub broadcast proof fn lemma_queue(m: Canvas, c: Command<Seq<char>>)
    ensures
        #[trigger] prints(m.queue(c)) == match c {
            Command::Print(t) => prints(m).push(t),
            _ => prints(m),
        },
{
    reveal(Canvas::queue);
    lemma_prints_push(m.cmds, c);
}

pub broadcast proof fn lemma_append(m: Canvas, cmds: Seq<Command<Seq<char>>>)
    ensures
        #[trigger] prints(m.append(cmds)) == prints(m) + prints_of(cmds),
{
    reveal(Canvas::append);
    lemma_prints_add(m.cmds, cmds);
}

pub broadcast proof fn lemma_replay(m: Canvas, cmds: Seq<Command<Seq<char>>>)
    ensures
        #[trigger] prints(m.replay(cmds)) == prints(m) + prints_of(cmds),
{
    reveal(Canvas::replay);
    lemma_prints_add(m.cmds, cmds);
}

pub broadcast proof fn lemma_at_row(m: Canvas, row: Option<u16>)
    ensures
        #[trigger] prints(m.at_row(row)) == prints(m),
{
    reveal(Canvas::at_row);
}

pub broadcast proof fn lemma_settled(m: Canvas)
    ensures
        #[trigger] prints(m.settled()) == prints(m),
{
    reveal(Canvas::settled);
    let x = m.cmds.push(Command::SetAttribute(out::Attribute::Reset));
    lemma_prints_push(m.cmds, Command::SetAttribute(out::Attribute::Reset));
    lemma_prints_push(x, Command::ResetColor);
}

pub broadcast proof fn lemma_push_style(m: Canvas, to: StyleState)
    ensures
        #[trigger] prints(m.push_style(to)) == prints(m),
{
    reveal(Canvas::push_style);
    lemma_settled(m);
    let s = m.settled();
    lemma_prints_style_change(s.cmds, s.current, out::on_top(s.current, to));
}

pub broadcast proof fn lemma_pop_style(m: Canvas)
    ensures
        #[trigger] prints(m.pop_style()) == prints(m),
{
    reveal(Canvas::pop_style);
    lemma_settled(m);
    let s = m.settled();
    lemma_prints_style_change(s.cmds, s.current, s.stack.last());
}

pub broadcast proof fn lemma_push_fg(m: Canvas, c: Color)
    ensures
        #[trigger] prints(m.push_fg(c)) == prints(m),
{
    broadcast use {lemma_settled, lemma_push_style};

    reveal(Canvas::push_fg);
}

pub broadcast proof fn lemma_push_bg(m: Canvas, c: Color)
    ensures
        #[trigger] prints(m.push_bg(c)) == prints(m),
{
    broadcast use {lemma_settled, lemma_push_style};

    reveal(Canvas::push_bg);
}

pub broadcast proof fn lemma_push_bold(m: Canvas)
    ensures
        #[trigger] prints(m.push_bold()) == prints(m),
{
    broadcast use {lemma_settled, lemma_push_style};

    reveal(Canvas::push_bold);
}

pub broadcast proof fn lemma_push_dim(m: Canvas)
    ensures
        #[trigger] prints(m.push_dim()) == prints(m),
{
    broadcast use {lemma_settled, lemma_push_style};

    reveal(Canvas::push_dim);
}

pub broadcast proof fn lemma_push_italic(m: Canvas)
    ensures
        #[trigger] prints(m.push_italic()) == prints(m),
{
    broadcast use {lemma_settled, lemma_push_style};

    reveal(Canvas::push_italic);
}

pub broadcast proof fn lemma_push_crossedout(m: Canvas)
    ensures
        #[trigger] prints(m.push_crossedout()) == prints(m),
{
    broadcast use {lemma_settled, lemma_push_style};

    reveal(Canvas::push_crossedout);
}

pub broadcast proof fn lemma_push_dim_italic(m: Canvas)
    ensures
        #[trigger] prints(m.push_dim_italic()) == prints(m),
{
    broadcast use {lemma_settled, lemma_push_style};

    reveal(Canvas::push_dim_italic);
}

pub broadcast proof fn lemma_set_fg(m: Canvas, c: Color)
    ensures
        #[trigger] prints(m.set_fg(c)) == prints(m),
{
    reveal(Canvas::set_fg);
    lemma_settled(m);
    lemma_prints_push(m.settled().cmds, Command::SetForegroundColor(c));
}

pub broadcast proof fn lemma_set_bg(m: Canvas, c: Color)
    ensures
        #[trigger] prints(m.set_bg(c)) == prints(m),
{
    reveal(Canvas::set_bg);
    lemma_settled(m);
    lemma_prints_push(m.settled().cmds, Command::SetBackgroundColor(c));
}

pub broadcast proof fn lemma_set_bold(m: Canvas)
    ensures
        #[trigger] prints(m.set_bold()) == prints(m),
{
    reveal(Canvas::set_bold);
    lemma_settled(m);
    lemma_prints_push(m.settled().cmds, Command::SetAttribute(out::Attribute::Bold));
}

pub broadcast proof fn lemma_set_dim(m: Canvas)
    ensures
        #[trigger] prints(m.set_dim()) == prints(m),
{
    reveal(Canvas::set_dim);
    lemma_settled(m);
    lemma_prints_push(m.settled().cmds, Command::SetAttribute(out::Attribute::Dim));
}

pub broadcast proof fn lemma_set_italic(m: Canvas)
    ensures
        #[trigger] prints(m.set_italic()) == prints(m),
{
    reveal(Canvas::set_italic);
    lemma_settled(m);
    lemma_prints_push(m.settled().cmds, Command::SetAttribute(out::Attribute::Italic));
}

pub broadcast proof fn lemma_set_dim_italic(m: Canvas)
    ensures
        #[trigger] prints(m.set_dim_italic()) == prints(m),
{
    broadcast use {lemma_set_dim, lemma_set_italic};

    reveal(Canvas::set_dim_italic);
}

pub broadcast proof fn lemma_reset_style(m: Canvas)
    ensures
        #[trigger] prints(m.reset_style()) == prints(m),
{
    reveal(Canvas::reset_style);
    lemma_settled(m);
    let s = m.settled();
    let x = s.cmds.push(Command::SetAttribute(out::Attribute::Reset));
    lemma_prints_push(s.cmds, Command::SetAttribute(out::Attribute::Reset));
    lemma_prints_push(x, Command::ResetColor);
}

pub proof fn lemma_crlf(m: Canvas)
    ensures
        prints(m.crlf()) == prints(m) || prints(m.crlf()) == prints(m).push("\r\n"@),
        m.row is Some ==> prints(m.crlf()) == prints(m),
{
    reveal(Canvas::crlf);
    let cleared = m.cmds.push(Command::Clear(out::ClearType::UntilNewLine));
    lemma_prints_push(m.cmds, Command::Clear(out::ClearType::UntilNewLine));
    match m.row {
        Some(r) => {
            lemma_prints_push(cleared, Command::MoveTo(0, out::rows_plus(r, 1)));
        },
        None => {
            lemma_prints_push(cleared, Command::Print("\r\n"@));
        },
    }
}

pub broadcast group group_prints {
    lemma_print,
    lemma_queue,
    lemma_append,
    lemma_replay,
    lemma_at_row,
    lemma_settled,
    lemma_push_style,
    lemma_pop_style,
    lemma_push_fg,
    lemma_push_bg,
    lemma_push_bold,
    lemma_push_dim,
    lemma_push_italic,
    lemma_push_crossedout,
    lemma_push_dim_italic,
    lemma_set_fg,
    lemma_set_bg,
    lemma_set_bold,
    lemma_set_dim,
    lemma_set_italic,
    lemma_set_dim_italic,
    lemma_reset_style,
}

// ── What can be seen ─────────────────────────────────────────────────────

pub proof fn lemma_seen_print(m: Canvas, t: Seq<char>)
    ensures
        seen(m.print(t)) == seen(m) + ink(t),
{
    broadcast use {lemma_print, lemma_flat_push, lemma_ink_add};

}

/// A line ends in nothing that can be seen.
pub broadcast proof fn lemma_seen_crlf(m: Canvas)
    ensures
        ink(flat(#[trigger] prints(m.crlf()))) == ink(flat(prints(m))),
{
    broadcast use {lemma_flat_push, lemma_ink_add};

    lemma_crlf(m);
    reveal_strlit("\r\n");
    lemma_ink_white("\r\n"@);
    assert(seen(m) + ink("\r\n"@) =~= seen(m));
}

pub broadcast group group_seen {
    group_prints,
    lemma_seen_crlf,
    lemma_flat_push,
    lemma_ink_add,
}

} // verus!
