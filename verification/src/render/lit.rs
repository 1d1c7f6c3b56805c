//! Which texts are printed in a colour: the selected row of a list.

use vstd::prelude::*;

use crate::render::out;
use crate::render::out::{Attribute, Canvas, Color, Command, StyleState};
use crate::render::seen;

verus! {

/// The texts that are printed directly behind the choice of a colour.
pub open spec fn lit(m: Canvas, c: Color) -> Seq<Seq<char>> {
    seen::prints_behind(m.cmds, Command::SetForegroundColor(c))
}

/// The style is known, and the colour is neither in force nor chosen last.
pub open spec fn unlit(m: Canvas, c: Color) -> bool {
    &&& m.known
    &&& c != Color::Reset
    &&& m.current.fg != Some(c)
    &&& m.cmds.len() > 0 ==> m.cmds.last() != Command::<Seq<char>>::SetForegroundColor(c)
}

/// Two outputs go on in the same style.
pub open spec fn same_style(a: Canvas, b: Canvas) -> bool {
    a.current == b.current && a.known == b.known && a.stack == b.stack
}

/// Commands that add nothing in the colour, and do not choose it last.
spec fn quiet_in(a: Seq<Command<Seq<char>>>, b: Seq<Command<Seq<char>>>, c: Color) -> bool {
    let on = Command::SetForegroundColor(c);
    &&& seen::prints_behind(b, on) == seen::prints_behind(a, on)
    &&& (a.len() > 0 ==> a.last() != on) ==> (b.len() > 0 ==> b.last() != on)
}

proof fn lemma_when(a: Seq<Command<Seq<char>>>, b: bool, x: Command<Seq<char>>, c: Color)
    requires
        !(x is Print),
        b ==> x != Command::<Seq<char>>::SetForegroundColor(c),
    ensures
        quiet_in(a, out::when(a, b, x), c),
{
    seen::lemma_behind_push(a, x, Command::SetForegroundColor(c));
}

proof fn lemma_quiet_style(a: Seq<Command<Seq<char>>>, to: StyleState, c: Color)
    requires
        to.fg != Some(c),
    ensures
        quiet_in(a, out::then_style(a, to), c),
{
    let f = Command::<Seq<char>>::SetForegroundColor(out::color_or_reset(to.fg));
    let a1 = out::when(a, to.fg is Some, f);
    lemma_when(a, to.fg is Some, f, c);
    let g = Command::<Seq<char>>::SetBackgroundColor(out::color_or_reset(to.bg));
    let a2 = out::when(a1, to.bg is Some, g);
    lemma_when(a1, to.bg is Some, g, c);
    let a3 = out::when(a2, to.bold, Command::SetAttribute(Attribute::Bold));
    lemma_when(a2, to.bold, Command::SetAttribute(Attribute::Bold), c);
    let a4 = out::when(a3, to.dim, Command::SetAttribute(Attribute::Dim));
    lemma_when(a3, to.dim, Command::SetAttribute(Attribute::Dim), c);
    let a5 = out::when(a4, to.italic, Command::SetAttribute(Attribute::Italic));
    lemma_when(a4, to.italic, Command::SetAttribute(Attribute::Italic), c);
    let a6 = out::when(a5, to.crossedout, Command::SetAttribute(Attribute::CrossedOut));
    lemma_when(a5, to.crossedout, Command::SetAttribute(Attribute::CrossedOut), c);
    lemma_when(a6, to.underline, Command::SetAttribute(Attribute::Underlined), c);
}

proof fn lemma_quiet_change(
    a: Seq<Command<Seq<char>>>,
    from: StyleState,
    to: StyleState,
    c: Color,
)
    requires
        to.fg != Some(c),
        c != Color::Reset,
    ensures
        quiet_in(a, out::then_style_change(a, from, to), c),
{
    if out::needs_reset(from, to) {
        let r = Command::<Seq<char>>::SetAttribute(Attribute::Reset);
        lemma_when(a, true, r, c);
        lemma_when(a.push(r), true, Command::ResetColor, c);
        lemma_quiet_style(a.push(r).push(Command::ResetColor), to, c);
    } else {
        let b0 = from.bold && !to.bold || from.dim && !to.dim;
        let a0 = out::when(a, b0, Command::SetAttribute(Attribute::NormalIntensity));
        lemma_when(a, b0, Command::SetAttribute(Attribute::NormalIntensity), c);
        let b1 = from.italic && !to.italic;
        let a1 = out::when(a0, b1, Command::SetAttribute(Attribute::NoItalic));
        lemma_when(a0, b1, Command::SetAttribute(Attribute::NoItalic), c);
        let b2 = from.crossedout && !to.crossedout;
        let a2 = out::when(a1, b2, Command::SetAttribute(Attribute::NotCrossedOut));
        lemma_when(a1, b2, Command::SetAttribute(Attribute::NotCrossedOut), c);
        let b3 = from.underline && !to.underline;
        let a3 = out::when(a2, b3, Command::SetAttribute(Attribute::NoUnderline));
        lemma_when(a2, b3, Command::SetAttribute(Attribute::NoUnderline), c);
        let b4 = !from.bold && to.bold;
        let a4 = out::when(a3, b4, Command::SetAttribute(Attribute::Bold));
        lemma_when(a3, b4, Command::SetAttribute(Attribute::Bold), c);
        let b5 = !from.dim && to.dim;
        let a5 = out::when(a4, b5, Command::SetAttribute(Attribute::Dim));
        lemma_when(a4, b5, Command::SetAttribute(Attribute::Dim), c);
        let b6 = !from.italic && to.italic;
        let a6 = out::when(a5, b6, Command::SetAttribute(Attribute::Italic));
        lemma_when(a5, b6, Command::SetAttribute(Attribute::Italic), c);
        let b7 = !from.crossedout && to.crossedout;
        let a7 = out::when(a6, b7, Command::SetAttribute(Attribute::CrossedOut));
        lemma_when(a6, b7, Command::SetAttribute(Attribute::CrossedOut), c);
        let b8 = !from.underline && to.underline;
        let a8 = out::when(a7, b8, Command::SetAttribute(Attribute::Underlined));
        lemma_when(a7, b8, Command::SetAttribute(Attribute::Underlined), c);
        let f = Command::<Seq<char>>::SetForegroundColor(out::color_or_reset(to.fg));
        let a9 = out::when(a8, from.fg != to.fg, f);
        lemma_when(a8, from.fg != to.fg, f, c);
        let g = Command::<Seq<char>>::SetBackgroundColor(out::color_or_reset(to.bg));
        lemma_when(a9, from.bg != to.bg, g, c);
    }
}

/// Plain text.
pub proof fn lemma_unlit_print(m: Canvas, t: Seq<char>, c: Color)
    requires
        unlit(m, c),
    ensures
        unlit(m.print(t), c),
        same_style(m, m.print(t)),
        lit(m.print(t), c) == lit(m, c),
        seen::prints(m.print(t)) == seen::prints(m).push(t),
{
    seen::lemma_print(m, t);
    reveal(Canvas::print);
    seen::lemma_behind_push(m.cmds, Command::Print(t), Command::SetForegroundColor(c));
}

/// The end of a line.
pub proof fn lemma_unlit_crlf(m: Canvas, c: Color)
    requires
        unlit(m, c),
    ensures
        unlit(m.crlf(), c),
        same_style(m, m.crlf()),
        lit(m.crlf(), c) == lit(m, c),
{
    reveal(Canvas::crlf);
    let on = Command::SetForegroundColor(c);
    let x = Command::Clear(out::ClearType::UntilNewLine);
    let a = m.cmds.push(x);
    seen::lemma_behind_push(m.cmds, x, on);
    match m.row {
        Some(r) => seen::lemma_behind_push(a, Command::MoveTo(0, out::rows_plus(r, 1)), on),
        None => seen::lemma_behind_push(a, Command::Print("\r\n"@), on),
    }
}

/// Dim text.
pub proof fn lemma_unlit_dim(m: Canvas, t: Seq<char>, c: Color)
    requires
        unlit(m, c),
    ensures
        ({
            let r = m.push_dim().print(t).pop_style();
            &&& unlit(r, c)
            &&& same_style(m, r)
            &&& lit(r, c) == lit(m, c)
            &&& seen::prints(r) == seen::prints(m).push(t)
        }),
{
    broadcast use seen::group_prints;

    reveal(Canvas::settled);
    reveal(Canvas::push_dim);
    reveal(Canvas::push_style);
    reveal(Canvas::pop_style);
    reveal(Canvas::print);
    let s = StyleState { dim: true, ..m.current };
    assert(out::on_top(m.current, s) == s);
    lemma_quiet_change(m.cmds, m.current, s, c);
    let a = m.push_dim();
    assert(a.cmds == out::then_style_change(m.cmds, m.current, s));
    assert(a.current == s);
    let b = a.print(t);
    seen::lemma_behind_push(a.cmds, Command::Print(t), Command::SetForegroundColor(c));
    lemma_quiet_change(b.cmds, s, m.current, c);
    assert(b.stack.last() == m.current);
    assert(b.stack.drop_last() =~= m.stack);
}

/// Dim text in two parts.
pub proof fn lemma_unlit_dim_two(m: Canvas, t: Seq<char>, u: Seq<char>, c: Color)
    requires
        unlit(m, c),
    ensures
        ({
            let r = m.push_dim().print(t).print(u).pop_style();
            &&& unlit(r, c)
            &&& same_style(m, r)
            &&& lit(r, c) == lit(m, c)
        }),
{
    reveal(Canvas::settled);
    reveal(Canvas::push_dim);
    reveal(Canvas::push_style);
    reveal(Canvas::pop_style);
    reveal(Canvas::print);
    let s = StyleState { dim: true, ..m.current };
    assert(out::on_top(m.current, s) == s);
    lemma_quiet_change(m.cmds, m.current, s, c);
    let a = m.push_dim();
    assert(a.cmds == out::then_style_change(m.cmds, m.current, s));
    assert(a.current == s);
    let on = Command::SetForegroundColor(c);
    seen::lemma_behind_push(a.cmds, Command::Print(t), on);
    seen::lemma_behind_push(a.print(t).cmds, Command::Print(u), on);
    let b = a.print(t).print(u);
    lemma_quiet_change(b.cmds, s, m.current, c);
    assert(b.stack.last() == m.current);
    assert(b.stack.drop_last() =~= m.stack);
}

/// Text that is in the colour when it is selected, and plain otherwise.
pub open spec fn label_drawn(m: Canvas, t: Seq<char>, selected: bool, c: Color) -> Canvas {
    if selected {
        m.push_fg(c).print(t).pop_style()
    } else {
        m.print(t)
    }
}

pub proof fn lemma_label(m: Canvas, t: Seq<char>, selected: bool, c: Color)
    requires
        unlit(m, c),
    ensures
        ({
            let r = label_drawn(m, t, selected, c);
            &&& unlit(r, c)
            &&& same_style(m, r)
            &&& lit(r, c) == if selected {
                lit(m, c).push(t)
            } else {
                lit(m, c)
            }
            &&& seen::prints(r) == seen::prints(m).push(t)
        }),
{
    broadcast use seen::group_prints;

    if !selected {
        lemma_unlit_print(m, t, c);
    } else {
        reveal(Canvas::settled);
        reveal(Canvas::push_fg);
        reveal(Canvas::push_style);
        reveal(Canvas::pop_style);
        reveal(Canvas::print);
        let on = Command::SetForegroundColor(c);
        let s = StyleState { fg: Some(c), ..m.current };
        assert(out::on_top(m.current, s) == s);
        let a = m.push_fg(c);
        assert(a.cmds == out::then_style_change(m.cmds, m.current, s));
        assert(a.cmds == m.cmds.push(on));
        seen::lemma_behind_push(m.cmds, on, on);
        let b = a.print(t);
        seen::lemma_behind_push(a.cmds, Command::Print(t), on);
        lemma_quiet_change(b.cmds, s, m.current, c);
        assert(b.stack.last() == m.current);
        assert(b.stack.drop_last() =~= m.stack);
    }
}

} // verus!
