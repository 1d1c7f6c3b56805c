//! What a terminal shows of recorded styles.

use vstd::prelude::*;

use crate::render::out;
use crate::render::out::{Attribute, Canvas, ClearType, Color, Command, StyleState};

verus! {

/// The style in which a terminal prints: a colour that is reset counts as
/// none.
pub open spec fn looks(s: StyleState) -> StyleState {
    StyleState {
        fg: if s.fg == Some(Color::Reset) {
            None
        } else {
            s.fg
        },
        bg: if s.bg == Some(Color::Reset) {
            None
        } else {
            s.bg
        },
        ..s
    }
}

/// What a command does to the style in which a terminal prints.
pub open spec fn obeyed(s: StyleState, c: Command<Seq<char>>) -> StyleState {
    match c {
        Command::SetForegroundColor(x) => looks(StyleState { fg: Some(x), ..s }),
        Command::SetBackgroundColor(x) => looks(StyleState { bg: Some(x), ..s }),
        Command::ResetColor => StyleState { fg: None, bg: None, ..s },
        Command::SetAttribute(a) => match a {
            Attribute::Reset => out::plain_style(),
            Attribute::Bold => StyleState { bold: true, ..s },
            Attribute::Dim => StyleState { dim: true, ..s },
            Attribute::Italic => StyleState { italic: true, ..s },
            Attribute::CrossedOut => StyleState { crossedout: true, ..s },
            Attribute::Underlined => StyleState { underline: true, ..s },
            Attribute::NormalIntensity => StyleState { bold: false, dim: false, ..s },
            Attribute::NoItalic => StyleState { italic: false, ..s },
            Attribute::NotCrossedOut => StyleState { crossedout: false, ..s },
            Attribute::NoUnderline => StyleState { underline: false, ..s },
        },
        _ => s,
    }
}

/// The style in which a terminal prints after `cmds`.
pub open spec fn style_after(s: StyleState, cmds: Seq<Command<Seq<char>>>) -> StyleState
    decreases cmds.len(),
{
    if cmds.len() == 0 {
        s
    } else {
        obeyed(style_after(s, cmds.drop_last()), cmds.last())
    }
}

/// The terminal prints in the style that the canvas has in force, where it
/// knows one.
pub open spec fn in_force(s: StyleState, m: Canvas) -> bool {
    m.known ==> style_after(s, m.cmds) == looks(m.current)
}

/// The canvas knows the style in which the terminal prints.
pub open spec fn certain(s: StyleState, m: Canvas) -> bool {
    m.known && style_after(s, m.cmds) == looks(m.current)
}

proof fn lemma_push(s: StyleState, cmds: Seq<Command<Seq<char>>>, c: Command<Seq<char>>)
    ensures
        style_after(s, cmds.push(c)) == obeyed(style_after(s, cmds), c),
{
    assert(cmds.push(c).drop_last() =~= cmds);
}

proof fn lemma_when(s: StyleState, cmds: Seq<Command<Seq<char>>>, b: bool, c: Command<Seq<char>>)
    ensures
        style_after(s, out::when(cmds, b, c)) == (if b {
            obeyed(style_after(s, cmds), c)
        } else {
            style_after(s, cmds)
        }),
{
    lemma_push(s, cmds, c);
}

proof fn lemma_style(s: StyleState, cmds: Seq<Command<Seq<char>>>, to: StyleState)
    requires
        style_after(s, cmds) == out::plain_style(),
    ensures
        style_after(s, out::then_style(cmds, to)) == looks(to),
{
    let fg = Command::<Seq<char>>::SetForegroundColor(out::color_or_reset(to.fg));
    let bg = Command::<Seq<char>>::SetBackgroundColor(out::color_or_reset(to.bg));
    lemma_when(s, cmds, to.fg is Some, fg);
    let c = out::when(cmds, to.fg is Some, fg);
    lemma_when(s, c, to.bg is Some, bg);
    let c = out::when(c, to.bg is Some, bg);
    lemma_when(s, c, to.bold, Command::SetAttribute(Attribute::Bold));
    let c = out::when(c, to.bold, Command::SetAttribute(Attribute::Bold));
    lemma_when(s, c, to.dim, Command::SetAttribute(Attribute::Dim));
    let c = out::when(c, to.dim, Command::SetAttribute(Attribute::Dim));
    lemma_when(s, c, to.italic, Command::SetAttribute(Attribute::Italic));
    let c = out::when(c, to.italic, Command::SetAttribute(Attribute::Italic));
    lemma_when(s, c, to.crossedout, Command::SetAttribute(Attribute::CrossedOut));
    let c = out::when(c, to.crossedout, Command::SetAttribute(Attribute::CrossedOut));
    lemma_when(s, c, to.underline, Command::SetAttribute(Attribute::Underlined));
}

/// `cmds`, and behind them those that switch off what goes.
spec fn switched_off(cmds: Seq<Command<Seq<char>>>, from: StyleState, to: StyleState) -> Seq<
    Command<Seq<char>>,
> {
    let c = out::when(
        cmds,
        from.bold && !to.bold || from.dim && !to.dim,
        Command::SetAttribute(Attribute::NormalIntensity),
    );
    let c = out::when(c, from.italic && !to.italic, Command::SetAttribute(Attribute::NoItalic));
    let c = out::when(
        c,
        from.crossedout && !to.crossedout,
        Command::SetAttribute(Attribute::NotCrossedOut),
    );
    out::when(c, from.underline && !to.underline, Command::SetAttribute(Attribute::NoUnderline))
}

/// `cmds`, and behind them those that switch on what comes.
spec fn switched_on(cmds: Seq<Command<Seq<char>>>, from: StyleState, to: StyleState) -> Seq<
    Command<Seq<char>>,
> {
    let c = out::when(cmds, !from.bold && to.bold, Command::SetAttribute(Attribute::Bold));
    let c = out::when(c, !from.dim && to.dim, Command::SetAttribute(Attribute::Dim));
    let c = out::when(c, !from.italic && to.italic, Command::SetAttribute(Attribute::Italic));
    let c = out::when(
        c,
        !from.crossedout && to.crossedout,
        Command::SetAttribute(Attribute::CrossedOut),
    );
    out::when(c, !from.underline && to.underline, Command::SetAttribute(Attribute::Underlined))
}

/// What is on in both styles, in the colours of the first.
spec fn common(from: StyleState, to: StyleState) -> StyleState {
    StyleState {
        bold: from.bold && to.bold,
        dim: from.dim && to.dim,
        italic: from.italic && to.italic,
        crossedout: from.crossedout && to.crossedout,
        underline: from.underline && to.underline,
        ..looks(from)
    }
}

proof fn lemma_off(s: StyleState, cmds: Seq<Command<Seq<char>>>, from: StyleState, to: StyleState)
    requires
        style_after(s, cmds) == looks(from),
        !out::needs_reset(from, to),
    ensures
        style_after(s, switched_off(cmds, from, to)) == common(from, to),
{
    let b = from.bold && !to.bold || from.dim && !to.dim;
    let x = Command::<Seq<char>>::SetAttribute(Attribute::NormalIntensity);
    lemma_when(s, cmds, b, x);
    let c = out::when(cmds, b, x);
    let b = from.italic && !to.italic;
    let x = Command::<Seq<char>>::SetAttribute(Attribute::NoItalic);
    lemma_when(s, c, b, x);
    let c = out::when(c, b, x);
    let b = from.crossedout && !to.crossedout;
    let x = Command::<Seq<char>>::SetAttribute(Attribute::NotCrossedOut);
    lemma_when(s, c, b, x);
    let c = out::when(c, b, x);
    let b = from.underline && !to.underline;
    let x = Command::<Seq<char>>::SetAttribute(Attribute::NoUnderline);
    lemma_when(s, c, b, x);
}

proof fn lemma_on(s: StyleState, cmds: Seq<Command<Seq<char>>>, from: StyleState, to: StyleState)
    requires
        style_after(s, cmds) == common(from, to),
    ensures
        style_after(s, switched_on(cmds, from, to)) == (StyleState {
            fg: looks(from).fg,
            bg: looks(from).bg,
            ..to
        }),
{
    let b = !from.bold && to.bold;
    let x = Command::<Seq<char>>::SetAttribute(Attribute::Bold);
    lemma_when(s, cmds, b, x);
    let c = out::when(cmds, b, x);
    let b = !from.dim && to.dim;
    let x = Command::<Seq<char>>::SetAttribute(Attribute::Dim);
    lemma_when(s, c, b, x);
    let c = out::when(c, b, x);
    let b = !from.italic && to.italic;
    let x = Command::<Seq<char>>::SetAttribute(Attribute::Italic);
    lemma_when(s, c, b, x);
    let c = out::when(c, b, x);
    let b = !from.crossedout && to.crossedout;
    let x = Command::<Seq<char>>::SetAttribute(Attribute::CrossedOut);
    lemma_when(s, c, b, x);
    let c = out::when(c, b, x);
    let b = !from.underline && to.underline;
    let x = Command::<Seq<char>>::SetAttribute(Attribute::Underlined);
    lemma_when(s, c, b, x);
}

/// The commands for a change of style take a terminal that prints in the one
/// style to the other.
pub proof fn law_style_change_arrives(
    s: StyleState,
    cmds: Seq<Command<Seq<char>>>,
    from: StyleState,
    to: StyleState,
)
    requires
        style_after(s, cmds) == looks(from),
    ensures
        style_after(s, out::then_style_change(cmds, from, to)) == looks(to),
{
    if out::needs_reset(from, to) {
        let reset = Command::<Seq<char>>::SetAttribute(Attribute::Reset);
        lemma_push(s, cmds, reset);
        lemma_push(s, cmds.push(reset), Command::ResetColor);
        lemma_style(s, cmds.push(reset).push(Command::ResetColor), to);
    } else {
        let off = switched_off(cmds, from, to);
        let on = switched_on(off, from, to);
        lemma_off(s, cmds, from, to);
        lemma_on(s, off, from, to);
        let fg = Command::<Seq<char>>::SetForegroundColor(out::color_or_reset(to.fg));
        let bg = Command::<Seq<char>>::SetBackgroundColor(out::color_or_reset(to.bg));
        lemma_when(s, on, from.fg != to.fg, fg);
        lemma_when(s, out::when(on, from.fg != to.fg, fg), from.bg != to.bg, bg);
    }
}

/// A style that stays sends nothing.
pub proof fn law_same_style_sends_nothing(cmds: Seq<Command<Seq<char>>>, s: StyleState)
    ensures
        out::then_style_change(cmds, s, s) == cmds,
{
}

/// Going back to the style saved last undoes a change of style, whatever is
/// printed in between; where no style was known, the default one is in force
/// afterwards.
pub proof fn law_pop_undoes_push(m: Canvas, target: StyleState, text: Seq<char>)
    ensures
        ({
            let r = m.push_style(target).print(text).pop_style();
            &&& r.known
            &&& r.current == (if m.known {
                m.current
            } else {
                out::plain_style()
            })
            &&& r.stack == m.stack
            &&& r.row == m.row
        }),
{
    reveal(Canvas::settled);
    reveal(Canvas::push_style);
    reveal(Canvas::pop_style);
    reveal(Canvas::print);
    let k = m.settled();
    assert(k.stack.push(k.current).drop_last() =~= k.stack);
}

/// A reset where no style is known puts the default style in force.
proof fn lemma_settled(s: StyleState, m: Canvas)
    requires
        in_force(s, m),
    ensures
        certain(s, m.settled()),
        m.settled().settled() == m.settled(),
{
    reveal(Canvas::settled);
    let reset = Command::<Seq<char>>::SetAttribute(Attribute::Reset);
    lemma_push(s, m.cmds, reset);
    lemma_push(s, m.cmds.push(reset), Command::ResetColor);
}

/// After recorded commands are replayed, or the style is marked as unknown,
/// the next style call starts from a reset, whatever it asks for.
pub proof fn law_unknown_style_is_reset(
    m: Canvas,
    cmds: Seq<Command<Seq<char>>>,
    target: StyleState,
    color: Color,
)
    ensures
        ({
            let u = m.replay(cmds);
            let start = (m.cmds + cmds).push(Command::SetAttribute(Attribute::Reset)).push(
                Command::ResetColor,
            );
            let plain = out::plain_style();
            let change = |to: StyleState| out::then_style_change(start, plain, to);
            &&& u.reset_style().cmds == start
            &&& u.pop_style().cmds == start
            &&& u.push_style(target).cmds == change(target)
            &&& u.push_fg(color).cmds == change(StyleState { fg: Some(color), ..plain })
            &&& u.push_bg(color).cmds == change(StyleState { bg: Some(color), ..plain })
            &&& u.push_bold().cmds == change(StyleState { bold: true, ..plain })
            &&& u.push_dim().cmds == change(StyleState { dim: true, ..plain })
            &&& u.push_italic().cmds == change(StyleState { italic: true, ..plain })
            &&& u.push_crossedout().cmds == change(StyleState { crossedout: true, ..plain })
            &&& u.push_dim_italic().cmds == change(
                StyleState { dim: true, italic: true, ..plain },
            )
            &&& u.set_fg(color).cmds == start.push(Command::SetForegroundColor(color))
            &&& u.set_bg(color).cmds == start.push(Command::SetBackgroundColor(color))
            &&& u.set_bold().cmds == start.push(Command::SetAttribute(Attribute::Bold))
            &&& u.set_dim().cmds == start.push(Command::SetAttribute(Attribute::Dim))
            &&& u.set_italic().cmds == start.push(Command::SetAttribute(Attribute::Italic))
        }),
{
    reveal(Canvas::settled);
    reveal(Canvas::replay);
    reveal(Canvas::push_style);
    reveal(Canvas::pop_style);
    reveal(Canvas::push_fg);
    reveal(Canvas::push_bg);
    reveal(Canvas::push_bold);
    reveal(Canvas::push_dim);
    reveal(Canvas::push_italic);
    reveal(Canvas::push_crossedout);
    reveal(Canvas::push_dim_italic);
    reveal(Canvas::set_fg);
    reveal(Canvas::set_bg);
    reveal(Canvas::set_bold);
    reveal(Canvas::set_dim);
    reveal(Canvas::set_italic);
    reveal(Canvas::reset_style);
    assert(out::on_top(out::plain_style(), target) == target);
}

proof fn lemma_push_style(s: StyleState, m: Canvas, target: StyleState)
    requires
        in_force(s, m),
    ensures
        certain(s, m.push_style(target)),
{
    reveal(Canvas::push_style);
    lemma_settled(s, m);
    let k = m.settled();
    law_style_change_arrives(s, k.cmds, k.current, out::on_top(k.current, target));
}

/// Whatever is printed, and also after recorded commands are replayed or the
/// style is marked as unknown, the terminal prints in the style that is in
/// force where one is known; and one is known once a style is pushed, popped,
/// set or reset.
pub proof fn law_style_is_in_force(
    s: StyleState,
    m: Canvas,
    target: StyleState,
    color: Color,
    text: Seq<char>,
    cmds: Seq<Command<Seq<char>>>,
)
    requires
        in_force(s, m),
    ensures
        in_force(s, m.print(text)),
        in_force(s, m.crlf()),
        in_force(s, m.replay(cmds)),
        in_force(s, m.replay(seq![])),
        certain(s, m.push_style(target)),
        certain(s, m.pop_style()),
        certain(s, m.push_fg(color)),
        certain(s, m.push_bg(color)),
        certain(s, m.push_bold()),
        certain(s, m.push_dim()),
        certain(s, m.push_italic()),
        certain(s, m.push_crossedout()),
        certain(s, m.push_dim_italic()),
        certain(s, m.set_fg(color)),
        certain(s, m.set_bg(color)),
        certain(s, m.set_bold()),
        certain(s, m.set_dim()),
        certain(s, m.set_italic()),
        certain(s, m.set_dim_italic()),
        certain(s, m.reset_style()),
        certain(s, m.replay(cmds).push_style(target)),
        certain(s, m.replay(cmds).reset_style()),
{
    reveal(Canvas::print);
    reveal(Canvas::crlf);
    reveal(Canvas::replay);
    reveal(Canvas::pop_style);
    reveal(Canvas::push_fg);
    reveal(Canvas::push_bg);
    reveal(Canvas::push_bold);
    reveal(Canvas::push_dim);
    reveal(Canvas::push_italic);
    reveal(Canvas::push_crossedout);
    reveal(Canvas::push_dim_italic);
    let k = m.settled();
    lemma_settled(s, m);
    lemma_push(s, m.cmds, Command::Print(text));
    let clear = Command::<Seq<char>>::Clear(ClearType::UntilNewLine);
    lemma_push(s, m.cmds, clear);
    lemma_push(s, m.cmds.push(clear), Command::Print("\r\n"@));
    match m.row {
        Some(r) => {
            lemma_push(s, m.cmds.push(clear), Command::MoveTo(0, out::rows_plus(r, 1)));
        },
        None => {},
    }
    if k.stack.len() > 0 {
        law_style_change_arrives(s, k.cmds, k.current, k.stack.last());
    }
    lemma_push_style(s, m, target);
    lemma_push_style(s, k, StyleState { fg: Some(color), ..k.current });
    lemma_push_style(s, k, StyleState { bg: Some(color), ..k.current });
    lemma_push_style(s, k, StyleState { bold: true, ..k.current });
    lemma_push_style(s, k, StyleState { dim: true, ..k.current });
    lemma_push_style(s, k, StyleState { italic: true, ..k.current });
    lemma_push_style(s, k, StyleState { crossedout: true, ..k.current });
    lemma_push_style(s, k, StyleState { dim: true, italic: true, ..k.current });
    lemma_set(s, m, color);
    reveal(Canvas::set_dim_italic);
    lemma_set(s, m.set_dim(), color);
    lemma_push_style(s, m.replay(cmds), target);
    lemma_set(s, m.replay(cmds), color);
}

proof fn lemma_set(s: StyleState, m: Canvas, color: Color)
    requires
        in_force(s, m),
    ensures
        certain(s, m.set_fg(color)),
        certain(s, m.set_bg(color)),
        certain(s, m.set_bold()),
        certain(s, m.set_dim()),
        certain(s, m.set_italic()),
        certain(s, m.reset_style()),
{
    reveal(Canvas::set_fg);
    reveal(Canvas::set_bg);
    reveal(Canvas::set_bold);
    reveal(Canvas::set_dim);
    reveal(Canvas::set_italic);
    reveal(Canvas::reset_style);
    lemma_settled(s, m);
    let c = m.settled().cmds;
    let reset = Command::<Seq<char>>::SetAttribute(Attribute::Reset);
    lemma_push(s, c, Command::SetForegroundColor(color));
    lemma_push(s, c, Command::SetBackgroundColor(color));
    lemma_push(s, c, Command::SetAttribute(Attribute::Bold));
    lemma_push(s, c, Command::SetAttribute(Attribute::Dim));
    lemma_push(s, c, Command::SetAttribute(Attribute::Italic));
    lemma_push(s, c, reset);
    lemma_push(s, c.push(reset), Command::ResetColor);
}

} // verus!
