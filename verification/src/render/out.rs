//! Terminal output as a recorded list of commands, with a style stack.

use vstd::prelude::*;

verus! {

/// A terminal colour.
#[derive(Clone, Copy, Debug, PartialEq, Eq, Structural)]
pub enum Color {
    /// The terminal's own default.
    Reset,
    Black,
    White,
    Red,
    Green,
    DarkGrey,
    /// An entry of the 256-colour palette.
    AnsiValue(u8),
    Rgb { r: u8, g: u8, b: u8 },
}

/// A text attribute change.
#[derive(Clone, Copy, Debug, PartialEq, Eq, Structural)]
pub enum Attribute {
    Reset,
    Bold,
    Dim,
    Italic,
    CrossedOut,
    Underlined,
    NormalIntensity,
    NoItalic,
    NotCrossedOut,
    NoUnderline,
}

/// Which part of the screen a clear command erases.
#[derive(Clone, Copy, Debug, PartialEq, Eq, Structural)]
pub enum ClearType {
    All,
    Purge,
    FromCursorDown,
    CurrentLine,
    UntilNewLine,
}

/// One terminal command.  `T` is the text type: `String` when recorded,
/// `Seq<char>` in specifications.
#[derive(Clone, Debug, PartialEq, Eq)]
pub enum Command<T> {
    Print(T),
    SetForegroundColor(Color),
    SetBackgroundColor(Color),
    SetAttribute(Attribute),
    ResetColor,
    Clear(ClearType),
    MoveTo(u16, u16),
    MoveToColumn(u16),
    SavePosition,
    RestorePosition,
    ScrollUp(u16),
    Hide,
    Show,
    BeginSynchronizedUpdate,
    EndSynchronizedUpdate,
    Flush,
}

/// The command with its text taken as a sequence of characters.
pub open spec fn command_view(c: Command<String>) -> Command<Seq<char>> {
    match c {
        Command::Print(t) => Command::Print(t@),
        Command::SetForegroundColor(x) => Command::SetForegroundColor(x),
        Command::SetBackgroundColor(x) => Command::SetBackgroundColor(x),
        Command::SetAttribute(x) => Command::SetAttribute(x),
        Command::ResetColor => Command::ResetColor,
        Command::Clear(x) => Command::Clear(x),
        Command::MoveTo(x, y) => Command::MoveTo(x, y),
        Command::MoveToColumn(x) => Command::MoveToColumn(x),
        Command::SavePosition => Command::SavePosition,
        Command::RestorePosition => Command::RestorePosition,
        Command::ScrollUp(n) => Command::ScrollUp(n),
        Command::Hide => Command::Hide,
        Command::Show => Command::Show,
        Command::BeginSynchronizedUpdate => Command::BeginSynchronizedUpdate,
        Command::EndSynchronizedUpdate => Command::EndSynchronizedUpdate,
        Command::Flush => Command::Flush,
    }
}

/// The commands with their texts taken as sequences of characters.
pub open spec fn commands_view(s: Seq<Command<String>>) -> Seq<Command<Seq<char>>> {
    Seq::new(s.len(), |i: int| command_view(s[i]))
}

/// Terminal style: colours and attributes that are switched on.
#[derive(Clone, Copy, Debug, PartialEq, Eq, Structural)]
pub struct StyleState {
    pub fg: Option<Color>,
    pub bg: Option<Color>,
    pub bold: bool,
    pub dim: bool,
    pub italic: bool,
    pub crossedout: bool,
    pub underline: bool,
}

/// The terminal's default style.
pub open spec fn plain_style() -> StyleState {
    StyleState {
        fg: None,
        bg: None,
        bold: false,
        dim: false,
        italic: false,
        crossedout: false,
        underline: false,
    }
}

impl Default for StyleState {
    fn default() -> (r: StyleState)
        ensures
            r == plain_style(),
    {
        StyleState {
            fg: None,
            bg: None,
            bold: false,
            dim: false,
            italic: false,
            crossedout: false,
            underline: false,
        }
    }
}

/// Whether two optional colours agree.
pub fn same_color(a: Option<Color>, b: Option<Color>) -> (r: bool)
    ensures
        r == (a == b),
{
    match (a, b) {
        (Some(x), Some(y)) => x == y,
        (None, None) => true,
        _ => false,
    }
}

/// The colour to select for an optional colour.
pub fn chosen_color(c: Option<Color>) -> (r: Color)
    ensures
        r == color_or_reset(c),
{
    match c {
        Some(x) => x,
        None => Color::Reset,
    }
}

/// Whether two styles agree in every field.
pub fn same_style(a: &StyleState, b: &StyleState) -> (r: bool)
    ensures
        r == (*a == *b),
{
    same_color(a.fg, b.fg) && same_color(a.bg, b.bg) && a.bold == b.bold && a.dim == b.dim
        && a.italic == b.italic && a.crossedout == b.crossedout && a.underline == b.underline
}

/// The style `target` on top of `current`: colours that `target` leaves open
/// are those of `current`.
pub open spec fn on_top(current: StyleState, target: StyleState) -> StyleState {
    StyleState {
        fg: if target.fg is Some {
            target.fg
        } else {
            current.fg
        },
        bg: if target.bg is Some {
            target.bg
        } else {
            current.bg
        },
        ..target
    }
}

fn laid_on(current: &StyleState, target: StyleState) -> (r: StyleState)
    ensures
        r == on_top(*current, target),
{
    let mut r = target;
    if r.fg.is_none() {
        r.fg = current.fg;
    }
    if r.bg.is_none() {
        r.bg = current.bg;
    }
    r
}

/// `cmds`, with `c` behind it when `b` holds.
pub open spec fn when(cmds: Seq<Command<Seq<char>>>, b: bool, c: Command<Seq<char>>) -> Seq<
    Command<Seq<char>>,
> {
    if b {
        cmds.push(c)
    } else {
        cmds
    }
}

/// Number of attributes that are on in `from` and off in `to`.
pub open spec fn attributes_dropped(from: StyleState, to: StyleState) -> int {
    (if from.bold && !to.bold { 1int } else { 0 }) + (if from.dim && !to.dim { 1int } else { 0 })
        + (if from.italic && !to.italic { 1int } else { 0 })
        + (if from.crossedout && !to.crossedout { 1int } else { 0 })
        + (if from.underline && !to.underline { 1int } else { 0 })
}

/// Whether the change from `from` to `to` goes through a full reset: two or
/// more attributes go off, or one of bold and dim goes off while the other
/// has to be on.
pub open spec fn needs_reset(from: StyleState, to: StyleState) -> bool {
    ||| attributes_dropped(from, to) >= 2
    ||| from.bold && !to.bold && to.dim
    ||| from.dim && !to.dim && to.bold
}

/// The colour to select for an optional colour.
pub open spec fn color_or_reset(c: Option<Color>) -> Color {
    match c {
        Some(x) => x,
        None => Color::Reset,
    }
}

/// `cmds`, and behind them the commands that select `to` on a terminal in its
/// default style.
pub open spec fn then_style(cmds: Seq<Command<Seq<char>>>, to: StyleState) -> Seq<
    Command<Seq<char>>,
> {
    let cmds = when(cmds, to.fg is Some, Command::SetForegroundColor(color_or_reset(to.fg)));
    let cmds = when(cmds, to.bg is Some, Command::SetBackgroundColor(color_or_reset(to.bg)));
    let cmds = when(cmds, to.bold, Command::SetAttribute(Attribute::Bold));
    let cmds = when(cmds, to.dim, Command::SetAttribute(Attribute::Dim));
    let cmds = when(cmds, to.italic, Command::SetAttribute(Attribute::Italic));
    let cmds = when(cmds, to.crossedout, Command::SetAttribute(Attribute::CrossedOut));
    when(cmds, to.underline, Command::SetAttribute(Attribute::Underlined))
}

/// `cmds`, and behind them the commands that take a terminal from style
/// `from` to style `to`.
pub open spec fn then_style_change(
    cmds: Seq<Command<Seq<char>>>,
    from: StyleState,
    to: StyleState,
) -> Seq<Command<Seq<char>>> {
    if needs_reset(from, to) {
        then_style(
            cmds.push(Command::SetAttribute(Attribute::Reset)).push(Command::ResetColor),
            to,
        )
    } else {
        let cmds = when(
            cmds,
            from.bold && !to.bold || from.dim && !to.dim,
            Command::SetAttribute(Attribute::NormalIntensity),
        );
        let cmds = when(
            cmds,
            from.italic && !to.italic,
            Command::SetAttribute(Attribute::NoItalic),
        );
        let cmds = when(
            cmds,
            from.crossedout && !to.crossedout,
            Command::SetAttribute(Attribute::NotCrossedOut),
        );
        let cmds = when(
            cmds,
            from.underline && !to.underline,
            Command::SetAttribute(Attribute::NoUnderline),
        );
        let cmds = when(cmds, !from.bold && to.bold, Command::SetAttribute(Attribute::Bold));
        let cmds = when(cmds, !from.dim && to.dim, Command::SetAttribute(Attribute::Dim));
        let cmds = when(cmds, !from.italic && to.italic, Command::SetAttribute(Attribute::Italic));
        let cmds = when(
            cmds,
            !from.crossedout && to.crossedout,
            Command::SetAttribute(Attribute::CrossedOut),
        );
        let cmds = when(
            cmds,
            !from.underline && to.underline,
            Command::SetAttribute(Attribute::Underlined),
        );
        let cmds = when(
            cmds,
            from.fg != to.fg,
            Command::SetForegroundColor(color_or_reset(to.fg)),
        );
        when(cmds, from.bg != to.bg, Command::SetBackgroundColor(color_or_reset(to.bg)))
    }
}

/// `a + b`, or `u16::MAX` when that does not fit.
pub open spec fn rows_plus(a: u16, b: u16) -> u16 {
    if a + b > u16::MAX {
        u16::MAX
    } else {
        (a + b) as u16
    }
}

/// A canvas, and the rows that were put on it.
pub struct Drawn {
    pub canvas: Canvas,
    pub rows: u16,
}

impl Drawn {
    /// One row more.
    pub open spec fn row(self, m: Canvas) -> Drawn {
        Drawn { canvas: m, rows: rows_plus(self.rows, 1) }
    }

    /// `n` rows more.
    pub open spec fn rows(self, m: Canvas, n: u16) -> Drawn {
        Drawn { canvas: m, rows: rows_plus(self.rows, n) }
    }
}

/// A canvas with nothing put on it yet.
pub open spec fn drawn(m: Canvas) -> Drawn {
    Drawn { canvas: m, rows: 0 }
}

/// What a [`RenderOut`] holds: the commands so far, the overlay row if output
/// is positioned, the style in force, whether that is known, and the styles to
/// go back to.
pub struct Canvas {
    pub cmds: Seq<Command<Seq<char>>>,
    pub row: Option<u16>,
    pub current: StyleState,
    pub known: bool,
    pub stack: Seq<StyleState>,
}

impl Canvas {
    /// Nothing drawn, default style.
    pub open spec fn blank() -> Canvas {
        Canvas { cmds: seq![], row: None, current: plain_style(), known: true, stack: seq![] }
    }

    /// The default style in force, by a reset, where no style is known.
    #[verifier::opaque]
    pub open spec fn settled(self) -> Canvas {
        if self.known {
            self
        } else {
            Canvas {
                cmds: self.cmds.push(Command::SetAttribute(Attribute::Reset)).push(
                    Command::ResetColor,
                ),
                current: plain_style(),
                known: true,
                ..self
            }
        }
    }

    /// One more command.
    #[verifier::opaque]
    pub open spec fn queue(self, c: Command<Seq<char>>) -> Canvas {
        Canvas { cmds: self.cmds.push(c), ..self }
    }

    /// Prints `text` in the style in force.
    #[verifier::opaque]
    pub open spec fn print(self, text: Seq<char>) -> Canvas {
        Canvas { cmds: self.cmds.push(Command::Print(text)), ..self }
    }

    /// Appends recorded commands, after which no style is known or saved.
    #[verifier::opaque]
    pub open spec fn replay(self, cmds: Seq<Command<Seq<char>>>) -> Canvas {
        Canvas {
            cmds: self.cmds + cmds,
            row: self.row,
            current: plain_style(),
            known: false,
            stack: seq![],
        }
    }

    /// Appends recorded commands that leave the style as it is.
    #[verifier::opaque]
    pub open spec fn append(self, cmds: Seq<Command<Seq<char>>>) -> Canvas {
        Canvas { cmds: self.cmds + cmds, ..self }
    }

    /// Says on which row output goes on.
    #[verifier::opaque]
    pub open spec fn at_row(self, row: Option<u16>) -> Canvas {
        Canvas { row, ..self }
    }

    /// Saves the style in force and switches to `target`, on top of it.
    #[verifier::opaque]
    pub open spec fn push_style(self, target: StyleState) -> Canvas {
        let m = self.settled();
        let style = on_top(m.current, target);
        Canvas {
            cmds: then_style_change(m.cmds, m.current, style),
            current: style,
            stack: m.stack.push(m.current),
            ..m
        }
    }

    /// Goes back to the style saved last; the style stays when none is saved.
    #[verifier::opaque]
    pub open spec fn pop_style(self) -> Canvas {
        let m = self.settled();
        if m.stack.len() == 0 {
            m
        } else {
            Canvas {
                cmds: then_style_change(m.cmds, m.current, m.stack.last()),
                current: m.stack.last(),
                stack: m.stack.drop_last(),
                ..m
            }
        }
    }

    #[verifier::opaque]
    pub open spec fn push_fg(self, color: Color) -> Canvas {
        let m = self.settled();
        m.push_style(StyleState { fg: Some(color), ..m.current })
    }

    #[verifier::opaque]
    pub open spec fn push_bg(self, color: Color) -> Canvas {
        let m = self.settled();
        m.push_style(StyleState { bg: Some(color), ..m.current })
    }

    #[verifier::opaque]
    pub open spec fn push_bold(self) -> Canvas {
        let m = self.settled();
        m.push_style(StyleState { bold: true, ..m.current })
    }

    #[verifier::opaque]
    pub open spec fn push_dim(self) -> Canvas {
        let m = self.settled();
        m.push_style(StyleState { dim: true, ..m.current })
    }

    #[verifier::opaque]
    pub open spec fn push_italic(self) -> Canvas {
        let m = self.settled();
        m.push_style(StyleState { italic: true, ..m.current })
    }

    #[verifier::opaque]
    pub open spec fn push_crossedout(self) -> Canvas {
        let m = self.settled();
        m.push_style(StyleState { crossedout: true, ..m.current })
    }

    #[verifier::opaque]
    pub open spec fn push_dim_italic(self) -> Canvas {
        let m = self.settled();
        m.push_style(StyleState { dim: true, italic: true, ..m.current })
    }

    /// Changes the foreground without saving the style; nothing when it is
    /// in force already.
    #[verifier::opaque]
    pub open spec fn set_fg(self, color: Color) -> Canvas {
        let m = self.settled();
        if m.current.fg == Some(color) {
            m
        } else {
            Canvas {
                cmds: m.cmds.push(Command::SetForegroundColor(color)),
                current: StyleState { fg: Some(color), ..m.current },
                ..m
            }
        }
    }

    #[verifier::opaque]
    pub open spec fn set_bg(self, color: Color) -> Canvas {
        let m = self.settled();
        if m.current.bg == Some(color) {
            m
        } else {
            Canvas {
                cmds: m.cmds.push(Command::SetBackgroundColor(color)),
                current: StyleState { bg: Some(color), ..m.current },
                ..m
            }
        }
    }

    #[verifier::opaque]
    pub open spec fn set_bold(self) -> Canvas {
        let m = self.settled();
        if m.current.bold {
            m
        } else {
            Canvas {
                cmds: m.cmds.push(Command::SetAttribute(Attribute::Bold)),
                current: StyleState { bold: true, ..m.current },
                ..m
            }
        }
    }

    #[verifier::opaque]
    pub open spec fn set_dim(self) -> Canvas {
        let m = self.settled();
        if m.current.dim {
            m
        } else {
            Canvas {
                cmds: m.cmds.push(Command::SetAttribute(Attribute::Dim)),
                current: StyleState { dim: true, ..m.current },
                ..m
            }
        }
    }

    #[verifier::opaque]
    pub open spec fn set_italic(self) -> Canvas {
        let m = self.settled();
        if m.current.italic {
            m
        } else {
            Canvas {
                cmds: m.cmds.push(Command::SetAttribute(Attribute::Italic)),
                current: StyleState { italic: true, ..m.current },
                ..m
            }
        }
    }

    #[verifier::opaque]
    pub open spec fn set_dim_italic(self) -> Canvas {
        self.set_dim().set_italic()
    }

    /// Back to the default style; nothing when it is in force already.
    #[verifier::opaque]
    pub open spec fn reset_style(self) -> Canvas {
        let m = self.settled();
        if m.current == plain_style() {
            m
        } else {
            Canvas {
                cmds: m.cmds.push(Command::SetAttribute(Attribute::Reset)).push(
                    Command::ResetColor,
                ),
                current: plain_style(),
                ..m
            }
        }
    }

    /// Clears the rest of the line and goes to the next: by a line break when
    /// output scrolls, by moving the cursor when it is positioned.
    #[verifier::opaque]
    pub open spec fn crlf(self) -> Canvas {
        let cleared = self.cmds.push(Command::Clear(ClearType::UntilNewLine));
        match self.row {
            Some(r) => Canvas {
                cmds: cleared.push(Command::MoveTo(0, rows_plus(r, 1))),
                row: Some(rows_plus(r, 1)),
                ..self
            },
            None => Canvas { cmds: cleared.push(Command::Print("\r\n"@)), ..self },
        }
    }

    /// `n` times [`Canvas::crlf`].
    pub open spec fn crlfs(self, n: int) -> Canvas
        decreases n,
    {
        if n <= 0 {
            self
        } else {
            self.crlfs(n - 1).crlf()
        }
    }
}

/// Recorded terminal output.
///
/// In scroll mode (`row` is `None`) lines end in a line break; with a row the
/// output is positioned and lines end by moving the cursor.
pub struct RenderOut {
    cmds: Vec<Command<String>>,
    row: Option<u16>,
    current: StyleState,
    /// Whether `current` is the style in which the terminal prints.
    known: bool,
    stack: Vec<StyleState>,
}

impl View for RenderOut {
    type V = Canvas;

    closed spec fn view(&self) -> Canvas {
        Canvas {
            cmds: commands_view(self.cmds@),
            row: self.row,
            current: self.current,
            known: self.known,
            stack: self.stack@,
        }
    }
}

impl RenderOut {
    /// An empty output in scroll mode.
    pub fn scroll() -> (r: RenderOut)
        ensures
            r@ == Canvas::blank(),
    {
        let r = RenderOut {
            cmds: Vec::new(),
            row: None,
            current: StyleState::default(),
            known: true,
            stack: Vec::new(),
        };
        assert(r@.cmds =~= Canvas::blank().cmds);
        assert(r@.stack =~= Canvas::blank().stack);
        r
    }

    /// An empty output in scroll mode, for content that is kept and replayed.
    pub fn buffer() -> (r: RenderOut)
        ensures
            r@ == Canvas::blank(),
    {
        RenderOut::scroll()
    }

    /// The recorded commands.
    pub fn into_commands(self) -> (r: Vec<Command<String>>)
        ensures
            commands_view(r@) == self@.cmds,
    {
        self.cmds
    }

    /// The recorded commands.
    pub fn commands(&self) -> (r: &Vec<Command<String>>)
        ensures
            commands_view(r@) == self@.cmds,
    {
        &self.cmds
    }

    /// The overlay row, if output is positioned.
    pub fn row(&self) -> (r: Option<u16>)
        ensures
            r == self@.row,
    {
        self.row
    }

    /// Selects positioned output (`Some`) or scrolling output (`None`).
    pub fn set_row(&mut self, row: Option<u16>)
        ensures
            final(self)@ == old(self)@.at_row(row),
    {
        proof {
            reveal(Canvas::at_row);
        }
        self.row = row;
    }

    /// Records one command.
    pub fn queue(&mut self, c: Command<String>)
        ensures
            final(self)@ == old(self)@.queue(command_view(c)),
    {
        proof {
            reveal(Canvas::queue);
        }
        self.cmds.push(c);
        assert(self@.cmds =~= old(self)@.cmds.push(command_view(c)));
    }

    /// Records a print command.
    pub fn print(&mut self, text: &str)
        ensures
            final(self)@ == old(self)@.print(text@),
    {
        proof {
            reveal(Canvas::print);
            reveal(Canvas::queue);
        }
        self.queue(Command::Print(text.to_owned()));
    }

    /// Appends recorded commands that leave the style as it is.
    pub fn append(&mut self, cmds: &Vec<Command<String>>)
        ensures
            final(self)@ == old(self)@.append(commands_view(cmds@)),
    {
        proof {
            reveal(Canvas::append);
        }
        let mut i: usize = 0;
        while i < cmds.len()
            invariant
                i <= cmds@.len(),
                self@ == (Canvas {
                    cmds: old(self)@.cmds + commands_view(cmds@).take(i as int),
                    ..old(self)@
                }),
            decreases cmds@.len() - i,
        {
            proof {
                reveal(Canvas::queue);
            }
            let c = copy_command(&cmds[i]);
            self.queue(c);
            assert(commands_view(cmds@).take(i + 1) =~= commands_view(cmds@).take(i as int).push(
                command_view(cmds@[i as int]),
            ));
            assert(self@.cmds =~= old(self)@.cmds + commands_view(cmds@).take(i + 1));
            i = i + 1;
        }
        assert(commands_view(cmds@).take(cmds@.len() as int) =~= commands_view(cmds@));
    }

    /// Appends recorded commands, after which no style is known: the next
    /// style call starts from a reset.
    pub fn replay(&mut self, cmds: &Vec<Command<String>>)
        ensures
            final(self)@ == old(self)@.replay(commands_view(cmds@)),
    {
        proof {
            reveal(Canvas::append);
            reveal(Canvas::replay);
        }
        self.append(cmds);
        self.current = StyleState::default();
        self.known = false;
        self.stack = Vec::new();
        assert(self@.stack =~= seq![]);
    }

    /// Puts the default style in force where no style is known.
    fn settle(&mut self)
        ensures
            final(self)@ == old(self)@.settled(),
    {
        proof {
            reveal(Canvas::settled);
            reveal(Canvas::queue);
        }
        if !self.known {
            self.queue(Command::SetAttribute(Attribute::Reset));
            self.queue(Command::ResetColor);
            self.current = StyleState::default();
            self.known = true;
        }
    }

    /// Records the commands for a style change, without touching the stack.
    fn emit_diff(&mut self, target: &StyleState)
        ensures
            final(self)@ == (Canvas {
                cmds: then_style_change(old(self)@.cmds, old(self)@.current, *target),
                ..old(self)@
            }),
    {
        let from = self.current;
        let to = *target;
        let mut dropped: u8 = 0;
        if from.bold && !to.bold {
            dropped = dropped + 1;
        }
        if from.dim && !to.dim {
            dropped = dropped + 1;
        }
        if from.italic && !to.italic {
            dropped = dropped + 1;
        }
        if from.crossedout && !to.crossedout {
            dropped = dropped + 1;
        }
        if from.underline && !to.underline {
            dropped = dropped + 1;
        }
        let conflict = (from.bold && !to.bold && to.dim) || (from.dim && !to.dim && to.bold);
        if dropped >= 2 || conflict {
            self.queue_if(true, Command::SetAttribute(Attribute::Reset));
            self.queue_if(true, Command::ResetColor);
            self.queue_if(to.fg.is_some(), Command::SetForegroundColor(chosen_color(to.fg)));
            self.queue_if(to.bg.is_some(), Command::SetBackgroundColor(chosen_color(to.bg)));
            self.queue_if(to.bold, Command::SetAttribute(Attribute::Bold));
            self.queue_if(to.dim, Command::SetAttribute(Attribute::Dim));
            self.queue_if(to.italic, Command::SetAttribute(Attribute::Italic));
            self.queue_if(to.crossedout, Command::SetAttribute(Attribute::CrossedOut));
            self.queue_if(to.underline, Command::SetAttribute(Attribute::Underlined));
        } else {
            self.queue_if(
                from.bold && !to.bold || from.dim && !to.dim,
                Command::SetAttribute(Attribute::NormalIntensity),
            );
            self.queue_if(from.italic && !to.italic, Command::SetAttribute(Attribute::NoItalic));
            self.queue_if(
                from.crossedout && !to.crossedout,
                Command::SetAttribute(Attribute::NotCrossedOut),
            );
            self.queue_if(
                from.underline && !to.underline,
                Command::SetAttribute(Attribute::NoUnderline),
            );
            self.queue_if(!from.bold && to.bold, Command::SetAttribute(Attribute::Bold));
            self.queue_if(!from.dim && to.dim, Command::SetAttribute(Attribute::Dim));
            self.queue_if(!from.italic && to.italic, Command::SetAttribute(Attribute::Italic));
            self.queue_if(
                !from.crossedout && to.crossedout,
                Command::SetAttribute(Attribute::CrossedOut),
            );
            self.queue_if(
                !from.underline && to.underline,
                Command::SetAttribute(Attribute::Underlined),
            );
            self.queue_if(
                !same_color(from.fg, to.fg),
                Command::SetForegroundColor(chosen_color(to.fg)),
            );
            self.queue_if(
                !same_color(from.bg, to.bg),
                Command::SetBackgroundColor(chosen_color(to.bg)),
            );
        }
    }

    /// Records `c` when `b` holds.
    fn queue_if(&mut self, b: bool, c: Command<String>)
        ensures
            final(self)@ == (Canvas {
                cmds: when(old(self)@.cmds, b, command_view(c)),
                ..old(self)@
            }),
    {
        proof {
            reveal(Canvas::queue);
        }
        if b {
            self.queue(c);
        }
    }

    /// Saves the style in force and switches to `target`, recording only what
    /// changes; colours that `target` leaves open stay.
    pub fn push_style(&mut self, target: StyleState)
        ensures
            final(self)@ == old(self)@.push_style(target),
    {
        proof {
            reveal(Canvas::push_style);
        }
        self.settle();
        let ghost m = self@;
        let style = laid_on(&self.current, target);
        self.stack.push(self.current);
        self.emit_diff(&style);
        self.current = style;
        assert(self@.stack =~= m.stack.push(m.current));
    }

    /// Goes back to the style saved last, recording only what changes; the
    /// style stays when none is saved.
    pub fn pop_style(&mut self)
        ensures
            final(self)@ == old(self)@.pop_style(),
    {
        proof {
            reveal(Canvas::pop_style);
        }
        self.settle();
        let ghost m = self@;
        if let Some(prev) = self.stack.pop() {
            self.emit_diff(&prev);
            self.current = prev;
            assert(self@.stack =~= m.stack.drop_last());
        }
    }

    /// Saves the style and changes the foreground colour.
    pub fn push_fg(&mut self, color: Color)
        ensures
            final(self)@ == old(self)@.push_fg(color),
    {
        proof {
            reveal(Canvas::push_fg);
        }
        self.settle();
        let mut target = self.current;
        target.fg = Some(color);
        self.push_style(target);
    }

    /// Saves the style and changes the background colour.
    pub fn push_bg(&mut self, color: Color)
        ensures
            final(self)@ == old(self)@.push_bg(color),
    {
        proof {
            reveal(Canvas::push_bg);
        }
        self.settle();
        let mut target = self.current;
        target.bg = Some(color);
        self.push_style(target);
    }

    /// Saves the style and adds bold.
    pub fn push_bold(&mut self)
        ensures
            final(self)@ == old(self)@.push_bold(),
    {
        proof {
            reveal(Canvas::push_bold);
        }
        self.settle();
        let mut target = self.current;
        target.bold = true;
        self.push_style(target);
    }

    /// Saves the style and adds dim.
    pub fn push_dim(&mut self)
        ensures
            final(self)@ == old(self)@.push_dim(),
    {
        proof {
            reveal(Canvas::push_dim);
        }
        self.settle();
        let mut target = self.current;
        target.dim = true;
        self.push_style(target);
    }

    /// Saves the style and adds italic.
    pub fn push_italic(&mut self)
        ensures
            final(self)@ == old(self)@.push_italic(),
    {
        proof {
            reveal(Canvas::push_italic);
        }
        self.settle();
        let mut target = self.current;
        target.italic = true;
        self.push_style(target);
    }

    /// Saves the style and adds crossed-out.
    pub fn push_crossedout(&mut self)
        ensures
            final(self)@ == old(self)@.push_crossedout(),
    {
        proof {
            reveal(Canvas::push_crossedout);
        }
        self.settle();
        let mut target = self.current;
        target.crossedout = true;
        self.push_style(target);
    }

    /// Saves the style and adds dim and italic.
    pub fn push_dim_italic(&mut self)
        ensures
            final(self)@ == old(self)@.push_dim_italic(),
    {
        proof {
            reveal(Canvas::push_dim_italic);
        }
        self.settle();
        let mut target = self.current;
        target.dim = true;
        target.italic = true;
        self.push_style(target);
    }

    /// Changes the foreground colour without saving the style.
    pub fn set_fg(&mut self, color: Color)
        ensures
            final(self)@ == old(self)@.set_fg(color),
    {
        proof {
            reveal(Canvas::set_fg);
            reveal(Canvas::queue);
        }
        self.settle();
        if !same_color(self.current.fg, Some(color)) {
            self.current.fg = Some(color);
            self.queue(Command::SetForegroundColor(color));
        }
    }

    /// Changes the background colour without saving the style.
    pub fn set_bg(&mut self, color: Color)
        ensures
            final(self)@ == old(self)@.set_bg(color),
    {
        proof {
            reveal(Canvas::set_bg);
            reveal(Canvas::queue);
        }
        self.settle();
        if !same_color(self.current.bg, Some(color)) {
            self.current.bg = Some(color);
            self.queue(Command::SetBackgroundColor(color));
        }
    }

    /// Switches bold on without saving the style.
    pub fn set_bold(&mut self)
        ensures
            final(self)@ == old(self)@.set_bold(),
    {
        proof {
            reveal(Canvas::set_bold);
            reveal(Canvas::queue);
        }
        self.settle();
        if !self.current.bold {
            self.current.bold = true;
            self.queue(Command::SetAttribute(Attribute::Bold));
        }
    }

    /// Switches dim on without saving the style.
    pub fn set_dim(&mut self)
        ensures
            final(self)@ == old(self)@.set_dim(),
    {
        proof {
            reveal(Canvas::set_dim);
            reveal(Canvas::queue);
        }
        self.settle();
        if !self.current.dim {
            self.current.dim = true;
            self.queue(Command::SetAttribute(Attribute::Dim));
        }
    }

    /// Switches italic on without saving the style.
    pub fn set_italic(&mut self)
        ensures
            final(self)@ == old(self)@.set_italic(),
    {
        proof {
            reveal(Canvas::set_italic);
            reveal(Canvas::queue);
        }
        self.settle();
        if !self.current.italic {
            self.current.italic = true;
            self.queue(Command::SetAttribute(Attribute::Italic));
        }
    }

    /// Switches dim and italic on without saving the style.
    pub fn set_dim_italic(&mut self)
        ensures
            final(self)@ == old(self)@.set_dim_italic(),
    {
        proof {
            reveal(Canvas::set_dim_italic);
        }
        self.set_dim();
        self.set_italic();
    }

    /// Back to the terminal's default style.
    pub fn reset_style(&mut self)
        ensures
            final(self)@ == old(self)@.reset_style(),
    {
        proof {
            reveal(Canvas::reset_style);
            reveal(Canvas::queue);
        }
        self.settle();
        let clean = StyleState::default();
        if !same_style(&self.current, &clean) {
            self.queue(Command::SetAttribute(Attribute::Reset));
            self.queue(Command::ResetColor);
            self.current = clean;
        }
    }

    /// Marks the style as unknown and forgets the saved ones: the next style
    /// call starts from a reset.
    pub fn invalidate_style(&mut self)
        ensures
            final(self)@ == old(self)@.replay(seq![]),
    {
        proof {
            reveal(Canvas::replay);
        }
        self.current = StyleState::default();
        self.known = false;
        self.stack.clear();
        assert(self@.cmds =~= old(self)@.cmds + seq![]);
        assert(self@.stack =~= seq![]);
    }
}

/// A copy of a recorded command.
pub fn copy_command(c: &Command<String>) -> (r: Command<String>)
    ensures
        command_view(r) == command_view(*c),
{
    match c {
        Command::Print(t) => Command::Print(t.clone()),
        Command::SetForegroundColor(x) => Command::SetForegroundColor(*x),
        Command::SetBackgroundColor(x) => Command::SetBackgroundColor(*x),
        Command::SetAttribute(x) => Command::SetAttribute(*x),
        Command::ResetColor => Command::ResetColor,
        Command::Clear(x) => Command::Clear(*x),
        Command::MoveTo(x, y) => Command::MoveTo(*x, *y),
        Command::MoveToColumn(x) => Command::MoveToColumn(*x),
        Command::SavePosition => Command::SavePosition,
        Command::RestorePosition => Command::RestorePosition,
        Command::ScrollUp(n) => Command::ScrollUp(*n),
        Command::Hide => Command::Hide,
        Command::Show => Command::Show,
        Command::BeginSynchronizedUpdate => Command::BeginSynchronizedUpdate,
        Command::EndSynchronizedUpdate => Command::EndSynchronizedUpdate,
        Command::Flush => Command::Flush,
    }
}

/// Clears the rest of the line and goes to the start of the next one.
pub fn crlf(out: &mut RenderOut)
    ensures
        final(out)@ == old(out)@.crlf(),
{
    proof {
        reveal(Canvas::crlf);
        reveal(Canvas::queue);
        reveal(Canvas::print);
        reveal(Canvas::at_row);
    }
    out.queue(Command::Clear(ClearType::UntilNewLine));
    match out.row() {
        Some(r) => {
            let next: u16 = r.saturating_add(1);
            out.set_row(Some(next));
            out.queue(Command::MoveTo(0, next));
        },
        None => {
            out.print("\r\n");
        },
    }
}

/// `n` line ends.
pub fn crlfs(out: &mut RenderOut, n: u16)
    ensures
        final(out)@ == old(out)@.crlfs(n as int),
{
    let mut i: u16 = 0;
    while i < n
        invariant
            i <= n,
            out@ == old(out)@.crlfs(i as int),
        decreases n - i,
    {
        crlf(out);
        i = i + 1;
    }
}

} // verus!
