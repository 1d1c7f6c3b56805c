//! Recorded styles, and what a terminal makes of them.

use tui::render::out::{
    crlf, Attribute, ClearType, Color, Command, RenderOut, StyleState,
};

/// The style in which a terminal prints after the commands.
fn style_after(cmds: &Vec<Command<String>>) -> StyleState {
    let mut s = StyleState::default();
    for c in cmds {
        match c {
            Command::SetForegroundColor(Color::Reset) => s.fg = None,
            Command::SetForegroundColor(x) => s.fg = Some(*x),
            Command::SetBackgroundColor(Color::Reset) => s.bg = None,
            Command::SetBackgroundColor(x) => s.bg = Some(*x),
            Command::ResetColor => {
                s.fg = None;
                s.bg = None;
            }
            Command::SetAttribute(a) => match a {
                Attribute::Reset => s = StyleState::default(),
                Attribute::Bold => s.bold = true,
                Attribute::Dim => s.dim = true,
                Attribute::Italic => s.italic = true,
                Attribute::CrossedOut => s.crossedout = true,
                Attribute::Underlined => s.underline = true,
                Attribute::NormalIntensity => {
                    s.bold = false;
                    s.dim = false;
                }
                Attribute::NoItalic => s.italic = false,
                Attribute::NotCrossedOut => s.crossedout = false,
                Attribute::NoUnderline => s.underline = false,
            },
            _ => {}
        }
    }
    s
}

fn all_styles() -> Vec<StyleState> {
    let colors = [None, Some(Color::Red), Some(Color::AnsiValue(7))];
    let mut v = Vec::new();
    for fg in colors {
        for bits in 0..32u8 {
            v.push(StyleState {
                fg,
                bg: if bits % 3 == 0 { Some(Color::Green) } else { None },
                bold: bits & 1 != 0,
                dim: bits & 2 != 0,
                italic: bits & 4 != 0,
                crossedout: bits & 8 != 0,
                underline: bits & 16 != 0,
            });
        }
    }
    v
}

/// `target` on top of `current`.
fn on_top(current: &StyleState, target: &StyleState) -> StyleState {
    StyleState {
        fg: target.fg.or(current.fg),
        bg: target.bg.or(current.bg),
        ..*target
    }
}

#[test]
fn every_change_of_style_arrives() {
    for a in all_styles() {
        for b in all_styles() {
            let mut out = RenderOut::buffer();
            out.push_style(a);
            out.push_style(b);
            assert_eq!(style_after(out.commands()), on_top(&a, &b));
            out.pop_style();
            assert_eq!(style_after(out.commands()), a);
            out.pop_style();
            assert_eq!(style_after(out.commands()), StyleState::default());
        }
    }
}

#[test]
fn colours_that_are_left_open_stay() {
    let mut out = RenderOut::buffer();
    out.push_fg(Color::Red);
    out.push_style(StyleState {
        bold: true,
        ..StyleState::default()
    });
    assert_eq!(
        out.into_commands(),
        vec![
            Command::SetForegroundColor(Color::Red),
            Command::SetAttribute(Attribute::Bold),
        ]
    );
}

#[test]
fn a_style_that_stays_sends_nothing() {
    let mut out = RenderOut::buffer();
    out.set_fg(Color::Red);
    out.set_fg(Color::Red);
    out.set_bold();
    out.push_bold();
    out.pop_style();
    assert_eq!(out.commands().len(), 2);
    out.reset_style();
    out.reset_style();
    assert_eq!(
        out.into_commands()[2..],
        [
            Command::SetAttribute(Attribute::Reset),
            Command::ResetColor
        ]
    );
}

/// What is sent before a style when nothing is known of the terminal's.
fn reset() -> Vec<Command<String>> {
    vec![
        Command::SetAttribute(Attribute::Reset),
        Command::ResetColor,
    ]
}

#[test]
fn an_unknown_style_is_reset_first() {
    let mut out = RenderOut::buffer();
    out.invalidate_style();
    assert!(out.commands().is_empty());
    out.reset_style();
    assert_eq!(*out.commands(), reset());
    out.reset_style();
    assert_eq!(out.commands().len(), 2);

    let mut out = RenderOut::buffer();
    out.set_fg(Color::Red);
    out.invalidate_style();
    out.set_fg(Color::Red);
    assert_eq!(out.commands()[1..3], reset());
    assert_eq!(out.commands()[3..], [Command::SetForegroundColor(Color::Red)]);

    let mut out = RenderOut::buffer();
    out.invalidate_style();
    out.push_bold();
    out.pop_style();
    assert_eq!(out.commands()[..2], reset());
    assert_eq!(out.commands()[2], Command::SetAttribute(Attribute::Bold));
    assert_eq!(style_after(out.commands()), StyleState::default());

    let mut out = RenderOut::buffer();
    out.invalidate_style();
    out.pop_style();
    assert_eq!(*out.commands(), reset());
}

#[test]
fn a_replay_leaves_the_style_unknown() {
    let mut part = RenderOut::buffer();
    part.set_fg(Color::Green);
    part.set_bold();
    let sent = part.into_commands();
    let mut out = RenderOut::buffer();
    out.set_fg(Color::Red);
    out.replay(&sent);
    assert_eq!(
        *out.commands(),
        vec![
            Command::SetForegroundColor(Color::Red),
            Command::SetForegroundColor(Color::Green),
            Command::SetAttribute(Attribute::Bold),
        ]
    );
    out.set_fg(Color::Red);
    assert_eq!(out.commands()[3..5], reset());
    assert_eq!(
        style_after(out.commands()),
        StyleState {
            fg: Some(Color::Red),
            ..StyleState::default()
        }
    );
    out.reset_style();
    assert_eq!(style_after(out.commands()), StyleState::default());
}

#[test]
fn one_attribute_goes_off_by_itself_and_two_by_a_reset() {
    let mut out = RenderOut::buffer();
    out.push_italic();
    out.pop_style();
    assert_eq!(
        out.into_commands(),
        vec![
            Command::SetAttribute(Attribute::Italic),
            Command::SetAttribute(Attribute::NoItalic),
        ]
    );
    let mut out = RenderOut::buffer();
    out.push_dim_italic();
    out.pop_style();
    assert_eq!(
        out.into_commands(),
        vec![
            Command::SetAttribute(Attribute::Dim),
            Command::SetAttribute(Attribute::Italic),
            Command::SetAttribute(Attribute::Reset),
            Command::ResetColor,
        ]
    );
}

#[test]
fn popping_more_than_was_pushed_does_nothing() {
    let mut out = RenderOut::buffer();
    out.pop_style();
    assert!(out.into_commands().is_empty());
}

#[test]
fn lines_end_by_a_break_or_a_move() {
    let mut out = RenderOut::buffer();
    crlf(&mut out);
    assert_eq!(
        out.into_commands(),
        vec![
            Command::Clear(ClearType::UntilNewLine),
            Command::Print("\r\n".to_string()),
        ]
    );
    let mut out = RenderOut::buffer();
    out.set_row(Some(4));
    crlf(&mut out);
    assert_eq!(
        out.into_commands(),
        vec![
            Command::Clear(ClearType::UntilNewLine),
            Command::MoveTo(0, 5),
        ]
    );
}
