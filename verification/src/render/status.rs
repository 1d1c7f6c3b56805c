//! The status line at the bottom of the screen.

use vstd::prelude::*;

use crate::render::bars;
use crate::render::bars::{render_status_spans, BarSpan, StatusSpan};
use crate::render::input::ViMode;
use crate::render::model::Throbber;
use crate::render::out;
use crate::render::out::{Canvas, Color, Command, RenderOut, StyleState};
use crate::render::screen::{Mode, Screen, Term};
use crate::render::styled;
use crate::render::styled::pluralize;
use crate::render::working;
use crate::text::{cat, cat3};
use crate::theme;
use crate::theme::Theme;

verus! {

/// Background of the status line.
pub const STATUS_BG: u8 = 233;

/// The name of a mode of the editor; none is shown in normal mode.
pub open spec fn vim_name(mode: Option<ViMode>) -> Option<Seq<char>> {
    match mode {
        Some(ViMode::Insert) => Some("INSERT"@),
        Some(ViMode::Visual) => Some("VISUAL"@),
        Some(ViMode::VisualLine) => Some("VISUAL LINE"@),
        _ => None,
    }
}

/// The name of a mode of the editor; none is shown in normal mode.
pub fn vim_mode_label(mode: Option<ViMode>) -> (r: Option<&'static str>)
    ensures
        match r {
            Some(s) => vim_name(mode) == Some(s@),
            None => vim_name(mode) is None,
        },
{
    match mode {
        Some(ViMode::Insert) => Some("INSERT"),
        Some(ViMode::Visual) => Some("VISUAL"),
        Some(ViMode::VisualLine) => Some("VISUAL LINE"),
        _ => None,
    }
}

/// The name of the editor's mode, with its colour.
pub open spec fn vim_shown(mode: Option<ViMode>) -> (Seq<char>, Color) {
    match mode {
        Some(ViMode::Insert) => ("INSERT"@, Color::AnsiValue(78)),
        Some(ViMode::Visual) => ("VISUAL"@, Color::AnsiValue(176)),
        Some(ViMode::VisualLine) => ("VISUAL LINE"@, Color::AnsiValue(176)),
        _ => ("NORMAL"@, Color::AnsiValue(74)),
    }
}

/// The sign and the name of a mode, with their colour.
pub open spec fn mode_shown(mode: Mode) -> (Seq<char>, Seq<char>, Color) {
    match mode {
        Mode::Plan => ("◇ "@, "plan"@, Color::AnsiValue(theme::PLAN)),
        Mode::Apply => ("→ "@, "apply"@, Color::AnsiValue(theme::APPLY)),
        Mode::Yolo => ("⚡"@, "yolo"@, Color::AnsiValue(theme::YOLO)),
        Mode::Normal => ("○ "@, "normal"@, Color::AnsiValue(theme::MUTED)),
    }
}

/// A style with both colours.
pub open spec fn painted(fg: Color, bg: Color, bold: bool, dim: bool) -> StyleState {
    StyleState { fg: Some(fg), bg: Some(bg), bold, dim, ..out::plain_style() }
}

fn paint(fg: Color, bg: Color, bold: bool, dim: bool) -> (r: StyleState)
    ensures
        r == painted(fg, bg, bold, dim),
{
    StyleState {
        fg: Some(fg),
        bg: Some(bg),
        bold,
        dim,
        italic: false,
        crossedout: false,
        underline: false,
    }
}

/// A span of the status line that is never cut.
pub open spec fn whole(t: Seq<char>, style: StyleState, priority: u8, group: bool) -> StatusSpan<
    Seq<char>,
> {
    StatusSpan { text: t, style, priority, group, truncatable: false }
}

/// A span of the status line that may be cut.
pub open spec fn cuttable(t: Seq<char>, style: StyleState) -> StatusSpan<Seq<char>> {
    StatusSpan { text: t, style, priority: 3, group: false, truncatable: true }
}

fn push_status(
    v: &mut Vec<StatusSpan<String>>,
    t: String,
    style: StyleState,
    priority: u8,
    group: bool,
    truncatable: bool,
)
    ensures
        bars::statuses_view(final(v)@) == bars::statuses_view(old(v)@).push(
            StatusSpan { text: t@, style, priority, group, truncatable },
        ),
{
    let s = StatusSpan { text: t, style, priority, group, truncatable };
    v.push(s);
    assert(bars::statuses_view(v@) =~= bars::statuses_view(old(v)@).push(bars::status_view(s)));
}

/// The priority in the status line for one of the bar.
pub open spec fn status_priority(p: u8) -> u8 {
    if p == 0 {
        4
    } else if p == 3 {
        6
    } else {
        p
    }
}

/// The first `n` spans of a bar as spans of the status line.
pub open spec fn from_bar(bs: Seq<BarSpan<Seq<char>>>, n: int) -> Seq<StatusSpan<Seq<char>>>
    decreases n,
{
    if n <= 0 {
        seq![]
    } else {
        let b = bs[n - 1];
        from_bar(bs, n - 1).push(
            whole(
                b.text,
                painted(b.color, Color::AnsiValue(STATUS_BG), b.bold, b.dim),
                status_priority(b.priority),
                n == 1,
            ),
        )
    }
}

impl Screen {
    /// The colours of the task's label.
    pub open spec fn pill_style(self, theme: Theme) -> StyleState {
        painted(
            Color::Black,
            if self.working.throbber == Some(Throbber::Compacting) {
                Color::White
            } else {
                theme.slug_hue()
            },
            false,
            false,
        )
    }

    /// The spinner, and the task's label.
    pub open spec fn pill(self, theme: Theme, now: u64) -> Seq<StatusSpan<Seq<char>>> {
        let style = self.pill_style(theme);
        match self.working.spinner(now) {
            Some(sp) => seq![
                whole(" "@ + sp + " "@, style, 0, false),
                cuttable(
                    if self.working.throbber == Some(Throbber::Compacting) {
                        "compacting "@
                    } else if self.settings.show_slug && self.task_label is Some {
                        self.task_label->0@ + " "@
                    } else {
                        "working "@
                    },
                    style,
                ),
            ],
            None => if self.settings.show_slug && self.task_label is Some {
                seq![cuttable(" "@ + self.task_label->0@ + " "@, style)]
            } else {
                seq![]
            },
        }
    }

    /// The modes.
    pub open spec fn modes(self) -> Seq<StatusSpan<Seq<char>>> {
        let v = vim_shown(self.last_vim_mode);
        let m = mode_shown(self.last_mode);
        (if self.last_vim_enabled {
            seq![
                whole(
                    " "@ + v.0 + " "@,
                    painted(v.1, Color::AnsiValue(236), false, false),
                    5,
                    false,
                ),
            ]
        } else {
            seq![]
        }).push(
            whole(
                " "@ + (m.0 + m.1) + " "@,
                painted(m.2, Color::AnsiValue(234), false, false),
                1,
                false,
            ),
        )
    }

    /// What the work has come to; the first span of work that goes on says
    /// what the pill says.
    pub open spec fn progress(self, now: u64) -> Seq<StatusSpan<Seq<char>>> {
        let bs = self.working.status(self.settings.show_tps, now);
        let bs = if self.working.throbber is Some && working::is_active(self.working.throbber->0)
            && bs.len() > 0 {
            bs.skip(1)
        } else {
            bs
        };
        from_bar(bs, bs.len() as int)
    }

    /// What waits or runs.
    pub open spec fn counts(self, theme: Theme) -> Seq<StatusSpan<Seq<char>>> {
        let bg = Color::AnsiValue(STATUS_BG);
        (if self.pending_dialog && !self.dialog_open {
            seq![
                whole(
                    "permission pending"@,
                    painted(theme.accent_color(), bg, true, false),
                    2,
                    true,
                ),
            ]
        } else {
            seq![]
        }) + (if self.running_procs > 0 {
            seq![
                whole(
                    styled::counted(self.running_procs as nat, "proc"@, "procs"@),
                    painted(theme.accent_color(), bg, false, false),
                    2,
                    true,
                ),
            ]
        } else {
            seq![]
        }) + (if self.running_agents > 0 {
            seq![
                whole(
                    styled::counted(self.running_agents as nat, "agent"@, "agents"@),
                    painted(Color::AnsiValue(theme::AGENT), bg, false, false),
                    2,
                    true,
                ),
            ]
        } else {
            seq![]
        })
    }

    /// The spans of the status line.
    pub open spec fn status_spans(self, theme: Theme, now: u64) -> Seq<StatusSpan<Seq<char>>> {
        self.pill(theme, now) + self.modes() + self.progress(now) + self.counts(theme)
    }

    /// Draws the status line.
    #[verifier::opaque]
    pub open spec fn status_line(self, m: Canvas, width: int, theme: Theme, now: u64) -> Canvas {
        bars::status_drawn(
            m,
            self.status_spans(theme, now),
            width,
            Color::AnsiValue(STATUS_BG),
        )
    }

    fn push_pill(&self, v: &mut Vec<StatusSpan<String>>, theme: &Theme, now: u64)
        ensures
            bars::statuses_view(final(v)@) == bars::statuses_view(old(v)@) + self.pill(
                *theme,
                now,
            ),
    {
        let ghost v0 = bars::statuses_view(v@);
        let compacting = match self.working.throbber {
            Some(Throbber::Compacting) => true,
            _ => false,
        };
        let bg = if compacting {
            Color::White
        } else {
            theme::slug_color(theme)
        };
        let style = paint(Color::Black, bg, false, false);
        match self.working.spinner_char(now) {
            Some(sp) => {
                push_status(v, cat3(" ", sp, " "), style, 0, false, false);
                let label: String = if compacting {
                    "compacting ".to_owned()
                } else if self.settings.show_slug {
                    match &self.task_label {
                        Some(l) => cat(l.as_str(), " "),
                        None => "working ".to_owned(),
                    }
                } else {
                    "working ".to_owned()
                };
                push_status(v, label, style, 3, false, true);
            },
            None => {
                if self.settings.show_slug {
                    match &self.task_label {
                        Some(l) => {
                            push_status(v, cat3(" ", l.as_str(), " "), style, 3, false, true);
                        },
                        None => {},
                    }
                }
            },
        }
        assert(bars::statuses_view(v@) =~= v0 + self.pill(*theme, now));
    }

    fn push_modes(&self, v: &mut Vec<StatusSpan<String>>)
        ensures
            bars::statuses_view(final(v)@) == bars::statuses_view(old(v)@) + self.modes(),
    {
        let ghost v0 = bars::statuses_view(v@);
        if self.last_vim_enabled {
            let name: &str = match vim_mode_label(self.last_vim_mode) {
                Some(s) => s,
                None => "NORMAL",
            };
            let fg = match self.last_vim_mode {
                Some(ViMode::Insert) => Color::AnsiValue(78),
                Some(ViMode::Visual) => Color::AnsiValue(176),
                Some(ViMode::VisualLine) => Color::AnsiValue(176),
                _ => Color::AnsiValue(74),
            };
            push_status(
                v,
                cat3(" ", name, " "),
                paint(fg, Color::AnsiValue(236), false, false),
                5,
                false,
                false,
            );
        }
        let (icon, name, fg) = match self.last_mode {
            Mode::Plan => ("◇ ", "plan", Color::AnsiValue(theme::PLAN)),
            Mode::Apply => ("→ ", "apply", Color::AnsiValue(theme::APPLY)),
            Mode::Yolo => ("⚡", "yolo", Color::AnsiValue(theme::YOLO)),
            Mode::Normal => ("○ ", "normal", theme::muted()),
        };
        push_status(
            v,
            cat3(" ", cat(icon, name).as_str(), " "),
            paint(fg, Color::AnsiValue(234), false, false),
            1,
            false,
            false,
        );
        assert(bars::statuses_view(v@) =~= v0 + self.modes());
    }

    fn push_progress(&self, v: &mut Vec<StatusSpan<String>>, now: u64)
        ensures
            bars::statuses_view(final(v)@) == bars::statuses_view(old(v)@) + self.progress(now),
    {
        let ghost v0 = bars::statuses_view(v@);
        let all = self.working.throbber_spans(self.settings.show_tps, now);
        let ghost bs = bars::bars_view(all@);
        let going = match self.working.throbber {
            Some(t) => working::active(t),
            None => false,
        };
        let total: usize = all.len();
        assert(bs.len() == total);
        let first: usize = if going && total > 0 {
            1
        } else {
            0
        };
        let ghost rest = if first == 1 {
            bs.skip(1)
        } else {
            bs
        };
        let mut i: usize = first;
        while i < total
            invariant
                total == all@.len(),
                first <= i <= total,
                first <= 1,
                bs == bars::bars_view(all@),
                rest == (if first == 1 {
                    bs.skip(1)
                } else {
                    bs
                }),
                bars::statuses_view(v@) == v0 + from_bar(rest, i - first),
            decreases total - i,
        {
            let b = &all[i];
            assert(rest[i - first] == bars::bar_view(all@[i as int]));
            let p: u8 = b.priority;
            let priority: u8 = if p == 0 {
                4
            } else if p == 3 {
                6
            } else {
                p
            };
            push_status(
                v,
                b.text.as_str().to_owned(),
                paint(b.color, Color::AnsiValue(STATUS_BG), b.bold, b.dim),
                priority,
                i == first,
                false,
            );
            assert(bars::statuses_view(v@) =~= v0 + from_bar(rest, i + 1 - first));
            i = i + 1;
        }
        assert(self.progress(now) == from_bar(rest, rest.len() as int));
    }

    fn push_counts(&self, v: &mut Vec<StatusSpan<String>>, theme: &Theme)
        ensures
            bars::statuses_view(final(v)@) == bars::statuses_view(old(v)@) + self.counts(*theme),
    {
        let ghost v0 = bars::statuses_view(v@);
        let bg = Color::AnsiValue(STATUS_BG);
        if self.pending_dialog && !self.dialog_open {
            push_status(
                v,
                "permission pending".to_owned(),
                paint(theme::accent(theme), bg, true, false),
                2,
                true,
                false,
            );
        }
        if self.running_procs > 0 {
            push_status(
                v,
                pluralize(self.running_procs, "proc", "procs"),
                paint(theme::accent(theme), bg, false, false),
                2,
                true,
                false,
            );
        }
        if self.running_agents > 0 {
            push_status(
                v,
                pluralize(self.running_agents, "agent", "agents"),
                paint(Color::AnsiValue(theme::AGENT), bg, false, false),
                2,
                true,
                false,
            );
        }
        assert(bars::statuses_view(v@) =~= v0 + self.counts(*theme));
    }

    /// Draws the status line where the cursor is.  Spans are cut or dropped
    /// when the terminal is narrow.
    pub fn render_status_line(&self, out: &mut RenderOut, width: usize, theme: &Theme, now: u64)
        ensures
            final(out)@ == self.status_line(old(out)@, width as int, *theme, now),
    {
        proof {
            reveal(Screen::status_line);
        }
        let mut spans: Vec<StatusSpan<String>> = Vec::new();
        assert(bars::statuses_view(spans@) =~= Seq::<StatusSpan<Seq<char>>>::empty());
        self.push_pill(&mut spans, theme, now);
        self.push_modes(&mut spans);
        self.push_progress(&mut spans, now);
        self.push_counts(&mut spans, theme);
        assert(bars::statuses_view(spans@) =~= self.status_spans(*theme, now));
        render_status_spans(out, &mut spans, width, Color::AnsiValue(STATUS_BG));
    }

    /// Draws the status line in the last row of the terminal, and leaves the
    /// cursor where it was.
    pub fn queue_status_line(&self, out: &mut RenderOut, term: &Term, theme: &Theme, now: u64)
        requires
            term.height > 0,
        ensures
            final(out)@ == self.status_line(
                old(out)@.queue(Command::SavePosition).queue(
                    Command::MoveTo(0, (term.height - 1) as u16),
                ),
                term.width as int,
                *theme,
                now,
            ).queue(Command::RestorePosition),
    {
        out.queue(Command::SavePosition);
        out.queue(Command::MoveTo(0, term.height - 1));
        self.render_status_line(out, term.width as usize, theme, now);
        out.queue(Command::RestorePosition);
    }
}

/// The status line shows what runs, the modes and the labels, and nothing
/// else of the screen.
pub proof fn law_status_line_reads(a: Screen, b: Screen, m: Canvas, width: int, theme: Theme, now: u64)
    requires
        a.working == b.working,
        a.settings == b.settings,
        a.task_label == b.task_label,
        a.last_vim_enabled == b.last_vim_enabled,
        a.last_vim_mode == b.last_vim_mode,
        a.last_mode == b.last_mode,
        a.pending_dialog == b.pending_dialog,
        a.dialog_open == b.dialog_open,
        a.running_procs == b.running_procs,
        a.running_agents == b.running_agents,
    ensures
        a.status_line(m, width, theme, now) == b.status_line(m, width, theme, now),
{
    reveal(Screen::status_line);
}

} // verus!
