//! The state of the work that goes on: since when, and what the status bar
//! says of it.  Times are in milliseconds.

use vstd::prelude::*;

use crate::render::bars;
use crate::render::bars::{push_bar, BarSpan};
use crate::render::model;
use crate::render::model::{spinner_frame, Throbber};
use crate::render::out::Color;
use crate::session;
use crate::session::{TurnMeta, TurnView};
use crate::text;
use crate::text::{cat, cat3, number};
use crate::theme;
use crate::utils;
use crate::utils::format_duration;

verus! {

/// An average speed: the bits of the number of tokens per second, and the
/// speed in words.
pub struct Speed {
    pub bits: u64,
    pub words: String,
}

pub struct WorkingState {
    /// When the work began, moved on by the time that it was paused.
    pub since: Option<u64>,
    pub final_elapsed: Option<u64>,
    pub throbber: Option<Throbber>,
    pub last_spinner_frame: u64,
    pub retry_deadline: Option<u64>,
    /// The average speed, once there is one.
    pub tps: Option<Speed>,
    pub paused_at: Option<u64>,
}

/// Whether work goes on in a state.
pub open spec fn is_active(t: Throbber) -> bool {
    match t {
        Throbber::Working => true,
        Throbber::Retrying { .. } => true,
        Throbber::Compacting => true,
        Throbber::Done => false,
        Throbber::Interrupted => false,
    }
}

pub fn active(t: Throbber) -> (r: bool)
    ensures
        r == is_active(t),
{
    match t {
        Throbber::Working => true,
        Throbber::Retrying { .. } => true,
        Throbber::Compacting => true,
        Throbber::Done => false,
        Throbber::Interrupted => false,
    }
}

/// `a + b`, or the largest number when that does not fit.
pub open spec fn time_plus(a: u64, b: u64) -> u64 {
    if a + b > u64::MAX {
        u64::MAX
    } else {
        (a + b) as u64
    }
}

/// The colour of what is said besides.
pub open spec fn muted_color() -> Color {
    Color::AnsiValue(theme::MUTED)
}

/// The time that has passed.
pub open spec fn timer(ms: u64) -> BarSpan<Seq<char>> {
    bars::bar_span(
        " "@ + utils::duration_text((ms / 1000) as nat),
        muted_color(),
        false,
        true,
        0,
    )
}

impl WorkingState {
    /// Time that has passed since the work began, up to the pause if there is
    /// one.
    pub open spec fn elapsed_at(self, now: u64) -> Option<u64> {
        match self.since {
            None => None,
            Some(start) => match self.paused_at {
                Some(p) => Some(model::since(p, start)),
                None => Some(model::since(now, start)),
            },
        }
    }

    /// The state once `state` has come.
    pub open spec fn with_throbber(self, state: Throbber, now: u64) -> WorkingState {
        let w = if is_active(state) {
            if self.since is None {
                WorkingState { since: Some(now), final_elapsed: None, tps: None, ..self }
            } else {
                self
            }
        } else {
            WorkingState {
                final_elapsed: self.elapsed_at(now),
                since: None,
                paused_at: None,
                ..self
            }
        };
        WorkingState {
            retry_deadline: match state {
                Throbber::Retrying { delay, attempt: _ } => Some(time_plus(now, delay)),
                _ => None,
            },
            throbber: Some(state),
            ..w
        }
    }

    /// The speed, where it is shown.
    pub open spec fn speed(self, show_tps: bool) -> Seq<BarSpan<Seq<char>>> {
        match self.tps {
            Some(t) => if show_tps {
                seq![
                    bars::bar_span(" \u{00b7} "@, muted_color(), false, true, 3),
                    bars::bar_span(t.words@, muted_color(), false, true, 3),
                ]
            } else {
                seq![]
            },
            None => seq![],
        }
    }

    /// How long until the next try.
    pub open spec fn retry_note(self, delay: u64, attempt: u32, now: u64) -> Seq<char> {
        let left = match self.retry_deadline {
            Some(t) => model::since(t, now),
            None => delay,
        };
        " (retrying in "@ + text::dec((left / 1000) as nat) + ("s #"@ + text::dec(attempt as nat)
            + ")"@)
    }

    /// What the status bar says.
    pub open spec fn status(self, show_tps: bool, now: u64) -> Seq<BarSpan<Seq<char>>> {
        match self.throbber {
            None => seq![],
            Some(Throbber::Compacting) => match self.elapsed_at(now) {
                None => seq![],
                Some(e) => seq![
                    bars::bar_span(
                        " "@ + model::spinner_at(e) + " compacting"@,
                        Color::Reset,
                        true,
                        false,
                        0,
                    ),
                    timer(e),
                ],
            },
            Some(Throbber::Working) => match self.elapsed_at(now) {
                None => seq![],
                Some(e) => seq![
                    bars::bar_span(
                        " "@ + model::spinner_at(e) + " working"@,
                        Color::Reset,
                        true,
                        false,
                        0,
                    ),
                    timer(e),
                ] + self.speed(show_tps),
            },
            Some(Throbber::Retrying { delay, attempt }) => match self.elapsed_at(now) {
                None => seq![],
                Some(e) => (seq![
                    bars::bar_span(
                        " "@ + model::spinner_at(e) + " working"@,
                        muted_color(),
                        true,
                        false,
                        0,
                    ),
                    timer(e),
                ] + self.speed(show_tps)).push(
                    bars::bar_span(
                        self.retry_note(delay, attempt, now),
                        muted_color(),
                        false,
                        true,
                        0,
                    ),
                ),
            },
            Some(Throbber::Done) => {
                let ms = match self.final_elapsed {
                    Some(e) => e,
                    None => 0,
                };
                seq![
                    bars::bar_span(
                        " done "@ + utils::duration_text((ms / 1000) as nat),
                        muted_color(),
                        false,
                        true,
                        0,
                    ),
                ] + self.speed(show_tps)
            },
            Some(Throbber::Interrupted) => seq![
                bars::bar_span(" interrupted"@, muted_color(), false, true, 0),
            ],
        }
    }

    /// The spinner while work goes on and is not paused.
    pub open spec fn spinner(self, now: u64) -> Option<Seq<char>> {
        match self.throbber {
            Some(t) => if self.paused_at is None && is_active(t) {
                match self.elapsed_at(now) {
                    Some(e) => Some(model::spinner_at(e)),
                    None => None,
                }
            } else {
                None
            },
            None => None,
        }
    }

    pub fn new() -> (r: WorkingState)
        ensures
            r.since is None,
            r.final_elapsed is None,
            r.throbber is None,
            r.last_spinner_frame == u64::MAX,
            r.retry_deadline is None,
            r.tps is None,
            r.paused_at is None,
    {
        WorkingState {
            since: None,
            final_elapsed: None,
            throbber: None,
            last_spinner_frame: u64::MAX,
            retry_deadline: None,
            tps: None,
            paused_at: None,
        }
    }

    /// Whether `state` begins new work, for which speeds are taken anew.
    pub fn begins(&self, state: Throbber) -> (r: bool)
        ensures
            r == (is_active(state) && self.since is None),
    {
        active(state) && self.since.is_none()
    }

    pub fn set_throbber(&mut self, state: Throbber, now: u64)
        ensures
            *final(self) == old(self).with_throbber(state, now),
    {
        if active(state) {
            if self.since.is_none() {
                self.since = Some(now);
                self.final_elapsed = None;
                self.tps = None;
            }
        } else {
            self.final_elapsed = self.elapsed(now);
            self.since = None;
            self.paused_at = None;
        }
        self.retry_deadline = match state {
            Throbber::Retrying { delay, attempt: _ } => Some(now.saturating_add(delay)),
            _ => None,
        };
        self.throbber = Some(state);
    }

    /// Takes the average speed.
    pub fn set_tps(&mut self, tps: Option<Speed>)
        ensures
            *final(self) == (WorkingState { tps, ..*old(self) }),
    {
        self.tps = tps;
    }

    /// How long the turn took, how fast it was, and whether it was
    /// interrupted; nothing before there was one.
    pub open spec fn meta_at(self, now: u64) -> Option<TurnView> {
        match self.throbber {
            None => None,
            Some(t) => {
                let e = if is_active(t) {
                    self.elapsed_at(now)
                } else {
                    self.final_elapsed
                };
                match e {
                    Some(ms) => Some(
                        TurnView {
                            elapsed_ms: ms,
                            avg_tps: match self.tps {
                                Some(s) => Some(s.bits),
                                None => None,
                            },
                            interrupted: t is Interrupted,
                            tool_elapsed: seq![],
                            agent_blocks: seq![],
                        },
                    ),
                    None => None,
                }
            },
        }
    }

    /// How long the turn took, how fast it was, and whether it was
    /// interrupted; nothing before there was one.
    pub fn turn_meta(&self, now: u64) -> (r: Option<TurnMeta>)
        ensures
            match r {
                Some(t) => self.meta_at(now) == Some(session::turn_view(t)),
                None => self.meta_at(now) is None,
            },
    {
        match self.throbber {
            None => None,
            Some(t) => {
                let e: Option<u64> = if active(t) {
                    self.elapsed(now)
                } else {
                    self.final_elapsed
                };
                let interrupted = match t {
                    Throbber::Interrupted => true,
                    _ => false,
                };
                let avg_tps: Option<u64> = match &self.tps {
                    Some(s) => Some(s.bits),
                    None => None,
                };
                match e {
                    Some(ms) => {
                        let r = TurnMeta {
                            elapsed_ms: ms,
                            avg_tps,
                            interrupted,
                            tool_elapsed: Vec::new(),
                            agent_blocks: Vec::new(),
                        };
                        assert(session::turn_view(r).tool_elapsed =~= seq![]);
                        assert(session::turn_view(r).agent_blocks =~= seq![]);
                        Some(r)
                    },
                    None => None,
                }
            },
        }
    }

    /// With the numbers of an earlier turn, whose speed is `words` in words.
    pub open spec fn restored(self, t: TurnView, words: String) -> WorkingState {
        WorkingState {
            final_elapsed: Some(t.elapsed_ms),
            tps: match t.avg_tps {
                Some(bits) => Some(Speed { bits, words }),
                None => None,
            },
            throbber: Some(
                if t.interrupted {
                    Throbber::Interrupted
                } else {
                    Throbber::Done
                },
            ),
            ..self
        }
    }

    /// Takes up how a turn ended; its speed, if it has one, is `words` in
    /// words.
    pub fn restore_from_turn_meta(&mut self, meta: &TurnMeta, words: String)
        ensures
            *final(self) == old(self).restored(session::turn_view(*meta), words),
    {
        self.final_elapsed = Some(meta.elapsed_ms);
        self.tps = match meta.avg_tps {
            Some(bits) => Some(Speed { bits, words }),
            None => None,
        };
        self.throbber = Some(
            if meta.interrupted {
                Throbber::Interrupted
            } else {
                Throbber::Done
            },
        );
    }

    /// Stops the clock, unless it stands or has not begun.
    pub fn pause(&mut self, now: u64)
        ensures
            *final(self) == old(self).paused(now),
    {
        if self.paused_at.is_none() && self.since.is_some() {
            self.paused_at = Some(now);
        }
    }

    /// Stops the clock, unless it stands or has not begun.
    pub open spec fn paused(self, now: u64) -> WorkingState {
        if self.paused_at is None && self.since is Some {
            WorkingState { paused_at: Some(now), ..self }
        } else {
            self
        }
    }

    /// Goes on after a pause, which does not count.
    pub open spec fn resumed(self, now: u64) -> WorkingState {
        match (self.paused_at, self.since) {
            (Some(p), Some(s)) => WorkingState {
                paused_at: None,
                since: Some(time_plus(s, model::since(now, p))),
                ..self
            },
            _ => WorkingState { paused_at: None, ..self },
        }
    }

    /// Goes on after a pause, which does not count.
    pub fn resume(&mut self, now: u64)
        ensures
            *final(self) == old(self).resumed(now),
    {
        match (self.paused_at, self.since) {
            (Some(p), Some(s)) => {
                self.since = Some(s.saturating_add(now.saturating_sub(p)));
            },
            _ => {},
        }
        self.paused_at = None;
    }

    pub fn is_paused(&self) -> (r: bool)
        ensures
            r == self.paused_at is Some,
    {
        self.paused_at.is_some()
    }

    /// Time that has passed since the work began.
    pub fn elapsed(&self, now: u64) -> (r: Option<u64>)
        ensures
            r == self.elapsed_at(now),
    {
        match self.since {
            None => None,
            Some(start) => match self.paused_at {
                Some(p) => Some(p.saturating_sub(start)),
                None => Some(now.saturating_sub(start)),
            },
        }
    }

    pub fn clear(&mut self)
        ensures
            *final(self) == (WorkingState {
                throbber: None,
                since: None,
                final_elapsed: None,
                tps: None,
                paused_at: None,
                ..*old(self)
            }),
    {
        self.throbber = None;
        self.since = None;
        self.final_elapsed = None;
        self.tps = None;
        self.paused_at = None;
    }

    /// Takes up the frame of the spinner; the result is whether it changed.
    pub fn advance_spinner(&mut self, now: u64) -> (r: bool)
        ensures
            match old(self).elapsed_at(now) {
                Some(e) => {
                    &&& r == (old(self).last_spinner_frame != model::frame_number(e))
                    &&& *final(self) == (WorkingState {
                        last_spinner_frame: model::frame_number(e),
                        ..*old(self)
                    })
                },
                None => !r && *final(self) == *old(self),
            },
    {
        match self.elapsed(now) {
            Some(e) => {
                let frame: u64 = e / 150 % 4;
                if frame != self.last_spinner_frame {
                    self.last_spinner_frame = frame;
                    true
                } else {
                    false
                }
            },
            None => false,
        }
    }

    /// The spinner while work goes on and is not paused.
    pub fn spinner_char(&self, now: u64) -> (r: Option<&'static str>)
        ensures
            match r {
                Some(s) => self.spinner(now) == Some(s@),
                None => self.spinner(now) is None,
            },
    {
        if self.is_paused() {
            return None;
        }
        match self.throbber {
            Some(t) => {
                if active(t) {
                    match self.elapsed(now) {
                        Some(e) => Some(spinner_frame(e)),
                        None => None,
                    }
                } else {
                    None
                }
            },
            None => None,
        }
    }

    fn push_speed(&self, v: &mut Vec<BarSpan<String>>, show_tps: bool)
        ensures
            bars::bars_view(final(v)@) == bars::bars_view(old(v)@) + self.speed(show_tps),
    {
        let ghost before = bars::bars_view(v@);
        if show_tps {
            match &self.tps {
                Some(t) => {
                    push_bar(v, " \u{00b7} ".to_owned(), theme::muted(), false, true, 3);
                    push_bar(v, t.words.clone(), theme::muted(), false, true, 3);
                },
                None => {},
            }
        }
        assert(bars::bars_view(v@) =~= before + self.speed(show_tps));
    }

    fn working_spans(&self, e: u64, color: Color, what: &str) -> (r: Vec<BarSpan<String>>)
        ensures
            bars::bars_view(r@) == seq![
                bars::bar_span(" "@ + model::spinner_at(e) + what@, color, true, false, 0),
                timer(e),
            ],
    {
        let mut v: Vec<BarSpan<String>> = Vec::new();
        assert(bars::bars_view(v@) =~= seq![]);
        let t = cat3(" ", spinner_frame(e), what);
        push_bar(&mut v, t, color, true, false, 0);
        let d = format_duration(e / 1000);
        let t = cat(" ", d.as_str());
        push_bar(&mut v, t, theme::muted(), false, true, 0);
        assert(bars::bars_view(v@) =~= seq![
            bars::bar_span(" "@ + model::spinner_at(e) + what@, color, true, false, 0),
            timer(e),
        ]);
        v
    }

    /// What the status bar says.
    pub fn throbber_spans(&self, show_tps: bool, now: u64) -> (r: Vec<BarSpan<String>>)
        ensures
            bars::bars_view(r@) == self.status(show_tps, now),
    {
        let mut none: Vec<BarSpan<String>> = Vec::new();
        assert(bars::bars_view(none@) =~= seq![]);
        match self.throbber {
            None => none,
            Some(Throbber::Compacting) => match self.elapsed(now) {
                None => none,
                Some(e) => self.working_spans(e, Color::Reset, " compacting"),
            },
            Some(Throbber::Working) => match self.elapsed(now) {
                None => none,
                Some(e) => {
                    let mut v = self.working_spans(e, Color::Reset, " working");
                    self.push_speed(&mut v, show_tps);
                    v
                },
            },
            Some(Throbber::Retrying { delay, attempt }) => match self.elapsed(now) {
                None => none,
                Some(e) => {
                    let mut v = self.working_spans(e, theme::muted(), " working");
                    self.push_speed(&mut v, show_tps);
                    let left: u64 = match self.retry_deadline {
                        Some(t) => t.saturating_sub(now),
                        None => delay,
                    };
                    let secs = number(left / 1000);
                    let n = number(attempt as u64);
                    let tail = cat3("s #", n.as_str(), ")");
                    let t = cat3(" (retrying in ", secs.as_str(), tail.as_str());
                    push_bar(&mut v, t, theme::muted(), false, true, 0);
                    v
                },
            },
            Some(Throbber::Done) => {
                let ms: u64 = match self.final_elapsed {
                    Some(e) => e,
                    None => 0,
                };
                let d = format_duration(ms / 1000);
                let t = cat(" done ", d.as_str());
                push_bar(&mut none, t, theme::muted(), false, true, 0);
                assert(bars::bars_view(none@) =~= seq![
                    bars::bar_span(
                        " done "@ + utils::duration_text((ms / 1000) as nat),
                        muted_color(),
                        false,
                        true,
                        0,
                    ),
                ]);
                self.push_speed(&mut none, show_tps);
                none
            },
            Some(Throbber::Interrupted) => {
                push_bar(&mut none, " interrupted".to_owned(), theme::muted(), false, true, 0);
                assert(bars::bars_view(none@) =~= self.status(show_tps, now));
                none
            },
        }
    }
}

/// A pause does not count: what has passed when it begins has passed when it
/// ends.
pub proof fn law_pause_does_not_count(w: WorkingState, begin: u64, end: u64)
    requires
        w.since is Some,
        w.paused_at is None,
        w.since->0 <= begin <= end,
    ensures
        w.paused(begin).resumed(end).elapsed_at(end) == w.elapsed_at(begin),
{
}

/// While paused, no time passes.
pub proof fn law_paused_clock_stands(w: WorkingState, begin: u64, later: u64)
    requires
        w.since is Some,
        w.paused_at is None,
    ensures
        w.paused(begin).elapsed_at(later) == w.elapsed_at(begin),
        w.paused(begin).spinner(later) is None,
{
}

/// The end of work keeps how long it took.
pub proof fn law_end_keeps_elapsed(w: WorkingState, state: Throbber, now: u64)
    requires
        !is_active(state),
    ensures
        w.with_throbber(state, now).final_elapsed == w.elapsed_at(now),
        w.with_throbber(state, now).since is None,
{
}

/// The numbers of a turn that was restored are those that it had, its speed
/// too; speeds that were taken before do not count.
pub proof fn law_restored_turn_reads_back(w: WorkingState, t: TurnView, words: String, now: u64)
    ensures
        match w.restored(t, words).meta_at(now) {
            Some(m) => {
                &&& m.elapsed_ms == t.elapsed_ms
                &&& m.avg_tps == t.avg_tps
                &&& m.interrupted == t.interrupted
            },
            None => false,
        },
{
}

} // verus!
