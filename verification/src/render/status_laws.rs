//! What a reader is told of the work that goes on.

use vstd::prelude::*;

use crate::render::bars::{BarSpan, StatusSpan};
use crate::render::input::ViMode;
use crate::render::model;
use crate::render::model::Throbber;
use crate::render::screen::{Mode, Screen};
use crate::render::seen;
use crate::render::styled;
use crate::render::working::WorkingState;
use crate::text;
use crate::theme::Theme;
use crate::utils;

verus! {

/// What the spans of a bar show.
pub open spec fn told(bs: Seq<BarSpan<Seq<char>>>) -> Seq<char>
    decreases bs.len(),
{
    if bs.len() == 0 {
        seq![]
    } else {
        told(bs.drop_last()) + seen::ink(bs.last().text)
    }
}

pub proof fn lemma_told_push(bs: Seq<BarSpan<Seq<char>>>, b: BarSpan<Seq<char>>)
    ensures
        told(bs.push(b)) == told(bs) + seen::ink(b.text),
{
    assert(bs.push(b).drop_last() =~= bs);
}

proof fn lemma_told_add(a: Seq<BarSpan<Seq<char>>>, b: Seq<BarSpan<Seq<char>>>)
    ensures
        told(a + b) == told(a) + told(b),
    decreases b.len(),
{
    if b.len() == 0 {
        assert(a + b =~= a);
        assert(told(a) + told(b) =~= told(a));
    } else {
        lemma_told_add(a, b.drop_last());
        assert((a + b).drop_last() =~= a + b.drop_last());
        assert(told(a + b) =~= told(a) + told(b));
    }
}

proof fn lemma_told_one(b: BarSpan<Seq<char>>)
    ensures
        told(seq![b]) == seen::ink(b.text),
{
    let none = Seq::<BarSpan<Seq<char>>>::empty();
    assert(seq![b] =~= none.push(b));
    lemma_told_push(none, b);
    assert(told(none) + seen::ink(b.text) =~= seen::ink(b.text));
}

proof fn lemma_told_two(a: BarSpan<Seq<char>>, b: BarSpan<Seq<char>>)
    ensures
        told(seq![a, b]) == seen::ink(a.text) + seen::ink(b.text),
{
    assert(seq![a, b] =~= seq![a].push(b));
    lemma_told_one(a);
    lemma_told_push(seq![a], b);
}

/// How long the work has gone on: to now, or to the pause.
pub open spec fn worked(w: WorkingState, now: u64) -> int
    recommends
        w.since is Some,
{
    let to = match w.paused_at {
        Some(p) => p,
        None => now,
    };
    if to >= w.since->0 {
        to - w.since->0
    } else {
        0
    }
}

/// A duration in milliseconds as it is read.
pub open spec fn time_read(ms: int) -> Seq<char> {
    seen::ink(utils::duration_text((ms / 1000) as nat))
}

/// What is told of the speed.
pub open spec fn speed_read(w: WorkingState, show_tps: bool) -> Seq<char> {
    if show_tps && w.tps is Some {
        seq!['\u{b7}'] + seen::ink(w.tps->0.words@)
    } else {
        seq![]
    }
}

proof fn lemma_speed(w: WorkingState, show_tps: bool)
    ensures
        told(w.speed(show_tps)) == speed_read(w, show_tps),
{
    broadcast use {seen::lemma_ink_push, seen::lemma_ink_add};

    reveal_strlit(" \u{00b7} ");
    let none = Seq::<char>::empty();
    assert(" \u{00b7} "@ =~= none.push(' ').push('\u{b7}').push(' '));
    assert(seq!['\u{b7}'] =~= none.push('\u{b7}'));
    assert(seen::ink(" \u{00b7} "@) =~= none.push('\u{b7}'));
    match w.tps {
        Some(t) => if show_tps {
            let bs = w.speed(show_tps);
            lemma_told_two(bs[0], bs[1]);
            assert(bs =~= seq![bs[0], bs[1]]);
        },
        None => {},
    }
}

proof fn lemma_words()
    ensures
        seen::ink(" working"@) == "working"@,
        seen::ink(" compacting"@) == "compacting"@,
        seen::ink(" interrupted"@) == "interrupted"@,
        seen::ink(" done "@) == "done"@,
        seen::ink(" "@) == Seq::<char>::empty(),
{
    broadcast use {seen::lemma_ink_add, seen::lemma_ink_fill};

    reveal_strlit(" ");
    reveal_strlit("working");
    reveal_strlit(" working");
    reveal_strlit("compacting");
    reveal_strlit(" compacting");
    reveal_strlit("interrupted");
    reveal_strlit(" interrupted");
    reveal_strlit("done");
    reveal_strlit(" done ");
    let sp = text::fill(' ', 1);
    assert(" "@ =~= sp);
    assert(" working"@ =~= sp + "working"@);
    assert(" compacting"@ =~= sp + "compacting"@);
    assert(" interrupted"@ =~= sp + "interrupted"@);
    assert(" done "@ =~= sp + "done"@ + sp);
    reveal_with_fuel(seen::ink, 13);
    assert(seen::ink("working"@) =~= "working"@);
    assert(seen::ink("compacting"@) =~= "compacting"@);
    assert(seen::ink("interrupted"@) =~= "interrupted"@);
    assert(seen::ink("done"@) =~= "done"@);
    assert(seen::ink(" working"@) =~= "working"@);
    assert(seen::ink(" compacting"@) =~= "compacting"@);
    assert(seen::ink(" interrupted"@) =~= "interrupted"@);
    assert(seen::ink(" done "@) =~= "done"@);
}

/// The status tells what goes on and how long it has: that work or compaction
/// goes on, with a spinner; that it is done, with the time it took; or that
/// it was interrupted.
pub proof fn law_state_is_told(w: WorkingState, show_tps: bool, now: u64)
    ensures
        ({
            let r = told(w.status(show_tps, now));
            let e = worked(w, now);
            let spin = seen::ink(model::spinner_at(e as u64));
            match w.throbber {
                None => r.len() == 0,
                Some(Throbber::Working) => w.since is Some ==> r == spin + "working"@ + time_read(e)
                    + speed_read(w, show_tps),
                Some(Throbber::Compacting) => w.since is Some ==> r == spin + "compacting"@
                    + time_read(e),
                Some(Throbber::Retrying { delay, attempt }) => w.since is Some ==> r == spin
                    + "working"@ + time_read(e) + speed_read(w, show_tps) + seen::ink(
                    w.retry_note(delay, attempt, now),
                ),
                Some(Throbber::Done) => w.final_elapsed is Some ==> r == "done"@ + time_read(
                    w.final_elapsed->0 as int,
                ) + speed_read(w, show_tps),
                Some(Throbber::Interrupted) => r == "interrupted"@,
            }
        }),
{
    broadcast use seen::lemma_ink_add;

    lemma_words();
    lemma_speed(w, show_tps);
    let bs = w.status(show_tps, now);
    let e = worked(w, now);
    let spin = seen::ink(model::spinner_at(e as u64));
    let sp = w.speed(show_tps);
    match w.throbber {
        None => {},
        Some(Throbber::Working) => {
            if w.since is Some {
                assert(w.elapsed_at(now) == Some(e as u64));
                let head = bs.take(2);
                assert(head =~= seq![bs[0], bs[1]]);
                lemma_told_two(bs[0], bs[1]);
                assert(bs =~= head + sp);
                lemma_told_add(head, sp);
                assert(told(bs) =~= spin + "working"@ + time_read(e) + speed_read(w, show_tps));
            }
        },
        Some(Throbber::Compacting) => {
            if w.since is Some {
                assert(w.elapsed_at(now) == Some(e as u64));
                assert(bs =~= seq![bs[0], bs[1]]);
                lemma_told_two(bs[0], bs[1]);
                assert(told(bs) =~= spin + "compacting"@ + time_read(e));
            }
        },
        Some(Throbber::Retrying { delay, attempt }) => {
            if w.since is Some {
                assert(w.elapsed_at(now) == Some(e as u64));
                let head = bs.take(2);
                assert(head =~= seq![bs[0], bs[1]]);
                lemma_told_two(bs[0], bs[1]);
                assert(bs.drop_last() =~= head + sp);
                lemma_told_add(head, sp);
                lemma_told_push(head + sp, bs.last());
                assert(bs =~= (head + sp).push(bs.last()));
                assert(told(bs) =~= spin + "working"@ + time_read(e) + speed_read(w, show_tps)
                    + seen::ink(w.retry_note(delay, attempt, now)));
            }
        },
        Some(Throbber::Done) => {
            if w.final_elapsed is Some {
                lemma_told_one(bs[0]);
                assert(bs =~= seq![bs[0]] + sp);
                lemma_told_add(seq![bs[0]], sp);
                assert(told(bs) =~= "done"@ + time_read(w.final_elapsed->0 as int) + speed_read(
                    w,
                    show_tps,
                ));
            }
        },
        Some(Throbber::Interrupted) => {
            lemma_told_one(bs[0]);
            assert(bs =~= seq![bs[0]]);
        },
    }
}

/// A note on the next try counts down: what is left of the delay, in whole
/// seconds, and nothing once it is over.
pub proof fn law_retry_counts_down(
    w: WorkingState,
    delay: u64,
    attempt: u32,
    start: u64,
    now: u64,
)
    requires
        start <= now,
        start + delay <= u64::MAX,
    ensures
        ({
            let r = w.with_throbber(Throbber::Retrying { delay, attempt }, start);
            let left = if now <= start + delay {
                start + delay - now
            } else {
                0
            };
            r.retry_note(delay, attempt, now) == " (retrying in "@ + text::dec(
                (left / 1000) as nat,
            ) + ("s #"@ + text::dec(attempt as nat) + ")"@)
        }),
{
}

// ── The status line ──────────────────────────────────────────────────────

/// What the spans of the status line show.
pub open spec fn line_told(ss: Seq<StatusSpan<Seq<char>>>) -> Seq<char>
    decreases ss.len(),
{
    if ss.len() == 0 {
        seq![]
    } else {
        line_told(ss.drop_last()) + seen::ink(ss.last().text)
    }
}

proof fn lemma_line_push(ss: Seq<StatusSpan<Seq<char>>>, s: StatusSpan<Seq<char>>)
    ensures
        line_told(ss.push(s)) == line_told(ss) + seen::ink(s.text),
{
    assert(ss.push(s).drop_last() =~= ss);
}

/// The name of a mode of the editor.
pub open spec fn editor_mode(mode: Option<ViMode>) -> Seq<char> {
    match mode {
        Some(ViMode::Insert) => "INSERT"@,
        Some(ViMode::Visual) => "VISUAL"@,
        Some(ViMode::VisualLine) => "VISUAL LINE"@,
        _ => "NORMAL"@,
    }
}

/// The sign and the name of a mode.
pub open spec fn mode_told(mode: Mode) -> Seq<char> {
    match mode {
        Mode::Plan => "◇ "@ + "plan"@,
        Mode::Apply => "→ "@ + "apply"@,
        Mode::Yolo => "⚡"@ + "yolo"@,
        Mode::Normal => "○ "@ + "normal"@,
    }
}

/// The status line names the mode, and the editor's mode when there is one.
pub proof fn law_modes_are_told(s: Screen)
    ensures
        line_told(s.modes()) == (if s.last_vim_enabled {
            seen::ink(editor_mode(s.last_vim_mode))
        } else {
            Seq::<char>::empty()
        }) + seen::ink(mode_told(s.last_mode)),
{
    broadcast use seen::lemma_ink_add;

    lemma_words();
    let ms = s.modes();
    let none = Seq::<StatusSpan<Seq<char>>>::empty();
    if s.last_vim_enabled {
        assert(ms =~= none.push(ms[0]).push(ms[1]));
        lemma_line_push(none, ms[0]);
        lemma_line_push(none.push(ms[0]), ms[1]);
    } else {
        assert(ms =~= none.push(ms[0]));
        lemma_line_push(none, ms[0]);
    }
    assert(line_told(ms) =~= (if s.last_vim_enabled {
        seen::ink(editor_mode(s.last_vim_mode))
    } else {
        Seq::<char>::empty()
    }) + seen::ink(mode_told(s.last_mode)));
}

/// The status line tells that a permission is waited for while its dialog is
/// not open, and how many processes and agents run.
pub proof fn law_counts_are_told(s: Screen, theme: Theme)
    ensures
        line_told(s.counts(theme)) == (if s.pending_dialog && !s.dialog_open {
            seen::ink("permission pending"@)
        } else {
            Seq::<char>::empty()
        }) + (if s.running_procs > 0 {
            seen::ink(styled::counted(s.running_procs as nat, "proc"@, "procs"@))
        } else {
            Seq::<char>::empty()
        }) + (if s.running_agents > 0 {
            seen::ink(styled::counted(s.running_agents as nat, "agent"@, "agents"@))
        } else {
            Seq::<char>::empty()
        }),
{
    let cs = s.counts(theme);
    let none = Seq::<StatusSpan<Seq<char>>>::empty();
    let a = s.pending_dialog && !s.dialog_open;
    let b = s.running_procs > 0;
    let c = s.running_agents > 0;
    let n0: int = if a {
        1
    } else {
        0
    };
    let n1 = n0 + if b {
        1int
    } else {
        0int
    };
    let p0 = cs.take(n0);
    let p1 = cs.take(n1);
    if a {
        assert(p0 =~= none.push(cs[0]));
        lemma_line_push(none, cs[0]);
    } else {
        assert(p0 =~= none);
    }
    if b {
        assert(p1 =~= p0.push(cs[n0]));
        lemma_line_push(p0, cs[n0]);
    } else {
        assert(p1 =~= p0);
    }
    if c {
        assert(cs =~= p1.push(cs[n1]));
        lemma_line_push(p1, cs[n1]);
    } else {
        assert(cs =~= p1);
    }
    assert(line_told(cs) =~= (if a {
        seen::ink("permission pending"@)
    } else {
        Seq::<char>::empty()
    }) + (if b {
        seen::ink(styled::counted(s.running_procs as nat, "proc"@, "procs"@))
    } else {
        Seq::<char>::empty()
    }) + (if c {
        seen::ink(styled::counted(s.running_agents as nat, "agent"@, "agents"@))
    } else {
        Seq::<char>::empty()
    }));
}

} // verus!
