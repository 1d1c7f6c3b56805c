//! The dialog that shows the processes in the background.

use vstd::prelude::*;

use crate::dialogs::keys::{KeyCode, NavAction};
use crate::dialogs::list;
use crate::dialogs::list::{end_dialog_draw, ListState};
use crate::dialogs::result::DialogResult;
use crate::hints;
use crate::hints::Hints;
use crate::render::bars;
use crate::render::bars::draw_bar;
use crate::render::model;
use crate::render::out::{crlf, Canvas, Color, RenderOut};
use crate::render::styled;
use crate::render::styled::one_of;
use crate::render::tools;
use crate::text;
use crate::text::{cat, cat3, char_count, truncate_str};
use crate::theme;
use crate::theme::Theme;
use crate::utils;
use crate::utils::format_duration;

verus! {

/// A process in the background.
pub struct ProcessInfo {
    pub id: String,
    pub command: String,
    /// When it was started, in milliseconds.
    pub started_ms: u64,
}

/// The dialog that shows the processes in the background.
pub struct PsDialog {
    pub procs: Vec<ProcessInfo>,
    pub list: ListState,
    /// The processes that the user has ended.
    pub killed: Vec<String>,
}

/// The processes among the first `n` that the user has not ended.
pub open spec fn still_there(all: Seq<ProcessInfo>, n: int, killed: Seq<String>) -> Seq<ProcessInfo>
    decreases n,
{
    if n <= 0 {
        seq![]
    } else if styled::is_one_of(killed, all[n - 1].id@) {
        still_there(all, n - 1, killed)
    } else {
        still_there(all, n - 1, killed).push(all[n - 1])
    }
}

/// Rows for `n` items: one when there is none.
pub open spec fn rows_for(n: nat) -> usize {
    tools::at_least_one(n as int) as usize
}

/// Rows for `n` items: one when there is none.
pub(crate) fn row_count(n: usize) -> (r: usize)
    ensures
        r == rows_for(n as nat),
{
    if n < 1 {
        1
    } else {
        n
    }
}

/// Draws the processes from `from` up to `to`.
pub open spec fn process_rows(
    m: Canvas,
    procs: Seq<ProcessInfo>,
    from: int,
    to: int,
    selected: int,
    w: int,
    now_ms: u64,
    accent: Color,
) -> Canvas
    decreases to - from,
{
    if to <= from {
        m
    } else {
        let m = process_rows(m, procs, from, to - 1, selected, w, now_ms, accent);
        let p = procs[to - 1];
        let time = utils::duration_text(
            (model::since(now_ms, p.started_ms) / 1000) as nat,
        );
        let meta = time + " "@ + p.id@;
        let command = text::clipped(
            p.command@,
            bars::at_least_zero(w - bars::capped(5int + (" "@ + meta).len())),
        );
        let m = m.print("  "@);
        let m = if to - 1 == selected {
            m.push_fg(accent).print(command).pop_style()
        } else {
            m.print(command)
        };
        m.print(" "@).push_dim().print(meta).pop_style().crlf()
    }
}

impl PsDialog {
    /// The processes that the user has not ended.
    pub fn fetch_procs(all: Vec<ProcessInfo>, killed: &Vec<String>) -> (r: Vec<ProcessInfo>)
        ensures
            r@ == still_there(all@, all@.len() as int, killed@),
    {
        let ghost av = all@;
        let mut all = all;
        let mut v: Vec<ProcessInfo> = Vec::new();
        let total: usize = all.len();
        let mut i: usize = 0;
        assert(av.skip(0) =~= av);
        while i < total
            invariant
                total == av.len(),
                i <= total,
                all@ == av.skip(i as int),
                v@ == still_there(av, i as int, killed@),
            decreases total - i,
        {
            let p = all.remove(0);
            assert(p == av[i as int]);
            assert(all@ =~= av.skip(i + 1));
            if !one_of(killed, p.id.as_str()) {
                v.push(p);
            }
            i = i + 1;
        }
        v
    }

    pub fn new(all: Vec<ProcessInfo>, max_height: Option<u16>) -> (r: PsDialog)
        ensures
            r.killed@ == Seq::<String>::empty(),
            r.procs@ == all@,
            r.list == ListState::fresh(rows_for(all@.len()), max_height, 4),
    {
        let list = ListState::new(row_count(all.len()), max_height, 4);
        PsDialog { procs: all, list, killed: Vec::new() }
    }

    pub fn height(&self) -> (r: u16)
        ensures
            r == self.list.rows(rows_for(self.procs@.len())),
    {
        self.list.height(row_count(self.procs.len()))
    }

    pub fn mark_dirty(&mut self)
        ensures
            *final(self) == (PsDialog {
                list: ListState { dirty: true, ..old(self).list },
                ..*old(self)
            }),
    {
        self.list.dirty = true;
    }

    pub fn anchor_row(&self) -> (r: Option<u16>)
        ensures
            r == self.list.anchor_row,
    {
        self.list.anchor_row
    }

    pub fn handle_resize(&mut self)
        ensures
            *final(self) == (PsDialog {
                list: ListState { anchor_row: None, dirty: true, ..old(self).list },
                ..*old(self)
            }),
    {
        self.list.handle_resize();
    }

    /// Takes a key that stands for `nav`; the key that deletes ends the
    /// selected process, and `all` are then the processes that there are.
    pub fn handle_key(
        &mut self,
        code: KeyCode,
        nav: Option<NavAction>,
        all: Vec<ProcessInfo>,
    ) -> (r: Option<DialogResult>)
        ensures
            ({
                let s = *old(self);
                if code == KeyCode::Backspace {
                    &&& r is None
                    &&& if s.list.selected < s.procs@.len() {
                        &&& final(self).killed@.len() == s.killed@.len() + 1
                        &&& final(self).killed@.take(s.killed@.len() as int) == s.killed@
                        &&& final(self).killed@.last()@ == s.procs@[s.list.selected as int].id@
                        &&& final(self).procs@ == still_there(
                            all@,
                            all@.len() as int,
                            final(self).killed@,
                        )
                        &&& final(self).list == s.list.with_items(
                            rows_for(final(self).procs@.len()) as int,
                        )
                    } else {
                        *final(self) == s
                    }
                } else {
                    match nav {
                        Some(NavAction::Dismiss) => *final(self) == s && r == Some(
                            DialogResult::PsClosed,
                        ),
                        Some(a) => {
                            &&& r is None
                            &&& *final(self) == (PsDialog {
                                list: s.list.after_nav(a, s.procs@.len() as int),
                                ..s
                            })
                        },
                        None => r is None && *final(self) == s,
                    }
                }
            }),
    {
        if code == KeyCode::Backspace {
            if self.list.selected < self.procs.len() {
                let id: String = self.procs[self.list.selected].id.as_str().to_owned();
                self.killed.push(id);
                assert(self.killed@.take(old(self).killed@.len() as int) =~= old(self).killed@);
                self.procs = PsDialog::fetch_procs(all, &self.killed);
                self.list.set_items(row_count(self.procs.len()));
            }
            return None;
        }
        match nav {
            Some(NavAction::Dismiss) => Some(DialogResult::PsClosed),
            Some(a) => {
                self.list.navigate(a, self.procs.len());
                None
            },
            None => None,
        }
    }

    /// The dialog with the processes that there are now.
    pub open spec fn refreshed_list(self, fresh: Seq<ProcessInfo>) -> ListState {
        if fresh.len() != self.procs@.len() {
            self.list.with_items(rows_for(fresh.len()) as int)
        } else {
            self.list
        }
    }

    /// Draws the dialog with the list `l` and the processes `procs`.
    pub open spec fn drawn(
        l: ListState,
        procs: Seq<ProcessInfo>,
        m: Canvas,
        start: u16,
        width: u16,
        height: u16,
        now_ms: u64,
        h: Hints,
        theme: Theme,
    ) -> Canvas {
        let n = rows_for(procs.len());
        let b = l.begun(start, n, height);
        let accent = theme.accent_color();
        let m = bars::bar_drawn(
            l.begun_on(m, start, n, height),
            width as int,
            seq![],
            seq![],
            accent,
        ).crlf().push_dim().print(" Background Processes"@).pop_style().crlf();
        let m = if procs.len() == 0 {
            m.push_dim().print("  No processes"@).pop_style().crlf()
        } else {
            process_rows(
                m,
                procs,
                b.shown(procs.len() as int).0,
                b.shown(procs.len() as int).1,
                b.selected as int,
                width as int,
                now_ms,
                accent,
            )
        };
        list::dialog_ended(
            m.crlf().push_dim().print(
                hints::hint_line(seq![h.close@, h.kill_proc@]),
            ).pop_style(),
        )
    }

    fn draw_processes(&self, out: &mut RenderOut, w: usize, now_ms: u64, accent: Color)
        ensures
            final(out)@ == process_rows(
                old(out)@,
                self.procs@,
                self.list.shown(self.procs@.len() as int).0,
                self.list.shown(self.procs@.len() as int).1,
                self.list.selected as int,
                w as int,
                now_ms,
                accent,
            ),
    {
        let n: usize = self.procs.len();
        let (from, to) = self.list.visible_range(n);
        let mut i: usize = from;
        while i < to
            invariant
                n == self.procs@.len(),
                to <= n,
                from <= i,
                i <= to || i == from,
                out@ == process_rows(
                    old(out)@,
                    self.procs@,
                    from as int,
                    i as int,
                    self.list.selected as int,
                    w as int,
                    now_ms,
                    accent,
                ),
            decreases to - i,
        {
            let p = &self.procs[i];
            let time = format_duration(now_ms.saturating_sub(p.started_ms) / 1000);
            let meta = cat3(time.as_str(), " ", p.id.as_str());
            let len: usize = char_count(cat(" ", meta.as_str()).as_str());
            let command = truncate_str(
                p.command.as_str(),
                w.saturating_sub(len.saturating_add(5)),
            );
            out.print("  ");
            if i == self.list.selected {
                out.push_fg(accent);
                out.print(command.as_str());
                out.pop_style();
            } else {
                out.print(command.as_str());
            }
            out.print(" ");
            out.push_dim();
            out.print(meta.as_str());
            out.pop_style();
            crlf(out);
            i = i + 1;
        }
    }

    /// Draws the dialog where it has to be drawn; `all` are the processes
    /// that there are.
    pub fn draw(
        &mut self,
        out: &mut RenderOut,
        start_row: u16,
        width: u16,
        height: u16,
        all: Vec<ProcessInfo>,
        now_ms: u64,
        h: &Hints,
        theme: &Theme,
    )
        ensures
            ({
                let fresh = still_there(all@, all@.len() as int, old(self).killed@);
                let l = old(self).refreshed_list(fresh);
                &&& final(self).procs@ == fresh
                &&& final(self).killed == old(self).killed
                &&& if l.dirty {
                    &&& final(self).list == l.begun(start_row, rows_for(fresh.len()), height)
                    &&& final(out)@ == PsDialog::drawn(
                        l,
                        fresh,
                        old(out)@,
                        start_row,
                        width,
                        height,
                        now_ms,
                        *h,
                        *theme,
                    )
                } else {
                    final(self).list == l && final(out)@ == old(out)@
                }
            }),
    {
        let fresh = PsDialog::fetch_procs(all, &self.killed);
        if fresh.len() != self.procs.len() {
            self.list.set_items(row_count(fresh.len()));
        }
        self.procs = fresh;
        let n: usize = row_count(self.procs.len());
        let w: usize = match self.list.begin_draw(out, start_row, n, width, height) {
            Some((w, _)) => w,
            None => return,
        };
        let accent = theme::accent(theme);
        draw_bar(out, w, None, None, accent);
        crlf(out);
        out.push_dim();
        out.print(" Background Processes");
        out.pop_style();
        crlf(out);
        if self.procs.len() == 0 {
            out.push_dim();
            out.print("  No processes");
            out.pop_style();
            crlf(out);
        } else {
            self.draw_processes(out, w, now_ms, accent);
        }
        crlf(out);
        out.push_dim();
        let hint = hints::two(h.close.as_str(), h.kill_proc.as_str());
        out.print(hint.as_str());
        out.pop_style();
        end_dialog_draw(out);
    }
}

/// A process that the user has ended is not shown.
pub proof fn law_ended_processes_are_gone(all: Seq<ProcessInfo>, n: int, killed: Seq<String>, i: int)
    requires
        0 <= n <= all.len(),
        0 <= i < still_there(all, n, killed).len(),
    ensures
        !styled::is_one_of(killed, still_there(all, n, killed)[i].id@),
    decreases n,
{
    if n > 0 {
        if i < still_there(all, n - 1, killed).len() {
            law_ended_processes_are_gone(all, n - 1, killed, i);
        }
    }
}

} // verus!
