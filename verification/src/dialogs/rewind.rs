//! The dialog that goes back to an earlier turn.

use vstd::prelude::*;

use crate::dialogs::keys::NavAction;
use crate::dialogs::list;
use crate::dialogs::list::{end_dialog_draw, ListState};
use crate::dialogs::result::DialogResult;
use crate::hints;
use crate::hints::Hints;
use crate::render::bars;
use crate::render::bars::draw_bar;
use crate::render::out::{crlf, Canvas, Color, RenderOut};
use crate::text;
use crate::text::{align_right, cat3, char_count, first_line_or, number, truncate_str};
use crate::theme;
use crate::theme::Theme;

verus! {

/// The dialog that goes back to an earlier turn.
pub struct RewindDialog {
    /// The turns: the block at which each starts, and what the user wrote.
    pub turns: Vec<(usize, String)>,
    pub list: ListState,
    pub restore_vim_insert: bool,
}

/// What a row says: the first line of a turn, or that it stands for the
/// present.
pub open spec fn turn_label(turns: Seq<(usize, String)>, i: int) -> Seq<char> {
    if i == turns.len() {
        "(current)"@
    } else {
        match text::first_line(turns[i].1@) {
            Some(l) => l,
            None => ""@,
        }
    }
}

/// Draws the rows from `from` up to `to`.
pub open spec fn turn_rows(
    m: Canvas,
    turns: Seq<(usize, String)>,
    from: int,
    to: int,
    selected: int,
    w: int,
    accent: Color,
) -> Canvas
    decreases to - from,
{
    if to <= from {
        m
    } else {
        let m = turn_rows(m, turns, from, to - 1, selected, w, accent);
        let i = to - 1;
        let digits = text::dec((turns.len() + 1) as nat).len() as int;
        let label = text::clipped(turn_label(turns, i), bars::at_least_zero(w - (digits + 4)));
        let m = m.push_dim().print(
            "  "@ + text::right_aligned(text::dec((i + 1) as nat), digits) + "."@,
        ).pop_style().print(" "@);
        (if i == selected {
            m.push_fg(accent).print(label).pop_style()
        } else {
            m.print(label)
        }).crlf()
    }
}

impl RewindDialog {
    pub open spec fn wf(self) -> bool {
        self.turns@.len() < usize::MAX && self.list.selected <= self.turns@.len()
    }

    /// Whether the selected turn is one that there is.
    pub fn is_wf(&self) -> (r: bool)
        ensures
            r == self.wf(),
    {
        self.turns.len() < usize::MAX && self.list.selected <= self.turns.len()
    }

    /// A dialog in which the present is selected.
    pub fn new(
        turns: Vec<(usize, String)>,
        restore_vim_insert: bool,
        max_height: Option<u16>,
    ) -> (r: RewindDialog)
        requires
            turns@.len() < usize::MAX,
        ensures
            r.turns == turns,
            r.restore_vim_insert == restore_vim_insert,
            ({
                let total = (turns@.len() + 1) as usize;
                let l = ListState::fresh(total, max_height, 4);
                r.list == (ListState {
                    selected: turns@.len() as usize,
                    scroll_offset: (total - l.max_visible) as usize,
                    ..l
                })
            }),
            r.wf(),
    {
        let total: usize = turns.len() + 1;
        let mut list = ListState::new(total, max_height, 4);
        list.selected = total - 1;
        list.scroll_offset = total - list.max_visible;
        RewindDialog { turns, list, restore_vim_insert }
    }

    fn total_items(&self) -> (r: usize)
        requires
            self.wf(),
        ensures
            r == self.turns@.len() + 1,
    {
        self.turns.len() + 1
    }

    fn is_current_selected(&self) -> (r: bool)
        ensures
            r == (self.list.selected == self.turns@.len()),
    {
        self.list.selected == self.turns.len()
    }

    pub fn height(&self) -> (r: u16)
        requires
            self.wf(),
        ensures
            r == self.list.rows((self.turns@.len() + 1) as usize),
    {
        self.list.height(self.total_items())
    }

    pub fn mark_dirty(&mut self)
        ensures
            *final(self) == (RewindDialog {
                list: ListState { dirty: true, ..old(self).list },
                ..*old(self)
            }),
    {
        self.list.dirty = true;
    }

    pub fn anchor_row(&self) -> (r: Option<u16>)
        ensures
            r == self.list.anchor_row,
    {
        self.list.anchor_row
    }

    pub fn handle_resize(&mut self)
        ensures
            *final(self) == (RewindDialog {
                list: ListState { anchor_row: None, dirty: true, ..old(self).list },
                ..*old(self)
            }),
    {
        self.list.handle_resize();
    }

    /// The block to go back to; none for the present.
    pub open spec fn chosen(self) -> Option<usize> {
        if self.list.selected == self.turns@.len() {
            None
        } else {
            Some(self.turns@[self.list.selected as int].0)
        }
    }

    /// Takes a key that stands for `nav`; the result is there once the user
    /// has chosen.
    pub fn handle_key(&mut self, nav: Option<NavAction>) -> (r: Option<DialogResult>)
        requires
            old(self).wf(),
        ensures
            ({
                let s = *old(self);
                let n = s.turns@.len() + 1;
                match nav {
                    Some(NavAction::Confirm) => {
                        &&& *final(self) == s
                        &&& r == Some(
                            DialogResult::Rewind {
                                block_idx: s.chosen(),
                                restore_vim_insert: s.restore_vim_insert,
                            },
                        )
                    },
                    Some(NavAction::Dismiss) => {
                        &&& *final(self) == s
                        &&& r == Some(
                            DialogResult::Rewind {
                                block_idx: None,
                                restore_vim_insert: s.restore_vim_insert,
                            },
                        )
                    },
                    Some(a) => {
                        &&& r is None
                        &&& *final(self) == (RewindDialog {
                            list: s.list.after_nav(a, n as int),
                            ..s
                        })
                    },
                    None => r is None && *final(self) == s,
                }
            }),
            final(self).wf(),
    {
        let n: usize = self.total_items();
        match nav {
            Some(NavAction::Confirm) => {
                let block_idx: Option<usize> = if self.is_current_selected() {
                    None
                } else {
                    Some(self.turns[self.list.selected].0)
                };
                Some(
                    DialogResult::Rewind {
                        block_idx,
                        restore_vim_insert: self.restore_vim_insert,
                    },
                )
            },
            Some(NavAction::Dismiss) => Some(
                DialogResult::Rewind {
                    block_idx: None,
                    restore_vim_insert: self.restore_vim_insert,
                },
            ),
            Some(a) => {
                proof {
                    list::law_selection_is_an_item(self.list, a, n, 0, 0);
                }
                self.list.navigate(a, n);
                None
            },
            None => None,
        }
    }

    /// Draws the dialog.
    pub open spec fn drawn(
        self,
        m: Canvas,
        start: u16,
        width: u16,
        height: u16,
        h: Hints,
        theme: Theme,
    ) -> Canvas {
        let n = (self.turns@.len() + 1) as usize;
        let l = self.list.begun(start, n, height);
        let accent = theme.accent_color();
        let m = bars::bar_drawn(
            self.list.begun_on(m, start, n, height),
            width as int,
            seq![],
            seq![],
            accent,
        ).crlf().push_dim().print(" Rewind to:"@).pop_style().crlf();
        let m = turn_rows(
            m,
            self.turns@,
            l.shown(n as int).0,
            l.shown(n as int).1,
            l.selected as int,
            width as int,
            accent,
        ).crlf().push_dim().print(hints::hint_line(seq![h.select@, h.cancel@])).pop_style();
        list::dialog_ended(m)
    }

    fn draw_turns(&self, out: &mut RenderOut, w: usize, accent: Color)
        requires
            self.wf(),
        ensures
            ({
                let n = self.turns@.len() + 1;
                final(out)@ == turn_rows(
                    old(out)@,
                    self.turns@,
                    self.list.shown(n as int).0,
                    self.list.shown(n as int).1,
                    self.list.selected as int,
                    w as int,
                    accent,
                )
            }),
    {
        let n: usize = self.total_items();
        let digits: usize = char_count(number(n as u64).as_str());
        proof {
            text::lemma_dec_len(n as nat);
        }
        let (from, to) = self.list.visible_range(n);
        let mut i: usize = from;
        while i < to
            invariant
                self.wf(),
                n == self.turns@.len() + 1,
                to <= n,
                from <= i,
                i <= to || i == from,
                digits == text::dec(n as nat).len(),
                digits <= 20,
                out@ == turn_rows(
                    old(out)@,
                    self.turns@,
                    from as int,
                    i as int,
                    self.list.selected as int,
                    w as int,
                    accent,
                ),
            decreases to - i,
        {
            let label: String = if i == self.turns.len() {
                "(current)".to_owned()
            } else {
                first_line_or(self.turns[i].1.as_str(), "")
            };
            let shown = truncate_str(label.as_str(), w.saturating_sub(digits + 4));
            let num = align_right(number(i as u64 + 1).as_str(), digits);
            out.push_dim();
            out.print(cat3("  ", num.as_str(), ".").as_str());
            out.pop_style();
            out.print(" ");
            if i == self.list.selected {
                out.push_fg(accent);
                out.print(shown.as_str());
                out.pop_style();
            } else {
                out.print(shown.as_str());
            }
            crlf(out);
            i = i + 1;
        }
    }

    /// Draws the dialog where it has to be drawn.
    pub fn draw(
        &mut self,
        out: &mut RenderOut,
        start_row: u16,
        width: u16,
        height: u16,
        h: &Hints,
        theme: &Theme,
    )
        requires
            old(self).wf(),
        ensures
            if old(self).list.dirty {
                &&& final(out)@ == old(self).drawn(
                    old(out)@,
                    start_row,
                    width,
                    height,
                    *h,
                    *theme,
                )
                &&& *final(self) == (RewindDialog {
                    list: old(self).list.begun(
                        start_row,
                        (old(self).turns@.len() + 1) as usize,
                        height,
                    ),
                    ..*old(self)
                })
            } else {
                *final(self) == *old(self) && final(out)@ == old(out)@
            },
            final(self).wf(),
    {
        let n: usize = self.total_items();
        let w: usize = match self.list.begin_draw(out, start_row, n, width, height) {
            Some((w, _)) => w,
            None => return,
        };
        let accent = theme::accent(theme);
        draw_bar(out, w, None, None, accent);
        crlf(out);
        out.push_dim();
        out.print(" Rewind to:");
        out.pop_style();
        crlf(out);
        self.draw_turns(out, w, accent);
        crlf(out);
        out.push_dim();
        let hint = hints::two(h.select.as_str(), h.cancel.as_str());
        out.print(hint.as_str());
        out.pop_style();
        end_dialog_draw(out);
    }
}

} // verus!
