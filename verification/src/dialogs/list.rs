//! Lists that scroll, and the frame of a dialog.

use vstd::prelude::*;

use crate::dialogs::keys::NavAction;
use crate::render::bars;
use crate::render::out::{Canvas, ClearType, Command, RenderOut};
use crate::render::screen;
use crate::render::table;
use crate::render::tools;

verus! {

// ── The frame ────────────────────────────────────────────────────────────

/// The smaller of two numbers of rows, where the second may be missing.
pub open spec fn at_most(rows: u16, cap: Option<u16>) -> u16 {
    match cap {
        Some(c) => if c < rows {
            c
        } else {
            rows
        },
        None => rows,
    }
}

fn limit_rows(rows: u16, cap: Option<u16>) -> (r: u16)
    ensures
        r == at_most(rows, cap),
{
    match cap {
        Some(c) => if c < rows {
            c
        } else {
            rows
        },
        None => rows,
    }
}

/// Rows that a dialog gets.
pub open spec fn granted_rows(content: u16, height: u16, max_rows: Option<u16>) -> u16 {
    at_most(at_most(content, max_rows), Some(height))
}

/// The row at which a dialog starts.
pub open spec fn dialog_start(start: u16, granted: u16, height: u16, anchor: Option<u16>) -> u16 {
    match anchor {
        Some(a) => a,
        None => if granted <= screen::rows_minus(height, start) {
            start
        } else {
            screen::rows_minus(height, granted)
        },
    }
}

/// Begins a dialog: what is above scrolls out where there is not enough room.
pub open spec fn dialog_begun(
    m: Canvas,
    start: u16,
    granted: u16,
    height: u16,
    anchor: Option<u16>,
) -> Canvas {
    let free = screen::rows_minus(height, start);
    let m = m.queue(Command::BeginSynchronizedUpdate).queue(Command::Hide);
    let m = if anchor is None && granted > free {
        m.queue(Command::ScrollUp((granted - free) as u16))
    } else {
        m
    };
    let row = dialog_start(start, granted, height, anchor);
    m.queue(Command::MoveTo(0, row)).at_row(Some(row))
}

/// Begins a dialog: the row at which it starts, and the rows that it gets.
pub fn begin_dialog_draw(
    out: &mut RenderOut,
    start_row: u16,
    content_rows: u16,
    height: u16,
    max_rows: Option<u16>,
    anchor_row: &mut Option<u16>,
) -> (r: (u16, u16))
    ensures
        r.1 == granted_rows(content_rows, height, max_rows),
        r.0 == dialog_start(start_row, r.1, height, *old(anchor_row)),
        *final(anchor_row) == Some(r.0),
        final(out)@ == dialog_begun(old(out)@, start_row, r.1, height, *old(anchor_row)),
{
    out.queue(Command::BeginSynchronizedUpdate);
    out.queue(Command::Hide);
    let granted: u16 = limit_rows(limit_rows(content_rows, max_rows), Some(height));
    let row: u16 = match *anchor_row {
        Some(a) => a,
        None => {
            let free: u16 = height.saturating_sub(start_row);
            if granted <= free {
                start_row
            } else {
                out.queue(Command::ScrollUp(granted - free));
                height.saturating_sub(granted)
            }
        },
    };
    *anchor_row = Some(row);
    out.queue(Command::MoveTo(0, row));
    out.set_row(Some(row));
    (row, granted)
}

/// A dialog fits on the terminal from the row at which it starts.
pub proof fn law_dialog_fits(start: u16, content: u16, height: u16, max_rows: Option<u16>)
    ensures
        ({
            let g = granted_rows(content, height, max_rows);
            dialog_start(start, g, height, None) + g <= height || start >= height && g == 0
        }),
{
}

/// Ends a dialog.
pub open spec fn dialog_ended(m: Canvas) -> Canvas {
    m.queue(Command::Clear(ClearType::FromCursorDown)).queue(
        Command::EndSynchronizedUpdate,
    ).queue(Command::Flush)
}

/// Ends a dialog.
pub fn end_dialog_draw(out: &mut RenderOut)
    ensures
        final(out)@ == dialog_ended(old(out)@),
{
    out.queue(Command::Clear(ClearType::FromCursorDown));
    out.queue(Command::EndSynchronizedUpdate);
    out.queue(Command::Flush);
}

/// Ends a dialog with a text that can be edited.
pub open spec fn dialog_finished(m: Canvas, cursor: Option<(u16, u16)>, editing: bool) -> Canvas {
    let m = if editing {
        (match cursor {
            Some((col, row)) => m.queue(Command::MoveTo(col, row)),
            None => m,
        }).queue(Command::Show)
    } else {
        m
    };
    m.queue(Command::EndSynchronizedUpdate).queue(Command::Flush)
}

/// Ends a dialog with a text that can be edited.
pub fn finish_dialog_frame(out: &mut RenderOut, cursor_pos: Option<(u16, u16)>, editing: bool)
    ensures
        final(out)@ == dialog_finished(old(out)@, cursor_pos, editing),
{
    if editing {
        match cursor_pos {
            Some((col, row)) => {
                out.queue(Command::MoveTo(col, row));
            },
            None => {},
        }
        out.queue(Command::Show);
    }
    out.queue(Command::EndSynchronizedUpdate);
    out.queue(Command::Flush);
}

/// Clears below a dialog where the terminal goes on below it.
pub open spec fn cleared_below(m: Canvas, height: u16) -> Canvas {
    if m.row is Some && m.row->0 < height {
        m.queue(Command::Clear(ClearType::FromCursorDown))
    } else {
        m
    }
}

pub(crate) fn clear_below(out: &mut RenderOut, height: u16)
    ensures
        final(out)@ == cleared_below(old(out)@, height),
{
    match out.row() {
        Some(r) => {
            if r < height {
                out.queue(Command::Clear(ClearType::FromCursorDown));
            }
        },
        None => {},
    }
}

// ── Lists ────────────────────────────────────────────────────────────────

/// A list that scrolls.
#[derive(Clone, Copy, Debug, PartialEq, Eq, Structural)]
pub struct ListState {
    pub selected: usize,
    pub scroll_offset: usize,
    pub max_visible: usize,
    pub max_height: Option<u16>,
    /// Rows of the dialog that show no items.
    pub overhead: u16,
    pub anchor_row: Option<u16>,
    pub dirty: bool,
}

impl ListState {
    /// Items that are shown at most.
    pub open spec fn room(max_height: Option<u16>, overhead: u16, count: int) -> int {
        match max_height {
            Some(h) => table::smaller(bars::at_least_zero(h - overhead), count),
            None => count,
        }
    }

    pub open spec fn fresh(count: usize, max_height: Option<u16>, overhead: u16) -> ListState {
        ListState {
            selected: 0,
            scroll_offset: 0,
            max_visible: ListState::room(max_height, overhead, count as int) as usize,
            max_height,
            overhead,
            anchor_row: None,
            dirty: true,
        }
    }

    fn cap(max_height: Option<u16>, overhead: u16, item_count: usize) -> (r: usize)
        ensures
            r == ListState::room(max_height, overhead, item_count as int),
    {
        match max_height {
            Some(h) => {
                let n: usize = (h as usize).saturating_sub(overhead as usize);
                if n < item_count {
                    n
                } else {
                    item_count
                }
            },
            None => item_count,
        }
    }

    pub fn new(item_count: usize, max_height: Option<u16>, overhead: u16) -> (r: ListState)
        ensures
            r == ListState::fresh(item_count, max_height, overhead),
    {
        ListState {
            selected: 0,
            scroll_offset: 0,
            max_visible: ListState::cap(max_height, overhead, item_count),
            max_height,
            overhead,
            anchor_row: None,
            dirty: true,
        }
    }

    /// Rows of a dialog with `count` items.
    pub open spec fn rows(self, count: usize) -> u16 {
        at_most(crate::render::out::rows_plus(count as u16, self.overhead), self.max_height)
    }

    pub fn height(&self, item_count: usize) -> (r: u16)
        ensures
            r == self.rows(item_count),
    {
        #[verifier::truncate]
        let n: u16 = item_count as u16;
        limit_rows(n.saturating_add(self.overhead), self.max_height)
    }

    /// The selection is kept among `count` items, and the view in the list.
    pub open spec fn kept_in(self, count: int) -> ListState {
        if count == 0 {
            ListState { selected: 0, scroll_offset: 0, ..self }
        } else {
            ListState {
                selected: table::smaller(self.selected as int, count - 1) as usize,
                scroll_offset: table::smaller(
                    self.scroll_offset as int,
                    bars::at_least_zero(count - self.max_visible),
                ) as usize,
                ..self
            }
        }
    }

    fn keep_in(&mut self, count: usize)
        ensures
            *final(self) == old(self).kept_in(count as int),
    {
        if count == 0 {
            self.selected = 0;
            self.scroll_offset = 0;
        } else {
            if self.selected > count - 1 {
                self.selected = count - 1;
            }
            let most: usize = count.saturating_sub(self.max_visible);
            if self.scroll_offset > most {
                self.scroll_offset = most;
            }
        }
    }

    pub open spec fn with_items(self, count: int) -> ListState {
        ListState {
            dirty: true,
            ..(ListState {
                max_visible: ListState::room(self.max_height, self.overhead, count) as usize,
                ..self
            }).kept_in(count)
        }
    }

    /// Takes up that there are now `count` items.
    pub fn set_items(&mut self, count: usize)
        ensures
            *final(self) == old(self).with_items(count as int),
    {
        self.max_visible = ListState::cap(self.max_height, self.overhead, count);
        self.keep_in(count);
        self.dirty = true;
    }

    pub fn handle_resize(&mut self)
        ensures
            *final(self) == (ListState { anchor_row: None, dirty: true, ..*old(self) }),
    {
        self.anchor_row = None;
        self.dirty = true;
    }

    pub open spec fn up(self) -> ListState {
        if self.selected > 0 {
            let s = (self.selected - 1) as usize;
            ListState {
                selected: s,
                scroll_offset: table::smaller(s as int, self.scroll_offset as int) as usize,
                dirty: true,
                ..self
            }
        } else {
            self
        }
    }

    pub fn select_prev(&mut self)
        ensures
            *final(self) == old(self).up(),
    {
        if self.selected > 0 {
            self.selected = self.selected - 1;
            if self.selected < self.scroll_offset {
                self.scroll_offset = self.selected;
            }
            self.dirty = true;
        }
    }

    /// The view follows the selection down to `s`.
    pub open spec fn down_to(self, s: usize) -> ListState {
        ListState {
            selected: s,
            scroll_offset: if s >= bars::capped(self.scroll_offset + self.max_visible) {
                bars::capped(s + 1 - self.max_visible) as usize
            } else {
                self.scroll_offset
            },
            dirty: true,
            ..self
        }
    }

    fn go_down_to(&mut self, s: usize)
        ensures
            *final(self) == old(self).down_to(s),
    {
        self.selected = s;
        if s >= self.scroll_offset.saturating_add(self.max_visible) {
            self.scroll_offset = (s - self.max_visible).saturating_add(1);
        }
        self.dirty = true;
    }

    pub open spec fn down(self, count: int) -> ListState {
        if self.selected + 1 < count {
            self.down_to((self.selected + 1) as usize)
        } else {
            self
        }
    }

    pub fn select_next(&mut self, item_count: usize)
        ensures
            *final(self) == old(self).down(item_count as int),
    {
        if item_count > 0 && self.selected < item_count - 1 {
            self.go_down_to(self.selected + 1);
        }
    }

    /// How far a page goes.
    pub open spec fn page(self) -> int {
        tools::at_least_one(self.max_visible as int / 2)
    }

    pub open spec fn paged_up(self) -> ListState {
        let s = bars::at_least_zero(self.selected - self.page()) as usize;
        ListState {
            selected: s,
            scroll_offset: table::smaller(s as int, self.scroll_offset as int) as usize,
            dirty: true,
            ..self
        }
    }

    pub fn page_up(&mut self)
        ensures
            *final(self) == old(self).paged_up(),
    {
        let half: usize = self.max_visible / 2;
        let step: usize = if half < 1 {
            1
        } else {
            half
        };
        self.selected = self.selected.saturating_sub(step);
        if self.selected < self.scroll_offset {
            self.scroll_offset = self.selected;
        }
        self.dirty = true;
    }

    pub open spec fn paged_down(self, count: int) -> ListState {
        self.down_to(
            table::smaller(
                bars::capped(self.selected + self.page()),
                bars::at_least_zero(count - 1),
            ) as usize,
        )
    }

    pub fn page_down(&mut self, item_count: usize)
        ensures
            *final(self) == old(self).paged_down(item_count as int),
    {
        let half: usize = self.max_visible / 2;
        let step: usize = if half < 1 {
            1
        } else {
            half
        };
        let to: usize = self.selected.saturating_add(step);
        let last: usize = item_count.saturating_sub(1);
        self.go_down_to(
            if to < last {
                to
            } else {
                last
            },
        );
    }

    /// The list once a key has moved the selection.
    pub open spec fn after_nav(self, nav: NavAction, count: int) -> ListState {
        match nav {
            NavAction::Up => self.up(),
            NavAction::Down => self.down(count),
            NavAction::PageUp => self.paged_up(),
            NavAction::PageDown => self.paged_down(count),
            _ => self,
        }
    }

    /// Moves the selection among `item_count` items.
    pub fn navigate(&mut self, nav: NavAction, item_count: usize)
        ensures
            *final(self) == old(self).after_nav(nav, item_count as int),
    {
        match nav {
            NavAction::Up => self.select_prev(),
            NavAction::Down => self.select_next(item_count),
            NavAction::PageUp => self.page_up(),
            NavAction::PageDown => self.page_down(item_count),
            _ => {},
        }
    }

    /// The list once a dialog with `count` items has been begun.
    pub open spec fn begun(self, start: u16, count: usize, height: u16) -> ListState {
        let granted = granted_rows(
            crate::render::out::rows_plus(count as u16, self.overhead),
            height,
            self.max_height,
        );
        (ListState {
            dirty: false,
            anchor_row: Some(dialog_start(start, granted, height, self.anchor_row)),
            max_visible: table::smaller(
                bars::at_least_zero(granted - self.overhead),
                count as int,
            ) as usize,
            ..self
        }).kept_in(count as int)
    }

    /// The canvas once a dialog with `count` items has been begun.
    pub open spec fn begun_on(self, m: Canvas, start: u16, count: usize, height: u16) -> Canvas {
        let granted = granted_rows(
            crate::render::out::rows_plus(count as u16, self.overhead),
            height,
            self.max_height,
        );
        dialog_begun(m, start, granted, height, self.anchor_row)
    }

    /// Begins a dialog with `item_count` items where it has to be drawn: its
    /// width, and the row at which it starts.
    pub fn begin_draw(
        &mut self,
        out: &mut RenderOut,
        start_row: u16,
        item_count: usize,
        width: u16,
        height: u16,
    ) -> (r: Option<(usize, u16)>)
        ensures
            if old(self).dirty {
                &&& *final(self) == old(self).begun(start_row, item_count, height)
                &&& final(out)@ == old(self).begun_on(old(out)@, start_row, item_count, height)
                &&& r == Some((width as usize, final(self).anchor_row->0))
            } else {
                r is None && *final(self) == *old(self) && final(out)@ == old(out)@
            },
    {
        if !self.dirty {
            return None;
        }
        self.dirty = false;
        #[verifier::truncate]
        let n: u16 = item_count as u16;
        let mut anchor: Option<u16> = self.anchor_row;
        let (row, granted) = begin_dialog_draw(
            out,
            start_row,
            n.saturating_add(self.overhead),
            height,
            self.max_height,
            &mut anchor,
        );
        self.anchor_row = anchor;
        let visible: usize = (granted as usize).saturating_sub(self.overhead as usize);
        self.max_visible = if visible < item_count {
            visible
        } else {
            item_count
        };
        self.keep_in(item_count);
        Some((width as usize, row))
    }

    /// The items that are shown: the first, and the one behind the last.
    pub open spec fn shown(self, count: int) -> (int, int) {
        (
            self.scroll_offset as int,
            table::smaller(bars::capped(self.scroll_offset + self.max_visible), count),
        )
    }

    /// The items that are shown: the first, and the one behind the last.
    pub fn visible_range(&self, item_count: usize) -> (r: (usize, usize))
        ensures
            (r.0 as int, r.1 as int) == self.shown(item_count as int),
            r.1 <= item_count,
    {
        let end: usize = self.scroll_offset.saturating_add(self.max_visible);
        (
            self.scroll_offset,
            if end < item_count {
                end
            } else {
                item_count
            },
        )
    }

    /// Whether the selected item is one of `count` items, and shown.
    pub open spec fn in_view(self, count: int) -> bool {
        &&& self.selected < count
        &&& self.scroll_offset <= self.selected < self.scroll_offset + self.max_visible
        &&& self.scroll_offset + self.max_visible <= count
        &&& count <= usize::MAX
    }
}

/// The selected item stays in view, whichever way the selection moves.
pub proof fn law_selection_stays_in_view(l: ListState, count: int)
    requires
        l.in_view(count),
    ensures
        l.up().in_view(count),
        l.down(count).in_view(count),
        l.paged_up().in_view(count),
        l.paged_down(count).in_view(count),
{
}

/// The selected item stays in view when items come or go, as long as the
/// list shows as many as there is room for.
pub proof fn law_new_items_keep_view(l: ListState, count: int, new_count: int)
    requires
        l.in_view(count),
        l.max_visible == ListState::room(l.max_height, l.overhead, count),
        0 < new_count <= usize::MAX,
    ensures
        l.with_items(new_count).in_view(new_count),
{
}

/// The selected item of a new list is in view, where there is room for one.
pub proof fn law_new_list_is_in_view(count: usize, max_height: Option<u16>, overhead: u16)
    requires
        count > 0,
        max_height is Some ==> max_height->0 > overhead,
    ensures
        ListState::fresh(count, max_height, overhead).in_view(count as int),
{
}

/// The selection is one of the items, whatever key comes, and whatever the
/// size of the terminal.
pub proof fn law_selection_is_an_item(
    l: ListState,
    nav: NavAction,
    count: usize,
    start: u16,
    height: u16,
)
    requires
        l.selected < count,
    ensures
        l.after_nav(nav, count as int).selected < count,
        l.begun(start, count, height).selected < count,
{
}

/// A step down and a step up lead back to the same item.
pub proof fn law_up_undoes_down(l: ListState, count: int)
    requires
        l.selected + 1 < count,
        count <= usize::MAX,
    ensures
        l.down(count).up().selected == l.selected,
{
}

} // verus!
