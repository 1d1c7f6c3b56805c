//! The dialog that shows the keys.

use vstd::prelude::*;

use crate::dialogs::keys::{KeyCode, NavAction};
use crate::dialogs::list;
use crate::dialogs::list::{end_dialog_draw, ListState};
use crate::dialogs::result::DialogResult;
use crate::hints;
use crate::hints::Hints;
use crate::render::bars;
use crate::render::bars::draw_bar;
use crate::render::out::{crlf, Canvas, ClearType, Color, Command, RenderOut};
use crate::render::table;
use crate::render::tools;
use crate::text;
use crate::text::{cat, char_count, repeat_char};
use crate::theme;
use crate::theme::Theme;

verus! {

/// Keys under a heading, each with what it does.
pub struct HelpSection {
    pub title: String,
    pub entries: Vec<(String, String)>,
}

/// The dialog that shows the keys.
pub struct HelpDialog {
    pub list: ListState,
    pub sections: Vec<HelpSection>,
    pub total_rows: usize,
}

/// Keys with what they do, in characters.
pub open spec fn entries_view(v: Seq<(String, String)>) -> Seq<(Seq<char>, Seq<char>)> {
    Seq::new(v.len(), |i: int| (v[i].0@, v[i].1@))
}

/// The lines of the first `n` sections, with an empty one between each two.
pub open spec fn help_lines(ss: Seq<HelpSection>, n: int) -> Seq<(Seq<char>, Seq<char>)>
    decreases n,
{
    if n <= 0 {
        seq![]
    } else {
        let v = help_lines(ss, n - 1) + entries_view(ss[n - 1].entries@);
        if n < ss.len() {
            v.push((seq![], seq![]))
        } else {
            v
        }
    }
}

/// The longest key among the first `n` lines, in bytes.
pub open spec fn longest_key(ls: Seq<(Seq<char>, Seq<char>)>, n: int) -> int
    decreases n,
{
    if n <= 0 {
        0
    } else {
        table::larger(longest_key(ls, n - 1), text::byte_len(ls[n - 1].0) as int)
    }
}

/// Draws the lines from `from` up to `to`; what keys do stands in column
/// `column`.
pub open spec fn help_rows(
    m: Canvas,
    ls: Seq<(Seq<char>, Seq<char>)>,
    from: int,
    to: int,
    column: int,
) -> Canvas
    decreases to - from,
{
    if to <= from {
        m
    } else {
        let m = help_rows(m, ls, from, to - 1, column);
        let (label, detail) = ls[to - 1];
        if label.len() == 0 && detail.len() == 0 {
            m.crlf()
        } else {
            let pad = text::fill(' ', bars::at_least_zero(column - text::byte_len(label)) as nat);
            m.print("  "@).push_fg(Color::AnsiValue(theme::MUTED)).print(
                label,
            ).pop_style().push_dim().print(pad + detail).pop_style().queue(
                Command::Clear(ClearType::UntilNewLine),
            ).crlf()
        }
    }
}

fn find_lines(ss: &Vec<HelpSection>) -> (r: Vec<(String, String)>)
    ensures
        entries_view(r@) == help_lines(ss@, ss@.len() as int),
{
    let mut v: Vec<(String, String)> = Vec::new();
    let total: usize = ss.len();
    let mut k: usize = 0;
    assert(entries_view(v@) =~= seq![]);
    while k < total
        invariant
            total == ss@.len(),
            k <= total,
            entries_view(v@) == help_lines(ss@, k as int),
        decreases total - k,
    {
        let s = &ss[k];
        let n: usize = s.entries.len();
        let ghost before = entries_view(v@);
        let ghost es = entries_view(s.entries@);
        let mut i: usize = 0;
        assert(before + es.take(0) =~= before);
        while i < n
            invariant
                n == s.entries@.len(),
                i <= n,
                es == entries_view(s.entries@),
                entries_view(v@) == before + es.take(i as int),
            decreases n - i,
        {
            let a: String = s.entries[i].0.as_str().to_owned();
            let b: String = s.entries[i].1.as_str().to_owned();
            let ghost v0 = v@;
            v.push((a, b));
            assert(entries_view(v@) =~= entries_view(v0).push(es[i as int]));
            assert(before + es.take(i + 1) =~= (before + es.take(i as int)).push(es[i as int]));
            i = i + 1;
        }
        assert(es.take(n as int) =~= es);
        if k + 1 < total {
            let a = String::new();
            let b = String::new();
            assert(a@ =~= Seq::<char>::empty());
            assert(b@ =~= Seq::<char>::empty());
            let ghost v0 = v@;
            v.push((a, b));
            assert(entries_view(v@) =~= entries_view(v0).push((seq![], seq![])));
        }
        k = k + 1;
    }
    v
}

fn find_longest(ls: &Vec<(String, String)>) -> (r: usize)
    ensures
        r == longest_key(entries_view(ls@), ls@.len() as int),
{
    let ghost lv = entries_view(ls@);
    let n: usize = ls.len();
    let mut most: usize = 0;
    let mut i: usize = 0;
    while i < n
        invariant
            n == ls@.len(),
            i <= n,
            lv == entries_view(ls@),
            most == longest_key(lv, i as int),
        decreases n - i,
    {
        assert(lv[i as int].0 == ls@[i as int].0@);
        let len: usize = ls[i].0.as_str().len();
        if len > most {
            most = len;
        }
        i = i + 1;
    }
    most
}

impl HelpDialog {
    /// The lines that there are.
    pub open spec fn lines(self) -> Seq<(Seq<char>, Seq<char>)> {
        help_lines(self.sections@, self.sections@.len() as int)
    }

    pub fn new(sections: Vec<HelpSection>) -> (r: HelpDialog)
        ensures
            r.sections == sections,
            r.list == ListState::fresh(0, None, 5),
            r.total_rows == r.lines().len(),
    {
        let ls = find_lines(&sections);
        assert(entries_view(ls@).len() == ls@.len());
        let total_rows: usize = ls.len();
        HelpDialog { list: ListState::new(0, None, 5), sections, total_rows }
    }

    pub fn height(&self) -> (r: u16)
        ensures
            r == self.list.rows(self.total_rows),
    {
        self.list.height(self.total_rows)
    }

    pub fn mark_dirty(&mut self)
        ensures
            *final(self) == (HelpDialog {
                list: ListState { dirty: true, ..old(self).list },
                ..*old(self)
            }),
    {
        self.list.dirty = true;
    }

    pub fn anchor_row(&self) -> (r: Option<u16>)
        ensures
            r == self.list.anchor_row,
    {
        self.list.anchor_row
    }

    pub fn handle_resize(&mut self)
        ensures
            *final(self) == (HelpDialog {
                list: ListState { anchor_row: None, dirty: true, ..old(self).list },
                ..*old(self)
            }),
    {
        self.list.handle_resize();
    }

    /// The list once a key has moved the view.
    pub open spec fn after_nav(self, nav: NavAction) -> ListState {
        let l = self.list;
        let max = bars::at_least_zero(self.total_rows - l.max_visible);
        let page = tools::at_least_one(l.max_visible as int);
        match nav {
            NavAction::Up => if l.scroll_offset > 0 {
                ListState { scroll_offset: (l.scroll_offset - 1) as usize, dirty: true, ..l }
            } else {
                l
            },
            NavAction::Down => if l.scroll_offset < max {
                ListState { scroll_offset: (l.scroll_offset + 1) as usize, dirty: true, ..l }
            } else {
                l
            },
            NavAction::PageUp => ListState {
                scroll_offset: bars::at_least_zero(l.scroll_offset - page) as usize,
                dirty: true,
                ..l
            },
            NavAction::PageDown => ListState {
                scroll_offset: table::smaller(
                    bars::capped(l.scroll_offset + page),
                    max,
                ) as usize,
                dirty: true,
                ..l
            },
            _ => l,
        }
    }

    /// Whether a key closes the dialog.
    pub open spec fn closes(code: KeyCode, nav: Option<NavAction>) -> bool {
        code == KeyCode::Char('q') || code == KeyCode::Char('?') || nav == Some(
            NavAction::Dismiss,
        ) || nav == Some(NavAction::Confirm)
    }

    /// Takes a key that stands for `nav`.
    pub fn handle_key(&mut self, code: KeyCode, nav: Option<NavAction>) -> (r: Option<DialogResult>)
        ensures
            if HelpDialog::closes(code, nav) {
                r == Some(DialogResult::Dismissed) && *final(self) == *old(self)
            } else {
                &&& r is None
                &&& *final(self) == (match nav {
                    Some(a) => HelpDialog { list: old(self).after_nav(a), ..*old(self) },
                    None => *old(self),
                })
            },
    {
        if code == KeyCode::Char('q') || code == KeyCode::Char('?') {
            return Some(DialogResult::Dismissed);
        }
        let max: usize = self.total_rows.saturating_sub(self.list.max_visible);
        let page: usize = if self.list.max_visible < 1 {
            1
        } else {
            self.list.max_visible
        };
        match nav {
            Some(NavAction::Dismiss) => {
                return Some(DialogResult::Dismissed);
            },
            Some(NavAction::Confirm) => {
                return Some(DialogResult::Dismissed);
            },
            Some(NavAction::Up) => {
                if self.list.scroll_offset > 0 {
                    self.list.scroll_offset = self.list.scroll_offset - 1;
                    self.list.dirty = true;
                }
            },
            Some(NavAction::Down) => {
                if self.list.scroll_offset < max {
                    self.list.scroll_offset = self.list.scroll_offset + 1;
                    self.list.dirty = true;
                }
            },
            Some(NavAction::PageUp) => {
                self.list.scroll_offset = self.list.scroll_offset.saturating_sub(page);
                self.list.dirty = true;
            },
            Some(NavAction::PageDown) => {
                let to: usize = self.list.scroll_offset.saturating_add(page);
                self.list.scroll_offset = if to < max {
                    to
                } else {
                    max
                };
                self.list.dirty = true;
            },
            _ => {},
        }
        None
    }

    /// Draws the dialog.
    pub open spec fn drawn(
        self,
        m: Canvas,
        start: u16,
        width: u16,
        height: u16,
        h: Hints,
        theme: Theme,
    ) -> Canvas {
        let ls = self.lines();
        let n = ls.len() as usize;
        let l = self.list.begun(start, n, height);
        let m = bars::bar_drawn(
            self.list.begun_on(m, start, n, height),
            width as int,
            seq![],
            seq![],
            theme.accent_color(),
        ).crlf().push_dim().print(" help"@).pop_style().crlf().crlf();
        let m = help_rows(
            m,
            ls,
            l.scroll_offset as int,
            l.shown(n as int).1,
            bars::capped(longest_key(ls, n as int) + 4),
        ).crlf().push_dim().print(
            hints::hint_line(seq![h.close@, h.nav@, h.scroll@]),
        ).pop_style().queue(Command::Clear(ClearType::UntilNewLine));
        list::dialog_ended(m)
    }

    /// Draws the dialog where it has to be drawn.
    pub fn draw(
        &mut self,
        out: &mut RenderOut,
        start_row: u16,
        width: u16,
        height: u16,
        h: &Hints,
        theme: &Theme,
    )
        ensures
            if old(self).list.dirty {
                &&& final(out)@ == old(self).drawn(
                    old(out)@,
                    start_row,
                    width,
                    height,
                    *h,
                    *theme,
                )
                &&& *final(self) == (HelpDialog {
                    list: old(self).list.begun(
                        start_row,
                        old(self).lines().len() as usize,
                        height,
                    ),
                    ..*old(self)
                })
            } else {
                *final(self) == *old(self) && final(out)@ == old(out)@
            },
    {
        let ls = find_lines(&self.sections);
        let ghost lv = entries_view(ls@);
        let n: usize = ls.len();
        assert(lv.len() == n);
        let w: usize = match self.list.begin_draw(out, start_row, n, width, height) {
            Some((w, _)) => w,
            None => return,
        };
        draw_bar(out, w, None, None, theme::accent(theme));
        crlf(out);
        out.push_dim();
        out.print(" help");
        out.pop_style();
        crlf(out);
        crlf(out);
        let column: usize = find_longest(&ls).saturating_add(4);
        let (from, to) = self.list.visible_range(n);
        let ghost m = out@;
        let mut i: usize = from;
        while i < to
            invariant
                n == ls@.len(),
                lv == entries_view(ls@),
                to <= n,
                from <= i,
                i <= to || i == from,
                out@ == help_rows(m, lv, from as int, i as int, column as int),
            decreases to - i,
        {
            assert(lv[i as int] == (ls@[i as int].0@, ls@[i as int].1@));
            let label = ls[i].0.as_str();
            let detail = ls[i].1.as_str();
            if char_count(label) == 0 && char_count(detail) == 0 {
                crlf(out);
            } else {
                out.print("  ");
                out.push_fg(theme::muted());
                out.print(label);
                out.pop_style();
                let pad = repeat_char(' ', column.saturating_sub(label.len()));
                out.push_dim();
                out.print(cat(pad.as_str(), detail).as_str());
                out.pop_style();
                out.queue(Command::Clear(ClearType::UntilNewLine));
                crlf(out);
            }
            i = i + 1;
        }
        crlf(out);
        out.push_dim();
        let hint = hints::three(h.close.as_str(), h.nav.as_str(), h.scroll.as_str());
        out.print(hint.as_str());
        out.pop_style();
        out.queue(Command::Clear(ClearType::UntilNewLine));
        end_dialog_draw(out);
    }
}

} // verus!
