//! How the dialog that asks about a call is drawn.

use vstd::prelude::*;

use crate::dialogs::confirm;
use crate::dialogs::confirm::{
    find_indent, find_message_column, find_option_lines, ConfirmDialog, ConfirmLayout,
    ConfirmView,
};
use crate::dialogs::list;
use crate::dialogs::list::{begin_dialog_draw, clear_below, finish_dialog_frame};
use crate::dialogs::preview;
use crate::dialogs::preview::ConfirmPreview;
use crate::dialogs::question;
use crate::dialogs::question::cap_rows;
use crate::dialogs::text_area;
use crate::dialogs::text_area::{render_inline_textarea, AreaDrawn};
use crate::hints;
use crate::hints::Hints;
use crate::render::bars;
use crate::render::bars::draw_bar;
use crate::render::highlight;
use crate::render::highlight::{Assets, BashHighlighter, History};
use crate::render::out;
use crate::render::out::{crlf, Canvas, Color, Command, RenderOut};
use crate::render::screen;
use crate::render::styled::Env;
use crate::render::table;
use crate::text;
use crate::text::{cat, cat3, number, repeat_char, same_text};
use crate::theme;
use crate::theme::Theme;

verus! {

// ── The head ─────────────────────────────────────────────────────────────

/// A title that is being drawn.
pub struct HeadState {
    pub canvas: Canvas,
    pub history: History,
}

/// Draws the first `n` lines of the title; as a command where `shell` is set.
pub open spec fn title_drawn(
    m: Canvas,
    ls: Seq<Seq<char>>,
    n: int,
    name: Seq<char>,
    color: Color,
    shell: bool,
) -> HeadState
    decreases n,
{
    if n <= 0 {
        HeadState { canvas: m, history: highlight::shell_history() }
    } else {
        let a = title_drawn(m, ls, n - 1, name, color, shell);
        let m = a.canvas.print(" "@);
        let m = if n == 1 {
            m.push_fg(color).print(name).pop_style().print(": "@)
        } else {
            m
        };
        if shell {
            HeadState {
                canvas: highlight::shell_line(m, a.history, ls[n - 1]).crlf(),
                history: highlight::after_line(a.history, ls[n - 1]),
            }
        } else {
            HeadState { canvas: m.print(ls[n - 1]).crlf(), history: a.history }
        }
    }
}

/// Draws the first `n` lines of the summary.
pub open spec fn summary_drawn(m: Canvas, ls: Seq<Seq<char>>, n: int) -> Canvas
    decreases n,
{
    if n <= 0 {
        m
    } else {
        summary_drawn(m, ls, n - 1).print(" "@).push_fg(Color::AnsiValue(theme::MUTED)).print(
            ls[n - 1],
        ).pop_style().crlf()
    }
}

/// The line across the dialog.
pub open spec fn separator(n: int) -> Seq<char> {
    text::fill('\u{254c}', n as nat)
}

/// Where the preview is scrolled to.
pub open spec fn scroll_mark(scroll: int, ly: ConfirmLayout) -> Seq<char> {
    " ["@ + text::dec(bars::capped(scroll + ly.viewport_rows) as nat) + ("/"@ + text::dec(
        ly.total_preview as nat,
    ) + "]"@)
}

/// Draws the line below the preview, with a mark when not all of it is shown.
pub open spec fn line_below(m: Canvas, scroll: int, ly: ConfirmLayout, w: int, theme: Theme) -> Canvas {
    let m = m.push_fg(theme.bar_color());
    (if ly.total_preview > ly.viewport_rows {
        let mark = scroll_mark(scroll, ly);
        m.print(separator(bars::at_least_zero(w - text::byte_len(mark)))).pop_style().push_fg(
            Color::AnsiValue(theme::MUTED),
        ).print(mark).pop_style()
    } else {
        m.print(separator(w)).pop_style()
    }).crlf()
}

impl ConfirmView {
    /// The colour of the title.
    pub open spec fn title_color(self, theme: Theme) -> Color {
        if self.preview is PlanContent {
            Color::AnsiValue(theme::PLAN)
        } else {
            theme.accent_color()
        }
    }

    /// Draws the preview between its lines, or an empty line.
    pub open spec fn middle_drawn(
        self,
        m: Canvas,
        scroll: int,
        ly: ConfirmLayout,
        w: usize,
        env: Env,
    ) -> Canvas {
        if ly.has_preview {
            let m = if preview::has_line_above(self.preview) {
                m.push_fg(env.theme.bar_color()).print(separator(w as int)).pop_style().crlf()
            } else {
                m
            };
            line_below(
                preview::preview_drawn(
                    m,
                    self.preview,
                    scroll as u16,
                    ly.viewport_rows,
                    w,
                    env,
                ),
                scroll,
                ly,
                w as int,
                env.theme,
            )
        } else {
            m.crlf()
        }
    }

    /// Draws what stands above the options.
    #[verifier::opaque]
    pub open spec fn head_drawn(
        self,
        m: Canvas,
        scroll: int,
        ly: ConfirmLayout,
        w: usize,
        env: Env,
    ) -> Canvas {
        let color = self.title_color(env.theme);
        let m = bars::bar_drawn(m, w as int, seq![], seq![], color).crlf();
        let tl = self.title_lines(w as int);
        let m = title_drawn(
            m,
            tl,
            tl.len() as int,
            self.display_name,
            color,
            self.preview is BashBody || self.tool_name == "bash"@,
        ).canvas;
        let sl = self.summary_lines(w as int);
        let m = summary_drawn(m, sl, sl.len() as int);
        self.middle_drawn(m, scroll, ly, w, env).push_dim().print(
            if self.preview is PlanContent {
                " Implement?"@
            } else {
                " Allow?"@
            },
        ).pop_style().crlf()
    }

    /// Rows between the summary and the question.
    pub open spec fn middle_rows(self, ly: ConfirmLayout) -> int {
        if ly.has_preview {
            self.separator_rows() + ly.viewport_rows
        } else {
            1
        }
    }

    /// The row at which the options start, when the dialog starts in `bar`.
    pub open spec fn options_start(self, bar: u16, ly: ConfirmLayout, w: int) -> u16 {
        question::rows16(
            bar + 2 + self.title_lines(w).len() + self.summary_lines(w).len() + self.middle_rows(
                ly,
            ),
        )
    }

    /// Whether only the options have to be drawn: the message is edited, and
    /// what stands above the options stays where it was.
    pub open spec fn partial(self, bar: u16, ly: ConfirmLayout) -> bool {
        &&& self.editing
        &&& self.options_row == question::rows16(
            bar + 2 + ly.title_rows + ly.summary_rows + self.middle_rows(ly),
        )
        &&& self.options_row > 0
        &&& self.options_row >= bar
    }

    /// The row at which the options are drawn.
    pub open spec fn options_at(self, bar: u16, ly: ConfirmLayout, w: int) -> u16 {
        if self.partial(bar, ly) {
            self.options_row
        } else {
            self.options_start(bar, ly, w)
        }
    }
}

// ── The options ──────────────────────────────────────────────────────────

/// Draws the first `n` lines of option `i`, without the end of the last.
pub open spec fn option_lines_drawn(
    m: Canvas,
    ls: Seq<Seq<char>>,
    n: int,
    i: int,
    highlighted: bool,
    accent: Color,
) -> Canvas
    decreases n,
{
    if n <= 0 {
        m
    } else {
        let m = option_lines_drawn(m, ls, n - 1, i, highlighted, accent);
        let num = text::dec((i + 1) as nat);
        let m = if n == 1 {
            if highlighted {
                m.print("  "@).push_dim().print(num + "."@).pop_style().print(" "@)
            } else {
                m.print("  "@).push_dim().print(num + ". "@).pop_style()
            }
        } else {
            m.crlf().print(text::fill(' ', confirm::option_indent(i) as nat))
        };
        if highlighted {
            m.push_fg(accent).print(ls[n - 1]).pop_style()
        } else {
            m.print(ls[n - 1])
        }
    }
}

impl ConfirmView {
    /// Draws the first `n` options, starting in row `row`.
    pub open spec fn options_drawn(
        self,
        m: Canvas,
        n: int,
        row: u16,
        width: u16,
        accent: Color,
    ) -> AreaDrawn
        decreases n,
    {
        if n <= 0 {
            AreaDrawn { canvas: m, row, cursor: None }
        } else {
            let a = self.options_drawn(m, n - 1, row, width, accent);
            let i = n - 1;
            let ls = confirm::option_lines(self.options[i].0, i, width as int);
            let m = option_lines_drawn(
                a.canvas,
                ls,
                ls.len() as int,
                i,
                i == self.selected,
                accent,
            );
            let last = question::rows16(a.row + ls.len() - 1);
            if i == self.selected && self.shows_message() {
                let col = confirm::message_column(self.options[i].0, i, width as int);
                text_area::area_drawn(
                    m,
                    self.area,
                    self.editing,
                    col,
                    screen::rows_minus(width, col) as int,
                    last,
                )
            } else {
                AreaDrawn { canvas: m.crlf(), row: out::rows_plus(last, 1), cursor: a.cursor }
            }
        }
    }

    /// The hint below the options.
    pub open spec fn hint(self, ly: ConfirmLayout, h: Hints) -> Seq<char> {
        if self.editing {
            hints::hint_line(seq![h.send@, h.cancel@])
        } else if !self.area.empty() {
            if ly.total_preview > 0 {
                hints::hint_line(seq![h.confirm_with_msg@, h.edit_msg@, h.scroll@])
            } else {
                hints::hint_line(seq![h.confirm_with_msg@, h.edit_msg@])
            }
        } else if ly.total_preview > 0 {
            hints::hint_line(seq![h.confirm@, h.add_msg@, h.scroll@, h.cancel@])
        } else {
            hints::hint_line(seq![h.confirm@, h.add_msg@, h.cancel@])
        }
    }

    // ── The whole ────────────────────────────────────────────────────────

    /// Where the preview is scrolled to: no further than it goes.
    pub open spec fn kept_scroll(self, ly: ConfirmLayout) -> int {
        table::smaller(
            self.scroll,
            bars::at_least_zero(ly.total_preview - ly.viewport_rows),
        )
    }

    /// The row at which the dialog starts.
    pub open spec fn bar_row(self, start: u16, height: u16, ly: ConfirmLayout) -> u16 {
        list::dialog_start(
            start,
            list::granted_rows(ly.total_rows, height, None),
            height,
            self.anchor,
        )
    }

    /// Draws the dialog.
    pub open spec fn drawn(
        self,
        m: Canvas,
        start: u16,
        width: u16,
        height: u16,
        h: Hints,
        env: Env,
    ) -> Canvas {
        let ly = self.layout(width, height, env);
        let scroll = self.kept_scroll(ly);
        let bar = self.bar_row(start, height, ly);
        let m = list::dialog_begun(
            m,
            start,
            list::granted_rows(ly.total_rows, height, None),
            height,
            self.anchor,
        );
        let row = self.options_at(bar, ly, width as int);
        let m = if self.partial(bar, ly) {
            m.at_row(Some(row)).queue(Command::MoveTo(0, row))
        } else {
            self.head_drawn(m, scroll, ly, width as usize, env)
        };
        let c = self.options_drawn(
            m,
            self.options.len() as int,
            row,
            width,
            env.theme.accent_color(),
        );
        let m = c.canvas.crlf().crlf().push_dim().print(self.hint(ly, h)).pop_style();
        list::dialog_finished(list::cleared_below(m, height), c.cursor, self.editing)
    }

    /// The dialog once it has been drawn.
    pub open spec fn after_draw(
        self,
        start: u16,
        width: u16,
        height: u16,
        env: Env,
    ) -> ConfirmView {
        let ly = self.layout(width, height, env);
        let bar = self.bar_row(start, height, ly);
        ConfirmView {
            dirty: false,
            size: (width, height),
            scroll: self.kept_scroll(ly),
            anchor: Some(bar),
            options_row: self.options_at(bar, ly, width as int),
            ..self
        }
    }
}

impl ConfirmDialog {
    fn draw_title(&self, out: &mut RenderOut, ls: &Vec<String>, color: Color, assets: &Assets)
        ensures
            final(out)@ == title_drawn(
                old(out)@,
                text::texts(ls@),
                ls@.len() as int,
                self@.display_name,
                color,
                self@.preview is BashBody || self@.tool_name == "bash"@,
            ).canvas,
    {
        let body = match self.preview {
            ConfirmPreview::BashBody { .. } => true,
            _ => false,
        };
        let shell = body || same_text(self.tool_name.as_str(), "bash");
        let mut bh = BashHighlighter::new(assets);
        let ghost lv = text::texts(ls@);
        let n: usize = ls.len();
        let mut i: usize = 0;
        while i < n
            invariant
                n == ls@.len(),
                i <= n,
                lv == text::texts(ls@),
                (HeadState { canvas: out@, history: bh.history() }) == title_drawn(
                    old(out)@,
                    lv,
                    i as int,
                    self@.display_name,
                    color,
                    shell,
                ),
            decreases n - i,
        {
            assert(lv[i as int] == ls@[i as int]@);
            out.print(" ");
            if i == 0 {
                out.push_fg(color);
                out.print(self.display_name.as_str());
                out.pop_style();
                out.print(": ");
            }
            if shell {
                bh.print_line(out, ls[i].as_str());
            } else {
                out.print(ls[i].as_str());
            }
            crlf(out);
            i = i + 1;
        }
    }

    fn draw_middle(
        &self,
        out: &mut RenderOut,
        scroll: usize,
        ly: &ConfirmLayout,
        w: usize,
        assets: &Assets,
        env: &Env,
    )
        ensures
            final(out)@ == self@.middle_drawn(old(out)@, scroll as int, *ly, w, *env),
    {
        if !ly.has_preview {
            crlf(out);
            return;
        }
        let bar = theme::bar(&env.theme);
        let line = repeat_char('\u{254c}', w);
        if self.preview.has_top_separator() {
            out.push_fg(bar);
            out.print(line.as_str());
            out.pop_style();
            crlf(out);
        }
        #[verifier::truncate]
        let skip: u16 = scroll as u16;
        self.preview.render(out, skip, ly.viewport_rows, w, assets, env);
        out.push_fg(bar);
        if ly.total_preview > ly.viewport_rows {
            let end: usize = scroll.saturating_add(ly.viewport_rows as usize);
            let tail = cat3("/", number(ly.total_preview as u64).as_str(), "]");
            let mark = cat3(" [", number(end as u64).as_str(), tail.as_str());
            let k: usize = w.saturating_sub(mark.as_str().len());
            let part = repeat_char('\u{254c}', k);
            out.print(part.as_str());
            out.pop_style();
            out.push_fg(theme::muted());
            out.print(mark.as_str());
            out.pop_style();
        } else {
            out.print(line.as_str());
            out.pop_style();
        }
        crlf(out);
    }

    /// Draws what stands above the options; the result is how many lines the
    /// title and the summary have.
    fn draw_head(
        &self,
        out: &mut RenderOut,
        scroll: usize,
        ly: &ConfirmLayout,
        w: usize,
        assets: &Assets,
        env: &Env,
    ) -> (r: (usize, usize))
        ensures
            final(out)@ == self@.head_drawn(old(out)@, scroll as int, *ly, w, *env),
            r.0 == self@.title_lines(w as int).len(),
            r.1 == self@.summary_lines(w as int).len(),
    {
        proof {
            reveal(ConfirmView::head_drawn);
        }
        let plan = match self.preview {
            ConfirmPreview::PlanContent { .. } => true,
            _ => false,
        };
        let color = if plan {
            Color::AnsiValue(theme::PLAN)
        } else {
            theme::accent(&env.theme)
        };
        draw_bar(out, w, None, None, color);
        crlf(out);
        let tl = self.find_title_lines(w);
        assert(text::texts(tl@).len() == tl@.len());
        self.draw_title(out, &tl, color, assets);
        let sl = self.find_summary_lines(w);
        let ghost sv = text::texts(sl@);
        let n: usize = sl.len();
        assert(sv.len() == n);
        let ghost m = out@;
        let mut i: usize = 0;
        while i < n
            invariant
                n == sl@.len(),
                i <= n,
                sv == text::texts(sl@),
                out@ == summary_drawn(m, sv, i as int),
            decreases n - i,
        {
            assert(sv[i as int] == sl@[i as int]@);
            out.print(" ");
            out.push_fg(theme::muted());
            out.print(sl[i].as_str());
            out.pop_style();
            crlf(out);
            i = i + 1;
        }
        self.draw_middle(out, scroll, ly, w, assets, env);
        out.push_dim();
        if plan {
            out.print(" Implement?");
        } else {
            out.print(" Allow?");
        }
        out.pop_style();
        crlf(out);
        (tl.len(), n)
    }

    fn draw_option(&self, out: &mut RenderOut, ls: &Vec<String>, i: usize, accent: Color)
        requires
            i < usize::MAX,
        ensures
            final(out)@ == option_lines_drawn(
                old(out)@,
                text::texts(ls@),
                ls@.len() as int,
                i as int,
                i == self@.selected,
                accent,
            ),
    {
        let highlighted = i == self.selected;
        let num = number(i as u64 + 1);
        let indent = repeat_char(' ', find_indent(i));
        let ghost lv = text::texts(ls@);
        let n: usize = ls.len();
        let mut k: usize = 0;
        while k < n
            invariant
                n == ls@.len(),
                k <= n,
                lv == text::texts(ls@),
                num@ == text::dec((i + 1) as nat),
                indent@ == text::fill(' ', confirm::option_indent(i as int) as nat),
                out@ == option_lines_drawn(
                    old(out)@,
                    lv,
                    k as int,
                    i as int,
                    highlighted,
                    accent,
                ),
            decreases n - k,
        {
            assert(lv[k as int] == ls@[k as int]@);
            if k == 0 {
                out.print("  ");
                out.push_dim();
                if highlighted {
                    out.print(cat(num.as_str(), ".").as_str());
                    out.pop_style();
                    out.print(" ");
                } else {
                    out.print(cat(num.as_str(), ". ").as_str());
                    out.pop_style();
                }
            } else {
                crlf(out);
                out.print(indent.as_str());
            }
            if highlighted {
                out.push_fg(accent);
                out.print(ls[k].as_str());
                out.pop_style();
            } else {
                out.print(ls[k].as_str());
            }
            k = k + 1;
        }
    }

    fn draw_options(&self, out: &mut RenderOut, row: u16, width: u16, accent: Color) -> (r: Option<
        (u16, u16),
    >)
        requires
            self@.wf(),
        ensures
            ({
                let d = self@.options_drawn(
                    old(out)@,
                    self@.options.len() as int,
                    row,
                    width,
                    accent,
                );
                final(out)@ == d.canvas && r == d.cursor
            }),
    {
        let n: usize = self.options.len();
        assert(self@.options.len() == n);
        let shows = self.editing || !self.textarea.is_empty();
        let ghost row0 = row;
        let mut row: u16 = row;
        let mut cursor: Option<(u16, u16)> = None;
        let mut i: usize = 0;
        while i < n
            invariant
                self@.wf(),
                n == self.options@.len(),
                self@.options.len() == n,
                i <= n,
                shows == self@.shows_message(),
                (AreaDrawn { canvas: out@, row, cursor }) == self@.options_drawn(
                    old(out)@,
                    i as int,
                    row0,
                    width,
                    accent,
                ),
            decreases n - i,
        {
            assert(confirm::choices_view(self.options@)[i as int].0 == self.options@[i as int].0@);
            let ls = find_option_lines(self.options[i].0.as_str(), i, width as usize);
            assert(text::texts(ls@).len() == ls@.len());
            self.draw_option(out, &ls, i, accent);
            let k: usize = ls.len();
            let last: u16 = cap_rows((row as usize).saturating_add(k - 1));
            assert(last == question::rows16(row + k - 1));
            if i == self.selected && shows {
                let col: u16 = find_message_column(&ls, i);
                let (r2, c2) = render_inline_textarea(
                    out,
                    &self.textarea,
                    self.editing,
                    col,
                    width.saturating_sub(col) as usize,
                    last,
                );
                row = r2;
                cursor = c2;
            } else {
                crlf(out);
                row = last.saturating_add(1);
            }
            i = i + 1;
        }
        cursor
    }

    fn find_hint(&self, ly: &ConfirmLayout, h: &Hints) -> (r: String)
        ensures
            r@ == self@.hint(*ly, *h),
    {
        if self.editing {
            hints::two(h.send.as_str(), h.cancel.as_str())
        } else if !self.textarea.is_empty() {
            if ly.total_preview > 0 {
                hints::three(
                    h.confirm_with_msg.as_str(),
                    h.edit_msg.as_str(),
                    h.scroll.as_str(),
                )
            } else {
                hints::two(h.confirm_with_msg.as_str(), h.edit_msg.as_str())
            }
        } else if ly.total_preview > 0 {
            hints::four(
                h.confirm.as_str(),
                h.add_msg.as_str(),
                h.scroll.as_str(),
                h.cancel.as_str(),
            )
        } else {
            hints::three(h.confirm.as_str(), h.add_msg.as_str(), h.cancel.as_str())
        }
    }

    fn find_middle_rows(&self, ly: &ConfirmLayout) -> (r: usize)
        ensures
            r == self@.middle_rows(*ly),
            r <= 0x2_0000,
    {
        if ly.has_preview {
            let lines: usize = if self.preview.has_top_separator() {
                2
            } else {
                1
            };
            lines + ly.viewport_rows as usize
        } else {
            1
        }
    }

    /// Draws what stands above the options, where that is needed; the result
    /// is the row at which the options start.
    fn draw_upper(
        &self,
        out: &mut RenderOut,
        bar: u16,
        scroll: usize,
        ly: &ConfirmLayout,
        w: usize,
        assets: &Assets,
        env: &Env,
    ) -> (r: u16)
        ensures
            r == self@.options_at(bar, *ly, w as int),
            final(out)@ == (if self@.partial(bar, *ly) {
                old(out)@.at_row(Some(r)).queue(Command::MoveTo(0, r))
            } else {
                self@.head_drawn(old(out)@, scroll as int, *ly, w, *env)
            }),
    {
        let middle: usize = self.find_middle_rows(ly);
        let expected: u16 = cap_rows(
            bar as usize + 2 + ly.title_rows as usize + ly.summary_rows as usize + middle,
        );
        if self.editing && self.options_row == expected && self.options_row > 0
            && self.options_row >= bar {
            let row: u16 = self.options_row;
            out.set_row(Some(row));
            out.queue(Command::MoveTo(0, row));
            row
        } else {
            let (tn, sn) = self.draw_head(out, scroll, ly, w, assets, env);
            cap_rows((bar as usize + 2 + middle).saturating_add(tn).saturating_add(sn))
        }
    }

    /// Draws the dialog where it has to be drawn.
    pub fn draw(
        &mut self,
        out: &mut RenderOut,
        start_row: u16,
        width: u16,
        height: u16,
        h: &Hints,
        assets: &Assets,
        env: &Env,
    )
        requires
            old(self)@.wf(),
        ensures
            if old(self).dirty {
                &&& final(out)@ == old(self)@.drawn(
                    old(out)@,
                    start_row,
                    width,
                    height,
                    *h,
                    *env,
                )
                &&& final(self)@ == old(self)@.after_draw(start_row, width, height, *env)
            } else {
                *final(self) == *old(self) && final(out)@ == old(out)@
            },
            final(self)@.wf(),
    {
        if !self.dirty {
            return;
        }
        let ly = self.find_layout(width, height, assets, env);
        let most: usize = (ly.total_preview as usize).saturating_sub(ly.viewport_rows as usize);
        let scroll: usize = if self.preview_scroll < most {
            self.preview_scroll
        } else {
            most
        };
        let mut anchor: Option<u16> = self.anchor_row;
        let (bar, _) = begin_dialog_draw(out, start_row, ly.total_rows, height, None, &mut anchor);
        let row: u16 = self.draw_upper(out, bar, scroll, &ly, width as usize, assets, env);
        let cursor: Option<(u16, u16)> = self.draw_options(
            out,
            row,
            width,
            theme::accent(&env.theme),
        );
        crlf(out);
        crlf(out);
        out.push_dim();
        let hint = self.find_hint(&ly, h);
        out.print(hint.as_str());
        out.pop_style();
        clear_below(out, height);
        finish_dialog_frame(out, cursor, self.editing);
        self.dirty = false;
        self.term_size = (width, height);
        self.preview_scroll = scroll;
        self.anchor_row = anchor;
        self.options_row = row;
    }
}

} // verus!
