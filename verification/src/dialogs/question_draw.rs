//! How the dialog that asks questions is drawn.

use vstd::prelude::*;

use crate::dialogs::list;
use crate::dialogs::list::{begin_dialog_draw, clear_below, finish_dialog_frame};
use crate::dialogs::question;
use crate::dialogs::question::{cap_rows, AskView, QuestionDialog};
use crate::dialogs::questions;
use crate::dialogs::questions::{OptionView, Question, QuestionOption, QuestionView};
use crate::dialogs::text_area;
use crate::dialogs::text_area::{render_inline_textarea, AreaDrawn};
use crate::render::bars;
use crate::render::bars::draw_bar;
use crate::render::out::{crlf, Attribute, Canvas, Color, Command, RenderOut};
use crate::render::screen;
use crate::render::wrap;
use crate::render::wrap::wrap_line;
use crate::text;
use crate::text::{cat, cat3, char_count, number, take_chars};
use crate::theme;
use crate::theme::Theme;

verus! {

// ── Rows ─────────────────────────────────────────────────────────────────

/// The column of the user's own answer.
pub open spec fn own_column(q: QuestionView) -> u16 {
    if q.multi_select {
        11
    } else {
        (2 + text::dec((q.options.len() + 1) as nat).len() + 2 + 5 + 2) as u16
    }
}

impl AskView {
    /// Whether the user's own answer is shown.
    pub open spec fn shows_own(self) -> bool {
        self.editing[self.tab] || !self.areas[self.tab].empty()
    }

    /// Columns for the user's own answer.
    pub open spec fn own_width(self, width: u16) -> u16 {
        screen::rows_minus(width, own_column(self.question()))
    }

    /// Rows that the dialog takes.
    pub open spec fn content_rows(self, width: u16) -> u16 {
        let q = self.question();
        let area = self.areas[self.tab];
        let extra = if self.shows_own() {
            screen::rows_minus(
                area.rows(area.lines.len() as int, self.own_width(width) as int),
                1,
            )
        } else {
            0
        };
        let tabs: int = if self.questions.len() > 1 {
            1
        } else {
            0
        };
        let lines = wrap::wrapped(q.question, bars::at_least_zero(width - 1)).len() as u16;
        question::rows16(tabs + lines + (q.options.len() as u16) + extra + 6)
    }
}

fn find_own_column(q: &Question) -> (r: u16)
    requires
        q.options@.len() < usize::MAX,
    ensures
        r == own_column(questions::question_view(*q)),
{
    if q.multi_select {
        11
    } else {
        let n: usize = q.options.len();
        let digits: usize = char_count(number(n as u64 + 1).as_str());
        proof {
            text::lemma_dec_len((n + 1) as nat);
        }
        #[verifier::truncate]
        let col: u16 = (2 + digits + 2 + 5 + 2) as u16;
        col
    }
}

// ── Parts ────────────────────────────────────────────────────────────────

/// Draws a text dimmed.
pub open spec fn dimmed(m: Canvas, t: Seq<char>) -> Canvas {
    m.queue(Command::SetAttribute(Attribute::Dim)).print(t).queue(
        Command::SetAttribute(Attribute::Reset),
    )
}

fn print_dimmed(out: &mut RenderOut, t: &str)
    ensures
        final(out)@ == dimmed(old(out)@, t@),
{
    out.queue(Command::SetAttribute(Attribute::Dim));
    out.print(t);
    out.queue(Command::SetAttribute(Attribute::Reset));
}

/// Draws a text in a colour.
pub open spec fn in_color(m: Canvas, t: Seq<char>, color: Color) -> Canvas {
    m.queue(Command::SetForegroundColor(color)).print(t).queue(Command::ResetColor)
}

fn print_colored(out: &mut RenderOut, t: &str, color: Color)
    ensures
        final(out)@ == in_color(old(out)@, t@, color),
{
    out.queue(Command::SetForegroundColor(color));
    out.print(t);
    out.queue(Command::ResetColor);
}

/// The sign of a question: filled once the user has seen it.
pub open spec fn tab_sign(done: bool) -> Seq<char> {
    if done {
        "\u{25a0}"@
    } else {
        "\u{25a1}"@
    }
}

/// Draws the first `n` tabs.
pub open spec fn tabs_drawn(m: Canvas, s: AskView, n: int, accent: Color) -> Canvas
    decreases n,
{
    if n <= 0 {
        m
    } else {
        let m = tabs_drawn(m, s, n - 1, accent);
        let i = n - 1;
        let sign = tab_sign(s.answered[i] || s.visited[i]);
        let header = s.questions[i].header;
        let both = " "@ + sign + (" "@ + header + " "@);
        if i == s.tab {
            m.queue(Command::SetForegroundColor(accent)).queue(
                Command::SetAttribute(Attribute::Bold),
            ).print(both).queue(Command::SetAttribute(Attribute::Reset)).queue(
                Command::ResetColor,
            )
        } else if s.answered[i] {
            dimmed(
                in_color(m, " "@ + sign, Color::AnsiValue(theme::SUCCESS)),
                " "@ + header + " "@,
            )
        } else {
            dimmed(m, both)
        }
    }
}

/// Draws the first `n` lines of a question, the note `suffix` behind the
/// first.
pub open spec fn question_lines(m: Canvas, ls: Seq<Seq<char>>, n: int, suffix: Seq<char>) -> Canvas
    decreases n,
{
    if n <= 0 {
        m
    } else {
        let m = question_lines(m, ls, n - 1, suffix).print(" "@).queue(
            Command::SetAttribute(Attribute::Bold),
        ).print(ls[n - 1]).queue(Command::SetAttribute(Attribute::Reset));
        (if n == 1 && suffix.len() > 0 {
            dimmed(m, suffix)
        } else {
            m
        }).crlf()
    }
}

/// The sign of an option of which several can be chosen.
pub open spec fn check_sign(on: bool) -> Seq<char> {
    if on {
        "\u{25c9}"@
    } else {
        "\u{25cb}"@
    }
}

fn check_mark(on: bool) -> (r: &'static str)
    ensures
        r@ == check_sign(on),
{
    if on {
        "\u{25c9}"
    } else {
        "\u{25cb}"
    }
}

/// Draws option `i` of the question that is shown, without its description.
pub open spec fn option_label(
    m: Canvas,
    label: Seq<char>,
    i: int,
    current: bool,
    on: bool,
    multi: bool,
    accent: Color,
) -> Canvas {
    let m = m.print("  "@);
    if multi {
        let sign = check_sign(on) + " "@;
        if current {
            m.queue(Command::SetForegroundColor(accent)).print(sign).print(label).queue(
                Command::ResetColor,
            )
        } else {
            dimmed(m, sign).print(label)
        }
    } else {
        let m = dimmed(m, text::dec((i + 1) as nat) + "."@).print(" "@);
        if current {
            in_color(m, label, accent)
        } else {
            m.print(label)
        }
    }
}

fn draw_option_label(
    out: &mut RenderOut,
    label: &str,
    i: usize,
    current: bool,
    on: bool,
    multi: bool,
    accent: Color,
)
    requires
        i < usize::MAX,
    ensures
        final(out)@ == option_label(old(out)@, label@, i as int, current, on, multi, accent),
{
    out.print("  ");
    if multi {
        let sign = cat(check_mark(on), " ");
        if current {
            out.queue(Command::SetForegroundColor(accent));
            out.print(sign.as_str());
            out.print(label);
            out.queue(Command::ResetColor);
        } else {
            print_dimmed(out, sign.as_str());
            out.print(label);
        }
    } else {
        let num = cat(number(i as u64 + 1).as_str(), ".");
        print_dimmed(out, num.as_str());
        out.print(" ");
        if current {
            print_colored(out, label, accent);
        } else {
            out.print(label);
        }
    }
}

/// Characters before the label of option `i`.
pub open spec fn label_column(i: int, multi: bool) -> int {
    if multi {
        4
    } else {
        2int + (text::dec((i + 1) as nat) + "."@).len() + 1
    }
}

/// Draws an option.
pub open spec fn option_drawn(
    m: Canvas,
    o: OptionView,
    i: int,
    current: bool,
    on: bool,
    multi: bool,
    w: int,
    accent: Color,
) -> Canvas {
    let m = option_label(m, o.label, i, current, on, multi, accent);
    let left = bars::at_least_zero(
        w - bars::capped(bars::capped(label_column(i, multi) + o.label.len()) + 2),
    );
    (if current && o.description.len() > 0 && left > 3 {
        dimmed(m, "  "@ + text::first_chars(o.description, left))
    } else {
        m
    }).crlf()
}

/// Draws the first `n` options of the question that is shown.
pub open spec fn options_drawn(m: Canvas, s: AskView, n: int, w: int, accent: Color) -> Canvas
    decreases n,
{
    if n <= 0 {
        m
    } else {
        option_drawn(
            options_drawn(m, s, n - 1, w, accent),
            s.question().options[n - 1],
            n - 1,
            s.selections[s.tab] == n - 1,
            s.question().multi_select && s.toggles[s.tab][n - 1],
            s.question().multi_select,
            w,
            accent,
        )
    }
}

fn draw_option(
    out: &mut RenderOut,
    o: &QuestionOption,
    i: usize,
    current: bool,
    on: bool,
    multi: bool,
    w: usize,
    accent: Color,
)
    requires
        i < usize::MAX,
    ensures
        final(out)@ == option_drawn(
            old(out)@,
            questions::option_view(*o),
            i as int,
            current,
            on,
            multi,
            w as int,
            accent,
        ),
{
    draw_option_label(out, o.label.as_str(), i, current, on, multi, accent);
    if current && char_count(o.description.as_str()) > 0 {
        let column: usize = if multi {
            4
        } else {
            let num = cat(number(i as u64 + 1).as_str(), ".");
            proof {
                text::lemma_dec_len((i + 1) as nat);
                reveal_strlit(".");
            }
            2 + char_count(num.as_str()) + 1
        };
        let used: usize = column.saturating_add(
            char_count(o.label.as_str()),
        ).saturating_add(2);
        let left: usize = w.saturating_sub(used);
        if left > 3 {
            let d = take_chars(o.description.as_str(), left);
            print_dimmed(out, cat("  ", d.as_str()).as_str());
        }
    }
    crlf(out);
}

/// Draws the user's own answer, without its text.
pub open spec fn own_label(m: Canvas, s: AskView, accent: Color) -> Canvas {
    let k = s.other();
    let current = s.selections[s.tab] == k;
    let m = m.print("  "@);
    if s.question().multi_select {
        let sign = check_sign(s.toggles[s.tab][k]);
        if current {
            in_color(m, sign + " Other"@, accent)
        } else {
            dimmed(m, sign + " "@).print("Other"@)
        }
    } else {
        let m = dimmed(m, text::dec((k + 1) as nat) + "."@).print(" "@);
        if current {
            in_color(m, "Other"@, accent)
        } else {
            m.print("Other"@)
        }
    }
}

/// The hint below the options.
pub open spec fn ask_hint(editing: bool, tabs: bool) -> Seq<char> {
    if editing {
        " esc: done  enter: newline"@
    } else if tabs {
        " tab: next question  enter: confirm"@
    } else {
        " enter: confirm"@
    }
}

/// The note behind a question.
pub open spec fn ask_note(multi: bool) -> Seq<char> {
    if multi {
        " (space to toggle)"@
    } else {
        ""@
    }
}

// ── The whole ────────────────────────────────────────────────────────────

impl AskView {
    /// The lines of the question that is shown.
    pub open spec fn question_text(self, w: int) -> Seq<Seq<char>> {
        let q = self.question();
        wrap::wrapped(
            q.question,
            bars::at_least_zero(w - 1 - ask_note(q.multi_select).len()),
        )
    }

    /// Draws the head: the bar, the tabs and the question.
    #[verifier::opaque]
    pub open spec fn head_drawn(self, m: Canvas, w: int, accent: Color) -> Canvas {
        let m = bars::bar_drawn(m, w, seq![], seq![], accent).crlf();
        let m = if self.questions.len() > 1 {
            tabs_drawn(m.print(" "@), self, self.questions.len() as int, accent).crlf()
        } else {
            m
        };
        let ls = self.question_text(w);
        question_lines(
            m.crlf(),
            ls,
            ls.len() as int,
            ask_note(self.question().multi_select),
        ).crlf()
    }

    /// The row of the user's own answer.
    pub open spec fn own_row(self, start: u16, w: int) -> u16 {
        let tabs: int = if self.questions.len() > 1 {
            1
        } else {
            0
        };
        question::rows16(start + 3 + tabs + self.question_text(w).len() + self.other())
    }

    /// Draws the options, and the user's own answer.
    #[verifier::opaque]
    pub open spec fn choices_drawn(self, m: Canvas, start: u16, width: u16, accent: Color) -> AreaDrawn {
        let m = own_label(
            options_drawn(m, self, self.other(), width as int, accent),
            self,
            accent,
        );
        if self.shows_own() {
            text_area::area_drawn(
                m,
                self.areas[self.tab],
                self.editing[self.tab],
                own_column(self.question()),
                self.own_width(width) as int,
                self.own_row(start, width as int),
            )
        } else {
            AreaDrawn { canvas: m.crlf(), row: 0, cursor: None }
        }
    }

    /// The row at which the dialog starts.
    pub open spec fn bar_row(self, start: u16, width: u16, height: u16) -> u16 {
        list::dialog_start(
            start,
            list::granted_rows(self.content_rows(width), height, None),
            height,
            self.anchor,
        )
    }

    /// Draws the dialog.
    pub open spec fn drawn(self, m: Canvas, start: u16, width: u16, height: u16, theme: Theme) -> Canvas {
        let accent = theme.accent_color();
        let m = list::dialog_begun(
            m,
            start,
            list::granted_rows(self.content_rows(width), height, None),
            height,
            self.anchor,
        );
        let m = self.head_drawn(m, width as int, accent);
        let c = self.choices_drawn(m, self.bar_row(start, width, height), width, accent);
        let m = dimmed(
            c.canvas.crlf(),
            ask_hint(self.editing[self.tab], self.questions.len() > 1),
        );
        list::dialog_finished(
            list::cleared_below(m, height),
            c.cursor,
            self.editing[self.tab],
        )
    }
}

impl QuestionDialog {
    fn shown_question(&self) -> (r: &Question)
        requires
            self.ready(),
        ensures
            questions::question_view(*r) == self@.question(),
            r.options@.len() < usize::MAX,
    {
        let ghost qs = self.questions@;
        assert(questions::questions_view(qs)[self.active_tab as int]
            == questions::question_view(qs[self.active_tab as int]));
        assert(self@.questions[self.active_tab as int].options.len() < usize::MAX);
        &self.questions[self.active_tab]
    }

    fn content_rows(&self, width: u16) -> (r: u16)
        requires
            self.ready(),
        ensures
            r == self@.content_rows(width),
    {
        let q = self.shown_question();
        let tab: usize = self.active_tab;
        assert(areas_view_at(self.other_areas@, tab as int));
        let area = &self.other_areas[tab];
        let extra: u16 = if self.editing_other[tab] || !area.is_empty() {
            let w: u16 = width.saturating_sub(find_own_column(q));
            area.visual_row_count(w as usize).saturating_sub(1)
        } else {
            0
        };
        let tabs: usize = if self.has_tabs {
            1
        } else {
            0
        };
        let ls = wrap_line(q.question.as_str(), (width as usize).saturating_sub(1));
        let k: usize = ls.len();
        assert(text::texts(ls@).len() == k);
        #[verifier::truncate]
        let lines: u16 = k as u16;
        let n: usize = q.options.len();
        #[verifier::truncate]
        let options: u16 = n as u16;
        cap_rows(tabs + lines as usize + options as usize + extra as usize + 6)
    }

    pub fn height(&self, width: u16) -> (r: u16)
        requires
            self.ready(),
        ensures
            r == self@.content_rows(width),
    {
        self.content_rows(width)
    }

    fn draw_tabs(&self, out: &mut RenderOut, accent: Color)
        requires
            self.ready(),
        ensures
            final(out)@ == tabs_drawn(
                old(out)@,
                self@,
                self@.questions.len() as int,
                accent,
            ),
    {
        let n: usize = self.questions.len();
        let ghost qs = self.questions@;
        assert(questions::questions_view(qs).len() == n);
        let mut i: usize = 0;
        while i < n
            invariant
                self.ready(),
                n == self.questions@.len(),
                i <= n,
                qs == self.questions@,
                out@ == tabs_drawn(old(out)@, self@, i as int, accent),
            decreases n - i,
        {
            assert(questions::questions_view(qs)[i as int] == questions::question_view(
                qs[i as int],
            ));
            let sign: &str = if self.answered[i] || self.visited[i] {
                "\u{25a0}"
            } else {
                "\u{25a1}"
            };
            let header = cat3(" ", self.questions[i].header.as_str(), " ");
            let both = cat3(" ", sign, header.as_str());
            if i == self.active_tab {
                out.queue(Command::SetForegroundColor(accent));
                out.queue(Command::SetAttribute(Attribute::Bold));
                out.print(both.as_str());
                out.queue(Command::SetAttribute(Attribute::Reset));
                out.queue(Command::ResetColor);
            } else if self.answered[i] {
                print_colored(out, cat(" ", sign).as_str(), Color::AnsiValue(theme::SUCCESS));
                print_dimmed(out, header.as_str());
            } else {
                print_dimmed(out, both.as_str());
            }
            i = i + 1;
        }
    }

    fn draw_head(&self, out: &mut RenderOut, w: usize, accent: Color) -> (r: usize)
        requires
            self.ready(),
        ensures
            final(out)@ == self@.head_drawn(old(out)@, w as int, accent),
            r == self@.question_text(w as int).len(),
    {
        proof {
            reveal(AskView::head_drawn);
            reveal_strlit(" (space to toggle)");
            reveal_strlit("");
        }
        draw_bar(out, w, None, None, accent);
        crlf(out);
        if self.has_tabs {
            out.print(" ");
            self.draw_tabs(out, accent);
            crlf(out);
        }
        crlf(out);
        let q = self.shown_question();
        let suffix: &str = if q.multi_select {
            " (space to toggle)"
        } else {
            ""
        };
        let used: usize = if q.multi_select {
            19
        } else {
            1
        };
        let ls = wrap_line(q.question.as_str(), w.saturating_sub(used));
        let ghost lv = text::texts(ls@);
        let n: usize = ls.len();
        assert(lv.len() == n);
        assert(lv == self@.question_text(w as int));
        let ghost m = out@;
        let mut i: usize = 0;
        while i < n
            invariant
                n == ls@.len(),
                i <= n,
                lv == text::texts(ls@),
                out@ == question_lines(m, lv, i as int, suffix@),
            decreases n - i,
        {
            assert(lv[i as int] == ls@[i as int]@);
            out.print(" ");
            out.queue(Command::SetAttribute(Attribute::Bold));
            out.print(ls[i].as_str());
            out.queue(Command::SetAttribute(Attribute::Reset));
            if i == 0 && char_count(suffix) > 0 {
                print_dimmed(out, suffix);
            }
            crlf(out);
            i = i + 1;
        }
        crlf(out);
        n
    }

    fn draw_own_label(&self, out: &mut RenderOut, accent: Color)
        requires
            self.ready(),
        ensures
            final(out)@ == own_label(old(out)@, self@, accent),
    {
        let q = self.shown_question();
        let tab: usize = self.active_tab;
        let k: usize = q.options.len();
        assert(question::marks_view(self.multi_toggles@)[tab as int]
            == self.multi_toggles@[tab as int]@);
        assert(self@.toggles[tab as int].len() == k + 1);
        let current = self.selections[tab] == k;
        out.print("  ");
        if q.multi_select {
            let sign = check_mark(self.multi_toggles[tab][k]);
            if current {
                print_colored(out, cat(sign, " Other").as_str(), accent);
            } else {
                print_dimmed(out, cat(sign, " ").as_str());
                out.print("Other");
            }
        } else {
            print_dimmed(out, cat(number(k as u64 + 1).as_str(), ".").as_str());
            out.print(" ");
            if current {
                print_colored(out, "Other", accent);
            } else {
                out.print("Other");
            }
        }
    }

    fn draw_choices(
        &self,
        out: &mut RenderOut,
        start: u16,
        lines: usize,
        width: u16,
        accent: Color,
    ) -> (r: Option<(u16, u16)>)
        requires
            self.ready(),
            lines == self@.question_text(width as int).len(),
        ensures
            ({
                let c = self@.choices_drawn(old(out)@, start, width, accent);
                final(out)@ == c.canvas && r == c.cursor
            }),
    {
        proof {
            reveal(AskView::choices_drawn);
        }
        let q = self.shown_question();
        let tab: usize = self.active_tab;
        let w: usize = width as usize;
        let n: usize = q.options.len();
        let multi = q.multi_select;
        let ghost os = questions::options_view(q.options@);
        let mut i: usize = 0;
        while i < n
            invariant
                self.ready(),
                n == q.options@.len(),
                n < usize::MAX,
                i <= n,
                w == width,
                tab == self.active_tab,
                questions::question_view(*q) == self@.question(),
                multi == q.multi_select,
                os == questions::options_view(q.options@),
                out@ == options_drawn(old(out)@, self@, i as int, w as int, accent),
            decreases n - i,
        {
            assert(os[i as int] == questions::option_view(q.options@[i as int]));
            assert(question::marks_view(self.multi_toggles@)[tab as int]
                == self.multi_toggles@[tab as int]@);
            assert(self@.toggles[tab as int].len() == self@.questions[tab as int].options.len()
                + 1);
            let on = multi && self.multi_toggles[tab][i];
            draw_option(
                out,
                &q.options[i],
                i,
                self.selections[tab] == i,
                on,
                multi,
                w,
                accent,
            );
            i = i + 1;
        }
        self.draw_own_label(out, accent);
        assert(areas_view_at(self.other_areas@, tab as int));
        assert(self@.areas[tab as int].wf());
        let area = &self.other_areas[tab];
        let editing = self.editing_other[tab];
        if editing || !area.is_empty() {
            let col: u16 = find_own_column(q);
            let tabs: usize = if self.has_tabs {
                1
            } else {
                0
            };
            let row: u16 = cap_rows(
                (start as usize + 3 + tabs).saturating_add(lines).saturating_add(n),
            );
            assert(row == self@.own_row(start, width as int));
            let (_, cursor) = render_inline_textarea(
                out,
                area,
                editing,
                col,
                width.saturating_sub(col) as usize,
                row,
            );
            cursor
        } else {
            crlf(out);
            None
        }
    }

    /// Draws the dialog where it has to be drawn.
    pub fn draw(&mut self, out: &mut RenderOut, start_row: u16, width: u16, height: u16, theme: &Theme)
        requires
            old(self).ready(),
        ensures
            if old(self).dirty {
                &&& final(out)@ == old(self)@.drawn(old(out)@, start_row, width, height, *theme)
                &&& *final(self) == (QuestionDialog {
                    dirty: false,
                    anchor_row: Some(old(self)@.bar_row(start_row, width, height)),
                    ..*old(self)
                })
            } else {
                *final(self) == *old(self) && final(out)@ == old(out)@
            },
            final(self).ready(),
    {
        if !self.dirty {
            return;
        }
        let accent = theme::accent(theme);
        let rows: u16 = self.content_rows(width);
        let mut anchor: Option<u16> = self.anchor_row;
        let (bar, _) = begin_dialog_draw(out, start_row, rows, height, None, &mut anchor);
        let lines: usize = self.draw_head(out, width as usize, accent);
        let cursor: Option<(u16, u16)> = self.draw_choices(out, bar, lines, width, accent);
        crlf(out);
        let editing = self.editing_other[self.active_tab];
        if editing {
            print_dimmed(out, " esc: done  enter: newline");
        } else if self.has_tabs {
            print_dimmed(out, " tab: next question  enter: confirm");
        } else {
            print_dimmed(out, " enter: confirm");
        }
        clear_below(out, height);
        finish_dialog_frame(out, cursor, editing);
        self.dirty = false;
        self.anchor_row = anchor;
    }
}

/// A text that is edited, among the texts.
pub open spec fn areas_view_at(v: Seq<text_area::TextArea>, i: int) -> bool {
    0 <= i < v.len() ==> question::areas_view(v)[i] == v[i]@
}

} // verus!
