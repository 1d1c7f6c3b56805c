//! The prompt: what stands above the input, the input, and what stands
//! below it.

use vstd::prelude::*;

use crate::hints::Hints;
use crate::render::bars;
use crate::render::bars::{draw_bar, push_bar, BarSpan};
use crate::render::completions;
use crate::render::completions::{completion_reserved_rows, draw_completions, draw_menu};
use crate::render::highlight::Assets;
use crate::render::input;
use crate::render::input::{
    draw_input_lines, find_kind, fit_rows, scroll_offset, InputKind, InputLook, PromptInput,
    ScrollBar,
};
use crate::render::out;
use crate::render::out::{Canvas, ClearType, Color, Command, RenderOut};
use crate::render::prompt;
use crate::render::prompt::{
    end_line, render_btw, render_notification, render_queued, render_stash, BtwBlock, BtwView,
};
use crate::render::screen;
use crate::render::screen::{
    reasoning_color, Mode, PromptState, ReasoningEffort, Screen, Term,
};
use crate::render::spans;
use crate::render::spans::{
    build_char_kinds, build_display_spans, map_cursor, spans_to_string, Span,
};
use crate::render::status;
use crate::render::styled;
use crate::render::styled::{one_of, Env};
use crate::render::table;
use crate::render::tools;
use crate::render::wrap;
use crate::render::wrap::{
    compute_visual_line_offsets, wrap_and_locate_cursor, SpanKind, VisualLine,
};
use crate::render::wrap_laws;
use crate::text;
use crate::text::{cat, cat3, char_count, first_line_or, number, take_chars, trim};
use crate::theme;
use crate::theme::Theme;

verus! {

/// What a frame shows in the prompt.
pub struct FramePrompt<'a> {
    pub state: &'a PromptInput,
    pub mode: Mode,
    pub queued: &'a Vec<String>,
    pub prediction: Option<&'a str>,
    /// The tokens of the context, in words.
    pub tokens: &'a str,
    /// How much of the context window they fill, in percent.
    pub percent: u32,
    /// What the session has cost, in words, once it has cost something.
    pub cost: Option<&'a str>,
    pub hints: &'a Hints,
    pub bar: ScrollBar,
}

// ── Above the input ──────────────────────────────────────────────────────

/// A side question, as it is shown.
pub open spec fn btw_view(b: Option<BtwBlock>) -> Option<BtwView> {
    match b {
        Some(x) => Some(x@),
        None => None,
    }
}

/// What is drawn above the input.
pub struct Above {
    pub canvas: Canvas,
    pub notification: u16,
    pub queued: u16,
    pub stash: u16,
    pub btw: u16,
    pub question: Option<BtwView>,
}

impl Above {
    /// Rows above the input.
    pub open spec fn extra(self) -> u16 {
        out::rows_plus(
            out::rows_plus(out::rows_plus(self.notification, self.queued), self.stash),
            self.btw,
        )
    }

    /// Rows that are taken whatever the input holds; `reserve` is kept for
    /// the status line.
    pub open spec fn fixed(self, reserve: int) -> int {
        self.notification + self.stash + self.queued + 2 + reserve
    }
}

impl Screen {
    /// Draws what stands above the input.
    #[verifier::opaque]
    pub open spec fn above(
        self,
        m: Canvas,
        p: FramePrompt,
        usable: usize,
        height: int,
        env: Env,
    ) -> Above {
        let n = prompt::notification_drawn(m, self.notification, usable as int);
        let q = prompt::queued_drawn(
            out::drawn(n.canvas),
            text::texts(p.queued@),
            p.queued@.len() as int,
            usable as int,
            env,
        );
        let s = prompt::stash_drawn(q.canvas, p.state.stashed, usable as int);
        let (b, question) = match self.btw {
            Some(x) => {
                let lines = tools::at_least_one(prompt::btw_room(height));
                let y = prompt::btw_wrapped(x@, usable, lines, env);
                (prompt::btw_drawn(s.canvas, y, usable as int, lines, *p.hints, env), Some(y))
            },
            None => (out::drawn(s.canvas), None),
        };
        Above {
            canvas: b.canvas,
            notification: n.rows,
            queued: q.rows,
            stash: s.rows,
            btw: b.rows,
            question,
        }
    }

    fn draw_above(
        &mut self,
        out: &mut RenderOut,
        assets: &Assets,
        p: &FramePrompt,
        usable: usize,
        height: usize,
        env: &Env,
    ) -> (r: (u16, u16, u16, u16))
        ensures
            ({
                let a = old(self).above(old(out)@, *p, usable, height as int, *env);
                &&& final(out)@ == a.canvas
                &&& r == (a.notification, a.queued, a.stash, a.btw)
                &&& btw_view(final(self).btw) == a.question
                &&& *final(self) == (Screen { btw: final(self).btw, ..*old(self) })
            }),
    {
        proof {
            reveal(Screen::above);
        }
        let n: u16 = render_notification(out, &self.notification, usable);
        let q: u16 = render_queued(out, p.queued, usable, env);
        let s: u16 = render_stash(out, p.state.stashed, usable);
        let b: u16 = match self.btw.take() {
            Some(x) => {
                let mut x = x;
                let max: usize = (height / 2).saturating_sub(4);
                let rows: u16 = render_btw(out, assets, &mut x, usable, max, p.hints, env);
                self.btw = Some(x);
                rows
            },
            None => 0,
        };
        (n, q, s, b)
    }

    // ── The bar above the input ──────────────────────────────────────────

    /// The model, with the effort of its reasoning.
    pub open spec fn model_spans(self, theme: Theme) -> Seq<BarSpan<Seq<char>>> {
        match self.model_label {
            Some(l) => {
                let m = seq![
                    bars::bar_span(" "@ + l@, Color::AnsiValue(theme::MUTED), false, false, 2),
                ];
                if self.reasoning_effort == ReasoningEffort::Off {
                    m
                } else {
                    m.push(
                        bars::bar_span(
                            " "@ + effort_name(self.reasoning_effort),
                            screen::effort_color(self.reasoning_effort, theme),
                            false,
                            false,
                            2,
                        ),
                    )
                }
            },
            None => seq![],
        }
    }

    /// The text on the context's tokens.
    pub open spec fn token_text(self, p: FramePrompt) -> Seq<char> {
        match self.context_window {
            Some(w) => if w > 0 {
                " "@ + (p.tokens@ + " ("@ + text::dec(p.percent as nat)) + "%)"@
            } else {
                " "@ + p.tokens@
            },
            None => " "@ + p.tokens@,
        }
    }

    /// The spans at the right of the bar above the input.
    pub open spec fn right_spans(self, p: FramePrompt, theme: Theme) -> Seq<
        BarSpan<Seq<char>>,
    > {
        let v = self.model_spans(theme);
        let v = if self.settings.show_tokens && self.context_tokens is Some {
            next_number(v, self.token_text(p), theme)
        } else {
            v
        };
        if self.settings.show_cost && p.cost is Some {
            next_number(v, " "@ + p.cost->0@, theme)
        } else {
            v
        }
    }

    fn find_right_spans(&self, p: &FramePrompt, theme: &Theme) -> (r: Vec<BarSpan<String>>)
        ensures
            bars::bars_view(r@) == self.right_spans(*p, *theme),
    {
        let mut v: Vec<BarSpan<String>> = Vec::new();
        assert(bars::bars_view(v@) =~= Seq::<BarSpan<Seq<char>>>::empty());
        match &self.model_label {
            Some(l) => {
                push_bar(&mut v, cat(" ", l.as_str()), theme::muted(), false, false, 2);
                if self.reasoning_effort != ReasoningEffort::Off {
                    push_bar(
                        &mut v,
                        cat(" ", effort_label(self.reasoning_effort)),
                        reasoning_color(self.reasoning_effort, theme),
                        false,
                        false,
                        2,
                    );
                }
            },
            None => {},
        }
        assert(bars::bars_view(v@) =~= self.model_spans(*theme));
        if self.settings.show_tokens && self.context_tokens.is_some() {
            let t: String = match self.context_window {
                Some(w) => if w > 0 {
                    let k = cat3(p.tokens, " (", number(p.percent as u64).as_str());
                    cat3(" ", k.as_str(), "%)")
                } else {
                    cat(" ", p.tokens)
                },
                None => cat(" ", p.tokens),
            };
            push_number(&mut v, t, theme);
        }
        if self.settings.show_cost {
            match p.cost {
                Some(c) => {
                    push_number(&mut v, cat(" ", c), theme);
                },
                None => {},
            }
        }
        v
    }
}

impl Screen {
    /// Draws the bar above the input.
    #[verifier::opaque]
    pub open spec fn top_bar(self, m: Canvas, p: FramePrompt, width: int, theme: Theme) -> Canvas {
        bars::bar_drawn(m, width, seq![], self.right_spans(p, theme), theme.bar_color()).print(
            "\r\n"@,
        )
    }

    fn draw_top_bar(&self, out: &mut RenderOut, p: &FramePrompt, width: usize, theme: &Theme)
        ensures
            final(out)@ == self.top_bar(old(out)@, *p, width as int, *theme),
    {
        proof {
            reveal(Screen::top_bar);
        }
        let right = self.find_right_spans(p, theme);
        assert(bars::bars_view(right@).len() == right@.len());
        if right.len() == 0 {
            assert(bars::bars_view(right@) =~= seq![]);
            draw_bar(out, width, None, None, theme::bar(theme));
        } else {
            draw_bar(out, width, None, Some(&right), theme::bar(theme));
        }
        out.print("\r\n");
    }
}

/// The name of an effort.
pub open spec fn effort_name(e: ReasoningEffort) -> Seq<char> {
    match e {
        ReasoningEffort::Off => "off"@,
        ReasoningEffort::Low => "low"@,
        ReasoningEffort::Medium => "medium"@,
        ReasoningEffort::High => "high"@,
        ReasoningEffort::Max => "max"@,
    }
}

/// The name of an effort.
pub fn effort_label(e: ReasoningEffort) -> (r: &'static str)
    ensures
        r@ == effort_name(e),
{
    match e {
        ReasoningEffort::Off => "off",
        ReasoningEffort::Low => "low",
        ReasoningEffort::Medium => "medium",
        ReasoningEffort::High => "high",
        ReasoningEffort::Max => "max",
    }
}

/// A number behind the spans, set off by a dot.
pub open spec fn next_number(v: Seq<BarSpan<Seq<char>>>, t: Seq<char>, theme: Theme) -> Seq<
    BarSpan<Seq<char>>,
> {
    let v = if v.len() > 0 {
        v.push(bars::bar_span(" ·"@, theme.bar_color(), false, false, 2))
    } else {
        v
    };
    v.push(bars::bar_span(t, Color::AnsiValue(theme::MUTED), false, false, 1))
}

fn push_number(v: &mut Vec<BarSpan<String>>, t: String, theme: &Theme)
    ensures
        bars::bars_view(final(v)@) == next_number(bars::bars_view(old(v)@), t@, *theme),
{
    assert(bars::bars_view(v@).len() == v@.len());
    if v.len() > 0 {
        push_bar(v, " ·".to_owned(), theme::bar(theme), false, false, 2);
    }
    push_bar(v, t, theme::muted(), false, false, 1);
}

// ── The input ────────────────────────────────────────────────────────────

/// The input as it is shown, in spans.
pub open spec fn input_spans(s: PromptInput, paths: Seq<String>) -> Seq<Span<Seq<char>>> {
    spans::display_spans(s.buf@, text::texts(s.labels@), paths)
}

/// The lines of the input.
pub open spec fn input_layout(s: PromptInput, usable: usize, paths: Seq<String>) -> Seq<
    VisualLine,
> {
    let v = input_spans(s, paths);
    wrap::visual_layout(
        spans::spans_text(v, v.len() as int),
        spans::spans_kinds(v, v.len() as int),
        usable,
    )
}

/// A position of the input, in what is shown.
pub open spec fn shown_position(s: PromptInput, raw: usize, paths: Seq<String>) -> int {
    spans::shown_cursor(input_spans(s, paths), 0, 0, 0, raw as int)
}

/// What is selected, in what is shown.
pub open spec fn shown_selection(s: PromptInput, paths: Seq<String>) -> Option<(usize, usize)> {
    match s.selection {
        Some((a, b)) => Some(
            (shown_position(s, a, paths) as usize, shown_position(s, b, paths) as usize),
        ),
        None => None,
    }
}

/// Where the cursor is: its line and its column.
pub open spec fn input_cursor(s: PromptInput, usable: usize, paths: Seq<String>) -> (int, int) {
    wrap::cursor_in(input_layout(s, usable, paths), shown_position(s, s.cursor, paths))
}

/// The input in lines.
struct Laid {
    lines: Vec<(String, Vec<SpanKind>)>,
    offsets: Vec<usize>,
    cursor_line: usize,
    cursor_col: usize,
    sel: Option<(usize, usize)>,
}

impl Laid {
    spec fn is(self, s: PromptInput, usable: usize, paths: Seq<String>) -> bool {
        let ls = input_layout(s, usable, paths);
        &&& wrap::shows_layout(self.lines@, ls)
        &&& (self.cursor_line as int, self.cursor_col as int) == input_cursor(s, usable, paths)
        &&& self.sel == shown_selection(s, paths)
        &&& self.cursor_line < self.lines@.len()
        &&& self.offsets@.len() == self.lines@.len()
        &&& forall|i: int| 0 <= i < ls.len() ==> #[trigger] self.offsets@[i] == ls[i].start
        &&& forall|i: int|
            0 <= i < ls.len() ==> (#[trigger] ls[i]).kinds.len() == ls[i].text.len()
        &&& forall|i: int|
            0 <= i < ls.len() ==> (#[trigger] ls[i]).start + ls[i].text.len() <= usize::MAX
    }
}

fn lay_out(s: &PromptInput, usable: usize, paths: &Vec<String>) -> (r: Laid)
    ensures
        r.is(*s, usable, paths@),
{
    let sp = build_display_spans(s.buf.as_str(), &s.labels, paths);
    let shown = spans_to_string(&sp);
    let kinds = build_char_kinds(&sp);
    let cursor: usize = map_cursor(s.cursor, &sp);
    let sel: Option<(usize, usize)> = match s.selection {
        Some((a, b)) => Some((map_cursor(a, &sp), map_cursor(b, &sp))),
        None => None,
    };
    let total: usize = char_count(shown.as_str());
    let (lines, cursor_line, cursor_col) = wrap_and_locate_cursor(
        shown.as_str(),
        &kinds,
        cursor,
        usable,
    );
    let offsets = compute_visual_line_offsets(shown.as_str(), &lines);
    let ghost ls = input_layout(*s, usable, paths@);
    proof {
        let v = input_spans(*s, paths@);
        assert(v.len() == sp@.len());
        assert(ls == wrap::visual_layout(shown@, kinds@, usable));
        wrap_laws::law_offsets_are_starts(shown@, kinds@, usable);
        assert(wrap::line_lens(lines@) =~= wrap_laws::lens_of(ls));
        assert(wrap::as_ints(offsets@) == wrap_laws::starts_of(ls));
        assert(offsets@.len() == wrap::as_ints(offsets@).len());
        assert forall|i: int| 0 <= i < ls.len() implies #[trigger] offsets@[i] == ls[i].start by {
            assert(wrap::as_ints(offsets@)[i] == wrap_laws::starts_of(ls)[i]);
        }
        assert forall|i: int| 0 <= i < ls.len() implies (#[trigger] ls[i]).kinds.len()
            == ls[i].text.len() && ls[i].start + ls[i].text.len() <= usize::MAX by {
            wrap_laws::law_layout_shows_kinds(shown@, kinds@, usable, i);
            wrap_laws::law_layout_shows_text(shown@, kinds@, usable, i);
        }
    }
    Laid { lines, offsets, cursor_line, cursor_col, sel }
}

/// The kind of the input.
pub open spec fn kind_of_input(s: PromptInput, commands: Seq<String>) -> InputKind {
    input::input_kind(
        s.buf@,
        input::hint_view(s.command_hint),
        styled::is_one_of(commands, text::trimmed(s.buf@)),
    )
}

/// Rows that a menu or completions would take.
pub open spec fn rows_wanted(s: PromptInput) -> int {
    if s.menu_rows > 0 {
        s.menu_rows as int
    } else {
        completions::reserved_rows(s.completions)
    }
}

/// How the rows are shared out.
pub struct Shares {
    /// Rows for a menu or completions.
    pub comp: int,
    /// Lines of the input that are shown.
    pub rows: int,
    /// The first line that is shown.
    pub scroll: int,
    /// The line of the cursor, counted from the first that is shown.
    pub cursor: int,
}

/// How the rows are shared out: `total` lines of input with the cursor in
/// line `line`, where the first line shown was `was`.
pub open spec fn shares(
    height: int,
    above: Above,
    wanted: int,
    total: int,
    line: int,
    was: usize,
) -> Shares {
    let (comp, max) = input::fitted_rows(
        height,
        above.fixed(
            if wanted == 0 {
                1
            } else {
                0
            },
        ),
        wanted,
    );
    let rows = table::smaller(total, max);
    let scroll = input::scroll_to(was, line, rows, total);
    Shares {
        comp,
        rows,
        scroll,
        cursor: table::smaller(
            bars::at_least_zero(line - scroll),
            bars::at_least_zero(rows - 1),
        ),
    }
}

/// How the rows are shared out: those for a menu or completions, those for
/// the input, the first line shown, and the row of the cursor.
fn share_rows(
    height: usize,
    above: (u16, u16, u16),
    wanted: usize,
    total: usize,
    line: usize,
    was: usize,
    Ghost(a): Ghost<Above>,
) -> (r: (usize, usize, usize, usize))
    requires
        above == (a.notification, a.queued, a.stash),
        line < total,
    ensures
        (Shares {
            comp: r.0 as int,
            rows: r.1 as int,
            scroll: r.2 as int,
            cursor: r.3 as int,
        }) == shares(height as int, a, wanted as int, total as int, line as int, was),
        1 <= r.1 <= total,
        r.2 + r.1 <= total,
{
    let (n, q, s) = above;
    let reserve: usize = if wanted == 0 {
        1
    } else {
        0
    };
    let (comp, max) = fit_rows(
        height,
        n as usize + s as usize + q as usize + 2 + reserve,
        wanted,
    );
    assert(max >= 1);
    let rows: usize = if total < max {
        total
    } else {
        max
    };
    let scroll: usize = scroll_offset(was, line, rows, total);
    let last: usize = rows.saturating_sub(1);
    let down: usize = line.saturating_sub(scroll);
    let cursor: usize = if down < last {
        down
    } else {
        last
    };
    proof {
        input::law_cursor_stays_in_view(was, line as int, rows as int, total as int);
    }
    (comp, rows, scroll, cursor)
}

/// Whether a prediction stands in the place of the input.
pub open spec fn predicts(p: FramePrompt) -> bool {
    p.prediction is Some && p.state.buf@.len() == 0
}

/// Draws a prediction.
pub open spec fn prediction_drawn(m: Canvas, t: Seq<char>, usable: int) -> Canvas {
    let l = match text::first_line(t) {
        Some(l) => l,
        None => t,
    };
    prompt::line_done(
        m.print(" "@).push_dim().print(
            text::first_chars(l, bars::at_least_zero(usable - 1)),
        ).pop_style(),
    )
}

/// Draws the input, or a prediction.
#[verifier::opaque]
pub open spec fn input_drawn(
    m: Canvas,
    p: FramePrompt,
    sh: Shares,
    usable: usize,
    width: usize,
    env: Env,
) -> Canvas {
    if predicts(p) {
        prediction_drawn(m, p.prediction->0@, usable as int)
    } else {
        input::input_lines(
            m,
            input_layout(*p.state, usable, env.paths@),
            sh.rows,
            shown_selection(*p.state, env.paths@),
            kind_of_input(*p.state, env.commands@),
            InputLook {
                scroll: sh.scroll,
                rows: sh.rows,
                usable: usable as int,
                width,
                theme: env.theme,
                bar: p.bar,
            },
        )
    }
}

fn draw_input(
    out: &mut RenderOut,
    p: &FramePrompt,
    laid: &Laid,
    rows: usize,
    scroll: usize,
    usable: usize,
    width: usize,
    env: &Env,
    Ghost(sh): Ghost<Shares>,
)
    requires
        laid.is(*p.state, usable, env.paths@),
        sh.rows == rows,
        sh.scroll == scroll,
        1 <= rows <= laid.lines@.len(),
        scroll + rows <= laid.lines@.len(),
    ensures
        final(out)@ == input_drawn(old(out)@, *p, sh, usable, width, *env),
{
    proof {
        reveal(input_drawn);
    }
    let empty = char_count(p.state.buf.as_str()) == 0;
    match p.prediction {
        Some(t) => {
            if empty {
                let l = first_line_or(t, t);
                out.print(" ");
                out.push_dim();
                let msg = take_chars(l.as_str(), usable.saturating_sub(1));
                out.print(msg.as_str());
                out.pop_style();
                end_line(out);
                return;
            }
        },
        None => {},
    }
    let known = one_of(&env.commands, trim(p.state.buf.as_str()).as_str());
    let f = find_kind(p.state.buf.as_str(), &p.state.command_hint, known);
    draw_input_lines(
        out,
        &laid.lines,
        &laid.offsets,
        scroll,
        rows,
        rows,
        laid.sel,
        &f,
        usable,
        width,
        &env.theme,
        p.bar,
        Ghost(input_layout(*p.state, usable, env.paths@)),
        Ghost(kind_of_input(*p.state, env.commands@)),
    );
}

// ── Below the input ──────────────────────────────────────────────────────

impl Screen {
    /// Draws what stands below the input, with the bar: the canvas, and the
    /// rows below the bar.
    #[verifier::opaque]
    pub open spec fn below(
        self,
        m: Canvas,
        p: FramePrompt,
        comp: int,
        width: int,
        term: Term,
        env: Env,
    ) -> (Canvas, int, int) {
        let m = bars::bar_drawn(m, width, seq![], seq![], env.theme.bar_color()).print("\r\n"@);
        let m = if comp == 0 {
            self.status_line(m, term.width as int, env.theme, env.now_ms)
        } else {
            m
        };
        let (m, rows) = match p.state.menu {
            Some(menu) => completions::menu_drawn(
                m,
                menu,
                comp,
                env.term_width as int,
                env.theme.accent_color(),
            ),
            None => completions::completions_drawn(
                m,
                p.state.completions,
                comp,
                *p.hints,
                env.term_width as int,
                env.theme,
            ),
        };
        (m, if comp == 0 {
            1
        } else {
            0
        }, rows)
    }

    fn draw_below(
        &self,
        out: &mut RenderOut,
        p: &FramePrompt,
        comp: usize,
        width: usize,
        term: &Term,
        env: &Env,
    ) -> (r: (usize, usize))
        ensures
            (final(out)@, r.0 as int, r.1 as int) == self.below(
                old(out)@,
                *p,
                comp as int,
                width as int,
                *term,
                *env,
            ),
    {
        proof {
            reveal(Screen::below);
        }
        draw_bar(out, width, None, None, theme::bar(&env.theme));
        out.print("\r\n");
        if comp == 0 {
            self.render_status_line(out, term.width as usize, &env.theme, env.now_ms);
        }
        let rows: usize = match &p.state.menu {
            Some(menu) => draw_menu(
                out,
                menu,
                comp,
                env.term_width,
                theme::accent(&env.theme),
            ),
            None => draw_completions(
                out,
                &p.state.completions,
                comp,
                p.hints,
                env.term_width,
                &env.theme,
            ),
        };
        (
            if comp == 0 {
                1
            } else {
                0
            },
            rows,
        )
    }
}

/// Clears `n` rows below.
pub open spec fn rows_wiped(m: Canvas, n: int) -> Canvas
    decreases n,
{
    if n <= 0 {
        m
    } else {
        rows_wiped(m, n - 1).print("\r\n"@).queue(Command::Clear(ClearType::CurrentLine))
    }
}

/// Clears what the last frame left below.
pub open spec fn wiped(m: Canvas, prev_rows: u16, new_rows: u16, comp: int) -> Canvas {
    if prev_rows > new_rows {
        rows_wiped(m, prev_rows - new_rows).queue(Command::Clear(ClearType::FromCursorDown))
    } else if comp > 0 {
        m.queue(Command::Clear(ClearType::FromCursorDown))
    } else {
        m
    }
}

fn wipe(out: &mut RenderOut, prev_rows: u16, new_rows: u16, comp: usize)
    ensures
        final(out)@ == wiped(old(out)@, prev_rows, new_rows, comp as int),
{
    if prev_rows > new_rows {
        let n: u16 = prev_rows - new_rows;
        let mut i: u16 = 0;
        while i < n
            invariant
                i <= n,
                out@ == rows_wiped(old(out)@, i as int),
            decreases n - i,
        {
            out.print("\r\n");
            out.queue(Command::Clear(ClearType::CurrentLine));
            i = i + 1;
        }
        out.queue(Command::Clear(ClearType::FromCursorDown));
    } else if comp > 0 {
        out.queue(Command::Clear(ClearType::FromCursorDown));
    }
}

// ── Placing ──────────────────────────────────────────────────────────────

/// Where the prompt comes to stand.
pub struct Placed {
    pub top_row: u16,
    pub scrolled: bool,
    /// The row of the cursor.
    pub text_row: u16,
}

/// Where the prompt comes to stand: `pre` rows were drawn before it from row
/// `start` on, it has `rows` rows of which `extra` stand above the bar, and
/// `below` rows were cleared behind it.
pub open spec fn placed(
    start: u16,
    pre: u16,
    rows: u16,
    below: u16,
    extra: u16,
    cursor: u16,
    height: u16,
) -> Placed {
    let total = out::rows_plus(out::rows_plus(pre, rows), below);
    let section = out::rows_plus(rows, below);
    let scrolled = start + total > height;
    let top = if scrolled {
        screen::rows_minus(height, total)
    } else {
        start
    };
    let prompt_start = if scrolled {
        screen::rows_minus(height, section)
    } else {
        out::rows_plus(top, pre)
    };
    let overflow = if scrolled {
        screen::rows_minus(section, height)
    } else {
        0
    };
    Placed {
        top_row: top,
        scrolled,
        text_row: out::rows_plus(
            out::rows_plus(
                out::rows_plus(prompt_start, 1),
                screen::rows_minus(extra, overflow),
            ),
            cursor,
        ),
    }
}

/// Where the prompt comes to stand: the first row drawn, whether the terminal
/// scrolled, and the row of the cursor.
fn place(start: u16, pre: u16, rows: u16, below: u16, extra: u16, cursor: u16, height: u16) -> (r: (
    u16,
    bool,
    u16,
))
    ensures
        (Placed { top_row: r.0, scrolled: r.1, text_row: r.2 }) == placed(
            start,
            pre,
            rows,
            below,
            extra,
            cursor,
            height,
        ),
{
    let total: u16 = pre.saturating_add(rows).saturating_add(below);
    let section: u16 = rows.saturating_add(below);
    let scrolled = start as u32 + total as u32 > height as u32;
    let top: u16 = if scrolled {
        height.saturating_sub(total)
    } else {
        start
    };
    let prompt_start: u16 = if scrolled {
        height.saturating_sub(section)
    } else {
        top.saturating_add(pre)
    };
    let overflow: u16 = if scrolled {
        section.saturating_sub(height)
    } else {
        0
    };
    let row: u16 = prompt_start.saturating_add(1).saturating_add(
        extra.saturating_sub(overflow),
    ).saturating_add(cursor);
    (top, scrolled, row)
}

/// When everything fits on the terminal, the cursor is in a row of it: the
/// rows above the bar, the bar and the lines before it fit too.
pub proof fn law_cursor_is_on_screen(
    start: u16,
    pre: u16,
    rows: u16,
    below: u16,
    extra: u16,
    cursor: u16,
    height: u16,
)
    requires
        extra + 1 + cursor < rows,
        rows + below <= height,
        pre + rows + below <= u16::MAX,
    ensures
        placed(start, pre, rows, below, extra, cursor, height).text_row < height,
{
}

// ── The whole ────────────────────────────────────────────────────────────

/// What drawing the prompt leaves.
pub struct Sections {
    pub canvas: Canvas,
    pub question: Option<BtwView>,
    pub input_scroll: int,
    pub top_row: u16,
    pub rows: u16,
    pub scrolled: bool,
}

/// Rows of the prompt.
pub open spec fn prompt_rows(a: Above, sh: Shares, status: int, comp: int) -> int {
    bars::capped(
        bars::capped(a.notification + a.stash + a.queued + a.btw + 2 + sh.rows) + bars::capped(
            status + comp,
        ),
    )
}

impl Screen {
    /// The screen with the modes that the prompt shows.
    pub open spec fn with_modes(self, p: FramePrompt) -> Screen {
        Screen {
            last_vim_enabled: p.state.vim_enabled,
            last_vim_mode: p.state.vim_mode,
            last_mode: p.mode,
            ..self
        }
    }

    /// Draws the prompt below what stands above the input.
    #[verifier::opaque]
    pub open spec fn body(
        self,
        a: Above,
        p: FramePrompt,
        width: usize,
        prev_rows: u16,
        start: u16,
        pre: u16,
        term: Term,
        env: Env,
    ) -> Sections {
        let usable = bars::at_least_zero(width - 2) as usize;
        let height = bars::at_least_zero(term.height - pre);
        let m = self.top_bar(a.canvas, p, width as int, env.theme);
        let ls = input_layout(*p.state, usable, env.paths@);
        let c = input_cursor(*p.state, usable, env.paths@);
        let sh = shares(
            height,
            a,
            rows_wanted(*p.state),
            ls.len() as int,
            c.0,
            self.prompt.input_scroll,
        );
        let m = input_drawn(m, p, sh, usable, width, env);
        let (m, status, comp) = self.below(m, p, sh.comp, width as int, term, env);
        let rows = prompt_rows(a, sh, status, comp) as u16;
        let m = wiped(m, prev_rows, rows, comp);
        let at = placed(
            start,
            pre,
            rows,
            screen::rows_minus(prev_rows, rows),
            a.extra(),
            sh.cursor as u16,
            term.height,
        );
        Sections {
            canvas: m.queue(Command::MoveTo(out::rows_plus(1, c.1 as u16), at.text_row)),
            question: a.question,
            input_scroll: sh.scroll,
            top_row: at.top_row,
            rows,
            scrolled: at.scrolled,
        }
    }

    /// Draws the prompt.
    #[verifier::opaque]
    pub open spec fn sections(
        self,
        m: Canvas,
        p: FramePrompt,
        width: usize,
        prev_rows: u16,
        start: u16,
        pre: u16,
        term: Term,
        env: Env,
    ) -> Sections {
        let s = self.with_modes(p);
        let usable = bars::at_least_zero(width - 2) as usize;
        let a = s.above(m, p, usable, term.height as int, env);
        s.body(a, p, width, prev_rows, start, pre, term, env)
    }

    fn draw_body(
        &self,
        out: &mut RenderOut,
        p: &FramePrompt,
        above: (u16, u16, u16, u16),
        width: usize,
        prev_rows: u16,
        start: u16,
        pre: u16,
        term: &Term,
        env: &Env,
        Ghost(a): Ghost<Above>,
    ) -> (r: (u16, u16, bool, usize))
        requires
            above == (a.notification, a.queued, a.stash, a.btw),
            old(out)@ == a.canvas,
        ensures
            ({
                let s = self.body(a, *p, width, prev_rows, start, pre, *term, *env);
                &&& final(out)@ == s.canvas
                &&& r.0 == s.top_row
                &&& r.1 == s.rows
                &&& r.2 == s.scrolled
                &&& r.3 == s.input_scroll
            }),
    {
        proof {
            reveal(Screen::body);
        }
        let (n, q, s, b) = above;
        let usable: usize = width.saturating_sub(2);
        let height: usize = (term.height as usize).saturating_sub(pre as usize);
        let extra: u16 = n.saturating_add(q).saturating_add(s).saturating_add(b);
        self.draw_top_bar(out, p, width, &env.theme);
        let laid = lay_out(p.state, usable, &env.paths);
        let wanted: usize = if p.state.menu_rows > 0 {
            p.state.menu_rows
        } else {
            completion_reserved_rows(&p.state.completions)
        };
        let total: usize = laid.lines.len();
        let ghost sh = shares(
            height as int,
            a,
            wanted as int,
            total as int,
            laid.cursor_line as int,
            self.prompt.input_scroll,
        );
        let (comp, rows, scroll, cursor) = share_rows(
            height,
            (n, q, s),
            wanted,
            total,
            laid.cursor_line,
            self.prompt.input_scroll,
            Ghost(a),
        );
        draw_input(out, p, &laid, rows, scroll, usable, width, env, Ghost(sh));
        let (status_rows, comp_rows) = self.draw_below(out, p, comp, width, term, env);
        let fixed: usize = n as usize + s as usize + q as usize + b as usize + 2;
        let all: usize = fixed.saturating_add(rows).saturating_add(
            status_rows.saturating_add(comp_rows),
        );
        assert(all == prompt_rows(a, sh, status_rows as int, comp_rows as int));
        #[verifier::truncate]
        let new_rows: u16 = all as u16;
        wipe(out, prev_rows, new_rows, comp_rows);
        #[verifier::truncate]
        let cursor_row: u16 = cursor as u16;
        #[verifier::truncate]
        let cursor_col: u16 = laid.cursor_col as u16;
        let (top, scrolled, row) = place(
            start,
            pre,
            new_rows,
            prev_rows.saturating_sub(new_rows),
            extra,
            cursor_row,
            term.height,
        );
        let col: u16 = cursor_col.saturating_add(1);
        out.queue(Command::MoveTo(col, row));
        (top, new_rows, scrolled, scroll)
    }

    /// Draws the prompt: the first row drawn, the rows of the prompt, and
    /// whether the terminal scrolled.
    #[verifier::rlimit(60)]
    pub(crate) fn draw_prompt_sections(
        &mut self,
        out: &mut RenderOut,
        assets: &Assets,
        p: &FramePrompt,
        width: usize,
        prev_rows: u16,
        draw_start_row: u16,
        pre_prompt_rows: u16,
        term: &Term,
        env: &Env,
    ) -> (r: (u16, u16, bool))
        ensures
            ({
                let s = old(self).sections(
                    old(out)@,
                    *p,
                    width,
                    prev_rows,
                    draw_start_row,
                    pre_prompt_rows,
                    *term,
                    *env,
                );
                &&& final(out)@ == s.canvas
                &&& r == (s.top_row, s.rows, s.scrolled)
                &&& btw_view(final(self).btw) == s.question
                &&& final(self).prompt.input_scroll == s.input_scroll
                &&& *final(self) == (Screen {
                    btw: final(self).btw,
                    prompt: PromptState {
                        input_scroll: final(self).prompt.input_scroll,
                        ..old(self).prompt
                    },
                    ..old(self).with_modes(*p)
                })
            }),
    {
        proof {
            reveal(Screen::sections);
        }
        self.last_vim_enabled = p.state.vim_enabled;
        self.last_vim_mode = p.state.vim_mode;
        self.last_mode = p.mode;
        let ghost s0 = *self;
        let usable: usize = width.saturating_sub(2);
        let ghost a = s0.above(out@, *p, usable, term.height as int, *env);
        let above = self.draw_above(out, assets, p, usable, term.height as usize, env);
        proof {
            lemma_body(
                *self,
                s0,
                a,
                *p,
                width,
                prev_rows,
                draw_start_row,
                pre_prompt_rows,
                *term,
                *env,
            );
        }
        let (top, rows, scrolled, scroll) = self.draw_body(
            out,
            p,
            above,
            width,
            prev_rows,
            draw_start_row,
            pre_prompt_rows,
            term,
            env,
            Ghost(a),
        );
        self.prompt.input_scroll = scroll;
        proof {
            lemma_body_question(
                s0,
                a,
                *p,
                width,
                prev_rows,
                draw_start_row,
                pre_prompt_rows,
                *term,
                *env,
            );
        }
        (top, rows, scrolled)
    }
}

/// Whether two screens show the same in the prompt, side questions apart.
pub open spec fn same_prompt(a: Screen, b: Screen) -> bool {
    &&& a == (Screen {
        btw: a.btw,
        history: a.history,
        prompt: a.prompt,
        has_scrollback: a.has_scrollback,
        content_start_row: a.content_start_row,
        ..b
    })
    &&& a.prompt.input_scroll == b.prompt.input_scroll
}

/// The prompt shows what it shows whatever the history holds, and wherever
/// it stood before.
pub proof fn law_prompt_ignores_history(
    a: Screen,
    b: Screen,
    m: Canvas,
    p: FramePrompt,
    width: usize,
    prev_rows: u16,
    start: u16,
    pre: u16,
    term: Term,
    env: Env,
)
    requires
        same_prompt(a, b),
        a.btw == b.btw,
    ensures
        a.sections(m, p, width, prev_rows, start, pre, term, env) == b.sections(
            m,
            p,
            width,
            prev_rows,
            start,
            pre,
            term,
            env,
        ),
{
    reveal(Screen::sections);
    let usable = bars::at_least_zero(width - 2) as usize;
    let x = a.with_modes(p);
    let y = b.with_modes(p);
    assert(x.above(m, p, usable, term.height as int, env) == y.above(
        m,
        p,
        usable,
        term.height as int,
        env,
    )) by {
        reveal(Screen::above);
    }
    let above = x.above(m, p, usable, term.height as int, env);
    lemma_body(x, y, above, p, width, prev_rows, start, pre, term, env);
}

proof fn lemma_body_question(
    s: Screen,
    above: Above,
    p: FramePrompt,
    width: usize,
    prev_rows: u16,
    start: u16,
    pre: u16,
    term: Term,
    env: Env,
)
    ensures
        s.body(above, p, width, prev_rows, start, pre, term, env).question == above.question,
{
    reveal(Screen::body);
}

proof fn lemma_body(
    a: Screen,
    b: Screen,
    above: Above,
    p: FramePrompt,
    width: usize,
    prev_rows: u16,
    start: u16,
    pre: u16,
    term: Term,
    env: Env,
)
    requires
        same_prompt(a, b),
    ensures
        a.body(above, p, width, prev_rows, start, pre, term, env) == b.body(
            above,
            p,
            width,
            prev_rows,
            start,
            pre,
            term,
            env,
        ),
{
    reveal(Screen::body);
    let usable = bars::at_least_zero(width - 2) as usize;
    let height = bars::at_least_zero(term.height - pre);
    let m = a.top_bar(above.canvas, p, width as int, env.theme);
    lemma_top_bar(a, b, above.canvas, p, width as int, env.theme);
    let ls = input_layout(*p.state, usable, env.paths@);
    let c = input_cursor(*p.state, usable, env.paths@);
    let sh = shares(
        height,
        above,
        rows_wanted(*p.state),
        ls.len() as int,
        c.0,
        a.prompt.input_scroll,
    );
    let m = input_drawn(m, p, sh, usable, width, env);
    lemma_below(a, b, m, p, sh.comp, width as int, term, env);
}

proof fn lemma_top_bar(a: Screen, b: Screen, m: Canvas, p: FramePrompt, width: int, theme: Theme)
    requires
        same_prompt(a, b),
    ensures
        a.top_bar(m, p, width, theme) == b.top_bar(m, p, width, theme),
{
    reveal(Screen::top_bar);
}

proof fn lemma_below(
    a: Screen,
    b: Screen,
    m: Canvas,
    p: FramePrompt,
    comp: int,
    width: int,
    term: Term,
    env: Env,
)
    requires
        same_prompt(a, b),
    ensures
        a.below(m, p, comp, width, term, env) == b.below(m, p, comp, width, term, env),
{
    reveal(Screen::below);
    let m = bars::bar_drawn(m, width, seq![], seq![], env.theme.bar_color()).print("\r\n"@);
    status::law_status_line_reads(a, b, m, term.width as int, env.theme, env.now_ms);
}

} // verus!
