//! What a reader sees of the input, and of side questions.

use vstd::prelude::*;

use crate::hints::Hints;
use crate::render::bars;
use crate::render::bars::BarSpan;
use crate::render::blocks_laws;
use crate::render::input;
use crate::render::input::{InputKind, InputLook};
use crate::render::model;
use crate::render::out;
use crate::render::out::{Canvas, Color, Command, Drawn};
use crate::render::prompt;
use crate::render::prompt::BtwView;
use crate::render::screen::{ReasoningEffort, Screen};
use crate::render::sections;
use crate::render::sections::FramePrompt;
use crate::render::seen;
use crate::render::spans;
use crate::render::status_laws;
use crate::render::styled::Env;
use crate::render::wrap::{SpanKind, VisualLine};
use crate::text;
use crate::theme;
use crate::theme::Theme;

verus! {

// ── The input ────────────────────────────────────────────────────────────

proof fn lemma_inked(
    m: Canvas,
    line: Seq<char>,
    kinds: Seq<SpanKind>,
    sel: Option<(usize, usize)>,
    theme: Theme,
    n: int,
)
    requires
        0 <= n <= line.len(),
    ensures
        seen::seen(spans::inked(m, line, kinds, sel, theme, n).canvas) == seen::seen(m)
            + seen::ink(line.take(n)),
    decreases n,
{
    broadcast use seen::group_seen;

    if n <= 0 {
        assert(seen::ink(line.take(0)) =~= seq![]);
        assert(seen::seen(m) + seen::ink(line.take(0)) =~= seen::seen(m));
    } else {
        lemma_inked(m, line, kinds, sel, theme, n - 1);
        assert(line.take(n) =~= line.take(n - 1) + seq![line[n - 1]]);
        assert(seen::seen(spans::inked(m, line, kinds, sel, theme, n).canvas) =~= seen::seen(m)
            + seen::ink(line.take(n)));
    }
}

/// A line of the input is shown as it was typed, whatever of it is selected.
pub proof fn law_typed_line_is_shown(
    m: Canvas,
    line: Seq<char>,
    kinds: Seq<SpanKind>,
    sel: Option<(usize, usize)>,
    theme: Theme,
)
    ensures
        seen::seen(spans::line_inked(m, line, kinds, sel, theme)) == seen::seen(m) + seen::ink(
            line,
        ),
{
    broadcast use {seen::group_seen, seen::lemma_ink_fill};

    let n = line.len() as int;
    lemma_inked(m, line, kinds, sel, theme, n);
    assert(line.take(n) =~= line);
    reveal_strlit(" ");
    assert(" "@ =~= text::fill(' ', 1));
    assert(seen::seen(spans::line_inked(m, line, kinds, sel, theme)) =~= seen::seen(m) + seen::ink(
        line,
    ));
}

/// What a command with an argument shows of its first line: the line, and
/// behind a command without an argument a hint on it.
pub open spec fn argument_seen(line: Seq<char>, k: InputKind, usable: int) -> Seq<char> {
    let n = k.prefix.len() as int;
    if line.len() >= n && seen::ink(line.skip(n)).len() == 0 && k.ends_with_space {
        seen::ink(line) + seen::ink(
            text::clipped(k.hint, bars::at_least_zero(usable - bars::capped(n + 2))),
        )
    } else {
        seen::ink(line)
    }
}

proof fn lemma_ink_of_trimmed(s: Seq<char>)
    ensures
        (text::trimmed(s).len() == 0) == (seen::ink(s).len() == 0),
{
    seen::lemma_ink_trimmed(s);
    let t = text::trimmed(s);
    text::law_trimming_takes_white_space(s);
    if t.len() > 0 {
        assert(t =~= t.drop_last().push(t.last()));
        seen::lemma_ink_push(t.drop_last(), t.last());
    } else {
        assert(seen::ink(t) =~= seq![]);
    }
}

proof fn lemma_argument(
    m: Canvas,
    line: Seq<char>,
    k: InputKind,
    usable: int,
    theme: Theme,
)
    ensures
        seen::seen(input::argument_line(m, line, k, usable, theme.accent_color())) == seen::seen(m)
            + argument_seen(line, k, usable),
{
    broadcast use {seen::group_seen, seen::lemma_ink_fill};

    let n = k.prefix.len() as int;
    reveal_strlit(" ");
    assert(" "@ =~= text::fill(' ', 1));
    if line.len() >= n {
        lemma_ink_of_trimmed(line.skip(n));
        assert(line =~= line.take(n) + line.skip(n));
        if seen::ink(line.skip(n)).len() == 0 {
            assert(seen::ink(line.skip(n)) =~= seq![]);
            assert(seen::ink(line) =~= seen::ink(line.take(n)));
        }
    }
    assert(seen::seen(input::argument_line(m, line, k, usable, theme.accent_color()))
        =~= seen::seen(m) + argument_seen(line, k, usable));
}

/// What a line of the input shows.
pub open spec fn line_seen(l: VisualLine, idx: int, k: InputKind, usable: int) -> Seq<char> {
    if k.has_argument && idx == 0 {
        argument_seen(l.text, k, usable)
    } else {
        seen::ink(l.text)
    }
}

proof fn lemma_input_line(
    m: Canvas,
    l: VisualLine,
    idx: int,
    sel: Option<(usize, usize)>,
    k: InputKind,
    usable: int,
    theme: Theme,
)
    ensures
        seen::seen(input::input_line(m, l, idx, sel, k, usable, theme)) == seen::seen(m)
            + line_seen(l, idx, k, usable),
{
    broadcast use {seen::group_seen, seen::lemma_ink_push};

    if k.has_argument && idx == 0 {
        lemma_argument(m, l.text, k, usable, theme);
    } else if k.has_argument {
        law_typed_line_is_shown(m, l.text, l.kinds, sel, theme);
    } else if k.is_command {
        law_typed_line_is_shown(m, l.text, input::accents(l.text.len()), sel, theme);
    } else if k.is_exec && idx == 0 && l.text.len() > 0 && l.text[0] == '!' {
        let first = match sel {
            Some((s, _)) => s == 0,
            None => false,
        };
        let a = m.push_style(input::bang_style(first, theme)).print("!"@).pop_style();
        law_typed_line_is_shown(
            a,
            l.text.skip(1),
            l.kinds.skip(1),
            input::behind_first(sel),
            theme,
        );
        reveal_strlit("!");
        assert(l.text =~= "!"@ + l.text.skip(1));
        assert(seen::seen(m) + seen::ink("!"@) + seen::ink(l.text.skip(1)) =~= seen::seen(m)
            + seen::ink(l.text));
    } else {
        law_typed_line_is_shown(m, l.text, l.kinds, sel, theme);
    }
}

/// What the `n` lines from `from` on show.
pub open spec fn input_seen(
    ls: Seq<VisualLine>,
    from: int,
    n: int,
    k: InputKind,
    usable: int,
) -> Seq<char>
    decreases n,
{
    if n <= 0 {
        seq![]
    } else {
        input_seen(ls, from, n - 1, k, usable) + line_seen(
            ls[from + n - 1],
            from + n - 1,
            k,
            usable,
        )
    }
}

/// The lines of the input that are in view are shown as they were typed, in
/// order, from the one that the view is scrolled to.
pub proof fn law_input_is_shown(
    m: Canvas,
    ls: Seq<VisualLine>,
    n: int,
    sel: Option<(usize, usize)>,
    k: InputKind,
    look: InputLook,
)
    requires
        0 <= n,
    ensures
        seen::seen(input::input_lines(m, ls, n, sel, k, look)) == seen::seen(m) + input_seen(
            ls,
            look.scroll,
            n,
            k,
            look.usable,
        ),
    decreases n,
{
    broadcast use {seen::group_seen, seen::lemma_ink_fill, seen::lemma_ink_push};

    if n <= 0 {
        assert(seen::seen(m) + input_seen(ls, look.scroll, n, k, look.usable) =~= seen::seen(m));
    } else {
        law_input_is_shown(m, ls, n - 1, sel, k, look);
        let a = input::input_lines(m, ls, n - 1, sel, k, look);
        let idx = look.scroll + n - 1;
        let l = ls[idx];
        reveal_strlit(" ");
        reveal_strlit("\r\n");
        assert(" "@ =~= text::fill(' ', 1));
        let none = Seq::<char>::empty();
        assert("\r\n"@ =~= none.push('\r').push('\n'));
        assert(seen::ink("\r\n"@) =~= none);
        lemma_input_line(
            a.print(" "@),
            l,
            idx,
            input::line_selection(sel, l.start, l.text.len() as int),
            k,
            look.usable,
            look.theme,
        );
        assert(seen::seen(input::input_lines(m, ls, n, sel, k, look)) =~= seen::seen(m)
            + input_seen(ls, look.scroll, n, k, look.usable));
    }
}

/// Input is for the shell exactly when it starts with an exclamation mark
/// that has no white space behind it.
pub proof fn law_shell_input_is_told(buf: Seq<char>)
    ensures
        !input::shell_input(seq![]),
        buf.len() > 0 && buf[0] != '!' ==> !input::shell_input(buf),
        input::shell_input(seq!['!']),
        buf.len() > 0 && buf[0] != ' ' && buf[0] != '\t' && buf[0] != '\n' && buf[0] != '\r'
            && buf[0] != '\u{c}' ==> input::shell_input(seq!['!'] + buf),
        !input::shell_input(seq!['!', ' '] + buf),
{
}

// ── Side questions ───────────────────────────────────────────────────────

/// What the lines of an answer from `from` up to `to` show.
pub open spec fn rows_seen(ls: Seq<Seq<Command<Seq<char>>>>, from: int, to: int) -> Seq<char>
    decreases to - from,
{
    if from >= to {
        seq![]
    } else {
        rows_seen(ls, from, to - 1) + seen::ink(seen::flat(seen::prints_of(ls[to - 1])))
    }
}

proof fn lemma_line_done(m: Canvas)
    ensures
        seen::seen(prompt::line_done(m)) == seen::seen(m),
{
    broadcast use {seen::group_seen, seen::lemma_ink_push};

    reveal_strlit("\r\n");
    let none = Seq::<char>::empty();
    assert("\r\n"@ =~= none.push('\r').push('\n'));
    assert(seen::ink("\r\n"@) =~= none);
    assert(seen::seen(prompt::line_done(m)) =~= seen::seen(m));
}

proof fn lemma_rows(d: Drawn, ls: Seq<Seq<Command<Seq<char>>>>, from: int, to: int)
    ensures
        seen::seen(prompt::btw_rows(d, ls, from, to).canvas) == seen::seen(d.canvas) + rows_seen(
            ls,
            from,
            to,
        ),
    decreases to - from,
{
    broadcast use {seen::group_seen};

    if from >= to {
        assert(seen::seen(d.canvas) + rows_seen(ls, from, to) =~= seen::seen(d.canvas));
    } else {
        lemma_rows(d, ls, from, to - 1);
        let a = prompt::btw_rows(d, ls, from, to - 1).canvas;
        let b = a.append(ls[to - 1]);
        lemma_line_done(b);
        seen::lemma_flat_add(seen::prints(a), seen::prints_of(ls[to - 1]));
        assert(seen::seen(b) =~= seen::seen(a) + seen::ink(
            seen::flat(seen::prints_of(ls[to - 1])),
        ));
        assert(seen::seen(prompt::btw_rows(d, ls, from, to).canvas) =~= seen::seen(d.canvas)
            + rows_seen(ls, from, to));
    }
}

/// A side question is shown whole where it fits, with the lines of its answer
/// that are in view: as many as there is room for, from where it is scrolled
/// to.  Without an answer yet, it is said that one is being thought of.
pub proof fn law_side_question_is_shown(
    m: Canvas,
    b: BtwView,
    usable: int,
    max_lines: int,
    h: Hints,
    env: Env,
)
    requires
        b.question.len() + 6 <= usable,
        0 <= b.scroll,
        0 <= max_lines,
        b.scroll + max_lines <= usize::MAX,
    ensures
        ({
            let r = seen::seen(prompt::btw_drawn(m, b, usable, max_lines, h, env).canvas);
            let total = b.wrapped.len() as int;
            let from = if b.scroll <= total {
                b.scroll
            } else {
                total
            };
            let to = if from + max_lines <= total {
                from + max_lines
            } else {
                total
            };
            let head = seen::seen(m) + "/btw"@ + seen::ink(b.question);
            &&& b.response is Some ==> r == head + rows_seen(b.wrapped, from, to) + seen::ink(
                prompt::btw_hint(b, max_lines, h),
            )
            &&& b.response is None ==> r == head + seen::ink(model::spinner_at(env.now_ms))
                + "thinking"@
        }),
{
    broadcast use {seen::group_seen, seen::lemma_ink_fill};

    let accent = env.theme.accent_color();
    reveal_strlit(" ");
    reveal_strlit("   ");
    reveal_strlit("/btw");
    reveal_strlit("thinking");
    reveal_strlit(" thinking");
    let sp = text::fill(' ', 1);
    assert(" "@ =~= sp);
    assert("   "@ =~= text::fill(' ', 3));
    assert(" thinking"@ =~= sp + "thinking"@);
    assert(seen::ink("/btw"@) =~= "/btw"@ && seen::ink("thinking"@) =~= "thinking"@) by {
        reveal_with_fuel(seen::ink, 10);
    }
    let a = m.print(" "@).push_fg(accent).print("/btw"@).pop_style().print(" "@);
    assert(seen::seen(a) =~= seen::seen(m) + "/btw"@);
    let q = text::first_chars(b.question, bars::at_least_zero(usable - 6));
    assert(q =~= b.question);
    blocks_laws::law_message_is_printed_whole(a, q, b.labels, false, env.paths@, accent);
    let c = spans::message_printed(a, q, b.labels, false, env.paths@, accent);
    lemma_line_done(c);
    let d = out::drawn(c).row(prompt::line_done(c));
    let muted = Color::AnsiValue(theme::MUTED);
    match b.response {
        Some(_) => {
            let total = b.wrapped.len() as int;
            let from = if b.scroll <= total {
                b.scroll
            } else {
                total
            };
            let to = if from + max_lines <= total {
                from + max_lines
            } else {
                total
            };
            lemma_rows(d, b.wrapped, from, to);
            let e = prompt::btw_rows(d, b.wrapped, from, to);
            lemma_line_done(e.canvas);
            let f = e.row(prompt::line_done(e.canvas));
            let hint = prompt::btw_hint(b, max_lines, h);
            let g = f.canvas.push_fg(muted).print(hint).pop_style();
            lemma_line_done(g);
            lemma_line_done(prompt::line_done(g));
            assert(seen::seen(g) =~= seen::seen(f.canvas) + seen::ink(hint));
        },
        None => {
            let t = "   "@ + model::spinner_at(env.now_ms) + " thinking"@;
            let g = d.canvas.push_fg(muted).print(t).pop_style();
            lemma_line_done(g);
            lemma_line_done(prompt::line_done(g));
            assert(seen::ink(t) =~= seen::ink(model::spinner_at(env.now_ms)) + "thinking"@);
            assert(seen::seen(g) =~= seen::seen(m) + "/btw"@ + seen::ink(b.question) + seen::ink(
                model::spinner_at(env.now_ms),
            ) + "thinking"@);
        },
    }
}

// ── The bar above the input ──────────────────────────────────────────────

/// The name of an effort, which is not told when there is none.
pub open spec fn effort_told(e: ReasoningEffort) -> Seq<char> {
    match e {
        ReasoningEffort::Off => seq![],
        ReasoningEffort::Low => seen::ink("low"@),
        ReasoningEffort::Medium => seen::ink("medium"@),
        ReasoningEffort::High => seen::ink("high"@),
        ReasoningEffort::Max => seen::ink("max"@),
    }
}

/// The bar names the model and the effort of its reasoning.
pub proof fn law_model_is_told(s: Screen, theme: Theme)
    ensures
        status_laws::told(s.model_spans(theme)) == match s.model_label {
            Some(l) => seen::ink(l@) + effort_told(s.reasoning_effort),
            None => Seq::<char>::empty(),
        },
{
    broadcast use {seen::group_seen, seen::lemma_ink_fill};

    reveal_strlit(" ");
    assert(" "@ =~= text::fill(' ', 1));
    let v = s.model_spans(theme);
    let none = Seq::<BarSpan<Seq<char>>>::empty();
    match s.model_label {
        Some(l) => {
            status_laws::lemma_told_push(none, v[0]);
            if s.reasoning_effort == ReasoningEffort::Off {
                assert(v =~= none.push(v[0]));
            } else {
                assert(v =~= none.push(v[0]).push(v[1]));
                status_laws::lemma_told_push(none.push(v[0]), v[1]);
            }
            assert(status_laws::told(v) =~= seen::ink(l@) + effort_told(s.reasoning_effort));
        },
        None => {},
    }
}

/// A number that is told behind others comes last, set off by a dot.
pub proof fn law_number_is_told(v: Seq<BarSpan<Seq<char>>>, t: Seq<char>, theme: Theme)
    ensures
        status_laws::told(sections::next_number(v, t, theme)) == status_laws::told(v) + (
        if v.len() > 0 {
            seq!['\u{b7}']
        } else {
            Seq::<char>::empty()
        }) + seen::ink(t),
{
    broadcast use {seen::lemma_ink_push};

    reveal_strlit(" ·");
    let none = Seq::<char>::empty();
    assert(" ·"@ =~= none.push(' ').push('\u{b7}'));
    assert(seq!['\u{b7}'] =~= none.push('\u{b7}'));
    assert(seen::ink(" ·"@) =~= seq!['\u{b7}']);
    let r = sections::next_number(v, t, theme);
    let n = r.len() as int;
    if v.len() > 0 {
        status_laws::lemma_told_push(v, r[n - 2]);
        status_laws::lemma_told_push(v.push(r[n - 2]), r[n - 1]);
        assert(r =~= v.push(r[n - 2]).push(r[n - 1]));
    } else {
        status_laws::lemma_told_push(v, r[n - 1]);
        assert(r =~= v.push(r[n - 1]));
        assert(status_laws::told(v) + none =~= status_laws::told(v));
    }
}

/// The bar tells the model, and where that is wanted the tokens of the
/// context and the cost.
pub proof fn law_numbers_are_told(s: Screen, p: FramePrompt, theme: Theme)
    ensures
        ({
            let r = status_laws::told(s.right_spans(p, theme));
            let model = status_laws::told(s.model_spans(theme));
            let tokens = s.settings.show_tokens && s.context_tokens is Some;
            let cost = s.settings.show_cost && p.cost is Some;
            &&& !tokens && !cost ==> r == model
            &&& s.model_label is Some && tokens && !cost ==> r == model + seq!['\u{b7}']
                + seen::ink(s.token_text(p))
            &&& s.model_label is Some && !tokens && cost ==> r == model + seq!['\u{b7}']
                + seen::ink(p.cost->0@)
            &&& s.model_label is Some && tokens && cost ==> r == model + seq!['\u{b7}']
                + seen::ink(s.token_text(p)) + seq!['\u{b7}'] + seen::ink(p.cost->0@)
        }),
{
    broadcast use {seen::lemma_ink_add, seen::lemma_ink_fill};

    reveal_strlit(" ");
    assert(" "@ =~= text::fill(' ', 1));
    let v = s.model_spans(theme);
    law_number_is_told(v, s.token_text(p), theme);
    let w = sections::next_number(v, s.token_text(p), theme);
    if p.cost is Some {
        let t = " "@ + p.cost->0@;
        assert(seen::ink(t) =~= seen::ink(p.cost->0@));
        law_number_is_told(v, t, theme);
        law_number_is_told(w, t, theme);
    }
}

} // verus!
