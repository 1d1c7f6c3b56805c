//! What a reader sees of the options of dialogs, and which of them is lit.

use vstd::prelude::*;

use crate::dialogs::confirm;
use crate::dialogs::confirm::ConfirmView;
use crate::dialogs::confirm_draw;
use crate::dialogs::question::AskView;
use crate::dialogs::question_draw;
use crate::dialogs::questions::OptionView;
use crate::render::bars;
use crate::render::call_laws;
use crate::render::diff_laws;
use crate::render::lit;
use crate::render::out::{Attribute, Canvas, Color, Command};
use crate::render::seen;
use crate::render::wrap;
use crate::text;
use crate::theme;

verus! {

// ── Requests ─────────────────────────────────────────────────────────────

/// The number of an option with a point behind it.
pub open spec fn numbered(i: int) -> Seq<char> {
    text::dec((i + 1) as nat) + "."@
}

/// What precedes a line of an option.
proof fn lemma_option_lead(m: Canvas, i: int, first: bool, highlighted: bool, accent: Color)
    requires
        lit::unlit(m, accent),
    ensures
        ({
            let num = text::dec((i + 1) as nat);
            let r = if first {
                if highlighted {
                    m.print("  "@).push_dim().print(num + "."@).pop_style().print(" "@)
                } else {
                    m.print("  "@).push_dim().print(num + ". "@).pop_style()
                }
            } else {
                m.crlf().print(text::fill(' ', confirm::option_indent(i) as nat))
            };
            &&& lit::unlit(r, accent)
            &&& lit::lit(r, accent) == lit::lit(m, accent)
            &&& seen::seen(r) == seen::seen(m) + (if first {
                seen::ink(numbered(i))
            } else {
                Seq::<char>::empty()
            })
        }),
{
    broadcast use {
        seen::lemma_flat_push,
        seen::lemma_ink_add,
        seen::lemma_ink_fill,
        seen::lemma_seen_crlf,
    };

    let num = text::dec((i + 1) as nat);
    reveal_strlit(" ");
    reveal_strlit("  ");
    reveal_strlit(".");
    reveal_strlit(". ");
    assert(" "@ =~= text::fill(' ', 1));
    assert("  "@ =~= text::fill(' ', 2));
    assert(". "@ =~= "."@ + text::fill(' ', 1));
    if first {
        lit::lemma_unlit_print(m, "  "@, accent);
        let a = m.print("  "@);
        let t = if highlighted {
            num + "."@
        } else {
            num + ". "@
        };
        lit::lemma_unlit_dim(a, t, accent);
        let b = a.push_dim().print(t).pop_style();
        lit::lemma_unlit_print(b, " "@, accent);
        assert(seen::ink(num + ". "@) =~= seen::ink(num + "."@));
        assert(seen::seen(b) =~= seen::seen(m) + seen::ink(numbered(i)));
        assert(seen::seen(b.print(" "@)) =~= seen::seen(b));
    } else {
        lit::lemma_unlit_crlf(m, accent);
        let pad = text::fill(' ', confirm::option_indent(i) as nat);
        lit::lemma_unlit_print(m.crlf(), pad, accent);
        assert(seen::seen(m.crlf().print(pad)) =~= seen::seen(m) + Seq::<char>::empty());
    }
}

proof fn lemma_option_lines(
    m: Canvas,
    ls: Seq<Seq<char>>,
    n: int,
    i: int,
    highlighted: bool,
    accent: Color,
)
    requires
        lit::unlit(m, accent),
        0 <= n <= ls.len(),
    ensures
        ({
            let r = confirm_draw::option_lines_drawn(m, ls, n, i, highlighted, accent);
            &&& lit::unlit(r, accent)
            &&& lit::lit(r, accent) == lit::lit(m, accent) + (if highlighted {
                ls.take(n)
            } else {
                Seq::<Seq<char>>::empty()
            })
            &&& n > 0 ==> seen::seen(r) == seen::seen(m) + seen::ink(numbered(i)) + seen::ink(
                seen::flat(ls.take(n)),
            )
        }),
    decreases n,
{
    if n <= 0 {
        assert(ls.take(n) =~= seq![]);
        assert(lit::lit(m, accent) + Seq::<Seq<char>>::empty() =~= lit::lit(m, accent));
    } else {
        lemma_option_lines(m, ls, n - 1, i, highlighted, accent);
        let a = confirm_draw::option_lines_drawn(m, ls, n - 1, i, highlighted, accent);
        lemma_option_lead(a, i, n == 1, highlighted, accent);
        let num = text::dec((i + 1) as nat);
        let b = if n == 1 {
            if highlighted {
                a.print("  "@).push_dim().print(num + "."@).pop_style().print(" "@)
            } else {
                a.print("  "@).push_dim().print(num + ". "@).pop_style()
            }
        } else {
            a.crlf().print(text::fill(' ', confirm::option_indent(i) as nat))
        };
        let t = ls[n - 1];
        lit::lemma_label(b, t, highlighted, accent);
        let r = lit::label_drawn(b, t, highlighted, accent);
        assert(r == confirm_draw::option_lines_drawn(m, ls, n, i, highlighted, accent));
        assert(ls.take(n) =~= ls.take(n - 1).push(t));
        seen::lemma_flat_push(seen::prints(b), t);
        seen::lemma_ink_add(seen::flat(seen::prints(b)), t);
        seen::lemma_flat_push(ls.take(n - 1), t);
        seen::lemma_ink_add(seen::flat(ls.take(n - 1)), t);
        if n == 1 {
            assert(ls.take(0) =~= seq![]);
            assert(a == m);
            assert(seen::ink(seen::flat(ls.take(0))) =~= seq![]);
        }
        assert(seen::seen(r) =~= seen::seen(m) + seen::ink(numbered(i)) + seen::ink(
            seen::flat(ls.take(n)),
        ));
        assert(lit::lit(r, accent) =~= lit::lit(m, accent) + (if highlighted {
            ls.take(n)
        } else {
            Seq::<Seq<char>>::empty()
        }));
    }
}

/// What the first `n` options show: each behind its number.
pub open spec fn options_seen(s: ConfirmView, n: int) -> Seq<char>
    decreases n,
{
    if n <= 0 {
        seq![]
    } else {
        options_seen(s, n - 1) + seen::ink(numbered(n - 1)) + seen::ink(s.options[n - 1].0)
    }
}

/// The options of a request are shown whole, in order, each behind its
/// number, and the one that is lit is the one that would be taken.
pub proof fn law_choices_are_shown(
    s: ConfirmView,
    m: Canvas,
    n: int,
    row: u16,
    width: u16,
    accent: Color,
)
    requires
        lit::unlit(m, accent),
        0 <= n <= s.options.len(),
        !s.shows_message(),
    ensures
        ({
            let r = s.options_drawn(m, n, row, width, accent).canvas;
            &&& lit::unlit(r, accent)
            &&& seen::seen(r) == seen::seen(m) + options_seen(s, n)
            &&& lit::lit(r, accent) == lit::lit(m, accent) + (if 0 <= s.selected < n {
                confirm::option_lines(s.options[s.selected].0, s.selected, width as int)
            } else {
                Seq::<Seq<char>>::empty()
            })
            &&& 0 <= s.selected < s.options.len() ==> s.taken().choice
                == s.options[s.selected].1 && seen::ink(
                seen::flat(
                    confirm::option_lines(s.options[s.selected].0, s.selected, width as int),
                ),
            ) == seen::ink(s.options[s.selected].0)
        }),
    decreases n,
{
    let k = s.selected;
    if 0 <= k < s.options.len() {
        lemma_option_ink(s.options[k].0, k, width as int);
    }
    if n <= 0 {
        assert(seen::seen(m) + options_seen(s, n) =~= seen::seen(m));
        assert(lit::lit(m, accent) + Seq::<Seq<char>>::empty() =~= lit::lit(m, accent));
    } else {
        law_choices_are_shown(s, m, n - 1, row, width, accent);
        let a = s.options_drawn(m, n - 1, row, width, accent).canvas;
        let i = n - 1;
        let ls = confirm::option_lines(s.options[i].0, i, width as int);
        lemma_option_ink(s.options[i].0, i, width as int);
        lemma_option_lines(a, ls, ls.len() as int, i, i == s.selected, accent);
        assert(ls.take(ls.len() as int) =~= ls);
        let b = confirm_draw::option_lines_drawn(
            a,
            ls,
            ls.len() as int,
            i,
            i == s.selected,
            accent,
        );
        lit::lemma_unlit_crlf(b, accent);
        seen::lemma_seen_crlf(b);
        let r = s.options_drawn(m, n, row, width, accent).canvas;
        assert(r == b.crlf());
        assert(seen::seen(r) =~= seen::seen(m) + options_seen(s, n));
        assert(lit::lit(r, accent) =~= lit::lit(m, accent) + (if 0 <= s.selected < n {
            confirm::option_lines(s.options[s.selected].0, s.selected, width as int)
        } else {
            Seq::<Seq<char>>::empty()
        }));
    }
}

proof fn lemma_option_ink(label: Seq<char>, i: int, w: int)
    ensures
        ({
            let ls = confirm::option_lines(label, i, w);
            &&& ls.len() > 0
            &&& seen::ink(seen::flat(ls)) == seen::ink(label)
        }),
{
    let avail = bars::at_least_zero(w - confirm::option_indent(i));
    if avail > 0 {
        seen::lemma_ink_wrapped(label, avail);
        let parts = text::split_on(label, '\n');
        let n = parts.len() as int;
        assert(wrap::wrapped_lines(parts, n, avail) == wrap::wrapped_lines(parts, n - 1, avail)
            + wrap::wrapped_logical(parts[n - 1], avail));
    } else {
        let none = Seq::<Seq<char>>::empty();
        assert(seq![label] =~= none.push(label));
        seen::lemma_flat_push(none, label);
        assert(seen::flat(none) + label =~= label);
    }
}

proof fn lemma_title(
    m: Canvas,
    ls: Seq<Seq<char>>,
    n: int,
    name: Seq<char>,
    color: Color,
    shell: bool,
)
    requires
        0 <= n <= ls.len(),
        shell ==> diff_laws::highlighting_works("sh"@),
    ensures
        ({
            let r = confirm_draw::title_drawn(m, ls, n, name, color, shell);
            &&& shell ==> r.history is Some
            &&& seen::seen(r.canvas) == seen::seen(m) + (if n > 0 {
                seen::ink(name) + seq![':']
            } else {
                Seq::<char>::empty()
            }) + seen::ink(seen::flat(ls.take(n)))
        }),
    decreases n,
{
    broadcast use {seen::group_seen, seen::lemma_ink_fill, seen::lemma_ink_push};

    if n <= 0 {
        assert(ls.take(n) =~= seq![]);
        assert(seen::ink(seen::flat(ls.take(n))) =~= seq![]);
        assert(seen::seen(m) + Seq::<char>::empty() + Seq::<char>::empty() =~= seen::seen(m));
    } else {
        lemma_title(m, ls, n - 1, name, color, shell);
        let a = confirm_draw::title_drawn(m, ls, n - 1, name, color, shell);
        reveal_strlit(" ");
        reveal_strlit(": ");
        assert(" "@ =~= text::fill(' ', 1));
        let none = Seq::<char>::empty();
        assert(": "@ =~= none.push(':').push(' '));
        assert(seq![':'] =~= none.push(':'));
        assert(seen::ink(": "@) =~= seq![':']);
        let b = a.canvas.print(" "@);
        let c = if n == 1 {
            b.push_fg(color).print(name).pop_style().print(": "@)
        } else {
            b
        };
        if shell {
            call_laws::lemma_shell_line(c, a.history, ls[n - 1]);
        }
        assert(ls.take(n) =~= ls.take(n - 1).push(ls[n - 1]));
        if n == 1 {
            assert(ls.take(0) =~= seq![]);
            assert(seen::ink(seen::flat(ls.take(0))) =~= seq![]);
        }
        assert(seen::seen(confirm_draw::title_drawn(m, ls, n, name, color, shell).canvas)
            =~= seen::seen(m) + (seen::ink(name) + seq![':']) + seen::ink(seen::flat(ls.take(n))));
    }
}

proof fn lemma_summary(m: Canvas, ls: Seq<Seq<char>>, n: int)
    requires
        0 <= n <= ls.len(),
    ensures
        seen::seen(confirm_draw::summary_drawn(m, ls, n)) == seen::seen(m) + seen::ink(
            seen::flat(ls.take(n)),
        ),
    decreases n,
{
    broadcast use {seen::group_seen, seen::lemma_ink_fill};

    if n <= 0 {
        assert(ls.take(n) =~= seq![]);
        assert(seen::seen(m) + seen::ink(seen::flat(ls.take(n))) =~= seen::seen(m));
    } else {
        lemma_summary(m, ls, n - 1);
        reveal_strlit(" ");
        assert(" "@ =~= text::fill(' ', 1));
        assert(ls.take(n) =~= ls.take(n - 1).push(ls[n - 1]));
        assert(seen::seen(confirm_draw::summary_drawn(m, ls, n)) =~= seen::seen(m) + seen::ink(
            seen::flat(ls.take(n)),
        ));
    }
}

/// The name of the tool and the title of the request are shown whole: for a
/// shell command, be it highlighted, as for any other tool.
pub proof fn law_title_is_shown(s: ConfirmView, m: Canvas, w: int, color: Color, shell: bool)
    requires
        shell ==> diff_laws::highlighting_works("sh"@),
    ensures
        ({
            let ls = s.title_lines(w);
            seen::seen(
                confirm_draw::title_drawn(
                    m,
                    ls,
                    ls.len() as int,
                    s.display_name,
                    color,
                    shell,
                ).canvas,
            ) == seen::seen(m) + (seen::ink(s.display_name) + seq![':']) + seen::ink(s.title())
        }),
{
    let cols = bars::at_least_zero(w - bars::capped(3 + text::byte_len(s.display_name)));
    let ls = s.title_lines(w);
    lemma_wrapped_some(s.title(), cols);
    seen::lemma_ink_wrapped(s.title(), cols);
    lemma_title(m, ls, ls.len() as int, s.display_name, color, shell);
    assert(ls.take(ls.len() as int) =~= ls);
}

/// The summary of the request is shown whole where there is one.
pub proof fn law_summary_is_shown(s: ConfirmView, m: Canvas, w: int)
    ensures
        ({
            let ls = s.summary_lines(w);
            seen::seen(confirm_draw::summary_drawn(m, ls, ls.len() as int)) == seen::seen(m) + (
            match s.summary {
                Some(t) => seen::ink(t),
                None => Seq::<char>::empty(),
            })
        }),
{
    let ls = s.summary_lines(w);
    lemma_summary(m, ls, ls.len() as int);
    assert(ls.take(ls.len() as int) =~= ls);
    match s.summary {
        Some(t) => seen::lemma_ink_wrapped(t, bars::at_least_zero(w - 1)),
        None => {
            assert(seen::ink(seen::flat(ls)) =~= seq![]);
        },
    }
}

// ── Questions ────────────────────────────────────────────────────────────

/// What is shown before the label of an option: its number, or, where several
/// may be chosen, whether it is marked.
pub open spec fn option_sign(i: int, on: bool, multi: bool) -> Seq<char> {
    if multi {
        if on {
            seq!['\u{25c9}']
        } else {
            seq!['\u{25cb}']
        }
    } else {
        numbered(i)
    }
}

proof fn lemma_option_label(
    m: Canvas,
    label: Seq<char>,
    i: int,
    current: bool,
    on: bool,
    multi: bool,
    accent: Color,
)
    ensures
        seen::seen(question_draw::option_label(m, label, i, current, on, multi, accent))
            == seen::seen(m) + seen::ink(option_sign(i, on, multi)) + seen::ink(label),
{
    broadcast use {seen::group_seen, seen::lemma_ink_fill};

    reveal_strlit(" ");
    reveal_strlit("  ");
    reveal_strlit("\u{25c9}");
    reveal_strlit("\u{25cb}");
    assert(" "@ =~= text::fill(' ', 1));
    assert("  "@ =~= text::fill(' ', 2));
    assert("\u{25c9}"@ =~= seq!['\u{25c9}']);
    assert("\u{25cb}"@ =~= seq!['\u{25cb}']);
    let sign = question_draw::check_sign(on) + " "@;
    assert(seen::ink(sign) =~= seen::ink(question_draw::check_sign(on)));
    assert(seen::seen(question_draw::option_label(m, label, i, current, on, multi, accent))
        =~= seen::seen(m) + seen::ink(option_sign(i, on, multi)) + seen::ink(label));
}

/// Columns that are left for the description of an option.
pub open spec fn room(o: OptionView, i: int, multi: bool, w: int) -> int {
    bars::at_least_zero(
        w - bars::capped(
            bars::capped(question_draw::label_column(i, multi) + o.label.len()) + 2,
        ),
    )
}

/// What the first `n` options of a question show: a sign, the label, and of
/// the selected one the description as far as it fits.
pub open spec fn answers_seen(s: AskView, n: int, w: int) -> Seq<char>
    decreases n,
{
    if n <= 0 {
        seq![]
    } else {
        let q = s.questions[s.tab];
        let o = q.options[n - 1];
        let left = room(o, n - 1, q.multi_select, w);
        answers_seen(s, n - 1, w) + seen::ink(
            option_sign(n - 1, s.toggles[s.tab][n - 1], q.multi_select),
        ) + seen::ink(o.label) + (if s.selections[s.tab] == n - 1 && left > 3 {
            seen::ink(text::first_chars(o.description, left))
        } else {
            Seq::<char>::empty()
        })
    }
}

proof fn lemma_option_drawn(
    m: Canvas,
    o: OptionView,
    i: int,
    current: bool,
    on: bool,
    multi: bool,
    w: int,
    accent: Color,
)
    ensures
        seen::seen(question_draw::option_drawn(m, o, i, current, on, multi, w, accent))
            == seen::seen(m) + seen::ink(option_sign(i, on, multi)) + seen::ink(o.label) + (
        if current && room(o, i, multi, w) > 3 {
            seen::ink(text::first_chars(o.description, room(o, i, multi, w)))
        } else {
            Seq::<char>::empty()
        }),
{
    broadcast use {seen::group_seen, seen::lemma_ink_fill};

    lemma_option_label(m, o.label, i, current, on, multi, accent);
    let a = question_draw::option_label(m, o.label, i, current, on, multi, accent);
    let left = room(o, i, multi, w);
    let d = text::first_chars(o.description, left);
    reveal_strlit("  ");
    assert("  "@ =~= text::fill(' ', 2));
    assert(seen::ink("  "@ + d) =~= seen::ink(d));
    if o.description.len() == 0 {
        assert(d =~= seq![]);
        assert(seen::ink(d) =~= seq![]);
    }
    assert(seen::seen(question_draw::dimmed(a, "  "@ + d).crlf()) =~= seen::seen(a) + seen::ink(d));
    assert(seen::seen(a.crlf()) =~= seen::seen(a) + Seq::<char>::empty());
}

/// The options of a question are shown in order with their labels: behind
/// their numbers, or, where several may be chosen, behind a sign that tells
/// which are marked. The selected one is shown with its description.
pub proof fn law_answers_are_offered(m: Canvas, s: AskView, n: int, w: int, accent: Color)
    requires
        0 <= n,
    ensures
        seen::seen(question_draw::options_drawn(m, s, n, w, accent)) == seen::seen(m)
            + answers_seen(s, n, w),
    decreases n,
{
    if n <= 0 {
        assert(seen::seen(m) + answers_seen(s, n, w) =~= seen::seen(m));
    } else {
        law_answers_are_offered(m, s, n - 1, w, accent);
        let q = s.questions[s.tab];
        let on = q.multi_select && s.toggles[s.tab][n - 1];
        lemma_option_drawn(
            question_draw::options_drawn(m, s, n - 1, w, accent),
            q.options[n - 1],
            n - 1,
            s.selections[s.tab] == n - 1,
            on,
            q.multi_select,
            w,
            accent,
        );
        assert(option_sign(n - 1, on, q.multi_select) == option_sign(
            n - 1,
            s.toggles[s.tab][n - 1],
            q.multi_select,
        ));
        assert(seen::seen(question_draw::options_drawn(m, s, n, w, accent)) =~= seen::seen(m)
            + answers_seen(s, n, w));
    }
}

/// What the tabs of the first `n` questions show: a sign that is filled once
/// the user has seen or answered the question, and its header.
pub open spec fn tabs_seen(s: AskView, n: int) -> Seq<char>
    decreases n,
{
    if n <= 0 {
        seq![]
    } else {
        tabs_seen(s, n - 1) + (if s.answered[n - 1] || s.visited[n - 1] {
            seq!['\u{25a0}']
        } else {
            seq!['\u{25a1}']
        }) + seen::ink(s.questions[n - 1].header)
    }
}

proof fn lemma_tab(m: Canvas, sign: Seq<char>, header: Seq<char>, accent: Color, color: Color)
    ensures
        ({
            let both = " "@ + sign + (" "@ + header + " "@);
            let end = seen::seen(m) + seen::ink(sign) + seen::ink(header);
            &&& seen::seen(
                m.queue(Command::SetForegroundColor(accent)).queue(
                    Command::SetAttribute(Attribute::Bold),
                ).print(both).queue(Command::SetAttribute(Attribute::Reset)).queue(
                    Command::ResetColor,
                ),
            ) == end
            &&& seen::seen(
                question_draw::dimmed(
                    question_draw::in_color(m, " "@ + sign, color),
                    " "@ + header + " "@,
                ),
            ) == end
            &&& seen::seen(question_draw::dimmed(m, both)) == end
        }),
{
    broadcast use {seen::group_seen, seen::lemma_ink_fill};

    reveal_strlit(" ");
    assert(" "@ =~= text::fill(' ', 1));
    let both = " "@ + sign + (" "@ + header + " "@);
    assert(seen::ink(" "@ + sign) =~= seen::ink(sign));
    assert(seen::ink(" "@ + header + " "@) =~= seen::ink(header));
    assert(seen::ink(both) =~= seen::ink(sign) + seen::ink(header));
    let end = seen::seen(m) + seen::ink(sign) + seen::ink(header);
    assert(seen::seen(m) + (seen::ink(sign) + seen::ink(header)) =~= end);
}

/// The tabs name the questions in order, each with a sign that tells whether
/// it is done.
pub proof fn law_tabs_are_shown(m: Canvas, s: AskView, n: int, accent: Color)
    ensures
        seen::seen(question_draw::tabs_drawn(m, s, n, accent)) == seen::seen(m) + tabs_seen(s, n),
    decreases n,
{
    if n <= 0 {
        assert(seen::seen(m) + tabs_seen(s, n) =~= seen::seen(m));
    } else {
        law_tabs_are_shown(m, s, n - 1, accent);
        let a = question_draw::tabs_drawn(m, s, n - 1, accent);
        let sign = question_draw::tab_sign(s.answered[n - 1] || s.visited[n - 1]);
        reveal_strlit("\u{25a0}");
        reveal_strlit("\u{25a1}");
        let none = Seq::<char>::empty();
        assert("\u{25a0}"@ =~= none.push('\u{25a0}'));
        assert("\u{25a1}"@ =~= none.push('\u{25a1}'));
        seen::lemma_ink_push(none, '\u{25a0}');
        seen::lemma_ink_push(none, '\u{25a1}');
        lemma_tab(
            a,
            sign,
            s.questions[n - 1].header,
            accent,
            Color::AnsiValue(theme::SUCCESS),
        );
        assert(seen::ink(sign) =~= if s.answered[n - 1] || s.visited[n - 1] {
            seq!['\u{25a0}']
        } else {
            seq!['\u{25a1}']
        });
        assert(seen::seen(question_draw::tabs_drawn(m, s, n, accent)) =~= seen::seen(m) + tabs_seen(
            s,
            n,
        ));
    }
}

proof fn lemma_question_lines(m: Canvas, ls: Seq<Seq<char>>, n: int, suffix: Seq<char>)
    requires
        0 <= n <= ls.len(),
    ensures
        seen::seen(question_draw::question_lines(m, ls, n, suffix)) == seen::seen(m) + (if n > 0 {
            seen::ink(ls[0]) + seen::ink(suffix) + seen::ink(seen::flat(ls.subrange(1, n)))
        } else {
            Seq::<char>::empty()
        }),
    decreases n,
{
    broadcast use {seen::group_seen, seen::lemma_ink_fill};

    if n <= 0 {
        assert(seen::seen(m) + Seq::<char>::empty() =~= seen::seen(m));
    } else {
        lemma_question_lines(m, ls, n - 1, suffix);
        let a = question_draw::question_lines(m, ls, n - 1, suffix);
        reveal_strlit(" ");
        assert(" "@ =~= text::fill(' ', 1));
        let b = a.print(" "@).queue(Command::SetAttribute(Attribute::Bold)).print(
            ls[n - 1],
        ).queue(Command::SetAttribute(Attribute::Reset));
        assert(seen::seen(b) =~= seen::seen(a) + seen::ink(ls[n - 1]));
        if n == 1 {
            assert(ls.subrange(1, 1) =~= seq![]);
            assert(seen::ink(seen::flat(ls.subrange(1, 1))) =~= seq![]);
            if suffix.len() == 0 {
                assert(seen::ink(suffix) =~= seq![]);
            }
        } else {
            assert(ls.subrange(1, n) =~= ls.subrange(1, n - 1).push(ls[n - 1]));
        }
        let r = question_draw::question_lines(m, ls, n, suffix);
        assert(seen::seen(r) =~= seen::seen(m) + (seen::ink(ls[0]) + seen::ink(suffix) + seen::ink(
            seen::flat(ls.subrange(1, n)),
        )));
    }
}

/// A question of which one answer is asked is shown whole; where several may
/// be given, how to mark them is said behind its first line.
pub proof fn law_question_is_shown(s: AskView, m: Canvas, w: int)
    requires
        0 <= s.tab < s.questions.len(),
    ensures
        ({
            let q = s.questions[s.tab];
            let ls = s.question_text(w);
            let r = question_draw::question_lines(
                m,
                ls,
                ls.len() as int,
                question_draw::ask_note(q.multi_select),
            );
            &&& seen::ink(seen::flat(ls)) == seen::ink(q.question)
            &&& !q.multi_select ==> seen::seen(r) == seen::seen(m) + seen::ink(q.question)
            &&& q.multi_select ==> seen::seen(r) == seen::seen(m) + (seen::ink(ls[0]) + seen::ink(
                "(space to toggle)"@,
            ) + seen::ink(seen::flat(ls.skip(1))))
        }),
{
    broadcast use {seen::lemma_ink_add, seen::lemma_ink_fill};

    let q = s.questions[s.tab];
    let note = question_draw::ask_note(q.multi_select);
    let cols = bars::at_least_zero(w - 1 - note.len());
    let ls = s.question_text(w);
    seen::lemma_ink_wrapped(q.question, cols);
    lemma_wrapped_some(q.question, cols);
    lemma_question_lines(m, ls, ls.len() as int, note);
    reveal_strlit(" (space to toggle)");
    reveal_strlit("(space to toggle)");
    reveal_strlit("");
    assert(" (space to toggle)"@ =~= text::fill(' ', 1) + "(space to toggle)"@);
    assert(seen::ink(" (space to toggle)"@) =~= seen::ink("(space to toggle)"@));
    assert(seen::ink(""@) =~= seq![]);
    let rest = ls.subrange(1, ls.len() as int);
    assert(rest =~= ls.skip(1));
    let none = Seq::<Seq<char>>::empty();
    assert(ls =~= none.push(ls[0]) + rest);
    seen::lemma_flat_add(none.push(ls[0]), rest);
    seen::lemma_flat_push(none, ls[0]);
    assert(seen::flat(none) + ls[0] =~= ls[0]);
    assert(seen::ink(ls[0]) + seen::ink(""@) + seen::ink(seen::flat(rest)) =~= seen::ink(
        seen::flat(ls),
    ));
}

proof fn lemma_wrapped_some(s: Seq<char>, width: int)
    requires
        width >= 0,
    ensures
        wrap::wrapped(s, width).len() > 0,
{
    if width > 0 {
        let parts = text::split_on(s, '\n');
        let n = parts.len() as int;
        assert(wrap::wrapped_lines(parts, n, width) == wrap::wrapped_lines(parts, n - 1, width)
            + wrap::wrapped_logical(parts[n - 1], width));
    }
}

} // verus!
