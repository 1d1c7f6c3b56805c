//! What a reader sees of the parts of a conversation.

use vstd::prelude::*;

use crate::render::bars;
use crate::render::blocks;
use crate::render::blocks::MessageLook;
use crate::render::highlight;
use crate::render::model;
use crate::render::model::{
    AgentBlockStatus, AgentToolEntry, ApprovalScope, Block, ConfirmChoice,
};
use crate::render::out;
use crate::render::out::{Attribute, Canvas, Color, Command, Drawn};
use crate::render::seen;
use crate::render::spans;
use crate::render::styled;
use crate::render::styled::Env;
use crate::render::tools;
use crate::render::tools_laws;
use crate::render::wrap;
use crate::text;
use crate::theme;
use crate::utils;

verus! {

// ── Messages of the user ─────────────────────────────────────────────────

proof fn lemma_accented(m: Canvas, plain: Seq<char>, t: Seq<char>, accent: Color)
    ensures
        seen::seen(spans::accented(spans::flushed(m, plain), t, accent)) == seen::seen(m)
            + seen::ink(plain) + seen::ink(t),
        seen::seen(spans::flushed(m, plain)) == seen::seen(m) + seen::ink(plain),
{
    broadcast use seen::group_seen;

    if plain.len() == 0 {
        assert(seen::ink(plain) =~= seq![]);
        assert(seen::seen(m) + seen::ink(plain) =~= seen::seen(m));
    }
}

proof fn lemma_message_from(
    m: Canvas,
    plain: Seq<char>,
    s: Seq<char>,
    i: int,
    labels: Seq<Seq<char>>,
    paths: Seq<String>,
    accent: Color,
)
    requires
        0 <= i <= s.len(),
    ensures
        seen::seen(spans::message_from(m, plain, s, i, labels, paths, accent)) == seen::seen(m)
            + seen::ink(plain) + seen::ink(s.skip(i)),
    decreases s.len() - i,
{
    broadcast use {seen::lemma_ink_add, seen::lemma_ink_push};

    let none = Seq::<char>::empty();
    assert(seen::ink(none) == none);
    if i >= s.len() {
        lemma_accented(m, plain, none, accent);
        assert(s.skip(i) =~= none);
        assert(seen::seen(m) + seen::ink(plain) + none =~= seen::seen(m) + seen::ink(plain));
    } else {
        spans::lemma_label_from(labels, s, i, 0);
        spans::lemma_at_ref(s, i, paths);
        match spans::image_at(labels, s, i) {
            Some(l) => {
                lemma_accented(m, plain, l, accent);
                let a = spans::accented(spans::flushed(m, plain), l, accent);
                let k = i + l.len();
                lemma_message_from(a, none, s, k, labels, paths, accent);
                assert(s.skip(i) =~= s.subrange(i, k) + s.skip(k));
                assert(seen::seen(
                    spans::message_from(m, plain, s, i, labels, paths, accent),
                ) =~= seen::seen(m) + seen::ink(plain) + seen::ink(s.skip(i)));
            },
            None => match spans::at_ref(s, i, paths) {
                Some(t) => {
                    lemma_accented(m, plain, t.0, accent);
                    let a = spans::accented(spans::flushed(m, plain), t.0, accent);
                    lemma_message_from(a, none, s, t.1, labels, paths, accent);
                    assert(s.skip(i) =~= s.subrange(i, t.1) + s.skip(t.1));
                    assert(seen::seen(
                        spans::message_from(m, plain, s, i, labels, paths, accent),
                    ) =~= seen::seen(m) + seen::ink(plain) + seen::ink(s.skip(i)));
                },
                None => {
                    lemma_message_from(m, plain.push(s[i]), s, i + 1, labels, paths, accent);
                    assert(s.skip(i) =~= none.push(s[i]) + s.skip(i + 1));
                    assert(plain.push(s[i]) =~= plain + none.push(s[i]));
                    assert(seen::seen(
                        spans::message_from(m, plain, s, i, labels, paths, accent),
                    ) =~= seen::seen(m) + seen::ink(plain) + seen::ink(s.skip(i)));
                },
            },
        }
    }
}

/// A message is printed as it is, whatever parts of it are in colour.
pub proof fn law_message_is_printed_whole(
    m: Canvas,
    s: Seq<char>,
    labels: Seq<Seq<char>>,
    is_command: bool,
    paths: Seq<String>,
    accent: Color,
)
    ensures
        seen::seen(spans::message_printed(m, s, labels, is_command, paths, accent)) == seen::seen(m)
            + seen::ink(s),
{
    let none = Seq::<char>::empty();
    assert(seen::ink(none) == none);
    if is_command {
        lemma_accented(m, none, s, accent);
        assert(seen::seen(m) + none + seen::ink(s) =~= seen::seen(m) + seen::ink(s));
    } else {
        lemma_message_from(m, none, s, 0, labels, paths, accent);
        assert(s.skip(0) =~= s);
        assert(seen::seen(m) + none + seen::ink(s) =~= seen::seen(m) + seen::ink(s));
    }
}

proof fn lemma_message_rows(
    d: Drawn,
    chunks: Seq<Seq<char>>,
    n: int,
    look: MessageLook,
    labels: Seq<Seq<char>>,
    paths: Seq<String>,
)
    requires
        0 <= n <= chunks.len(),
    ensures
        seen::seen(blocks::message_rows(d, chunks, n, look, labels, paths).canvas) == seen::seen(
            d.canvas,
        ) + seen::ink(seen::flat(chunks.take(n))),
    decreases n,
{
    broadcast use {seen::group_seen, seen::lemma_ink_fill};

    if n <= 0 {
        assert(chunks.take(n) =~= seq![]);
        assert(seen::seen(d.canvas) + seen::ink(seen::flat(chunks.take(n))) =~= seen::seen(
            d.canvas,
        ));
    } else {
        lemma_message_rows(d, chunks, n - 1, look, labels, paths);
        let e = blocks::message_rows(d, chunks, n - 1, look, labels, paths);
        reveal_strlit(" ");
        assert(" "@ =~= text::fill(' ', 1));
        let a = e.canvas.set_bg(look.bg).set_bold().print(" "@);
        assert(seen::seen(a) =~= seen::seen(e.canvas));
        law_message_is_printed_whole(
            a,
            chunks[n - 1],
            labels,
            look.is_command,
            paths,
            look.accent,
        );
        assert(chunks.take(n) =~= chunks.take(n - 1).push(chunks[n - 1]));
        assert(seen::seen(blocks::message_rows(d, chunks, n, look, labels, paths).canvas)
            =~= seen::seen(d.canvas) + seen::ink(seen::flat(chunks.take(n))));
    }
}

proof fn lemma_message_shown(
    d: Drawn,
    ls: Seq<Seq<char>>,
    n: int,
    look: MessageLook,
    labels: Seq<Seq<char>>,
    paths: Seq<String>,
)
    requires
        0 <= n <= ls.len(),
        look.text_w >= 0,
    ensures
        seen::seen(blocks::message_shown(d, ls, n, look, labels, paths).canvas) == seen::seen(
            d.canvas,
        ) + seen::ink(seen::flat(ls.take(n))),
    decreases n,
{
    broadcast use {seen::group_seen, seen::lemma_ink_fill};

    if n <= 0 {
        assert(ls.take(n) =~= seq![]);
        assert(seen::seen(d.canvas) + seen::ink(seen::flat(ls.take(n))) =~= seen::seen(d.canvas));
    } else {
        lemma_message_shown(d, ls, n - 1, look, labels, paths);
        let e = blocks::message_shown(d, ls, n - 1, look, labels, paths);
        let l = ls[n - 1];
        assert(ls.take(n) =~= ls.take(n - 1).push(l));
        let r = blocks::message_shown(d, ls, n, look, labels, paths);
        if l.len() == 0 {
            assert(seen::ink(l) =~= seq![]);
            assert(seen::seen(r.canvas) =~= seen::seen(e.canvas));
        } else {
            let chunks = wrap::wrapped(l, look.text_w);
            lemma_message_rows(e, chunks, chunks.len() as int, look, labels, paths);
            assert(chunks.take(chunks.len() as int) =~= chunks);
            seen::lemma_ink_wrapped(l, look.text_w);
        }
        assert(seen::seen(r.canvas) =~= seen::seen(d.canvas) + seen::ink(seen::flat(ls.take(n))));
    }
}

proof fn lemma_flat_of_nothing(ls: Seq<Seq<char>>)
    requires
        forall|i: int| 0 <= i < ls.len() ==> (#[trigger] ls[i]).len() == 0,
    ensures
        seen::flat(ls) == Seq::<char>::empty(),
    decreases ls.len(),
{
    if ls.len() > 0 {
        assert forall|i: int| 0 <= i < ls.drop_last().len() implies (#[trigger] ls.drop_last()[i]).len()
            == 0 by {
            assert(ls[i].len() == 0);
        }
        lemma_flat_of_nothing(ls.drop_last());
        assert(ls[ls.len() - 1].len() == 0);
        assert(seen::flat(ls) =~= seq![]);
    }
}

proof fn lemma_first_filled(ls: Seq<Seq<char>>, i: int)
    requires
        0 <= i <= ls.len(),
    ensures
        i <= blocks::first_filled(ls, i) <= ls.len(),
        forall|j: int| i <= j < blocks::first_filled(ls, i) ==> (#[trigger] ls[j]).len() == 0,
    decreases ls.len() - i,
{
    if i < ls.len() && ls[i].len() == 0 {
        lemma_first_filled(ls, i + 1);
    }
}

proof fn lemma_filled_end(ls: Seq<Seq<char>>, n: int)
    requires
        0 <= n <= ls.len(),
    ensures
        0 <= blocks::filled_end(ls, n) <= n,
        forall|j: int| blocks::filled_end(ls, n) <= j < n ==> (#[trigger] ls[j]).len() == 0,
    decreases n,
{
    if n > 0 && ls[n - 1].len() == 0 {
        lemma_filled_end(ls, n - 1);
    }
}

proof fn lemma_flat_trimmed(ls: Seq<Seq<char>>, ts: Seq<Seq<char>>)
    requires
        ls.len() == ts.len(),
        forall|i: int| 0 <= i < ls.len() ==> #[trigger] ts[i] == text::trim_back(ls[i]),
    ensures
        seen::ink(seen::flat(ts)) == seen::ink(seen::flat(ls)),
    decreases ls.len(),
{
    broadcast use seen::lemma_ink_add;

    if ls.len() > 0 {
        let a = ls.drop_last();
        let b = ts.drop_last();
        assert forall|i: int| 0 <= i < a.len() implies #[trigger] b[i] == text::trim_back(a[i]) by {
            assert(ts[i] == text::trim_back(ls[i]));
        }
        lemma_flat_trimmed(a, b);
        assert(ts[ts.len() - 1] == text::trim_back(ls[ls.len() - 1]));
        seen::lemma_ink_back(ls.last());
    }
}

/// The lines of a message show what the message shows.
pub proof fn law_message_lines_hold_the_text(t: Seq<char>)
    ensures
        seen::ink(seen::flat(blocks::message_lines(t))) == seen::ink(t),
{
    broadcast use seen::lemma_ink_add;

    let raw = text::lines_of(t);
    let ls = highlight::untabbed_lines(raw);
    seen::lemma_ink_lines(t);
    seen::lemma_ink_untabbed_lines(raw);
    let n = ls.len() as int;
    let from = blocks::first_filled(ls, 0);
    let to = blocks::filled_end(ls, n);
    lemma_first_filled(ls, 0);
    lemma_filled_end(ls, n);
    if from >= to {
        assert forall|i: int| 0 <= i < ls.len() implies (#[trigger] ls[i]).len() == 0 by {
            assert(i < from || i >= to);
        }
        lemma_flat_of_nothing(ls);
        assert(blocks::message_lines(t) =~= seq![]);
    } else {
        let a = ls.take(from);
        let b = ls.subrange(from, to);
        let c = ls.skip(to);
        assert forall|i: int| 0 <= i < a.len() implies (#[trigger] a[i]).len() == 0 by {
            assert(ls[i].len() == 0);
        }
        assert forall|i: int| 0 <= i < c.len() implies (#[trigger] c[i]).len() == 0 by {
            assert(ls[to + i].len() == 0);
        }
        lemma_flat_of_nothing(a);
        lemma_flat_of_nothing(c);
        assert(ls =~= a + b + c);
        seen::lemma_flat_add(a + b, c);
        seen::lemma_flat_add(a, b);
        assert(seen::flat(ls) =~= seen::flat(b));
        lemma_flat_trimmed(b, blocks::message_lines(t));
    }
}

/// A message of the user is shown whole: every character that can be seen,
/// in order, and no other.
pub proof fn law_user_message_is_shown(
    m: Canvas,
    t: Seq<char>,
    labels: Seq<Seq<char>>,
    width: int,
    env: Env,
)
    ensures
        seen::seen(blocks::user_message(m, t, labels, width, env).canvas) == seen::seen(m)
            + seen::ink(t),
{
    let ls = blocks::message_lines(t);
    let text_w = tools::at_least_one(bars::at_least_zero(width - 2));
    let look = MessageLook {
        text_w,
        block_w: blocks::message_width(ls, text_w, bars::capped(text_w + 1)),
        bg: env.theme.user_bg_color(),
        accent: env.theme.accent_color(),
        is_command: styled::is_one_of(env.commands@, text::trimmed(t)),
    };
    lemma_message_shown(out::drawn(m), ls, ls.len() as int, look, labels, env.paths@);
    assert(ls.take(ls.len() as int) =~= ls);
    law_message_lines_hold_the_text(t);
}

// ── Thoughts ─────────────────────────────────────────────────────────────

/// What rows behind a bar show.
pub open spec fn barred(segs: Seq<Seq<char>>) -> Seq<char>
    decreases segs.len(),
{
    if segs.len() == 0 {
        seq![]
    } else {
        barred(segs.drop_last()) + seq!['\u{2502}'] + seen::ink(segs.last())
    }
}

proof fn lemma_bar()
    ensures
        seen::ink(" \u{2502} "@) == seq!['\u{2502}'],
{
    broadcast use {seen::lemma_ink_push, seen::lemma_ink_fill};

    reveal_strlit(" \u{2502} ");
    assert(" \u{2502} "@ =~= text::fill(' ', 1).push('\u{2502}').push(' '));
    assert(seen::ink(" \u{2502} "@) =~= seq!['\u{2502}']);
}

proof fn lemma_barred_rows(d: Drawn, segs: Seq<Seq<char>>, n: int)
    requires
        0 <= n <= segs.len(),
    ensures
        seen::seen(blocks::barred_rows(d, segs, n).canvas) == seen::seen(d.canvas) + barred(
            segs.take(n),
        ),
    decreases n,
{
    broadcast use seen::group_seen;

    if n <= 0 {
        assert(segs.take(n) =~= seq![]);
        assert(seen::seen(d.canvas) + barred(segs.take(n)) =~= seen::seen(d.canvas));
    } else {
        lemma_barred_rows(d, segs, n - 1);
        lemma_bar();
        assert(segs.take(n).drop_last() =~= segs.take(n - 1));
        assert(seen::seen(blocks::barred_rows(d, segs, n).canvas) =~= seen::seen(d.canvas)
            + barred(segs.take(n)));
    }
}

/// How many of the first `n` lines show anything.
pub open spec fn solid_lines(ls: Seq<Seq<char>>, n: int) -> int
    decreases n,
{
    if n <= 0 {
        0
    } else if seen::ink(ls[n - 1]).len() > 0 {
        solid_lines(ls, n - 1) + 1
    } else {
        solid_lines(ls, n - 1)
    }
}

proof fn lemma_thought_lines(ls: Seq<Seq<char>>, n: int)
    ensures
        blocks::thought_lines(ls, n).1 == solid_lines(ls, n),
        solid_lines(ls, n) >= 0,
    decreases n,
{
    if n > 0 {
        lemma_thought_lines(ls, n - 1);
        seen::lemma_ink_trimmed(ls[n - 1]);
        lemma_trimmed_ink(ls[n - 1]);
    }
}

proof fn lemma_trimmed_ink(s: Seq<char>)
    ensures
        text::trimmed(s).len() == 0 <==> seen::ink(s).len() == 0,
{
    seen::lemma_ink_trimmed(s);
    let t = text::trimmed(s);
    if t.len() == 0 {
        assert(seen::ink(t).len() == 0);
    } else {
        seen::lemma_ink_front(s);
        lemma_back_ink(text::trim_front(s));
    }
}

proof fn lemma_back_ink(s: Seq<char>)
    requires
        text::trim_back(s).len() > 0,
    ensures
        seen::ink(s).len() > 0,
    decreases s.len(),
{
    if text::is_white(s.last()) {
        lemma_back_ink(s.drop_last());
    }
}

/// Hidden thoughts are counted by their lines that show anything; their
/// title is what the first such line has between two pairs of stars, and
/// `thinking` when it has none.
pub proof fn law_hidden_thoughts_are_counted(content: Seq<char>, first: int)
    requires
        0 <= first < text::lines_of(content).len(),
        seen::ink(text::lines_of(content)[first]).len() > 0,
        forall|i: int|
            0 <= i < first ==> seen::ink(#[trigger] text::lines_of(content)[i]).len() == 0,
    ensures
        ({
            let ls = text::lines_of(content);
            let t = text::trimmed(ls[first]);
            let s = blocks::thought_summary(content);
            &&& s.1 == solid_lines(ls, ls.len() as int)
            &&& s.0 == if t.len() > 4 && text::has_prefix(t, "**"@) && text::has_suffix(t, "**"@) {
                text::trimmed(t.subrange(2, t.len() - 2))
            } else {
                "thinking"@
            }
        }),
{
    let ls = text::lines_of(content);
    lemma_thought_lines(ls, ls.len() as int);
    lemma_title(ls, ls.len() as int, first);
}

proof fn lemma_title(ls: Seq<Seq<char>>, n: int, first: int)
    requires
        0 <= first < ls.len(),
        first < n <= ls.len(),
        seen::ink(ls[first]).len() > 0,
        forall|i: int| 0 <= i < first ==> seen::ink(#[trigger] ls[i]).len() == 0,
    ensures
        ({
            let t = text::trimmed(ls[first]);
            let a = blocks::thought_lines(ls, n);
            &&& a.1 >= 1
            &&& a.0 == if t.len() > 4 && text::has_prefix(t, "**"@) && text::has_suffix(t, "**"@) {
                Some(text::trimmed(t.subrange(2, t.len() - 2)))
            } else {
                None
            }
        }),
    decreases n,
{
    lemma_trimmed_ink(ls[n - 1]);
    if n == first + 1 {
        lemma_no_title(ls, first);
    } else {
        lemma_title(ls, n - 1, first);
    }
}

proof fn lemma_no_title(ls: Seq<Seq<char>>, n: int)
    requires
        0 <= n <= ls.len(),
        forall|i: int| 0 <= i < n ==> seen::ink(#[trigger] ls[i]).len() == 0,
    ensures
        blocks::thought_lines(ls, n) == (None::<Seq<char>>, 0int),
    decreases n,
{
    if n > 0 {
        lemma_no_title(ls, n - 1);
        assert(seen::ink(ls[n - 1]).len() == 0);
        lemma_trimmed_ink(ls[n - 1]);
    }
}

/// Thoughts that are shown are shown whole, row by row behind a bar; hidden
/// ones are summed up by their title and the number of their lines.
pub proof fn law_thoughts_are_shown(m: Canvas, content: Seq<char>, width: int) -> (r: (
    Seq<Seq<char>>,
    Seq<Seq<char>>,
))
    ensures
        seen::seen(blocks::thinking_block(m, content, width, true).canvas) == seen::seen(m)
            + barred(r.0),
        seen::ink(seen::flat(r.0)) == seen::ink(content),
        seen::seen(blocks::thinking_block(m, content, width, false).canvas) == seen::seen(m)
            + barred(r.1),
        ({
            let s = blocks::thought_summary(content);
            seen::ink(seen::flat(r.1)) == seen::ink(s.0) + seen::ink("("@) + seen::ink(
                text::dec(s.1 as nat),
            ) + seen::ink(
                if s.1 == 1 {
                    "line)"@
                } else {
                    "lines)"@
                },
            )
        }),
{
    broadcast use {seen::lemma_ink_add, seen::lemma_ink_fill};

    let cols = blocks::thought_columns(width);
    let ls = text::lines_of(content);
    let a = tools::wrapped_all(ls, ls.len() as int, cols);
    lemma_barred_rows(out::drawn(m), a, a.len() as int);
    assert(a.take(a.len() as int) =~= a);
    tools_laws::lemma_wrapped_all(ls, ls.len() as int, cols);
    assert(ls.take(ls.len() as int) =~= ls);
    seen::lemma_ink_lines(content);
    let s = blocks::thought_summary(content);
    lemma_thought_lines(ls, ls.len() as int);
    let n = s.1 as nat;
    let c = styled::counted(n, "line"@, "lines"@);
    let t = s.0 + " ("@ + (c + ")"@ + ""@);
    let b = wrap::wrapped(t, cols);
    lemma_barred_rows(out::drawn(m), b, b.len() as int);
    assert(b.take(b.len() as int) =~= b);
    seen::lemma_ink_wrapped(t, cols);
    reveal_strlit(" (");
    reveal_strlit("(");
    reveal_strlit(")");
    reveal_strlit("");
    reveal_strlit(" ");
    reveal_strlit("1 ");
    reveal_strlit("line");
    reveal_strlit("lines");
    reveal_strlit("line)");
    reveal_strlit("lines)");
    let sp = text::fill(' ', 1);
    assert(" ("@ =~= sp + "("@);
    assert(" "@ =~= sp);
    assert(c + ")"@ + ""@ =~= c + ")"@);
    if n == 1 {
        assert(text::dec(1) =~= seq!['1']);
        assert(c + ")"@ =~= text::dec(1) + sp + "line)"@);
    } else {
        assert(c + ")"@ =~= text::dec(n) + sp + "lines)"@);
    }
    assert(seen::ink(t) =~= seen::ink(s.0) + seen::ink("("@) + seen::ink(text::dec(n)) + seen::ink(
        if s.1 == 1 {
            "line)"@
        } else {
            "lines)"@
        },
    ));
    (a, b)
}

// ── Commands, hints and requests ─────────────────────────────────────────

/// A hint is shown as it is.
pub proof fn law_hint_is_shown(m: Canvas, content: Seq<char>)
    ensures
        seen::seen(blocks::hint_block(m, content).canvas) == seen::seen(m) + seen::ink(content),
        blocks::hint_block(m, content).rows == 1,
{
    broadcast use seen::group_seen;

}

pub proof fn lemma_command_line(m: Canvas, command: Seq<char>, width: int, bg: Color)
    ensures
        seen::seen(blocks::command_line(m, command, width, bg)) == seen::seen(m) + seen::ink("!"@)
            + seen::ink(command),
{
    broadcast use {seen::group_seen, seen::lemma_ink_fill};

    reveal_strlit(" !");
    reveal_strlit("!");
    assert(" !"@ =~= text::fill(' ', 1) + "!"@);
    let len = bars::capped(command.len() as int + 1);
    let pad_width = if bars::capped(len + 2) < width {
        bars::capped(len + 2)
    } else {
        width
    };
    let trailing = bars::at_least_zero(pad_width - bars::capped(len + 1));
    assert(seen::ink(text::fill(' ', trailing as nat)) =~= seq![]);
    assert(seen::seen(blocks::command_line(m, command, width, bg)) =~= seen::seen(m) + seen::ink(
        "!"@,
    ) + seen::ink(command));
}

/// A command that the user ran is shown behind an exclamation mark, and
/// below it its output: all of it, or the last twenty rows behind a note. A
/// command that still runs says for how long besides.
pub proof fn law_command_is_shown_with_its_output(
    m: Canvas,
    e: model::ActiveExec,
    width: int,
    bg: Color,
    env: Env,
)
    ensures
        ({
            let rows = tools::output_segments(e.output@, width);
            let shown = if e.output@.len() > 0 {
                tools_laws::tail_seen(rows)
            } else {
                Seq::<char>::empty()
            };
            let line = seen::seen(m) + seen::ink("!"@) + seen::ink(e.command@);
            &&& seen::seen(
                blocks::exec_block(m, e.command@, e.output@, width, bg).canvas,
            ) == line + shown
            &&& seen::ink(seen::flat(rows)) == seen::ink(e.output@)
            &&& e.start_ms <= env.now_ms ==> seen::seen(
                blocks::active_exec_drawn(m, e, width, env).canvas,
            ) == line + seen::ink(
                utils::duration_text(((env.now_ms - e.start_ms) / 1000) as nat),
            ) + shown
        }),
{
    broadcast use {seen::group_seen, seen::lemma_ink_fill};

    let none = Seq::<char>::empty();
    let rows = tools::output_segments(e.output@, width);
    tools_laws::law_rows_hold_the_text(e.output@, width);
    lemma_command_line(m, e.command@, width, bg);
    let a = blocks::command_line(m, e.command@, width, bg).crlf();
    tools_laws::lemma_wrapped_output(a, e.output@, false, width);
    let line = seen::seen(m) + seen::ink("!"@) + seen::ink(e.command@);
    assert(line + none =~= line);
    let ubg = env.theme.user_bg_color();
    lemma_command_line(m, e.command@, width, ubg);
    let secs = model::since(env.now_ms, e.start_ms) / 1000;
    let dur = utils::duration_text(secs as nat);
    reveal_strlit(" ");
    assert(" "@ =~= text::fill(' ', 1));
    let c = blocks::command_line(m, e.command@, width, ubg);
    let b = styled::dim_text(c, " "@ + dur).crlf();
    assert(seen::ink(" "@ + dur) =~= seen::ink(dur));
    assert(seen::seen(b) =~= line + seen::ink(dur));
    tools_laws::lemma_wrapped_output(b, e.output@, false, width);
    assert(line + seen::ink(dur) + none =~= line + seen::ink(dur));
}

/// What is said of an answer to a request.
pub open spec fn answer_words(c: ConfirmChoice) -> Seq<char> {
    match c {
        ConfirmChoice::Yes => "approved"@,
        ConfirmChoice::YesAutoApply => "approved"@,
        ConfirmChoice::No => "denied"@,
        ConfirmChoice::Always(ApprovalScope::Session) => "always"@,
        ConfirmChoice::Always(ApprovalScope::Workspace) => "always (workspace)"@,
        ConfirmChoice::AlwaysPatterns(p, ApprovalScope::Session) => "always ("@ + text::join_texts(
            text::texts(p@),
            ", "@,
        ) + ")"@,
        ConfirmChoice::AlwaysPatterns(p, ApprovalScope::Workspace) => "always workspace ("@
            + text::join_texts(text::texts(p@), ", "@) + ")"@,
        ConfirmChoice::AlwaysDir(d, ApprovalScope::Session) => "always (dir: "@ + d@ + ")"@,
        ConfirmChoice::AlwaysDir(d, ApprovalScope::Workspace) => "always workspace (dir: "@ + d@
            + ")"@,
    }
}

proof fn lemma_choice_shown(m: Canvas, c: ConfirmChoice)
    ensures
        seen::prints(blocks::choice_shown(m, c)) == seen::prints(m).push(answer_words(c)),
        c is No ==> seen::prints_behind(
            blocks::choice_shown(m, c).cmds,
            Command::SetForegroundColor(Color::Red),
        ) == seen::prints_behind(m.cmds, Command::SetForegroundColor(Color::Red)).push("denied"@),
{
    broadcast use seen::group_prints;

    reveal_strlit("always");
    reveal_strlit("");
    reveal_strlit(" (");
    reveal_strlit(" (workspace)");
    reveal_strlit("always (workspace)");
    reveal_strlit(" workspace");
    reveal_strlit("always (");
    reveal_strlit("always workspace (");
    reveal_strlit(" (dir: ");
    reveal_strlit("always (dir: ");
    reveal_strlit("always workspace (dir: ");
    reveal_strlit(")");
    match c {
        ConfirmChoice::Always(s) => {
            assert("always"@ + blocks::scope_suffix(s, " (workspace)"@) =~= answer_words(c));
        },
        ConfirmChoice::AlwaysPatterns(p, s) => {
            let d = text::join_texts(text::texts(p@), ", "@);
            assert("always"@ + blocks::scope_suffix(s, " workspace"@) + (" ("@ + d + ")"@)
                =~= answer_words(c));
        },
        ConfirmChoice::AlwaysDir(d, s) => {
            assert("always"@ + blocks::scope_suffix(s, " workspace"@) + (" (dir: "@ + d@ + ")"@)
                =~= answer_words(c));
        },
        ConfirmChoice::No => {
            tools_laws::lemma_row_behind(m, "denied"@, true);
            reveal(Canvas::queue);
            reveal(Canvas::print);
            let red = Command::SetForegroundColor(Color::Red);
            let a = m.cmds.push(red);
            let b = a.push(Command::Print("denied"@));
            seen::lemma_behind_push(m.cmds, red, red);
            seen::lemma_behind_push(a, Command::Print("denied"@), red);
            seen::lemma_behind_push(b, Command::ResetColor, red);
        },
        _ => {},
    }
}

proof fn lemma_request_rows(m: Canvas, segs: Seq<Seq<char>>, n: int)
    requires
        0 <= n <= segs.len(),
    ensures
        seen::seen(blocks::request_rows(m, segs, n)) == seen::seen(m) + (if n > 0 {
            seq!['\u{2502}']
        } else {
            Seq::<char>::empty()
        }) + seen::ink(seen::flat(segs.take(n))),
    decreases n,
{
    broadcast use {seen::group_seen, seen::lemma_ink_fill, seen::lemma_ink_push};

    if n <= 0 {
        assert(segs.take(n) =~= seq![]);
        assert(seen::seen(m) + Seq::<char>::empty() + seen::ink(seen::flat(segs.take(n)))
            =~= seen::seen(m));
    } else {
        lemma_request_rows(m, segs, n - 1);
        let a = blocks::request_rows(m, segs, n - 1);
        assert(segs.take(n) =~= segs.take(n - 1).push(segs[n - 1]));
        reveal_strlit("   \u{2502} ");
        reveal_strlit("     ");
        assert("     "@ =~= text::fill(' ', 5));
        assert("   \u{2502} "@ =~= text::fill(' ', 3).push('\u{2502}').push(' '));
        assert(seen::ink("   \u{2502} "@) =~= seq!['\u{2502}']);
        if n == 1 {
            assert(segs.take(0) =~= seq![]);
            assert(a == m);
        }
        assert(seen::seen(blocks::request_rows(m, segs, n)) =~= seen::seen(m) + seq!['\u{2502}']
            + seen::ink(seen::flat(segs.take(n))));
    }
}

/// A request for permission names the tool, says what it is about, and says
/// what was answered.
pub proof fn law_request_is_shown_with_its_answer(
    m: Canvas,
    tool: Seq<char>,
    desc: Seq<char>,
    choice: Option<ConfirmChoice>,
    width: int,
)
    ensures
        seen::seen(blocks::confirm_block(m, tool, desc, choice, width).canvas) == seen::seen(m)
            + seen::ink("allow?"@) + seen::ink(tool) + seq!['\u{2502}'] + seen::ink(desc) + (
        match choice {
            Some(c) => seen::ink(answer_words(c)),
            None => Seq::<char>::empty(),
        }),
{
    broadcast use {seen::group_seen, seen::lemma_ink_fill};

    reveal_strlit("   allow? ");
    reveal_strlit("allow?");
    reveal_strlit("   ");
    assert("   allow? "@ =~= text::fill(' ', 3) + "allow?"@ + text::fill(' ', 1));
    assert("   "@ =~= text::fill(' ', 3));
    assert(seen::ink("   allow? "@) =~= seen::ink("allow?"@));
    let cols = bars::at_least_zero(width - 5);
    let segs = wrap::wrapped(desc, cols);
    seen::lemma_ink_wrapped(desc, cols);
    lemma_wrapped_some(desc, cols);
    let a = m.queue(
        Command::SetForegroundColor(Color::AnsiValue(theme::APPLY)),
    ).print("   allow? "@).queue(Command::ResetColor);
    let b = styled::dim_text(a, tool).crlf();
    assert(seen::seen(b) =~= seen::seen(m) + seen::ink("allow?"@) + seen::ink(tool));
    lemma_request_rows(b, segs, segs.len() as int);
    assert(segs.take(segs.len() as int) =~= segs);
    let c = blocks::request_rows(b, segs, segs.len() as int);
    match choice {
        Some(x) => {
            lemma_choice_shown(c.print("   "@), x);
        },
        None => {},
    }
    assert(seen::seen(blocks::confirm_block(m, tool, desc, choice, width).canvas) =~= seen::seen(m)
        + seen::ink("allow?"@) + seen::ink(tool) + seq!['\u{2502}'] + seen::ink(desc) + (
    match choice {
        Some(c) => seen::ink(answer_words(c)),
        None => Seq::<char>::empty(),
    }));
}

proof fn lemma_wrapped_some(s: Seq<char>, width: int)
    requires
        width >= 0,
    ensures
        wrap::wrapped(s, width).len() > 0,
{
    if width > 0 {
        let parts = text::split_on(s, '\n');
        assert(parts.len() >= 1);
        let n = parts.len() as int;
        assert(wrap::wrapped_lines(parts, n, width) == wrap::wrapped_lines(parts, n - 1, width)
            + wrap::wrapped_logical(parts[n - 1], width));
    }
}

// ── Agents ───────────────────────────────────────────────────────────────

/// What is shown of calls of an agent from `from` up to `to`: behind a bar,
/// the tool, the summary as far as it fits, and how long the call took.
pub open spec fn calls_seen(es: Seq<AgentToolEntry>, from: int, to: int, width: int) -> Seq<char>
    decreases to - from,
{
    if from >= to {
        seq![]
    } else {
        let e = es[to - 1];
        calls_seen(es, from, to - 1, width) + seq!['\u{2502}'] + seen::ink(e.tool_name@)
            + seen::ink(text::clipped(e.summary@, blocks::entry_columns(e, width))) + seen::ink(
            tools::time_suffix(e.elapsed_ms),
        )
    }
}

proof fn lemma_agent_entry(m: Canvas, e: AgentToolEntry, width: int)
    ensures
        seen::seen(blocks::agent_entry(m, e, width)) == seen::seen(m) + seq!['\u{2502}']
            + seen::ink(e.tool_name@) + seen::ink(
            text::clipped(e.summary@, blocks::entry_columns(e, width)),
        ) + seen::ink(tools::time_suffix(e.elapsed_ms)),
{
    broadcast use {seen::group_seen, seen::lemma_ink_fill};

    lemma_bar();
    reveal_strlit(" ");
    assert(" "@ =~= text::fill(' ', 1));
    let time = tools::time_suffix(e.elapsed_ms);
    if time.len() == 0 {
        assert(seen::ink(time) =~= seq![]);
    }
    assert(seen::seen(blocks::agent_entry(m, e, width)) =~= seen::seen(m) + seq!['\u{2502}']
        + seen::ink(e.tool_name@) + seen::ink(
        text::clipped(e.summary@, blocks::entry_columns(e, width)),
    ) + seen::ink(time));
}

proof fn lemma_agent_entries(d: Drawn, es: Seq<AgentToolEntry>, from: int, to: int, width: int)
    ensures
        seen::seen(blocks::agent_entries(d, es, from, to, width).canvas) == seen::seen(d.canvas)
            + calls_seen(es, from, to, width),
    decreases to - from,
{
    if from >= to {
        assert(seen::seen(d.canvas) + calls_seen(es, from, to, width) =~= seen::seen(d.canvas));
    } else {
        lemma_agent_entries(d, es, from, to - 1, width);
        let a = blocks::agent_entries(d, es, from, to - 1, width);
        lemma_agent_entry(a.canvas, es[to - 1], width);
        assert(seen::seen(blocks::agent_entries(d, es, from, to, width).canvas) =~= seen::seen(
            d.canvas,
        ) + calls_seen(es, from, to, width));
    }
}

/// What is shown of an agent's name, task, and end.
pub open spec fn agent_head(
    agent_id: Seq<char>,
    slug: Option<Seq<char>>,
    status: AgentBlockStatus,
    elapsed: Option<u64>,
) -> Seq<char> {
    seen::ink("+"@) + seen::ink(agent_id) + (match slug {
        Some(s) => seen::ink("\u{00b7}"@) + seen::ink(s),
        None => Seq::<char>::empty(),
    }) + (match status {
        AgentBlockStatus::Done => seen::ink("\u{2713}"@),
        AgentBlockStatus::Error => seen::ink("\u{2717}"@),
        AgentBlockStatus::Running => Seq::<char>::empty(),
    }) + seen::ink(tools::time_suffix(elapsed))
}

/// An agent is shown by its name. One that is waited for is shown with its
/// task, a tick when it is done and a cross when it failed, how long it took,
/// and its last three calls, oldest first; of any other only that it was
/// started.
#[verifier::rlimit(60)]
#[verifier::spinoff_prover]
pub proof fn law_agent_is_shown(
    m: Canvas,
    agent_id: Seq<char>,
    slug: Option<Seq<char>>,
    calls: Seq<AgentToolEntry>,
    status: AgentBlockStatus,
    elapsed: Option<u64>,
    width: int,
)
    ensures
        seen::seen(
            blocks::agent_block(
                m,
                agent_id,
                slug,
                false,
                calls,
                status,
                elapsed,
                width,
            ).canvas,
        ) == seen::seen(m) + seen::ink("+"@) + seen::ink(agent_id) + seen::ink("started"@),
        seen::seen(
            blocks::agent_block(m, agent_id, slug, true, calls, status, elapsed, width).canvas,
        ) == seen::seen(m) + agent_head(agent_id, slug, status, elapsed) + calls_seen(
            calls,
            if calls.len() > 3 {
                calls.len() - 3
            } else {
                0
            },
            calls.len() as int,
            width,
        ) + seen::ink("\u{2570}"@) + seen::ink(
            text::fill('\u{2500}', bars::at_least_zero(width - 2) as nat),
        ),
{
    broadcast use {seen::group_seen, seen::lemma_ink_fill};

    let sp = text::fill(' ', 1);
    reveal_strlit(" + ");
    reveal_strlit("+");
    reveal_strlit(" started");
    reveal_strlit("started");
    reveal_strlit(" \u{00b7} ");
    reveal_strlit("\u{00b7}");
    reveal_strlit(" \u{2713}");
    reveal_strlit("\u{2713}");
    reveal_strlit(" \u{2717}");
    reveal_strlit("\u{2717}");
    reveal_strlit(" \u{2570}");
    reveal_strlit("\u{2570}");
    assert(" + "@ =~= sp + "+"@ + sp);
    assert(" started"@ =~= sp + "started"@);
    assert(" \u{00b7} "@ =~= sp + "\u{00b7}"@ + sp);
    assert(" \u{2713}"@ =~= sp + "\u{2713}"@);
    assert(" \u{2717}"@ =~= sp + "\u{2717}"@);
    assert(" \u{2570}"@ =~= sp + "\u{2570}"@);
    let plus = seen::ink("+"@) + seen::ink(agent_id);
    assert(seen::ink(" + "@ + agent_id) =~= plus);
    let muted = Command::SetForegroundColor(Color::AnsiValue(theme::MUTED));
    let agent = Command::SetForegroundColor(Color::AnsiValue(theme::AGENT));
    let a = m.queue(agent).queue(Command::SetAttribute(Attribute::Bold)).print(
        " + "@ + agent_id,
    ).queue(Command::SetAttribute(Attribute::NormalIntensity));
    assert(seen::seen(a) =~= seen::seen(m) + plus);
    let started = blocks::plain_end(a.queue(muted).print(" started"@));
    assert(seen::ink(" started"@) =~= seen::ink("started"@));
    assert(seen::seen(started) =~= seen::seen(m) + seen::ink("+"@) + seen::ink(agent_id)
        + seen::ink("started"@));
    let b = match slug {
        Some(s) => a.queue(Command::SetAttribute(Attribute::Dim)).print(
            " \u{00b7} "@ + s,
        ).queue(Command::SetAttribute(Attribute::NormalIntensity)),
        None => a,
    };
    let st = match slug {
        Some(s) => seen::ink("\u{00b7}"@) + seen::ink(s),
        None => Seq::<char>::empty(),
    };
    assert(seen::seen(b) =~= seen::seen(m) + plus + st);
    let c = match status {
        AgentBlockStatus::Done => b.queue(
            Command::SetForegroundColor(Color::AnsiValue(theme::SUCCESS)),
        ).print(" \u{2713}"@),
        AgentBlockStatus::Error => b.queue(Command::SetForegroundColor(theme::ERROR)).print(
            " \u{2717}"@,
        ),
        AgentBlockStatus::Running => b,
    };
    let mark = match status {
        AgentBlockStatus::Done => seen::ink("\u{2713}"@),
        AgentBlockStatus::Error => seen::ink("\u{2717}"@),
        AgentBlockStatus::Running => Seq::<char>::empty(),
    };
    assert(seen::seen(c) =~= seen::seen(m) + plus + st + mark);
    let time = tools::time_suffix(elapsed);
    let d = if time.len() > 0 {
        c.queue(Command::SetAttribute(Attribute::Dim)).queue(muted).print(time).queue(
            Command::SetAttribute(Attribute::NormalIntensity),
        )
    } else {
        c
    };
    if time.len() == 0 {
        assert(seen::ink(time) =~= seq![]);
    }
    let head = agent_head(agent_id, slug, status, elapsed);
    assert(head =~= plus + st + mark + seen::ink(time));
    assert(seen::seen(d) =~= seen::seen(m) + head);
    let e = out::drawn(d).row(blocks::plain_end(d));
    assert(seen::seen(e.canvas) =~= seen::seen(m) + head);
    let n = calls.len() as int;
    let from = bars::at_least_zero(n - 3);
    lemma_agent_entries(e, calls, from, n, width);
    let f = blocks::agent_entries(e, calls, from, n, width);
    let fill = text::fill('\u{2500}', bars::at_least_zero(width - 2) as nat);
    assert(seen::ink(" \u{2570}"@ + fill) =~= seen::ink("\u{2570}"@) + seen::ink(fill));
    let g = f.canvas.queue(agent).print(" \u{2570}"@ + fill).queue(Command::ResetColor).crlf();
    assert(seen::seen(g) =~= seen::seen(m) + head + calls_seen(calls, from, n, width) + seen::ink(
        "\u{2570}"@,
    ) + seen::ink(fill));
}

// ── Gaps ─────────────────────────────────────────────────────────────────

/// Whether a part of the conversation stands apart from what is around it.
pub open spec fn stands_apart(b: Block) -> bool {
    b is User || b is Hint || b is Exec || b is Compacted || b is AgentMessage || b is Agent
}

/// Parts that stand apart have an empty line on either side, lines of code
/// and thoughts have none between them, a request has none to its tool, and
/// a text has none to what follows a heading at its end.
pub proof fn law_gaps(a: Block, b: Block)
    ensures
        ({
            let g = blocks::gap(blocks::block_kind(a), blocks::block_kind(b));
            &&& g <= 1
            &&& stands_apart(a) || stands_apart(b) ==> g == 1
            &&& a is CodeLine && b is CodeLine ==> g == 0
            &&& a is Thinking && b is Thinking ==> g == 0
            &&& (a is CodeLine) != (b is CodeLine) && !(a is Text) ==> g == 1
            &&& (a is Thinking) != (b is Thinking) ==> g == 1
            &&& a is ToolCall && b is ToolCall ==> g == 1
            &&& a is ToolCall && b is Text ==> g == 1
            &&& a is Text && b is ToolCall ==> g == 1
            &&& a is Confirm && (b is ToolCall || b is Text || b is Confirm) ==> g == 0
            &&& (a is ToolCall || a is Text) && b is Confirm ==> g == 0
            &&& a matches Block::Text { content } ==> (b is Text || b is CodeLine ==> g == (
            if blocks::ends_with_heading(content@) {
                0u16
            } else {
                1u16
            }))
        }),
{
}

} // verus!
