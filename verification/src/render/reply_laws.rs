//! What a reader sees of answers to questions, of agents that a call names,
//! and of what calls changed or found.

use vstd::prelude::*;

use crate::json;
use crate::json::Json;
use crate::render::bars;
use crate::render::diff;
use crate::render::model::{ToolOutput, ToolOutputRenderCache};
use crate::render::out;
use crate::render::out::{Canvas, Drawn};
use crate::render::seen;
use crate::render::styled::Env;
use crate::render::tools;
use crate::render::tools_laws;
use crate::render::wrap;
use crate::render::wrap_laws;
use crate::text;

verus! {

// ── Answers ──────────────────────────────────────────────────────────────

/// Texts that are all there.
pub open spec fn given(ts: Seq<Seq<char>>) -> Seq<Option<Seq<char>>> {
    Seq::new(ts.len(), |i: int| Some(ts[i]))
}

proof fn lemma_present(ts: Seq<Seq<char>>, n: int)
    requires
        0 <= n <= ts.len(),
    ensures
        tools::present(given(ts), n) == ts.take(n),
    decreases n,
{
    if n > 0 {
        lemma_present(ts, n - 1);
        assert(given(ts)[n - 1] == Some(ts[n - 1]));
    }
    assert(tools::present(given(ts), n) =~= ts.take(n));
}

/// What the first `n` of the questions and their answers show.
pub open spec fn replies_seen(rs: Seq<(Seq<char>, Seq<Seq<char>>)>, n: int) -> Seq<char>
    decreases n,
{
    if n <= 0 {
        seq![]
    } else {
        replies_seen(rs, n - 1) + seen::ink(rs[n - 1].0) + seen::ink(
            text::join_texts(rs[n - 1].1, ", "@),
        )
    }
}

/// Every question is shown whole, with all that was answered behind it.
pub proof fn law_answers_are_shown(
    d: Drawn,
    answers: Seq<(Seq<char>, bool, Seq<Option<Seq<char>>>)>,
    rs: Seq<(Seq<char>, Seq<Seq<char>>)>,
    n: int,
    cols: int,
)
    requires
        0 <= n <= answers.len(),
        cols >= 0,
        rs.len() == answers.len(),
        forall|i: int|
            0 <= i < rs.len() ==> (#[trigger] answers[i]).0 == rs[i].0 && answers[i].2 == given(
                rs[i].1,
            ),
    ensures
        seen::seen(tools::answers_shown(d, answers, n, cols).canvas) == seen::seen(d.canvas)
            + replies_seen(rs, n),
    decreases n,
{
    broadcast use {seen::lemma_ink_add, seen::lemma_ink_fill};

    if n <= 0 {
        assert(seen::seen(d.canvas) + replies_seen(rs, n) =~= seen::seen(d.canvas));
    } else {
        law_answers_are_shown(d, answers, rs, n - 1, cols);
        let a = answers[n - 1];
        let ts = rs[n - 1].1;
        lemma_present(ts, ts.len() as int);
        assert(ts.take(ts.len() as int) =~= ts);
        let t = text::join_texts(ts, ", "@);
        let line = a.0 + " "@ + t;
        reveal_strlit(" ");
        assert(" "@ =~= text::fill(' ', 1));
        assert(seen::ink(line) =~= seen::ink(a.0) + seen::ink(t));
        let segs = wrap::wrapped(line, cols);
        seen::lemma_ink_wrapped(line, cols);
        tools_laws::lemma_output_rows(
            tools::answers_shown(d, answers, n - 1, cols),
            segs,
            segs.len() as int,
            false,
        );
        assert(segs.take(segs.len() as int) =~= segs);
        assert(seen::seen(tools::answers_shown(d, answers, n, cols).canvas) =~= seen::seen(
            d.canvas,
        ) + replies_seen(rs, n));
    }
}

/// Answers that cannot be read are shown as the text that they are.
pub proof fn law_unread_answers_are_shown(m: Canvas, content: Seq<char>, width: int)
    ensures
        seen::seen(tools::question_output(m, content, None, width).canvas) == seen::seen(m)
            + seen::ink(content),
{
    let cols = bars::at_least_zero(width - 4);
    let segs = wrap::wrapped(content, cols);
    seen::lemma_ink_wrapped(content, cols);
    tools_laws::lemma_output_rows(out::drawn(m), segs, segs.len() as int, false);
    assert(segs.take(segs.len() as int) =~= segs);
}

// ── Agents that are named ────────────────────────────────────────────────

proof fn lemma_find_from(s: Seq<char>, p: Seq<char>, from: int)
    requires
        0 <= from,
    ensures
        text::find_from(s, p, from) <= s.len() ==> text::find_from(s, p, from) >= from
            && text::stands_at(s, p, text::find_from(s, p, from)),
    decreases s.len() + 1 - from,
{
    if from <= s.len() && !text::stands_at(s, p, from) {
        lemma_find_from(s, p, from + 1);
    }
}

proof fn lemma_parts_join(s: Seq<char>, sep: Seq<char>, from: int)
    requires
        0 <= from <= s.len(),
    ensures
        text::parts_from(s, sep, from).len() > 0,
        text::join_texts(text::parts_from(s, sep, from), sep) == s.skip(from),
    decreases s.len() - from,
{
    let at = text::find_from(s, sep, from);
    lemma_find_from(s, sep, from);
    if !(sep.len() == 0 || at < from || at + sep.len() > s.len()) {
        let next = at + sep.len();
        lemma_parts_join(s, sep, next);
        let rest = text::parts_from(s, sep, next);
        wrap_laws::lemma_join_front(s.subrange(from, at), rest, sep);
        assert(s.skip(from) =~= s.subrange(from, at) + sep + s.skip(next)) by {
            assert(s.subrange(at, next) == sep);
            assert(s.skip(from) =~= s.subrange(from, at) + s.subrange(at, next) + s.skip(next));
        }
    }
}

proof fn lemma_names(m: Canvas, names: Seq<Seq<char>>, n: int)
    requires
        0 <= n <= names.len(),
    ensures
        seen::seen(tools::names_printed(m, names, n)) == seen::seen(m) + seen::ink(
            text::join_texts(names.take(n), ", "@),
        ),
    decreases n,
{
    broadcast use {seen::group_seen, seen::lemma_ink_trimmed};

    if n <= 0 {
        assert(names.take(0) =~= seq![]);
        assert(seen::ink(text::join_texts(names.take(0), ", "@)) =~= seq![]);
        assert(seen::seen(m) + Seq::<char>::empty() =~= seen::seen(m));
    } else {
        lemma_names(m, names, n - 1);
        assert(names.take(n).drop_last() =~= names.take(n - 1));
        if n == 1 {
            assert(names.take(0) =~= seq![]);
            assert(seen::ink(text::join_texts(names.take(0), ", "@)) =~= seq![]);
            assert(text::join_texts(names.take(1), ", "@) == names[0]);
        }
        assert(seen::seen(tools::names_printed(m, names, n)) =~= seen::seen(m) + seen::ink(
            text::join_texts(names.take(n), ", "@),
        ));
    }
}

proof fn lemma_names_end(s: Seq<char>, from: int)
    requires
        0 <= from <= s.len(),
    ensures
        from <= tools::names_end(s, from) <= s.len(),
    decreases s.len() - from,
{
    let a = tools::solid_char_from(s, from);
    tools::lemma_name_scans(s, from);
    tools::lemma_name_scans(s, a);
    let w = tools::name_stop(s, a);
    if w != a && text::stands_at(s, ", "@, w) && w + 2 <= s.len() {
        lemma_names_end(s, w + 2);
    }
}

/// A summary that names agents is shown whole.
pub proof fn law_named_agents_are_shown(m: Canvas, s: Seq<char>)
    ensures
        seen::seen(tools::agent_summary(m, s)) == seen::seen(m) + seen::ink(s),
{
    broadcast use seen::group_seen;

    let end = tools::names_end(s, 0);
    lemma_names_end(s, 0);
    let t = s.take(end);
    let names = text::parts_from(t, ", "@, 0);
    lemma_parts_join(t, ", "@, 0);
    assert(t.skip(0) =~= t);
    lemma_names(m, names, names.len() as int);
    assert(names.take(names.len() as int) =~= names);
    assert(s =~= t + s.skip(end));
    if end == 0 {
        assert(seen::ink(t) =~= seq![]);
    }
    if end == s.len() {
        assert(seen::ink(s.skip(end)) =~= seq![]);
    }
    assert(seen::seen(tools::agent_summary(m, s)) =~= seen::seen(m) + seen::ink(s));
}

// ── Changes ──────────────────────────────────────────────────────────────

/// An edit shows the difference between the text that it took out and the one
/// that it put in, in the file that it changed; an edit that only took text
/// out shows how many lines it took.
pub proof fn law_edit_shows_its_difference(
    m: Canvas,
    o: ToolOutput,
    args: Seq<(String, Json)>,
    width: usize,
    env: Env,
)
    requires
        !o.is_error,
    ensures
        ({
            let r = tools::tool_output(m, "edit_file"@, o, args, width, env);
            let was = json::text_or_empty(args, "old_string"@);
            let now = json::text_or_empty(args, "new_string"@);
            let path = json::text_or_empty(args, "file_path"@);
            let d = diff::inline_diff(
                m,
                env.file(path),
                was,
                now,
                diff::file_extension(path),
                now,
                0,
                0,
                env.term_width,
            );
            let n = text::lines_of(was).len();
            &&& now.len() > 0 && !(o.render_cache matches Some(
                ToolOutputRenderCache::InlineDiff(_),
            )) ==> r.canvas == d.0 && r.rows == d.1
            &&& now.len() == 0 ==> r.rows == 1 && seen::seen(r.canvas) == seen::seen(m) + seen::ink(
                text::dec(n),
            ) + seen::ink(
                if n == 1 {
                    "line deleted"@
                } else {
                    "lines deleted"@
                },
            )
        }),
{
    tools_laws::lemma_names();
    reveal(tools::tool_output);
    let n = text::lines_of(json::text_or_empty(args, "old_string"@)).len();
    tools_laws::lemma_count_row(m, n, "line deleted"@, "lines deleted"@);
}

/// A call that wrote a file shows the lines that it wrote, with their numbers.
pub proof fn law_written_file_is_shown(
    m: Canvas,
    o: ToolOutput,
    args: Seq<(String, Json)>,
    width: usize,
    env: Env,
)
    requires
        !o.is_error,
    ensures
        ({
            let r = tools::tool_output(m, "write_file"@, o, args, width, env);
            let w = diff::file_window(
                m,
                text::lines_of(json::text_or_empty(args, "content"@)),
                diff::file_extension(json::text_or_empty(args, "file_path"@)),
                0,
                0,
                env.term_width,
            );
            r.canvas == w.canvas && r.rows == w.emitted
        }),
{
    tools_laws::lemma_names();
    reveal(tools::tool_output);
}

// ── Search results ───────────────────────────────────────────────────────

proof fn lemma_first_period(s: Seq<char>, from: int, at: int)
    requires
        0 <= from <= at,
        at + 2 <= s.len(),
        forall|i: int| from <= i < at ==> (#[trigger] s[i]) != '.',
        s[at] == '.',
        s[at + 1] == ' ',
    ensures
        text::find_from(s, ". "@, from) == at,
    decreases at - from,
{
    reveal_strlit(". ");
    if from < at {
        if text::stands_at(s, ". "@, from) {
            assert(s.subrange(from, from + 2)[0] == '.');
            assert(s[from] == '.');
        }
        lemma_first_period(s, from + 1, at);
    } else {
        assert(s.subrange(at, at + 2) =~= ". "@);
    }
}

/// The title of a result is what stands behind its number, a period and a
/// space; a line that does not start with a number has none.
pub proof fn law_title_is_read(n: nat, t: Seq<char>)
    ensures
        tools::result_title(text::dec(n) + ". "@ + t) == Some(t),
        t.len() > 0 && !('0' <= t[0] <= '9') ==> tools::result_title(t) is None,
{
    let d = text::dec(n);
    text::law_number_reads_back(n);
    reveal_strlit(". ");
    let s = d + ". "@ + t;
    let k = d.len() as int;
    assert forall|i: int| 0 <= i < k implies (#[trigger] s[i]) != '.' by {
        assert(s[i] == d[i]);
        assert('0' <= d[i] <= '9');
    }
    lemma_first_period(s, 0, k);
    assert forall|i: int| 0 <= i < k implies tools::is_digit(#[trigger] s[i]) by {
        assert(s[i] == d[i]);
        assert('0' <= d[i] <= '9');
    }
    assert(s.skip(k + 2) =~= t);
    if t.len() > 0 && !('0' <= t[0] <= '9') && tools::result_title(t) is Some {
        assert(tools::is_digit(t[0]));
    }
}

/// What the titles in the first `n` lines show.
pub open spec fn titles_seen(ls: Seq<Seq<char>>, n: int) -> Seq<char>
    decreases n,
{
    if n <= 0 {
        seq![]
    } else {
        titles_seen(ls, n - 1) + match tools::result_title(ls[n - 1]) {
            Some(t) => seen::ink(t),
            None => Seq::<char>::empty(),
        }
    }
}

/// Search results are shown by their titles, in order.
pub proof fn law_titles_are_shown(d: Drawn, ls: Seq<Seq<char>>, n: int)
    requires
        0 <= n,
    ensures
        seen::seen(tools::titles(d, ls, n).canvas) == seen::seen(d.canvas) + titles_seen(ls, n),
    decreases n,
{
    broadcast use {seen::group_seen, seen::lemma_ink_fill};

    if n <= 0 {
        assert(seen::seen(d.canvas) + titles_seen(ls, n) =~= seen::seen(d.canvas));
    } else {
        law_titles_are_shown(d, ls, n - 1);
        reveal_strlit("   ");
        assert("   "@ =~= text::fill(' ', 3));
        match tools::result_title(ls[n - 1]) {
            Some(t) => {
                assert(seen::ink("   "@ + t) =~= seen::ink(t));
            },
            None => {},
        }
        assert(seen::seen(tools::titles(d, ls, n).canvas) =~= seen::seen(d.canvas) + titles_seen(
            ls,
            n,
        ));
    }
}

} // verus!
