//! Which paths and commands a picture depends on, so that they can be looked
//! up before it is drawn.

use vstd::prelude::*;

use crate::render::bars;
use crate::render::blocks;
use crate::render::blocks::{split_message, MessageLook};
use crate::render::highlight;
use crate::render::out;
use crate::render::out::{Canvas, Color, Drawn};
use crate::render::prompt;
use crate::render::prompt::untabbed_message;
use crate::render::spans;
use crate::render::spans::{scan_at_token, shortened, Spanning};
use crate::render::styled;
use crate::render::styled::Env;
use crate::render::tools;
use crate::render::wrap;
use crate::render::wrap::wrap_line;
use crate::text;
use crate::text::{char_count, chars_of, take_chars};

verus! {

/// The paths that decide on the reference at `i`: its path, and the path
/// without the punctuation behind it.
pub open spec fn asked_at(s: Seq<char>, i: int) -> Seq<Seq<char>> {
    match spans::at_token(s, i) {
        Some(t) => {
            let short = spans::short_path(t.path);
            if 0 < short.len() < t.path.len() {
                seq![t.path, short]
            } else {
                seq![t.path]
            }
        },
        None => seq![],
    }
}

/// The paths that decide on the references at the first `n` positions.
pub open spec fn asked(s: Seq<char>, n: int) -> Seq<Seq<char>>
    decreases n,
{
    if n <= 0 {
        seq![]
    } else {
        asked(s, n - 1) + asked_at(s, n - 1)
    }
}

/// The paths that decide on the references in the first `n` texts.
pub open spec fn asked_in(ts: Seq<Seq<char>>, n: int) -> Seq<Seq<char>>
    decreases n,
{
    if n <= 0 {
        seq![]
    } else {
        asked_in(ts, n - 1) + asked(ts[n - 1], ts[n - 1].len() as int)
    }
}

/// The paths that decide on the references in the first `n` lines when they
/// are wrapped; an empty line has none.
pub open spec fn asked_in_lines(ls: Seq<Seq<char>>, n: int, width: int) -> Seq<Seq<char>>
    decreases n,
{
    if n <= 0 {
        seq![]
    } else {
        let before = asked_in_lines(ls, n - 1, width);
        if ls[n - 1].len() == 0 {
            before
        } else {
            let chunks = wrap::wrapped(ls[n - 1], width);
            before + asked_in(chunks, chunks.len() as int)
        }
    }
}

/// Columns of a message's text.
pub open spec fn message_columns(width: int) -> int {
    tools::at_least_one(bars::at_least_zero(width - 2))
}

/// Appends texts.
fn push_all(v: &mut Vec<String>, more: Vec<String>)
    ensures
        text::texts(final(v)@) == text::texts(old(v)@) + text::texts(more@),
{
    let ghost before = text::texts(v@);
    let ghost all = text::texts(more@);
    let n: usize = more.len();
    let mut i: usize = 0;
    assert(before + all.take(0) =~= before);
    while i < n
        invariant
            n == more@.len(),
            all == text::texts(more@),
            i <= n,
            text::texts(v@) == before + all.take(i as int),
        decreases n - i,
    {
        let t = more[i].clone();
        proof {
            text::lemma_texts_push(v@, t);
            assert(all[i as int] == more@[i as int]@);
            assert(all.take(i + 1) =~= all.take(i as int).push(t@));
            assert(before + all.take(i + 1) =~= (before + all.take(i as int)).push(t@));
        }
        v.push(t);
        i = i + 1;
    }
    assert(all.take(n as int) =~= all);
}

/// The paths that decide on the references in a text.
pub fn asked_paths(t: &str) -> (r: Vec<String>)
    ensures
        text::texts(r@) == asked(t@, t@.len() as int),
{
    let chars = chars_of(t);
    let n: usize = chars.len();
    let mut v: Vec<String> = Vec::new();
    let mut i: usize = 0;
    assert(text::texts(v@) =~= Seq::<Seq<char>>::empty());
    while i < n
        invariant
            chars@ == t@,
            n == chars@.len(),
            i <= n,
            text::texts(v@) == asked(t@, i as int),
        decreases n - i,
    {
        let ghost before = text::texts(v@);
        match scan_at_token(&chars, i) {
            Some((_, path, _)) => {
                let short = shortened(path.as_str());
                let long: usize = char_count(path.as_str());
                let len: usize = char_count(short.as_str());
                proof {
                    text::lemma_texts_push(v@, path);
                }
                v.push(path);
                if len > 0 && len < long {
                    proof {
                        text::lemma_texts_push(v@, short);
                    }
                    v.push(short);
                }
                assert(text::texts(v@) =~= before + asked_at(t@, i as int));
            },
            None => {
                assert(before + asked_at(t@, i as int) =~= before);
            },
        }
        i = i + 1;
    }
    v
}

/// The paths that decide on the references in lines when they are wrapped.
fn asked_lines(ls: &Vec<String>, width: usize) -> (r: Vec<String>)
    ensures
        text::texts(r@) == asked_in_lines(text::texts(ls@), ls@.len() as int, width as int),
{
    let ghost ts = text::texts(ls@);
    let n: usize = ls.len();
    let mut v: Vec<String> = Vec::new();
    let mut i: usize = 0;
    assert(text::texts(v@) =~= Seq::<Seq<char>>::empty());
    while i < n
        invariant
            n == ls@.len(),
            ts == text::texts(ls@),
            i <= n,
            text::texts(v@) == asked_in_lines(ts, i as int, width as int),
        decreases n - i,
    {
        assert(ts[i as int] == ls@[i as int]@);
        if char_count(ls[i].as_str()) > 0 {
            let ghost before = text::texts(v@);
            let chunks = wrap_line(ls[i].as_str(), width);
            let ghost cs = text::texts(chunks@);
            let k: usize = chunks.len();
            let mut j: usize = 0;
            assert(before + asked_in(cs, 0) =~= before);
            while j < k
                invariant
                    k == chunks@.len(),
                    cs == text::texts(chunks@),
                    j <= k,
                    text::texts(v@) == before + asked_in(cs, j as int),
                decreases k - j,
            {
                assert(cs[j as int] == chunks@[j as int]@);
                let more = asked_paths(chunks[j].as_str());
                push_all(&mut v, more);
                j = j + 1;
                assert(text::texts(v@) =~= before + asked_in(cs, j as int));
            }
            assert(cs.len() == k);
        }
        i = i + 1;
    }
    v
}

fn columns_for(width: usize) -> (r: usize)
    ensures
        r == message_columns(width as int),
{
    let w: usize = width.saturating_sub(2);
    if w < 1 {
        1
    } else {
        w
    }
}

/// The paths that decide on the references in a message of the user.
pub fn message_paths(t: &str, width: usize) -> (r: Vec<String>)
    ensures
        ({
            let ls = blocks::message_lines(t@);
            text::texts(r@) == asked_in_lines(ls, ls.len() as int, message_columns(width as int))
        }),
{
    let ls = split_message(t);
    assert(text::texts(ls@).len() == ls@.len());
    asked_lines(&ls, columns_for(width))
}

/// The paths that decide on the references in a message that waits.
pub fn queued_paths(msg: &str, usable: usize) -> (r: Vec<String>)
    ensures
        ({
            let ls = highlight::untabbed_lines(text::lines_of(msg@));
            text::texts(r@) == asked_in_lines(ls, ls.len() as int, message_columns(usable as int))
        }),
{
    let ls = untabbed_message(msg);
    assert(text::texts(ls@).len() == ls@.len());
    asked_lines(&ls, columns_for(usable))
}

/// What is shown of a side question.
pub open spec fn btw_question(question: Seq<char>, usable: int) -> Seq<char> {
    text::first_chars(question, bars::at_least_zero(usable - 6))
}

/// The paths that decide on the references in a side question.
pub fn btw_paths(question: &str, usable: usize) -> (r: Vec<String>)
    ensures
        ({
            let q = btw_question(question@, usable as int);
            text::texts(r@) == asked(q, q.len() as int)
        }),
{
    let q = take_chars(question, usable.saturating_sub(6));
    asked_paths(q.as_str())
}

// ── Laws ─────────────────────────────────────────────────────────────────

/// Of each of the texts, both lists or neither hold it.
pub open spec fn agree(a: Seq<String>, b: Seq<String>, ts: Seq<Seq<char>>) -> bool {
    forall|k: int|
        0 <= k < ts.len() ==> styled::is_one_of(a, #[trigger] ts[k]) == styled::is_one_of(b, ts[k])
}

proof fn lemma_agree_parts(a: Seq<String>, b: Seq<String>, x: Seq<Seq<char>>, y: Seq<Seq<char>>)
    requires
        agree(a, b, x + y),
    ensures
        agree(a, b, x),
        agree(a, b, y),
{
    assert forall|k: int| 0 <= k < x.len() implies styled::is_one_of(a, #[trigger] x[k])
        == styled::is_one_of(b, x[k]) by {
        assert((x + y)[k] == x[k]);
    }
    assert forall|k: int| 0 <= k < y.len() implies styled::is_one_of(a, #[trigger] y[k])
        == styled::is_one_of(b, y[k]) by {
        assert((x + y)[x.len() + k] == y[k]);
    }
}

proof fn lemma_asked(s: Seq<char>, n: int, a: Seq<String>, b: Seq<String>, i: int)
    requires
        0 <= i < n <= s.len(),
        agree(a, b, asked(s, n)),
    ensures
        spans::at_ref(s, i, a) == spans::at_ref(s, i, b),
    decreases n,
{
    lemma_agree_parts(a, b, asked(s, n - 1), asked_at(s, n - 1));
    if i < n - 1 {
        lemma_asked(s, n - 1, a, b, i);
    } else if let Some(t) = spans::at_token(s, i) {
        let ps = asked_at(s, i);
        assert(ps[0] == t.path);
        if ps.len() > 1 {
            assert(ps[1] == spans::short_path(t.path));
        }
        spans::lemma_drop_back(t.path, |c: char| spans::trailing_mark(c));
    }
}

/// Whether a reference is shown as one depends on no path but those that are
/// asked for.
pub proof fn law_asked_paths_decide(s: Seq<char>, a: Seq<String>, b: Seq<String>, i: int)
    requires
        0 <= i < s.len(),
        agree(a, b, asked(s, s.len() as int)),
    ensures
        spans::at_ref(s, i, a) == spans::at_ref(s, i, b),
{
    lemma_asked(s, s.len() as int, a, b, i);
}

/// The spans of the prompt depend on no path but those that are asked for.
pub proof fn law_asked_paths_decide_spans(
    st: Spanning,
    s: Seq<char>,
    i: int,
    labels: Seq<Seq<char>>,
    a: Seq<String>,
    b: Seq<String>,
)
    requires
        agree(a, b, asked(s, s.len() as int)),
    ensures
        spans::spans_from(st, s, i, labels, a) == spans::spans_from(st, s, i, labels, b),
    decreases s.len() - i,
{
    if 0 <= i < s.len() {
        law_asked_paths_decide(s, a, b, i);
        spans::lemma_next_span(s, i, a);
        law_asked_paths_decide_spans(
            spans::span_step(st, s, i, labels, a),
            s,
            spans::next_span(s, i, a),
            labels,
            a,
            b,
        );
    }
}

proof fn lemma_message_from(
    m: Canvas,
    plain: Seq<char>,
    s: Seq<char>,
    i: int,
    labels: Seq<Seq<char>>,
    accent: Color,
    a: Seq<String>,
    b: Seq<String>,
)
    requires
        agree(a, b, asked(s, s.len() as int)),
    ensures
        spans::message_from(m, plain, s, i, labels, a, accent) == spans::message_from(
            m,
            plain,
            s,
            i,
            labels,
            b,
            accent,
        ),
    decreases s.len() - i,
{
    if 0 <= i < s.len() {
        law_asked_paths_decide(s, a, b, i);
        spans::lemma_label_from(labels, s, i, 0);
        spans::lemma_at_ref(s, i, a);
        match spans::image_at(labels, s, i) {
            Some(l) => {
                lemma_message_from(
                    spans::accented(spans::flushed(m, plain), l, accent),
                    seq![],
                    s,
                    i + l.len(),
                    labels,
                    accent,
                    a,
                    b,
                );
            },
            None => match spans::at_ref(s, i, a) {
                Some(t) => {
                    lemma_message_from(
                        spans::accented(spans::flushed(m, plain), t.0, accent),
                        seq![],
                        s,
                        t.1,
                        labels,
                        accent,
                        a,
                        b,
                    );
                },
                None => {
                    lemma_message_from(m, plain.push(s[i]), s, i + 1, labels, accent, a, b);
                },
            },
        }
    }
}

proof fn lemma_message_rows(
    d: Drawn,
    chunks: Seq<Seq<char>>,
    n: int,
    look: MessageLook,
    labels: Seq<Seq<char>>,
    a: Seq<String>,
    b: Seq<String>,
)
    requires
        agree(a, b, asked_in(chunks, n)),
    ensures
        blocks::message_rows(d, chunks, n, look, labels, a) == blocks::message_rows(
            d,
            chunks,
            n,
            look,
            labels,
            b,
        ),
        prompt::queued_rows(d, chunks, n, look, a) == prompt::queued_rows(d, chunks, n, look, b),
    decreases n,
{
    if n > 0 {
        let s = chunks[n - 1];
        lemma_agree_parts(a, b, asked_in(chunks, n - 1), asked(s, s.len() as int));
        lemma_message_rows(d, chunks, n - 1, look, labels, a, b);
        let e = blocks::message_rows(d, chunks, n - 1, look, labels, a);
        lemma_message_from(
            e.canvas.set_bg(look.bg).set_bold().print(" "@),
            seq![],
            s,
            0,
            labels,
            look.accent,
            a,
            b,
        );
        let e = prompt::queued_rows(d, chunks, n - 1, look, a);
        lemma_message_from(
            e.canvas.print(" "@).push_style(prompt::queued_style(look.bg)).print(" "@),
            seq![],
            s,
            0,
            seq![],
            look.accent,
            a,
            b,
        );
    }
}

proof fn lemma_message_shown(
    d: Drawn,
    ls: Seq<Seq<char>>,
    n: int,
    look: MessageLook,
    labels: Seq<Seq<char>>,
    a: Seq<String>,
    b: Seq<String>,
)
    requires
        agree(a, b, asked_in_lines(ls, n, look.text_w)),
    ensures
        blocks::message_shown(d, ls, n, look, labels, a) == blocks::message_shown(
            d,
            ls,
            n,
            look,
            labels,
            b,
        ),
        prompt::queued_lines(d, ls, n, look, a) == prompt::queued_lines(d, ls, n, look, b),
    decreases n,
{
    if n > 0 {
        let before = asked_in_lines(ls, n - 1, look.text_w);
        if ls[n - 1].len() == 0 {
            lemma_message_shown(d, ls, n - 1, look, labels, a, b);
        } else {
            let chunks = wrap::wrapped(ls[n - 1], look.text_w);
            let k = chunks.len() as int;
            lemma_agree_parts(a, b, before, asked_in(chunks, k));
            lemma_message_shown(d, ls, n - 1, look, labels, a, b);
            lemma_message_rows(
                blocks::message_shown(d, ls, n - 1, look, labels, a),
                chunks,
                k,
                look,
                labels,
                a,
                b,
            );
            lemma_message_rows(
                prompt::queued_lines(d, ls, n - 1, look, a),
                chunks,
                k,
                look,
                labels,
                a,
                b,
            );
        }
    }
}

/// A message of the user looks the same wherever the colours are the same and
/// the paths and the command that are asked for have the same answers.
pub proof fn law_message_needs_asked_paths(
    m: Canvas,
    t: Seq<char>,
    labels: Seq<Seq<char>>,
    width: int,
    a: Env,
    b: Env,
)
    requires
        a.theme == b.theme,
        agree(a.commands@, b.commands@, seq![text::trimmed(t)]),
        ({
            let ls = blocks::message_lines(t);
            agree(
                a.paths@,
                b.paths@,
                asked_in_lines(ls, ls.len() as int, message_columns(width)),
            )
        }),
    ensures
        blocks::user_message(m, t, labels, width, a) == blocks::user_message(
            m,
            t,
            labels,
            width,
            b,
        ),
{
    let ls = blocks::message_lines(t);
    let text_w = message_columns(width);
    assert(seq![text::trimmed(t)][0] == text::trimmed(t));
    let look = MessageLook {
        text_w,
        block_w: blocks::message_width(ls, text_w, bars::capped(text_w + 1)),
        bg: a.theme.user_bg_color(),
        accent: a.theme.accent_color(),
        is_command: styled::is_one_of(a.commands@, text::trimmed(t)),
    };
    lemma_message_shown(out::drawn(m), ls, ls.len() as int, look, labels, a.paths@, b.paths@);
}

/// A side question looks the same wherever the colours are the same and the
/// paths that are asked for have the same answers.
pub proof fn law_question_needs_asked_paths(
    m: Canvas,
    question: Seq<char>,
    labels: Seq<Seq<char>>,
    usable: int,
    accent: Color,
    a: Seq<String>,
    b: Seq<String>,
)
    requires
        ({
            let q = btw_question(question, usable);
            agree(a, b, asked(q, q.len() as int))
        }),
    ensures
        ({
            let q = btw_question(question, usable);
            spans::message_printed(m, q, labels, false, a, accent) == spans::message_printed(
                m,
                q,
                labels,
                false,
                b,
                accent,
            )
        }),
{
    lemma_message_from(m, seq![], btw_question(question, usable), 0, labels, accent, a, b);
}

/// A message that waits looks the same wherever the colours are the same and
/// the paths and the command that are asked for have the same answers.
pub proof fn law_queued_message_needs_asked_paths(
    d: Drawn,
    msg: Seq<char>,
    usable: int,
    a: Env,
    b: Env,
)
    requires
        a.theme == b.theme,
        agree(a.commands@, b.commands@, seq![text::trimmed(msg)]),
        ({
            let ls = highlight::untabbed_lines(text::lines_of(msg));
            agree(
                a.paths@,
                b.paths@,
                asked_in_lines(ls, ls.len() as int, message_columns(usable)),
            )
        }),
    ensures
        ({
            let ls = highlight::untabbed_lines(text::lines_of(msg));
            prompt::queued_lines(
                d,
                ls,
                ls.len() as int,
                prompt::queued_look(msg, usable, a),
                a.paths@,
            ) == prompt::queued_lines(
                d,
                ls,
                ls.len() as int,
                prompt::queued_look(msg, usable, b),
                b.paths@,
            )
        }),
{
    let ls = highlight::untabbed_lines(text::lines_of(msg));
    assert(seq![text::trimmed(msg)][0] == text::trimmed(msg));
    lemma_message_shown(
        d,
        ls,
        ls.len() as int,
        prompt::queued_look(msg, usable, a),
        seq![],
        a.paths@,
        b.paths@,
    );
}

} // verus!
