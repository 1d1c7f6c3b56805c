//! Prompt text: references to files, attachments, and their highlighting.

use vstd::prelude::*;

use crate::render::bars;
use crate::render::out::{Canvas, Color, Command, RenderOut};
use crate::render::styled;
use crate::render::styled::one_of;
use crate::render::wrap;
use crate::render::wrap::SpanKind;
use crate::text;
use crate::text::{char_count, chars_of, find_char, matches_at, slice_text};
use crate::theme;
use crate::theme::Theme;

verus! {

/// The character that stands for an attachment in the prompt text.
pub const ATTACHMENT_MARKER: char = '\u{fffc}';

// ── References ───────────────────────────────────────────────────────────

/// A reference in the text: the whole of it, the path, and where it ends.
pub struct AtToken {
    pub token: Seq<char>,
    pub path: Seq<char>,
    pub end: int,
}

/// The first white space at or behind `i`, or `s.len()`.
pub open spec fn white_from(s: Seq<char>, i: int) -> int
    decreases s.len() - i,
{
    if i < 0 || i >= s.len() {
        s.len() as int
    } else if text::is_white(s[i]) {
        i
    } else {
        white_from(s, i + 1)
    }
}

pub proof fn lemma_white_from(s: Seq<char>, i: int)
    requires
        0 <= i <= s.len(),
    ensures
        i <= white_from(s, i) <= s.len(),
    decreases s.len() - i,
{
    if i < s.len() {
        lemma_white_from(s, i + 1);
    }
}

/// The reference `@path` or `@"path with spaces"` that starts at `i`: at the
/// start of the text, behind white space or behind a parenthesis.
pub open spec fn at_token(s: Seq<char>, i: int) -> Option<AtToken> {
    if s[i] != '@' || (i > 0 && !text::is_white(s[i - 1]) && s[i - 1] != '(') {
        None
    } else if i + 1 < s.len() && s[i + 1] == '"' {
        let e = text::char_from(s, '"', i + 2);
        if e >= s.len() || e == i + 2 {
            None
        } else {
            Some(
                AtToken {
                    token: s.subrange(i, e + 1),
                    path: s.subrange(i + 2, e),
                    end: e + 1,
                },
            )
        }
    } else {
        let e = white_from(s, i + 1);
        if e <= i + 1 {
            None
        } else {
            Some(AtToken { token: s.subrange(i, e), path: s.subrange(i + 1, e), end: e })
        }
    }
}

/// Whether a character is punctuation that may follow a reference.
pub open spec fn trailing_mark(c: char) -> bool {
    c == ',' || c == '.' || c == ')' || c == ';' || c == ':' || c == '!' || c == '?'
}

/// A path without the punctuation behind it.
pub open spec fn short_path(path: Seq<char>) -> Seq<char> {
    text::drop_back(path, |c: char| trailing_mark(c))
}

/// The reference at `i` whose path exists, if need be without the punctuation
/// behind it.
pub open spec fn at_ref(s: Seq<char>, i: int, paths: Seq<String>) -> Option<(Seq<char>, int)> {
    match at_token(s, i) {
        None => None,
        Some(t) => {
            let short = short_path(t.path);
            let stripped = t.path.len() - short.len();
            if styled::is_one_of(paths, t.path) {
                Some((t.token, t.end))
            } else if stripped > 0 && short.len() > 0 && styled::is_one_of(paths, short) {
                Some((t.token.take(t.token.len() - stripped), t.end - stripped))
            } else {
                None
            }
        },
    }
}

pub proof fn lemma_drop_back(s: Seq<char>, p: spec_fn(char) -> bool)
    ensures
        text::drop_back(s, p).len() <= s.len(),
        text::drop_back(s, p) == s.take(text::drop_back(s, p).len() as int),
    decreases s.len(),
{
    if s.len() > 0 && p(s.last()) {
        lemma_drop_back(s.drop_last(), p);
        let n = text::drop_back(s, p).len() as int;
        assert(s.drop_last().take(n) =~= s.take(n));
    } else {
        assert(s.take(s.len() as int) =~= s);
    }
}

/// A reference starts where it was looked for, and is the text up to its end.
pub proof fn lemma_at_token(s: Seq<char>, i: int)
    requires
        0 <= i < s.len(),
    ensures
        match at_token(s, i) {
            Some(t) => {
                &&& i < t.end <= s.len()
                &&& t.token == s.subrange(i, t.end)
                &&& 0 < t.path.len() < t.token.len()
            },
            None => true,
        },
{
    lemma_white_from(s, i + 1);
    if i + 2 <= s.len() {
        text::lemma_char_from(s, '"', i + 2);
    }
}

/// A reference to a path that exists is the text up to its end.
pub proof fn lemma_at_ref(s: Seq<char>, i: int, paths: Seq<String>)
    requires
        0 <= i < s.len(),
    ensures
        match at_ref(s, i, paths) {
            Some(t) => i < t.1 <= s.len() && t.0 == s.subrange(i, t.1),
            None => true,
        },
{
    lemma_at_token(s, i);
    match at_token(s, i) {
        Some(t) => {
            lemma_drop_back(t.path, |c: char| trailing_mark(c));
            let short = short_path(t.path);
            let k = t.path.len() - short.len();
            assert(t.token.take(t.token.len() - k) =~= s.subrange(i, t.end - k));
        },
        None => {},
    }
}

/// The reference that starts at `i`: the whole of it, the path, and where it
/// ends.
pub fn scan_at_token(chars: &Vec<char>, i: usize) -> (r: Option<(String, String, usize)>)
    requires
        i < chars@.len(),
    ensures
        match r {
            Some(t) => at_token(chars@, i as int) == Some(
                AtToken { token: t.0@, path: t.1@, end: t.2 as int },
            ),
            None => at_token(chars@, i as int) is None,
        },
{
    let total: usize = chars.len();
    if chars[i] != '@' {
        return None;
    }
    if i > 0 && !chars[i - 1].is_whitespace() && chars[i - 1] != '(' {
        return None;
    }
    if i + 1 < total && chars[i + 1] == '"' {
        let e: usize = find_char(chars, '"', i + 2);
        if e >= total || e == i + 2 {
            return None;
        }
        Some((slice_text(chars, i, e + 1), slice_text(chars, i + 2, e), e + 1))
    } else {
        let mut e: usize = i + 1;
        while e < total && !chars[e].is_whitespace()
            invariant
                total == chars@.len(),
                i < e <= total,
                white_from(chars@, i + 1) == white_from(chars@, e as int),
            decreases total - e,
        {
            e = e + 1;
        }
        if e <= i + 1 {
            return None;
        }
        Some((slice_text(chars, i, e), slice_text(chars, i + 1, e), e))
    }
}

/// A path without the punctuation behind it.
pub fn shortened(path: &str) -> (r: String)
    ensures
        r@ == short_path(path@),
{
    let p = chars_of(path);
    let ghost mark = |c: char| trailing_mark(c);
    let mut n: usize = p.len();
    assert(p@.take(n as int) =~= path@);
    while n > 0 && (p[n - 1] == ',' || p[n - 1] == '.' || p[n - 1] == ')' || p[n - 1] == ';'
        || p[n - 1] == ':' || p[n - 1] == '!' || p[n - 1] == '?')
        invariant
            n <= p@.len(),
            mark == (|c: char| trailing_mark(c)),
            text::drop_back(path@, mark) == text::drop_back(p@.take(n as int), mark),
        decreases n,
    {
        assert(p@.take(n as int).drop_last() =~= p@.take(n - 1));
        n = n - 1;
    }
    assert(text::drop_back(path@, mark) == p@.take(n as int));
    let short = slice_text(&p, 0, n);
    assert(short@ =~= p@.take(n as int));
    short
}

/// The reference at `i` whose path is among `paths`, and where it ends.
pub fn try_at_ref(chars: &Vec<char>, i: usize, paths: &Vec<String>) -> (r: Option<(String, usize)>)
    requires
        i < chars@.len(),
    ensures
        match r {
            Some(t) => at_ref(chars@, i as int, paths@) == Some((t.0@, t.1 as int)),
            None => at_ref(chars@, i as int, paths@) is None,
        },
{
    proof {
        lemma_at_token(chars@, i as int);
    }
    match scan_at_token(chars, i) {
        None => None,
        Some((token, path, end)) => {
            if one_of(paths, path.as_str()) {
                return Some((token, end));
            }
            let short = shortened(path.as_str());
            let long: usize = char_count(path.as_str());
            let len: usize = char_count(short.as_str());
            proof {
                lemma_drop_back(path@, |c: char| trailing_mark(c));
            }
            if len > 0 && len < long && one_of(paths, short.as_str()) {
                let stripped: usize = long - len;
                let t = chars_of(token.as_str());
                let keep: usize = t.len() - stripped;
                let s = slice_text(&t, 0, keep);
                assert(s@ =~= token@.take(keep as int));
                Some((s, end - stripped))
            } else {
                None
            }
        },
    }
}

// ── Spans ────────────────────────────────────────────────────────────────

/// A stretch of the prompt as it is shown.
pub enum Span<T> {
    Plain(T),
    Attachment(T),
    AtRef(T),
}

/// The characters of a span.
pub open spec fn span_text(s: Span<Seq<char>>) -> Seq<char> {
    match s {
        Span::Plain(t) => t,
        Span::Attachment(t) => t,
        Span::AtRef(t) => t,
    }
}

/// The kind of a span's characters.
pub open spec fn span_kind(s: Span<Seq<char>>) -> SpanKind {
    match s {
        Span::Plain(_) => SpanKind::Plain,
        Span::Attachment(_) => SpanKind::Attachment,
        Span::AtRef(_) => SpanKind::AtRef,
    }
}

/// Characters for text.
pub open spec fn span_view(s: Span<String>) -> Span<Seq<char>> {
    match s {
        Span::Plain(t) => Span::Plain(t@),
        Span::Attachment(t) => Span::Attachment(t@),
        Span::AtRef(t) => Span::AtRef(t@),
    }
}

/// Characters for text, in each span.
pub open spec fn spans_view(v: Seq<Span<String>>) -> Seq<Span<Seq<char>>> {
    Seq::new(v.len(), |i: int| span_view(v[i]))
}

/// The characters of the first `n` spans.
pub open spec fn spans_text(spans: Seq<Span<Seq<char>>>, n: int) -> Seq<char>
    decreases n,
{
    if n <= 0 {
        seq![]
    } else {
        spans_text(spans, n - 1) + span_text(spans[n - 1])
    }
}

/// The kinds of the characters of the first `n` spans.
pub open spec fn spans_kinds(spans: Seq<Span<Seq<char>>>, n: int) -> Seq<SpanKind>
    decreases n,
{
    if n <= 0 {
        seq![]
    } else {
        spans_kinds(spans, n - 1) + Seq::new(
            span_text(spans[n - 1]).len(),
            |i: int| span_kind(spans[n - 1]),
        )
    }
}

/// One kind for each character that is shown.
pub proof fn law_kinds_match_text(spans: Seq<Span<Seq<char>>>, n: int)
    ensures
        spans_kinds(spans, n).len() == spans_text(spans, n).len(),
    decreases n,
{
    if n > 0 {
        law_kinds_match_text(spans, n - 1);
    }
}

/// The kind of each character that the spans show.
pub fn build_char_kinds(spans: &Vec<Span<String>>) -> (r: Vec<SpanKind>)
    ensures
        r@ == spans_kinds(spans_view(spans@), spans@.len() as int),
{
    let ghost sv = spans_view(spans@);
    let mut kinds: Vec<SpanKind> = Vec::new();
    let mut i: usize = 0;
    while i < spans.len()
        invariant
            sv == spans_view(spans@),
            i <= spans@.len(),
            kinds@ == spans_kinds(sv, i as int),
        decreases spans@.len() - i,
    {
        assert(sv[i as int] == span_view(spans@[i as int]));
        let (n, kind): (usize, SpanKind) = match &spans[i] {
            Span::Plain(t) => (char_count(t.as_str()), SpanKind::Plain),
            Span::Attachment(t) => (char_count(t.as_str()), SpanKind::Attachment),
            Span::AtRef(t) => (char_count(t.as_str()), SpanKind::AtRef),
        };
        let ghost k0 = kinds@;
        let mut j: usize = 0;
        while j < n
            invariant
                j <= n,
                kinds@ =~= k0 + Seq::new(j as nat, |x: int| kind),
            decreases n - j,
        {
            kinds.push(kind);
            j = j + 1;
        }
        i = i + 1;
    }
    kinds
}

/// The text that the spans show.
pub fn spans_to_string(spans: &Vec<Span<String>>) -> (r: String)
    ensures
        r@ == spans_text(spans_view(spans@), spans@.len() as int),
{
    let ghost sv = spans_view(spans@);
    let mut s = String::new();
    let mut i: usize = 0;
    while i < spans.len()
        invariant
            sv == spans_view(spans@),
            i <= spans@.len(),
            s@ == spans_text(sv, i as int),
        decreases spans@.len() - i,
    {
        assert(sv[i as int] == span_view(spans@[i as int]));
        match &spans[i] {
            Span::Plain(t) => {
                s.append(t.as_str());
            },
            Span::Attachment(t) => {
                s.append(t.as_str());
            },
            Span::AtRef(t) => {
                s.append(t.as_str());
            },
        }
        i = i + 1;
    }
    s
}

/// Spans that are being built: those that are complete, plain text that is
/// not, and how many attachments were met.
pub struct Spanning {
    pub spans: Seq<Span<Seq<char>>>,
    pub plain: Seq<char>,
    pub attachments: int,
}

/// Completes the plain text, if there is any.
pub open spec fn closed_off(st: Spanning) -> Seq<Span<Seq<char>>> {
    if st.plain.len() > 0 {
        st.spans.push(Span::Plain(st.plain))
    } else {
        st.spans
    }
}

/// The label of attachment `k`.
pub open spec fn label_at(labels: Seq<Seq<char>>, k: int) -> Seq<char> {
    if 0 <= k < labels.len() {
        labels[k]
    } else {
        "[?]"@
    }
}

/// Where the next stretch starts.
pub open spec fn next_span(s: Seq<char>, i: int, paths: Seq<String>) -> int {
    if s[i] == ATTACHMENT_MARKER {
        i + 1
    } else {
        match at_ref(s, i, paths) {
            Some(t) => t.1,
            None => match at_token(s, i) {
                Some(t) => t.end,
                None => i + 1,
            },
        }
    }
}

/// The stretch at `i`: an attachment, a reference to a path that exists, one
/// to a path that does not, or a character.
pub open spec fn span_step(
    st: Spanning,
    s: Seq<char>,
    i: int,
    labels: Seq<Seq<char>>,
    paths: Seq<String>,
) -> Spanning {
    if s[i] == ATTACHMENT_MARKER {
        Spanning {
            spans: closed_off(st).push(Span::Attachment(label_at(labels, st.attachments))),
            plain: seq![],
            attachments: bars::capped(st.attachments + 1),
        }
    } else {
        match at_ref(s, i, paths) {
            Some(t) => Spanning {
                spans: closed_off(st).push(Span::AtRef(t.0)),
                plain: seq![],
                ..st
            },
            None => match at_token(s, i) {
                Some(t) => Spanning {
                    spans: closed_off(st).push(Span::Plain(t.token)),
                    plain: seq![],
                    ..st
                },
                None => Spanning { plain: st.plain.push(s[i]), ..st },
            },
        }
    }
}

pub proof fn lemma_next_span(s: Seq<char>, i: int, paths: Seq<String>)
    requires
        0 <= i < s.len(),
    ensures
        i < next_span(s, i, paths) <= s.len(),
{
    lemma_at_ref(s, i, paths);
    lemma_at_token(s, i);
}

/// The spans of the text from `i` on.
pub open spec fn spans_from(
    st: Spanning,
    s: Seq<char>,
    i: int,
    labels: Seq<Seq<char>>,
    paths: Seq<String>,
) -> Seq<Span<Seq<char>>>
    decreases s.len() - i,
{
    if i < 0 || i >= s.len() {
        closed_off(st)
    } else {
        proof {
            lemma_next_span(s, i, paths);
        }
        spans_from(span_step(st, s, i, labels, paths), s, next_span(s, i, paths), labels, paths)
    }
}

/// The spans of a prompt text.
pub open spec fn display_spans(
    s: Seq<char>,
    labels: Seq<Seq<char>>,
    paths: Seq<String>,
) -> Seq<Span<Seq<char>>> {
    spans_from(
        Spanning { spans: seq![], plain: seq![], attachments: 0 },
        s,
        0,
        labels,
        paths,
    )
}

fn close_plain(spans: &mut Vec<Span<String>>, plain: &mut String, Ghost(k): Ghost<int>)
    ensures
        spans_view(final(spans)@) == closed_off(
            Spanning { spans: spans_view(old(spans)@), plain: old(plain)@, attachments: k },
        ),
        final(plain)@ == Seq::<char>::empty(),
{
    if char_count(plain.as_str()) > 0 {
        let t = plain.clone();
        let ghost before = spans@;
        spans.push(Span::Plain(t));
        assert(spans_view(spans@) =~= spans_view(before).push(Span::Plain(t@)));
        *plain = String::new();
    }
    assert(plain@ =~= Seq::<char>::empty());
}

fn push_span(spans: &mut Vec<Span<String>>, s: Span<String>)
    ensures
        spans_view(final(spans)@) == spans_view(old(spans)@).push(span_view(s)),
{
    let ghost before = spans@;
    spans.push(s);
    assert(spans_view(spans@) =~= spans_view(before).push(span_view(s)));
}

/// The spans of a prompt text: `labels` are those of its attachments in
/// order, `paths` those that exist.
pub fn build_display_spans(buf: &str, labels: &Vec<String>, paths: &Vec<String>) -> (r: Vec<
    Span<String>,
>)
    ensures
        spans_view(r@) == display_spans(buf@, text::texts(labels@), paths@),
{
    let chars = chars_of(buf);
    let total: usize = chars.len();
    let ghost ls = text::texts(labels@);
    let mut spans: Vec<Span<String>> = Vec::new();
    let mut plain = String::new();
    let mut att: usize = 0;
    let mut i: usize = 0;
    assert(plain@ =~= Seq::<char>::empty());
    assert(spans_view(spans@) =~= Seq::<Span<Seq<char>>>::empty());
    while i < total
        invariant
            total == chars@.len(),
            chars@ == buf@,
            ls == text::texts(labels@),
            i <= total,
            display_spans(buf@, ls, paths@) == spans_from(
                Spanning { spans: spans_view(spans@), plain: plain@, attachments: att as int },
                buf@,
                i as int,
                ls,
                paths@,
            ),
        decreases total - i,
    {
        proof {
            lemma_next_span(buf@, i as int, paths@);
        }
        let ghost st = Spanning {
            spans: spans_view(spans@),
            plain: plain@,
            attachments: att as int,
        };
        let ghost i0 = i as int;
        if chars[i] == ATTACHMENT_MARKER {
            close_plain(&mut spans, &mut plain, Ghost(att as int));
            let label = if att < labels.len() {
                assert(ls[att as int] == labels@[att as int]@);
                labels[att].clone()
            } else {
                "[?]".to_owned()
            };
            push_span(&mut spans, Span::Attachment(label));
            att = att.saturating_add(1);
            i = i + 1;
        } else {
            match try_at_ref(&chars, i, paths) {
                Some((token, end)) => {
                    close_plain(&mut spans, &mut plain, Ghost(att as int));
                    push_span(&mut spans, Span::AtRef(token));
                    i = end;
                },
                None => match scan_at_token(&chars, i) {
                    Some((token, _, end)) => {
                        close_plain(&mut spans, &mut plain, Ghost(att as int));
                        push_span(&mut spans, Span::Plain(token));
                        i = end;
                    },
                    None => {
                        plain.push(chars[i]);
                        i = i + 1;
                    },
                },
            }
        }
        assert(i == next_span(buf@, i0, paths@));
        assert((Spanning { spans: spans_view(spans@), plain: plain@, attachments: att as int })
            == span_step(st, buf@, i0, ls, paths@));
    }
    close_plain(&mut spans, &mut plain, Ghost(att as int));
    spans
}

/// The text that spans and unfinished plain text show.
pub open spec fn shown_so_far(st: Spanning) -> Seq<char> {
    spans_text(st.spans, st.spans.len() as int) + st.plain
}

proof fn lemma_spans_text_push(spans: Seq<Span<Seq<char>>>, s: Span<Seq<char>>, n: int)
    requires
        0 <= n <= spans.len(),
    ensures
        spans_text(spans.push(s), n) == spans_text(spans, n),
    decreases n,
{
    if n > 0 {
        lemma_spans_text_push(spans, s, n - 1);
    }
}

proof fn lemma_closed_off(st: Spanning)
    ensures
        spans_text(closed_off(st), closed_off(st).len() as int) == shown_so_far(st),
{
    if st.plain.len() > 0 {
        lemma_spans_text_push(st.spans, Span::Plain(st.plain), st.spans.len() as int);
    } else {
        assert(shown_so_far(st) =~= spans_text(st.spans, st.spans.len() as int));
    }
}

proof fn lemma_spans_from_text(
    st: Spanning,
    s: Seq<char>,
    i: int,
    labels: Seq<Seq<char>>,
    paths: Seq<String>,
)
    requires
        0 <= i <= s.len(),
        forall|k: int| 0 <= k < s.len() ==> s[k] != ATTACHMENT_MARKER,
    ensures
        ({
            let r = spans_from(st, s, i, labels, paths);
            spans_text(r, r.len() as int) == shown_so_far(st) + s.skip(i)
        }),
    decreases s.len() - i,
{
    lemma_closed_off(st);
    if i >= s.len() {
        assert(shown_so_far(st) + s.skip(i) =~= shown_so_far(st));
    } else {
        lemma_next_span(s, i, paths);
        lemma_at_ref(s, i, paths);
        lemma_at_token(s, i);
        let n = next_span(s, i, paths);
        let st2 = span_step(st, s, i, labels, paths);
        lemma_spans_from_text(st2, s, n, labels, paths);
        assert(s.skip(i) =~= s.subrange(i, n) + s.skip(n));
        if at_ref(s, i, paths) is Some {
            lemma_spans_text_push(closed_off(st), st2.spans.last(), closed_off(st).len() as int);
            assert(shown_so_far(st2) =~= shown_so_far(st) + s.subrange(i, n));
        } else if at_token(s, i) is Some {
            lemma_spans_text_push(closed_off(st), st2.spans.last(), closed_off(st).len() as int);
            assert(shown_so_far(st2) =~= shown_so_far(st) + s.subrange(i, n));
        } else {
            assert(shown_so_far(st2) =~= shown_so_far(st) + s.subrange(i, n));
        }
        assert(shown_so_far(st2) + s.skip(n) =~= shown_so_far(st) + s.skip(i));
    }
}

/// A prompt text without attachments is shown as it is.
pub proof fn law_plain_prompt_is_shown(
    s: Seq<char>,
    labels: Seq<Seq<char>>,
    paths: Seq<String>,
)
    requires
        forall|k: int| 0 <= k < s.len() ==> s[k] != ATTACHMENT_MARKER,
    ensures
        ({
            let r = display_spans(s, labels, paths);
            spans_text(r, r.len() as int) == s
        }),
{
    let st = Spanning { spans: seq![], plain: seq![], attachments: 0 };
    lemma_spans_from_text(st, s, 0, labels, paths);
    assert(shown_so_far(st) + s.skip(0) =~= s);
}

// ── Cursor ───────────────────────────────────────────────────────────────

/// Where the cursor at `raw` of the prompt text is shown: an attachment is
/// one character of the prompt text, and its label when it is shown.
/// `at` and `shown` are the positions of span `k` in both.
pub open spec fn shown_cursor(
    spans: Seq<Span<Seq<char>>>,
    k: int,
    at: int,
    shown: int,
    raw: int,
) -> int
    decreases spans.len() - k,
{
    if k < 0 || k >= spans.len() {
        shown
    } else {
        let n = span_text(spans[k]).len();
        match spans[k] {
            Span::Attachment(_) => if raw == at {
                shown
            } else {
                shown_cursor(spans, k + 1, bars::capped(at + 1), bars::capped(shown + n), raw)
            },
            _ => if at <= raw < at + n {
                bars::capped(shown + (raw - at))
            } else {
                shown_cursor(spans, k + 1, bars::capped(at + n), bars::capped(shown + n), raw)
            },
        }
    }
}

/// Where the cursor is shown.
pub fn map_cursor(raw_cursor: usize, spans: &Vec<Span<String>>) -> (r: usize)
    ensures
        r == shown_cursor(spans_view(spans@), 0, 0, 0, raw_cursor as int),
{
    let ghost sv = spans_view(spans@);
    let mut at: usize = 0;
    let mut shown: usize = 0;
    let mut k: usize = 0;
    while k < spans.len()
        invariant
            sv == spans_view(spans@),
            k <= spans@.len(),
            shown_cursor(sv, 0, 0, 0, raw_cursor as int) == shown_cursor(
                sv,
                k as int,
                at as int,
                shown as int,
                raw_cursor as int,
            ),
        decreases spans@.len() - k,
    {
        assert(sv[k as int] == span_view(spans@[k as int]));
        match &spans[k] {
            Span::Attachment(t) => {
                if raw_cursor == at {
                    return shown;
                }
                at = at.saturating_add(1);
                shown = shown.saturating_add(char_count(t.as_str()));
            },
            Span::Plain(t) => {
                let n: usize = char_count(t.as_str());
                if raw_cursor >= at && raw_cursor - at < n {
                    return shown.saturating_add(raw_cursor - at);
                }
                at = at.saturating_add(n);
                shown = shown.saturating_add(n);
            },
            Span::AtRef(t) => {
                let n: usize = char_count(t.as_str());
                if raw_cursor >= at && raw_cursor - at < n {
                    return shown.saturating_add(raw_cursor - at);
                }
                at = at.saturating_add(n);
                shown = shown.saturating_add(n);
            },
        }
        k = k + 1;
    }
    shown
}

/// Characters of the spans from `k` on.
pub open spec fn text_left(spans: Seq<Span<Seq<char>>>, k: int) -> nat
    decreases spans.len() - k,
{
    if k < 0 || k >= spans.len() {
        0
    } else {
        span_text(spans[k]).len() + text_left(spans, k + 1)
    }
}

proof fn lemma_cursor_same(spans: Seq<Span<Seq<char>>>, k: int, at: int, raw: int)
    requires
        0 <= k <= spans.len(),
        forall|j: int| 0 <= j < spans.len() ==> !(#[trigger] spans[j] is Attachment),
        0 <= at <= raw <= at + text_left(spans, k),
        at + text_left(spans, k) <= usize::MAX,
    ensures
        shown_cursor(spans, k, at, at, raw) == raw,
    decreases spans.len() - k,
{
    if k < spans.len() {
        let n = span_text(spans[k]).len();
        if raw >= at + n {
            lemma_cursor_same(spans, k + 1, at + n, raw);
        }
    }
}

/// Without attachments the cursor is shown where it is.
pub proof fn law_cursor_without_attachments(spans: Seq<Span<Seq<char>>>, raw: int)
    requires
        forall|j: int| 0 <= j < spans.len() ==> !(#[trigger] spans[j] is Attachment),
        0 <= raw <= text_left(spans, 0) <= usize::MAX,
    ensures
        shown_cursor(spans, 0, 0, 0, raw) == raw,
{
    lemma_cursor_same(spans, 0, 0, raw);
}

// ── Drawing ──────────────────────────────────────────────────────────────

/// Where the drawing of a line stands: the canvas, the kind of the last
/// character, and whether it was selected.
pub struct Inked {
    pub canvas: Canvas,
    pub kind: SpanKind,
    pub selected: bool,
}

/// Whether position `i` is selected.
pub open spec fn in_selection(sel: Option<(usize, usize)>, i: int) -> bool {
    match sel {
        Some((s, e)) => s <= i < e,
        None => false,
    }
}

/// The first `n` characters of a line, styled by kind and selection.
pub open spec fn inked(
    m: Canvas,
    line: Seq<char>,
    kinds: Seq<SpanKind>,
    sel: Option<(usize, usize)>,
    theme: Theme,
    n: int,
) -> Inked
    decreases n,
{
    if n <= 0 {
        Inked { canvas: m, kind: SpanKind::Plain, selected: false }
    } else {
        let a = inked(m, line, kinds, sel, theme, n - 1);
        let kind = wrap::kind_at(kinds, n - 1);
        let want = in_selection(sel, n - 1);
        let b = if kind != a.kind || want != a.selected {
            let m = if a.selected || a.kind != SpanKind::Plain {
                a.canvas.reset_style()
            } else {
                a.canvas
            };
            let m = if want {
                m.set_bg(theme.selection_bg_color())
            } else {
                m
            };
            let m = if kind == SpanKind::AtRef || kind == SpanKind::Attachment {
                m.set_fg(theme.accent_color())
            } else {
                m
            };
            Inked { canvas: m, kind, selected: want }
        } else {
            a
        };
        Inked { canvas: b.canvas.print(seq![line[n - 1]]), ..b }
    }
}

/// A line of the prompt.  A selection that goes on behind the line shows as a
/// selected space.
pub open spec fn line_inked(
    m: Canvas,
    line: Seq<char>,
    kinds: Seq<SpanKind>,
    sel: Option<(usize, usize)>,
    theme: Theme,
) -> Canvas {
    let n = line.len() as int;
    let a = inked(m, line, kinds, sel, theme, n);
    let behind = match sel {
        Some((s, e)) => e > n && s <= n,
        None => false,
    };
    if behind {
        let m = if a.selected {
            a.canvas
        } else {
            a.canvas.set_bg(theme.selection_bg_color())
        };
        m.print(" "@).reset_style()
    } else if a.selected || a.kind != SpanKind::Plain {
        a.canvas.reset_style()
    } else {
        a.canvas
    }
}

/// Draws a line of the prompt; `selection` is the range that is selected.
pub fn render_styled_chars(
    out: &mut RenderOut,
    line: &str,
    kinds: &Vec<SpanKind>,
    selection: Option<(usize, usize)>,
    theme: &Theme,
)
    ensures
        final(out)@ == line_inked(old(out)@, line@, kinds@, selection, *theme),
{
    let chars = chars_of(line);
    let mut current = SpanKind::Plain;
    let mut in_sel = false;
    let mut i: usize = 0;
    while i < chars.len()
        invariant
            chars@ == line@,
            i <= chars@.len(),
            (Inked { canvas: out@, kind: current, selected: in_sel }) == inked(
                old(out)@,
                line@,
                kinds@,
                selection,
                *theme,
                i as int,
            ),
        decreases chars@.len() - i,
    {
        let kind = if i < kinds.len() {
            kinds[i]
        } else {
            SpanKind::Plain
        };
        let want = match selection {
            Some((s, e)) => i >= s && i < e,
            None => false,
        };
        if kind != current || want != in_sel {
            if in_sel || current != SpanKind::Plain {
                out.reset_style();
            }
            if want {
                out.set_bg(theme::selection_bg(theme));
            }
            if kind == SpanKind::AtRef || kind == SpanKind::Attachment {
                out.set_fg(theme::accent(theme));
            }
            current = kind;
            in_sel = want;
        }
        let mut c = String::new();
        c.push(chars[i]);
        assert(c@ =~= seq![line@[i as int]]);
        out.print(c.as_str());
        i = i + 1;
    }
    match selection {
        Some((s, e)) => {
            if e > chars.len() && s <= chars.len() {
                if !in_sel {
                    out.set_bg(theme::selection_bg(theme));
                }
                out.print(" ");
                out.reset_style();
                return;
            }
        },
        None => {},
    }
    if in_sel || current != SpanKind::Plain {
        out.reset_style();
    }
}

// ── Messages ─────────────────────────────────────────────────────────────

/// Prints plain text, if there is any.
pub open spec fn flushed(m: Canvas, plain: Seq<char>) -> Canvas {
    if plain.len() > 0 {
        m.print(plain)
    } else {
        m
    }
}

/// Text in the accent colour.
pub open spec fn accented(m: Canvas, t: Seq<char>, accent: Color) -> Canvas {
    m.queue(Command::SetForegroundColor(accent)).print(t).queue(
        Command::SetForegroundColor(Color::Reset),
    )
}

/// The first of the labels from `k` on that is not empty and stands at `i`.
pub open spec fn label_from(labels: Seq<Seq<char>>, s: Seq<char>, i: int, k: int) -> Option<Seq<char>>
    decreases labels.len() - k,
{
    if k < 0 || k >= labels.len() {
        None
    } else if labels[k].len() > 0 && text::stands_at(s, labels[k], i) {
        Some(labels[k])
    } else {
        label_from(labels, s, i, k + 1)
    }
}

pub proof fn lemma_label_from(labels: Seq<Seq<char>>, s: Seq<char>, i: int, k: int)
    ensures
        match label_from(labels, s, i, k) {
            Some(l) => l.len() > 0 && text::stands_at(s, l, i),
            None => true,
        },
    decreases labels.len() - k,
{
    if 0 <= k < labels.len() {
        lemma_label_from(labels, s, i, k + 1);
    }
}

/// The label of an image that stands at `i`.
pub open spec fn image_at(labels: Seq<Seq<char>>, s: Seq<char>, i: int) -> Option<Seq<char>> {
    if s[i] == '[' {
        label_from(labels, s, i, 0)
    } else {
        None
    }
}

/// A message from `i` on, with plain text before it: labels of images and
/// references to paths that exist are in the accent colour.
pub open spec fn message_from(
    m: Canvas,
    plain: Seq<char>,
    s: Seq<char>,
    i: int,
    labels: Seq<Seq<char>>,
    paths: Seq<String>,
    accent: Color,
) -> Canvas
    decreases s.len() - i,
{
    if i < 0 || i >= s.len() {
        flushed(m, plain)
    } else {
        proof {
            lemma_label_from(labels, s, i, 0);
            lemma_at_ref(s, i, paths);
        }
        match image_at(labels, s, i) {
            Some(l) => message_from(
                accented(flushed(m, plain), l, accent),
                seq![],
                s,
                i + l.len(),
                labels,
                paths,
                accent,
            ),
            None => match at_ref(s, i, paths) {
                Some(t) => message_from(
                    accented(flushed(m, plain), t.0, accent),
                    seq![],
                    s,
                    t.1,
                    labels,
                    paths,
                    accent,
                ),
                None => message_from(m, plain.push(s[i]), s, i + 1, labels, paths, accent),
            },
        }
    }
}

/// A message: a command is in the accent colour as a whole.
pub open spec fn message_printed(
    m: Canvas,
    s: Seq<char>,
    labels: Seq<Seq<char>>,
    is_command: bool,
    paths: Seq<String>,
    accent: Color,
) -> Canvas {
    if is_command {
        accented(m, s, accent)
    } else {
        message_from(m, seq![], s, 0, labels, paths, accent)
    }
}

fn print_accented(out: &mut RenderOut, t: &str, accent: Color)
    ensures
        final(out)@ == accented(old(out)@, t@, accent),
{
    out.queue(Command::SetForegroundColor(accent));
    out.print(t);
    out.queue(Command::SetForegroundColor(Color::Reset));
}

fn flush_plain(out: &mut RenderOut, plain: &mut String)
    ensures
        final(out)@ == flushed(old(out)@, old(plain)@),
        final(plain)@ == Seq::<char>::empty(),
{
    if char_count(plain.as_str()) > 0 {
        out.print(plain.as_str());
        *plain = String::new();
    }
    assert(plain@ =~= Seq::<char>::empty());
}

fn find_label(labels: &Vec<String>, chars: &Vec<char>, i: usize) -> (r: Option<Vec<char>>)
    requires
        i < chars@.len(),
    ensures
        match r {
            Some(l) => image_at(text::texts(labels@), chars@, i as int) == Some(l@),
            None => image_at(text::texts(labels@), chars@, i as int) is None,
        },
{
    let ghost ls = text::texts(labels@);
    if chars[i] != '[' {
        return None;
    }
    let mut k: usize = 0;
    while k < labels.len()
        invariant
            ls == text::texts(labels@),
            i < chars@.len(),
            chars@[i as int] == '[',
            k <= labels@.len(),
            label_from(ls, chars@, i as int, 0) == label_from(ls, chars@, i as int, k as int),
        decreases labels@.len() - k,
    {
        assert(ls[k as int] == labels@[k as int]@);
        let l = chars_of(labels[k].as_str());
        if l.len() > 0 && matches_at(chars, &l, i) {
            return Some(l);
        }
        k = k + 1;
    }
    None
}

/// Prints a message with references and labels of images highlighted.
pub fn print_user_highlights(
    out: &mut RenderOut,
    s: &str,
    image_labels: &Vec<String>,
    is_command: bool,
    paths: &Vec<String>,
    accent: Color,
)
    ensures
        final(out)@ == message_printed(
            old(out)@,
            s@,
            text::texts(image_labels@),
            is_command,
            paths@,
            accent,
        ),
{
    if is_command {
        print_accented(out, s, accent);
        return;
    }
    let chars = chars_of(s);
    let total: usize = chars.len();
    let ghost ls = text::texts(image_labels@);
    let ghost m0 = out@;
    let mut plain = String::new();
    assert(plain@ =~= Seq::<char>::empty());
    let mut i: usize = 0;
    while i < total
        invariant
            total == chars@.len(),
            chars@ == s@,
            ls == text::texts(image_labels@),
            i <= total,
            message_from(m0, seq![], s@, 0, ls, paths@, accent) == message_from(
                out@,
                plain@,
                s@,
                i as int,
                ls,
                paths@,
                accent,
            ),
        decreases total - i,
    {
        proof {
            lemma_label_from(ls, s@, i as int, 0);
            lemma_at_ref(s@, i as int, paths@);
        }
        match find_label(image_labels, &chars, i) {
            Some(l) => {
                flush_plain(out, &mut plain);
                let t = slice_text(&l, 0, l.len());
                assert(t@ =~= l@);
                print_accented(out, t.as_str(), accent);
                i = i + l.len();
            },
            None => match try_at_ref(&chars, i, paths) {
                Some((token, end)) => {
                    flush_plain(out, &mut plain);
                    print_accented(out, token.as_str(), accent);
                    i = end;
                },
                None => {
                    plain.push(chars[i]);
                    i = i + 1;
                },
            },
        }
    }
    flush_plain(out, &mut plain);
}

} // verus!
