//! Text as sequences of characters: splitting, trimming, padding, numbers.

use vstd::prelude::*;

verus! {

/// `std::string::String::push`: appends one character at the end.
pub assume_specification[ String::push ](s: &mut String, c: char)
    ensures
        final(s)@ == old(s)@.push(c),
;

/// The characters of `s`, in order.
pub fn chars_of(s: &str) -> (r: Vec<char>)
    ensures
        r@ == s@,
{
    let mut v: Vec<char> = Vec::new();
    for c in it: s.chars()
        invariant
            v@ == it.seq().take(it.index()),
            it.seq() == s@,
    {
        v.push(c);
        assert(v@ == it.seq().take(it.index() + 1));
    }
    assert(s@.take(s@.len() as int) == s@);
    v
}

/// The text made of `chars[from..to]`.
pub fn slice_text(chars: &Vec<char>, from: usize, to: usize) -> (r: String)
    requires
        from <= to <= chars@.len(),
    ensures
        r@ == chars@.subrange(from as int, to as int),
{
    let mut s = String::new();
    let mut i: usize = from;
    while i < to
        invariant
            from <= i <= to <= chars@.len(),
            s@ == chars@.subrange(from as int, i as int),
        decreases to - i,
    {
        s.push(chars[i]);
        i = i + 1;
        assert(s@ == chars@.subrange(from as int, i as int));
    }
    s
}

/// Whether two texts hold the same characters.
pub fn same_text(a: &str, b: &str) -> (r: bool)
    ensures
        r == (a@ == b@),
{
    let x: String = a.to_owned();
    let y: String = b.to_owned();
    x == y
}

/// `n` copies of `c`.
pub open spec fn fill(c: char, n: nat) -> Seq<char> {
    Seq::new(n, |i: int| c)
}

/// A text of `n` copies of `c`.
pub fn repeat_char(c: char, n: usize) -> (r: String)
    ensures
        r@ == fill(c, n as nat),
{
    let mut s = String::new();
    let mut i: usize = 0;
    while i < n
        invariant
            i <= n,
            s@ == fill(c, i as nat),
        decreases n - i,
    {
        s.push(c);
        i = i + 1;
        assert(s@ == fill(c, i as nat));
    }
    assert(s@ == fill(c, n as nat));
    s
}


/// The texts of a list, as sequences of characters.
pub open spec fn texts(v: Seq<String>) -> Seq<Seq<char>> {
    Seq::new(v.len(), |i: int| v[i]@)
}

/// Appending a text appends its characters.
pub proof fn lemma_texts_push(v: Seq<String>, t: String)
    ensures
        texts(v.push(t)) == texts(v).push(t@),
{
    assert(texts(v.push(t)) =~= texts(v).push(t@));
}

/// `a` followed by `b`.
pub fn cat(a: &str, b: &str) -> (r: String)
    ensures
        r@ == a@ + b@,
{
    let mut s: String = a.to_owned();
    s.append(b);
    s
}

/// `a`, `b` and `c` in a row.
pub fn cat3(a: &str, b: &str, c: &str) -> (r: String)
    ensures
        r@ == a@ + b@ + c@,
{
    let mut s: String = a.to_owned();
    s.append(b);
    s.append(c);
    s
}

/// Number of bytes of the text in UTF-8, as `str::len` gives it.
pub open spec fn byte_len(s: Seq<char>) -> usize {
    vstd::utf8::encode_utf8(s).len() as usize
}

/// The decimal digit `d`.
pub open spec fn digit(d: nat) -> char {
    (48 + d) as char
}

/// `n` written in decimal.
pub open spec fn dec(n: nat) -> Seq<char>
    decreases n,
{
    if n < 10 {
        seq![digit(n)]
    } else {
        dec(n / 10).push(digit(n % 10))
    }
}

fn digit_char(d: u64) -> (r: char)
    requires
        d < 10,
    ensures
        r == digit(d as nat),
{
    (48u8 + d as u8) as char
}

/// `n` written in decimal.
pub fn number(n: u64) -> (r: String)
    ensures
        r@ == dec(n as nat),
    decreases n,
{
    let mut s = if n < 10 {
        String::new()
    } else {
        number(n / 10)
    };
    s.push(digit_char(n % 10));
    assert(s@ =~= dec(n as nat));
    s
}

/// Whether `p` stands at the start of `s`.
pub open spec fn has_prefix(s: Seq<char>, p: Seq<char>) -> bool {
    p.len() <= s.len() && s.take(p.len() as int) == p
}

/// Whether `p` stands at the end of `s`.
pub open spec fn has_suffix(s: Seq<char>, p: Seq<char>) -> bool {
    p.len() <= s.len() && s.skip(s.len() - p.len()) == p
}

/// Whether `p` stands in `s` at position `at`.
pub open spec fn stands_at(s: Seq<char>, p: Seq<char>, at: int) -> bool {
    0 <= at && at + p.len() <= s.len() && s.subrange(at, at + p.len()) == p
}

/// Whether `p` stands in `s` at position `at`.
pub fn matches_at(s: &Vec<char>, p: &Vec<char>, at: usize) -> (r: bool)
    ensures
        r == stands_at(s@, p@, at as int),
{
    let total: usize = s.len();
    if at > total || p.len() > total - at {
        return false;
    }
    let mut i: usize = 0;
    while i < p.len()
        invariant
            at + p@.len() <= s@.len() == total,
            i <= p@.len(),
            forall|j: int| 0 <= j < i ==> s@[at + j] == p@[j],
        decreases p@.len() - i,
    {
        if s[at + i] != p[i] {
            assert(s@.subrange(at as int, at + p@.len())[i as int] != p@[i as int]);
            return false;
        }
        i = i + 1;
    }
    assert(s@.subrange(at as int, at + p@.len()) =~= p@);
    true
}

/// Whether `s` starts with `p`.
pub fn starts_with(s: &str, p: &str) -> (r: bool)
    ensures
        r == has_prefix(s@, p@),
{
    let a = chars_of(s);
    let b = chars_of(p);
    assert(b@.len() <= a@.len() ==> a@.subrange(0, b@.len() as int) =~= a@.take(b@.len() as int));
    matches_at(&a, &b, 0)
}

/// Whether `s` ends with `p`.
pub fn ends_with(s: &str, p: &str) -> (r: bool)
    ensures
        r == has_suffix(s@, p@),
{
    let a = chars_of(s);
    let b = chars_of(p);
    if b.len() > a.len() {
        return false;
    }
    assert(a@.subrange(a@.len() - b@.len(), a@.len() as int) =~= a@.skip(a@.len() - b@.len()));
    matches_at(&a, &b, a.len() - b.len())
}

/// The first position at or behind `from` where `p` stands in `s`, or
/// `s.len()` plus one when there is none.
pub open spec fn find_from(s: Seq<char>, p: Seq<char>, from: int) -> int
    decreases s.len() + 1 - from,
{
    if from > s.len() {
        s.len() as int + 1
    } else if stands_at(s, p, from) {
        from
    } else {
        find_from(s, p, from + 1)
    }
}

/// The first position at or behind `from` where `p` stands in `s`.
pub fn find_text(s: &Vec<char>, p: &Vec<char>, from: usize) -> (r: Option<usize>)
    ensures
        match r {
            Some(i) => find_from(s@, p@, from as int) == i && stands_at(s@, p@, i as int)
                && from <= i,
            None => find_from(s@, p@, from as int) > s@.len(),
        },
{
    let mut i: usize = from;
    while i <= s.len()
        invariant
            from <= i,
            find_from(s@, p@, from as int) == find_from(s@, p@, i as int),
        decreases s@.len() + 1 - i,
    {
        if matches_at(s, p, i) {
            return Some(i);
        }
        if i == s.len() {
            assert(find_from(s@, p@, i + 1) > s@.len());
            return None;
        }
        i = i + 1;
    }
    None
}

/// The first position at or behind `from` that holds `c`, or `s.len()` when
/// there is none.
pub open spec fn char_from(s: Seq<char>, c: char, from: int) -> int
    decreases s.len() - from,
{
    if from >= s.len() {
        s.len() as int
    } else if s[from] == c {
        from
    } else {
        char_from(s, c, from + 1)
    }
}

/// Where [`char_from`] lies.
pub proof fn lemma_char_from(s: Seq<char>, c: char, from: int)
    requires
        0 <= from <= s.len(),
    ensures
        from <= char_from(s, c, from) <= s.len(),
        char_from(s, c, from) < s.len() ==> s[char_from(s, c, from)] == c,
        forall|j: int| from <= j < char_from(s, c, from) ==> s[j] != c,
    decreases s.len() - from,
{
    if from < s.len() && s[from] != c {
        lemma_char_from(s, c, from + 1);
    }
}

/// The first position at or behind `from` that holds `c`, or `s.len()`.
pub fn find_char(s: &Vec<char>, c: char, from: usize) -> (r: usize)
    requires
        from <= s@.len(),
    ensures
        r == char_from(s@, c, from as int),
        from <= r <= s@.len(),
{
    let mut i: usize = from;
    while i < s.len()
        invariant
            from <= i <= s@.len(),
            char_from(s@, c, from as int) == char_from(s@, c, i as int),
        decreases s@.len() - i,
    {
        if s[i] == c {
            return i;
        }
        i = i + 1;
    }
    i
}

/// The parts of `s` between the occurrences of `c` at or behind `from`; the
/// first part starts at `from`.
pub open spec fn split_from(s: Seq<char>, c: char, from: int) -> Seq<Seq<char>>
    decreases s.len() - from,
{
    let end = char_from(s, c, from);
    if from < 0 || end >= s.len() || end < from {
        seq![s.skip(from)]
    } else {
        seq![s.subrange(from, end)] + split_from(s, c, end + 1)
    }
}

/// The parts of `s` between the occurrences of `c`.
pub open spec fn split_on(s: Seq<char>, c: char) -> Seq<Seq<char>> {
    split_from(s, c, 0)
}

/// The parts of `s` between the occurrences of `c`, as `str::split` gives
/// them.
pub fn split(s: &str, c: char) -> (r: Vec<String>)
    ensures
        texts(r@) == split_on(s@, c),
        r@.len() >= 1,
{
    let chars = chars_of(s);
    let mut parts: Vec<String> = Vec::new();
    let mut from: usize = 0;
    loop
        invariant
            chars@ == s@,
            from <= chars@.len(),
            split_on(s@, c) == texts(parts@) + split_from(s@, c, from as int),
        decreases chars@.len() - from,
    {
        let end: usize = find_char(&chars, c, from);
        if end >= chars.len() {
            let part = slice_text(&chars, from, chars.len());
            let ghost before = parts@;
            parts.push(part);
            proof {
                lemma_texts_push(before, part);
                assert(part@ =~= s@.skip(from as int));
                assert(texts(parts@) =~= texts(before) + seq![s@.skip(from as int)]);
            }
            return parts;
        }
        let part = slice_text(&chars, from, end);
        let ghost before = parts@;
        parts.push(part);
        proof {
            lemma_texts_push(before, part);
            assert(texts(parts@) + split_from(s@, c, end + 1) =~= texts(before) + (seq![
                part@,
            ] + split_from(s@, c, end + 1)));
        }
        from = end + 1;
    }
}

/// `line` without one carriage return at its end.
pub open spec fn without_cr(line: Seq<char>) -> Seq<char> {
    if line.len() > 0 && line.last() == '\r' {
        line.drop_last()
    } else {
        line
    }
}

/// The lines of `s` from position `from` on: each ends at a line feed, and
/// loses a carriage return just before it; a rest without a line feed is a
/// line as it stands, unless it is empty.
pub open spec fn lines_from(s: Seq<char>, from: int) -> Seq<Seq<char>>
    decreases s.len() - from,
{
    let end = char_from(s, '\n', from);
    if from < 0 || from >= s.len() || end < from {
        seq![]
    } else if end >= s.len() {
        seq![s.skip(from)]
    } else {
        seq![without_cr(s.subrange(from, end))] + lines_from(s, end + 1)
    }
}

/// The lines of `s`, as `str::lines` gives them.
pub open spec fn lines_of(s: Seq<char>) -> Seq<Seq<char>> {
    lines_from(s, 0)
}

/// The lines of `s`.
pub fn lines(s: &str) -> (r: Vec<String>)
    ensures
        texts(r@) == lines_of(s@),
{
    let chars = chars_of(s);
    let mut parts: Vec<String> = Vec::new();
    let mut from: usize = 0;
    assert(lines_of(s@) =~= texts(parts@) + lines_from(s@, 0));
    while from < chars.len()
        invariant
            chars@ == s@,
            from <= chars@.len(),
            lines_of(s@) == texts(parts@) + lines_from(s@, from as int),
        decreases chars@.len() - from,
    {
        let end: usize = find_char(&chars, '\n', from);
        let ghost before = parts@;
        if end >= chars.len() {
            let part = slice_text(&chars, from, chars.len());
            parts.push(part);
            proof {
                lemma_texts_push(before, part);
                assert(part@ =~= s@.skip(from as int));
                assert(texts(parts@) =~= texts(before) + seq![s@.skip(from as int)]);
            }
            return parts;
        }
        let stop: usize = if end > from && chars[end - 1] == '\r' {
            end - 1
        } else {
            end
        };
        let part = slice_text(&chars, from, stop);
        parts.push(part);
        proof {
            lemma_texts_push(before, part);
            assert(part@ =~= without_cr(s@.subrange(from as int, end as int)));
            assert(texts(parts@) + lines_from(s@, end + 1) =~= texts(before) + (seq![part@]
                + lines_from(s@, end + 1)));
        }
        from = end + 1;
    }
    assert(lines_of(s@) =~= texts(parts@));
    parts
}

/// The first line of `s`, if `s` has one.
pub open spec fn first_line(s: Seq<char>) -> Option<Seq<char>> {
    if lines_of(s).len() > 0 {
        Some(lines_of(s)[0])
    } else {
        None
    }
}

/// The first line of `s`, or `fallback` when `s` is empty.
pub fn first_line_or(s: &str, fallback: &str) -> (r: String)
    ensures
        r@ == (match first_line(s@) {
            Some(l) => l,
            None => fallback@,
        }),
{
    let ls = lines(s);
    if ls.len() > 0 {
        assert(texts(ls@)[0] == ls@[0]@);
        ls[0].clone()
    } else {
        fallback.to_owned()
    }
}

/// The parts with `sep` between each two.
pub open spec fn join_texts(parts: Seq<Seq<char>>, sep: Seq<char>) -> Seq<char>
    decreases parts.len(),
{
    if parts.len() == 0 {
        seq![]
    } else if parts.len() == 1 {
        parts[0]
    } else {
        join_texts(parts.drop_last(), sep) + sep + parts.last()
    }
}

/// The parts with `sep` between each two, as `[String]::join` gives them.
pub fn join(parts: &Vec<String>, sep: &str) -> (r: String)
    ensures
        r@ == join_texts(texts(parts@), sep@),
{
    let mut s = String::new();
    let mut i: usize = 0;
    assert(texts(parts@).take(0).len() == 0);
    while i < parts.len()
        invariant
            i <= parts@.len(),
            s@ == join_texts(texts(parts@).take(i as int), sep@),
        decreases parts@.len() - i,
    {
        if i > 0 {
            s.append(sep);
        }
        s.append(parts[i].as_str());
        proof {
            let t = texts(parts@).take(i + 1);
            assert(t.drop_last() =~= texts(parts@).take(i as int));
            assert(t.last() == parts@[i as int]@);
            if i == 0 {
                assert(s@ =~= t[0]);
            }
        }
        i = i + 1;
    }
    assert(texts(parts@).take(parts@.len() as int) =~= texts(parts@));
    s
}

/// Whether a character has Unicode's `White_Space` property.
pub open spec fn is_white(c: char) -> bool {
    ||| '\t' <= c <= '\r'
    ||| c == ' '
    ||| c == '\u{85}'
    ||| c == '\u{a0}'
    ||| c == '\u{1680}'
    ||| '\u{2000}' <= c <= '\u{200a}'
    ||| c == '\u{2028}'
    ||| c == '\u{2029}'
    ||| c == '\u{202f}'
    ||| c == '\u{205f}'
    ||| c == '\u{3000}'
}

/// `char::is_whitespace`: whether the character has Unicode's `White_Space`
/// property.
pub assume_specification[ char::is_whitespace ](c: char) -> (r: bool)
    ensures
        r == is_white(c),
;

/// `s` from its first character that fails `p`.
pub open spec fn drop_front(s: Seq<char>, p: spec_fn(char) -> bool) -> Seq<char>
    decreases s.len(),
{
    if s.len() > 0 && p(s[0]) {
        drop_front(s.skip(1), p)
    } else {
        s
    }
}

/// `s` up to its last character that fails `p`.
pub open spec fn drop_back(s: Seq<char>, p: spec_fn(char) -> bool) -> Seq<char>
    decreases s.len(),
{
    if s.len() > 0 && p(s.last()) {
        drop_back(s.drop_last(), p)
    } else {
        s
    }
}

/// `s` without white space at its start.
pub open spec fn trim_front(s: Seq<char>) -> Seq<char> {
    drop_front(s, |c: char| is_white(c))
}

/// `s` without white space at its end.
pub open spec fn trim_back(s: Seq<char>) -> Seq<char> {
    drop_back(s, |c: char| is_white(c))
}

/// `s` without white space at either end.
pub open spec fn trimmed(s: Seq<char>) -> Seq<char> {
    trim_back(trim_front(s))
}

/// `s` without white space at its start, as `str::trim_start` gives it.
pub fn trim_start(s: &str) -> (r: String)
    ensures
        r@ == trim_front(s@),
{
    let chars = chars_of(s);
    let ghost p = |c: char| is_white(c);
    let mut i: usize = 0;
    assert(chars@.skip(0) =~= s@);
    while i < chars.len() && chars[i].is_whitespace()
        invariant
            p == (|c: char| is_white(c)),
            i <= chars@.len(),
            drop_front(s@, p) == drop_front(chars@.skip(i as int), p),
        ensures
            i <= chars@.len(),
            drop_front(s@, p) == drop_front(chars@.skip(i as int), p),
            i < chars@.len() ==> !is_white(chars@[i as int]),
        decreases chars@.len() - i,
    {
        assert(chars@.skip(i as int).skip(1) =~= chars@.skip(i + 1));
        i = i + 1;
    }
    assert(chars@.skip(i as int) =~= chars@.subrange(i as int, chars@.len() as int));
    slice_text(&chars, i, chars.len())
}

/// `s` without white space at its end, as `str::trim_end` gives it.
pub fn trim_end(s: &str) -> (r: String)
    ensures
        r@ == trim_back(s@),
{
    let chars = chars_of(s);
    let ghost p = |c: char| is_white(c);
    let mut n: usize = chars.len();
    assert(chars@.take(n as int) =~= s@);
    while n > 0 && chars[n - 1].is_whitespace()
        invariant
            p == (|c: char| is_white(c)),
            n <= chars@.len(),
            drop_back(s@, p) == drop_back(chars@.take(n as int), p),
        ensures
            n <= chars@.len(),
            drop_back(s@, p) == drop_back(chars@.take(n as int), p),
            n > 0 ==> !is_white(chars@[n - 1]),
        decreases n,
    {
        assert(chars@.take(n as int).drop_last() =~= chars@.take(n - 1));
        n = n - 1;
    }
    assert(chars@.take(n as int) =~= chars@.subrange(0, n as int));
    slice_text(&chars, 0, n)
}

/// `s` without white space at either end, as `str::trim` gives it.
pub fn trim(s: &str) -> (r: String)
    ensures
        r@ == trimmed(s@),
{
    let t = trim_start(s);
    trim_end(t.as_str())
}

/// `s` without leading copies of `c`.
pub fn trim_start_char(s: &str, c: char) -> (r: String)
    ensures
        r@ == drop_front(s@, |x: char| x == c),
{
    let chars = chars_of(s);
    let ghost p = |x: char| x == c;
    let mut i: usize = 0;
    assert(chars@.skip(0) =~= s@);
    while i < chars.len() && chars[i] == c
        invariant
            p == (|x: char| x == c),
            i <= chars@.len(),
            drop_front(s@, p) == drop_front(chars@.skip(i as int), p),
        ensures
            i <= chars@.len(),
            drop_front(s@, p) == drop_front(chars@.skip(i as int), p),
            i < chars@.len() ==> chars@[i as int] != c,
        decreases chars@.len() - i,
    {
        assert(chars@.skip(i as int).skip(1) =~= chars@.skip(i + 1));
        i = i + 1;
    }
    assert(chars@.skip(i as int) =~= chars@.subrange(i as int, chars@.len() as int));
    slice_text(&chars, i, chars.len())
}

/// `s` without trailing copies of `c`.
pub fn trim_end_char(s: &str, c: char) -> (r: String)
    ensures
        r@ == drop_back(s@, |x: char| x == c),
{
    let chars = chars_of(s);
    let ghost p = |x: char| x == c;
    let mut n: usize = chars.len();
    assert(chars@.take(n as int) =~= s@);
    while n > 0 && chars[n - 1] == c
        invariant
            p == (|x: char| x == c),
            n <= chars@.len(),
            drop_back(s@, p) == drop_back(chars@.take(n as int), p),
        ensures
            n <= chars@.len(),
            drop_back(s@, p) == drop_back(chars@.take(n as int), p),
            n > 0 ==> chars@[n - 1] != c,
        decreases n,
    {
        assert(chars@.take(n as int).drop_last() =~= chars@.take(n - 1));
        n = n - 1;
    }
    assert(chars@.take(n as int) =~= chars@.subrange(0, n as int));
    slice_text(&chars, 0, n)
}

/// The first `n` characters of `s`, or all when there are fewer.
pub open spec fn first_chars(s: Seq<char>, n: int) -> Seq<char> {
    if n < s.len() {
        s.take(n)
    } else {
        s
    }
}

/// The first `n` characters of `s`, or all when there are fewer.
pub fn take_chars(s: &str, n: usize) -> (r: String)
    ensures
        r@ == first_chars(s@, n as int),
{
    let chars = chars_of(s);
    let k: usize = if n < chars.len() {
        n
    } else {
        chars.len()
    };
    assert(chars@.subrange(0, k as int) =~= first_chars(s@, n as int));
    slice_text(&chars, 0, k)
}

/// Number of characters of `s`.
pub fn char_count(s: &str) -> (r: usize)
    ensures
        r == s@.len(),
{
    chars_of(s).len()
}

/// `s` when it has at most `max` characters; else its first `max - 1`
/// characters and an ellipsis.
pub open spec fn clipped(s: Seq<char>, max: int) -> Seq<char> {
    if s.len() <= max {
        s
    } else {
        first_chars(s, if max > 0 { max - 1 } else { 0 }).push('\u{2026}')
    }
}

/// A text that is cut fits, and one that fits is not cut.
pub proof fn law_clipped_text_fits(s: Seq<char>, max: int)
    requires
        max > 0,
    ensures
        clipped(s, max).len() <= max,
        s.len() <= max ==> clipped(s, max) == s,
{
}

/// Cuts `s` to at most `max` characters, marking the cut with an ellipsis.
pub fn truncate_str(s: &str, max: usize) -> (r: String)
    ensures
        r@ == clipped(s@, max as int),
{
    if char_count(s) <= max {
        return s.to_owned();
    }
    let mut t = take_chars(s, max.saturating_sub(1));
    t.push('\u{2026}');
    t
}


/// `s` with every tab turned into four spaces.
pub open spec fn untabbed(s: Seq<char>) -> Seq<char>
    decreases s.len(),
{
    if s.len() == 0 {
        seq![]
    } else if s.last() == '\t' {
        untabbed(s.drop_last()) + fill(' ', 4)
    } else {
        untabbed(s.drop_last()).push(s.last())
    }
}

/// `s` with every tab turned into four spaces.
pub fn expand_tabs(s: &str) -> (r: String)
    ensures
        r@ == untabbed(s@),
{
    let chars = chars_of(s);
    let four = repeat_char(' ', 4);
    let mut t = String::new();
    let mut i: usize = 0;
    assert(chars@.take(0).len() == 0);
    while i < chars.len()
        invariant
            i <= chars@.len(),
            four@ == fill(' ', 4),
            t@ == untabbed(chars@.take(i as int)),
        decreases chars@.len() - i,
    {
        assert(chars@.take(i + 1).drop_last() =~= chars@.take(i as int));
        if chars[i] == '\t' {
            t.append(four.as_str());
        } else {
            t.push(chars[i]);
        }
        i = i + 1;
    }
    assert(chars@.take(chars@.len() as int) =~= s@);
    t
}

/// The position of the last `c` in `s`, or -1.
pub open spec fn last_char(s: Seq<char>, c: char) -> int
    decreases s.len(),
{
    if s.len() == 0 {
        -1
    } else if s.last() == c {
        s.len() - 1
    } else {
        last_char(s.drop_last(), c)
    }
}

/// The last of the first `n` parts of a path that names something: neither
/// empty nor a single dot.
pub open spec fn last_name(parts: Seq<Seq<char>>, n: int) -> Option<Seq<char>>
    decreases n,
{
    if n <= 0 {
        None
    } else if parts[n - 1].len() == 0 || parts[n - 1] == seq!['.'] {
        last_name(parts, n - 1)
    } else {
        Some(parts[n - 1])
    }
}

/// The extension of a path: what stands behind the last dot of its last name,
/// unless the name is two dots or starts with its only dot.
pub open spec fn extension_of(path: Seq<char>) -> Option<Seq<char>> {
    let parts = split_on(path, '/');
    match last_name(parts, parts.len() as int) {
        Some(name) => {
            let k = last_char(name, '.');
            if k <= 0 || name == seq!['.', '.'] {
                None
            } else {
                Some(name.skip(k + 1))
            }
        },
        None => None,
    }
}

/// The extension of a path, or `fallback` when it has none.
pub fn extension_or(path: &str, fallback: &str) -> (r: String)
    ensures
        r@ == (match extension_of(path@) {
            Some(e) => e,
            None => fallback@,
        }),
{
    let parts = split(path, '/');
    let ghost tp = texts(parts@);
    let mut n: usize = parts.len();
    while n > 0
        invariant
            tp == texts(parts@),
            tp == split_on(path@, '/'),
            n <= parts@.len(),
            last_name(tp, tp.len() as int) == last_name(tp, n as int),
        decreases n,
    {
        let name = chars_of(parts[n - 1].as_str());
        assert(tp[n - 1] == parts@[n - 1]@);
        let one_dot = name.len() == 1 && name[0] == '.';
        assert(one_dot ==> name@ =~= seq!['.']);
        if name.len() == 0 || one_dot {
            n = n - 1;
        } else {
            let two_dots = name.len() == 2 && name[0] == '.' && name[1] == '.';
            assert(two_dots ==> name@ =~= seq!['.', '.']);
            let mut k: usize = name.len();
            assert(name@.take(k as int) =~= name@);
            while k > 0 && name[k - 1] != '.'
                invariant
                    k <= name@.len(),
                    last_char(name@, '.') == last_char(name@.take(k as int), '.'),
                ensures
                    k <= name@.len(),
                    last_char(name@, '.') == k - 1,
                decreases k,
            {
                assert(name@.take(k as int).drop_last() =~= name@.take(k - 1));
                k = k - 1;
            }
            if k <= 1 || two_dots {
                return fallback.to_owned();
            }
            assert(name@.skip(k as int) =~= name@.subrange(k as int, name@.len() as int));
            return slice_text(&name, k, name.len());
        }
    }
    fallback.to_owned()
}


/// The texts from `from` up to `to`.
pub fn part_of(v: &Vec<String>, from: usize, to: usize) -> (r: Vec<String>)
    requires
        from <= to <= v@.len(),
    ensures
        texts(r@) == texts(v@).subrange(from as int, to as int),
{
    let mut r: Vec<String> = Vec::new();
    let mut i: usize = from;
    while i < to
        invariant
            from <= i <= to <= v@.len(),
            texts(r@) == texts(v@).subrange(from as int, i as int),
        decreases to - i,
    {
        let t = v[i].clone();
        proof {
            lemma_texts_push(r@, t);
        }
        r.push(t);
        assert(texts(r@) =~= texts(v@).subrange(from as int, i + 1));
        i = i + 1;
    }
    r
}

/// `s` with spaces before it up to `w` characters.
pub open spec fn right_aligned(s: Seq<char>, w: int) -> Seq<char> {
    if s.len() < w {
        fill(' ', (w - s.len()) as nat) + s
    } else {
        s
    }
}

/// `s` with spaces before it up to `w` characters.
pub fn align_right(s: &str, w: usize) -> (r: String)
    ensures
        r@ == right_aligned(s@, w as int),
{
    let n: usize = char_count(s);
    if n < w {
        let pad = repeat_char(' ', w - n);
        cat(pad.as_str(), s)
    } else {
        s.to_owned()
    }
}

/// `s` with spaces behind it up to `w` characters.
pub open spec fn left_aligned(s: Seq<char>, w: int) -> Seq<char> {
    if s.len() < w {
        s + fill(' ', (w - s.len()) as nat)
    } else {
        s
    }
}

/// `s` with spaces behind it up to `w` characters.
pub fn align_left(s: &str, w: usize) -> (r: String)
    ensures
        r@ == left_aligned(s@, w as int),
{
    let n: usize = char_count(s);
    if n < w {
        let pad = repeat_char(' ', w - n);
        cat(s, pad.as_str())
    } else {
        s.to_owned()
    }
}


/// The parts of `s` from `from` on that `sep` separates.
pub open spec fn parts_from(s: Seq<char>, sep: Seq<char>, from: int) -> Seq<Seq<char>>
    decreases s.len() - from,
{
    let at = find_from(s, sep, from);
    if from < 0 || sep.len() == 0 || at < from || at + sep.len() > s.len() {
        seq![s.skip(from)]
    } else {
        seq![s.subrange(from, at)] + parts_from(s, sep, at + sep.len())
    }
}

/// The parts of `s` that `sep` separates; `s` as a whole when `sep` is empty.
pub fn split_text(s: &str, sep: &str) -> (r: Vec<String>)
    ensures
        texts(r@) == parts_from(s@, sep@, 0),
{
    let chars = chars_of(s);
    let mark = chars_of(sep);
    let mut r: Vec<String> = Vec::new();
    let mut from: usize = 0;
    assert(texts(r@) + parts_from(s@, sep@, 0) =~= parts_from(s@, sep@, 0));
    while from <= chars.len()
        invariant_except_break
            texts(r@) + parts_from(s@, sep@, from as int) == parts_from(s@, sep@, 0),
        invariant
            chars@ == s@,
            mark@ == sep@,
            from <= chars@.len(),
        ensures
            texts(r@) == parts_from(s@, sep@, 0),
        decreases chars@.len() - from,
    {
        let ghost before = r@;
        let found = if mark.len() == 0 {
            None
        } else {
            find_text(&chars, &mark, from)
        };
        match found {
            Some(at) => {
                let t = slice_text(&chars, from, at);
                r.push(t);
                proof {
                    lemma_texts_push(before, t);
                    assert(texts(r@) + parts_from(s@, sep@, at + sep@.len()) =~= texts(before)
                        + parts_from(s@, sep@, from as int));
                }
                from = at + mark.len();
            },
            None => {
                let t = slice_text(&chars, from, chars.len());
                r.push(t);
                proof {
                    lemma_texts_push(before, t);
                    assert(t@ =~= s@.skip(from as int));
                    assert(texts(r@) =~= texts(before) + parts_from(s@, sep@, from as int));
                }
                break;
            },
        }
    }
    r
}

spec fn ten_to(k: nat) -> nat
    decreases k,
{
    if k == 0 {
        1
    } else {
        10 * ten_to((k - 1) as nat)
    }
}

proof fn lemma_dec_digits(n: nat, k: nat)
    requires
        n < ten_to(k),
        k >= 1,
    ensures
        1 <= dec(n).len() <= k,
    decreases k,
{
    if n >= 10 {
        if k >= 2 {
            lemma_dec_digits(n / 10, (k - 1) as nat);
        } else {
            reveal_with_fuel(ten_to, 2);
        }
    }
}

/// A number below two to the power of 64 has at most twenty digits.
pub proof fn lemma_dec_len(n: nat)
    requires
        n <= u64::MAX,
    ensures
        1 <= dec(n).len() <= 20,
{
    reveal_with_fuel(ten_to, 21);
    lemma_dec_digits(n, 20);
}

/// The number that a text of digits writes.
pub open spec fn number_in(s: Seq<char>) -> int
    decreases s.len(),
{
    if s.len() == 0 {
        0
    } else {
        number_in(s.drop_last()) * 10 + (s.last() as int - '0' as int)
    }
}

/// A number in decimal reads back, is made of digits, and starts with none
/// that could be left out.
pub proof fn law_number_reads_back(n: nat)
    ensures
        number_in(dec(n)) == n,
        dec(n).len() > 0,
        forall|i: int| 0 <= i < dec(n).len() ==> '0' <= #[trigger] dec(n)[i] <= '9',
        n > 0 ==> dec(n)[0] != '0',
    decreases n,
{
    if n < 10 {
        assert(dec(n).drop_last() =~= seq![]);
        assert(number_in(dec(n).drop_last()) == 0);
    } else {
        law_number_reads_back(n / 10);
        assert(dec(n).drop_last() =~= dec(n / 10));
        assert(dec(n)[0] == dec(n / 10)[0]);
    }
}

proof fn lemma_dropped_front(s: Seq<char>)
    ensures
        ({
            let t = trim_front(s);
            &&& t.len() <= s.len()
            &&& s.skip(s.len() - t.len()) == t
            &&& t.len() > 0 ==> !is_white(t[0])
            &&& forall|i: int| 0 <= i < s.len() - t.len() ==> is_white(#[trigger] s[i])
        }),
    decreases s.len(),
{
    if s.len() > 0 && is_white(s[0]) {
        let u = s.skip(1);
        lemma_dropped_front(u);
        let t = trim_front(s);
        assert(t == trim_front(u));
        assert(s.skip(s.len() - t.len()) =~= u.skip(u.len() - t.len()));
        assert forall|i: int| 0 <= i < s.len() - t.len() implies is_white(#[trigger] s[i]) by {
            if i > 0 {
                assert(is_white(u[i - 1]));
            }
        }
    } else {
        assert(s.skip(0) =~= s);
    }
}

proof fn lemma_dropped_back(s: Seq<char>)
    ensures
        ({
            let t = trim_back(s);
            &&& t.len() <= s.len()
            &&& s.take(t.len() as int) == t
            &&& t.len() > 0 ==> !is_white(t.last())
            &&& forall|i: int| t.len() <= i < s.len() ==> is_white(#[trigger] s[i])
        }),
    decreases s.len(),
{
    if s.len() > 0 && is_white(s.last()) {
        let u = s.drop_last();
        lemma_dropped_back(u);
        let t = trim_back(s);
        assert(t == trim_back(u));
        assert(s.take(t.len() as int) =~= u.take(t.len() as int));
        assert forall|i: int| t.len() <= i < s.len() implies is_white(#[trigger] s[i]) by {
            if i < u.len() {
                assert(is_white(u[i]));
            }
        }
    } else {
        assert(s.take(s.len() as int) =~= s);
    }
}

/// Trimming takes white space off both ends and nothing else: what is left
/// starts and ends with other characters, and lay between white space.
pub proof fn law_trimming_takes_white_space(s: Seq<char>) -> (at: int)
    ensures
        0 <= at,
        at + trimmed(s).len() <= s.len(),
        s.subrange(at, at + trimmed(s).len()) == trimmed(s),
        trimmed(s).len() > 0 ==> !is_white(trimmed(s)[0]) && !is_white(trimmed(s).last()),
        forall|i: int|
            0 <= i < s.len() && !(at <= i < at + trimmed(s).len()) ==> is_white(#[trigger] s[i]),
{
    lemma_dropped_front(s);
    let f = trim_front(s);
    lemma_dropped_back(f);
    let t = trimmed(s);
    let at = s.len() - f.len();
    assert(s.subrange(at, at + t.len()) =~= f.take(t.len() as int));
    assert forall|i: int| 0 <= i < s.len() && !(at <= i < at + t.len()) implies is_white(
        #[trigger] s[i],
    ) by {
        if i >= at {
            assert(f[i - at] == s.skip(at)[i - at]);
            assert(is_white(f[i - at]));
        }
    }
    if t.len() > 0 {
        assert(t[0] == f.take(t.len() as int)[0]);
    }
    at
}

} // verus!
