//! Sessions: what is kept of a conversation, and how it is found again.

use vstd::prelude::*;

use crate::digest;
use crate::digest::sha256_hex;
use crate::json;
use crate::json::{Json, JsonView};
use crate::render::model;
use crate::render::screen::ReasoningEffort;
use crate::render::tools;
use crate::text;
use crate::text::{cat, cat3, char_count, number, same_text, starts_with, take_chars};

verus! {

// ── Time ─────────────────────────────────────────────────────────────────

/// `std::time::SystemTime::now`, in milliseconds since the epoch.  Nothing is
/// claimed of the time.
#[verifier::external_body]
pub fn now_ms() -> u64 {
    std::time::SystemTime::now().duration_since(
        std::time::UNIX_EPOCH,
    ).unwrap_or_default().as_millis() as u64
}

/// How long ago something was, in the largest unit that fits.
pub open spec fn ago_text(ts_ms: u64, now_ms: u64) -> Seq<char> {
    let d = model::since(now_ms, ts_ms) / 1000;
    let n = |unit: u64| text::dec(tools::at_least_one((d / unit) as int) as nat);
    if d < 60 {
        n(1) + "s ago"@
    } else if d < 3600 {
        n(60) + "m ago"@
    } else if d < 86400 {
        n(3600) + "h ago"@
    } else if d < 604800 {
        n(86400) + "d ago"@
    } else if d < 2592000 {
        n(604800) + "w ago"@
    } else {
        n(2592000) + "mo ago"@
    }
}

fn one_at_least(n: u64) -> (r: u64)
    ensures
        r == tools::at_least_one(n as int),
{
    if n < 1 {
        1
    } else {
        n
    }
}

/// How long ago something was, in the largest unit that fits.
pub fn time_ago(ts_ms: u64, now_ms: u64) -> (r: String)
    ensures
        r@ == ago_text(ts_ms, now_ms),
{
    let d: u64 = now_ms.saturating_sub(ts_ms) / 1000;
    if d < 60 {
        return cat(number(one_at_least(d / 1)).as_str(), "s ago");
    }
    if d < 3600 {
        return cat(number(one_at_least(d / 60)).as_str(), "m ago");
    }
    if d < 86400 {
        return cat(number(one_at_least(d / 3600)).as_str(), "h ago");
    }
    if d < 604800 {
        return cat(number(one_at_least(d / 86400)).as_str(), "d ago");
    }
    if d < 2592000 {
        return cat(number(one_at_least(d / 604800)).as_str(), "w ago");
    }
    cat(number(one_at_least(d / 2592000)).as_str(), "mo ago")
}

// ── Ids ──────────────────────────────────────────────────────────────────

/// What tells one session from another: the process, how many sessions it has
/// made, and some chance.
#[derive(Clone, Copy, Debug, PartialEq, Eq, Structural)]
pub struct IdSeed {
    pub pid: u32,
    pub counter: u64,
    pub entropy: u64,
}

/// The bytes from which the id of a session is made.
pub open spec fn id_bytes(now_ms: u64, seed: IdSeed) -> Seq<u8> {
    vstd::bytes::spec_u64_to_le_bytes(now_ms) + vstd::bytes::spec_u32_to_le_bytes(seed.pid)
        + vstd::bytes::spec_u64_to_le_bytes(seed.counter) + vstd::bytes::spec_u64_to_le_bytes(
        seed.entropy,
    )
}

/// The id of a session.
pub open spec fn session_id(now_ms: u64, seed: IdSeed) -> Seq<char> {
    digest::hex_text(digest::sha256_of(id_bytes(now_ms, seed)), 32)
}

/// A new id: 64 digits in base sixteen.
pub fn new_session_id(now_ms: u64, seed: IdSeed) -> (r: String)
    ensures
        r@ == session_id(now_ms, seed),
        r@.len() == 64,
        forall|i: int| 0 <= i < 64 ==> digest::is_hex(#[trigger] r@[i]),
{
    let mut v: Vec<u8> = vstd::bytes::u64_to_le_bytes(now_ms);
    let mut a = vstd::bytes::u32_to_le_bytes(seed.pid);
    let mut b = vstd::bytes::u64_to_le_bytes(seed.counter);
    let mut c = vstd::bytes::u64_to_le_bytes(seed.entropy);
    v.append(&mut a);
    v.append(&mut b);
    v.append(&mut c);
    assert(v@ =~= id_bytes(now_ms, seed));
    sha256_hex(&v)
}

/// The ids of two sessions are made from different bytes, unless they have the
/// same time and seed.
pub proof fn law_ids_are_made_apart(now_a: u64, a: IdSeed, now_b: u64, b: IdSeed)
    requires
        id_bytes(now_a, a) == id_bytes(now_b, b),
    ensures
        now_a == now_b,
        a == b,
{
    vstd::bytes::lemma_auto_spec_u64_to_from_le_bytes();
    vstd::bytes::lemma_auto_spec_u32_to_from_le_bytes();
    let x = id_bytes(now_a, a);
    let y = id_bytes(now_b, b);
    assert(x.subrange(0, 8) =~= vstd::bytes::spec_u64_to_le_bytes(now_a));
    assert(y.subrange(0, 8) =~= vstd::bytes::spec_u64_to_le_bytes(now_b));
    assert(x.subrange(8, 12) =~= vstd::bytes::spec_u32_to_le_bytes(a.pid));
    assert(y.subrange(8, 12) =~= vstd::bytes::spec_u32_to_le_bytes(b.pid));
    assert(x.subrange(12, 20) =~= vstd::bytes::spec_u64_to_le_bytes(a.counter));
    assert(y.subrange(12, 20) =~= vstd::bytes::spec_u64_to_le_bytes(b.counter));
    assert(x.subrange(20, 28) =~= vstd::bytes::spec_u64_to_le_bytes(a.entropy));
    assert(y.subrange(20, 28) =~= vstd::bytes::spec_u64_to_le_bytes(b.entropy));
}

/// Characters of an id that are shown at least.
pub const MIN_PREFIX_LEN: usize = 4;

/// How many of the first `n` names start with `prefix`.
pub open spec fn starting(names: Seq<Seq<char>>, n: int, prefix: Seq<char>) -> int
    decreases n,
{
    if n <= 0 {
        0
    } else if text::has_prefix(names[n - 1], prefix) {
        starting(names, n - 1, prefix) + 1
    } else {
        starting(names, n - 1, prefix)
    }
}

/// The last of the first `n` names that starts with `prefix`.
pub open spec fn last_starting(names: Seq<Seq<char>>, n: int, prefix: Seq<char>) -> Seq<char>
    decreases n,
{
    if n <= 0 {
        seq![]
    } else if text::has_prefix(names[n - 1], prefix) {
        names[n - 1]
    } else {
        last_starting(names, n - 1, prefix)
    }
}

/// The id that a prefix stands for: itself where there is a session of that
/// id, or else the only one that starts with it.
pub open spec fn resolved(prefix: Seq<char>, exact: bool, names: Seq<Seq<char>>) -> Option<Seq<char>> {
    if exact {
        Some(prefix)
    } else if starting(names, names.len() as int, prefix) == 1 {
        Some(last_starting(names, names.len() as int, prefix))
    } else {
        None
    }
}

/// The id that a prefix stands for, among the sessions that there are.
pub fn resolve_prefix(prefix: &str, exact: bool, names: &Vec<String>) -> (r: Option<String>)
    ensures
        model::opt_view(r) == resolved(prefix@, exact, text::texts(names@)),
{
    if exact {
        return Some(prefix.to_owned());
    }
    let ghost nv = text::texts(names@);
    let total: usize = names.len();
    let mut count: usize = 0;
    let mut last: String = String::new();
    let mut i: usize = 0;
    assert(last@ =~= Seq::<char>::empty());
    while i < total
        invariant
            total == names@.len(),
            i <= total,
            nv == text::texts(names@),
            count <= i,
            count == starting(nv, i as int, prefix@),
            last@ == last_starting(nv, i as int, prefix@),
        decreases total - i,
    {
        assert(nv[i as int] == names@[i as int]@);
        if starts_with(names[i].as_str(), prefix) {
            count = count + 1;
            last = names[i].as_str().to_owned();
        }
        i = i + 1;
    }
    assert(nv.len() == total);
    if count == 1 {
        Some(last)
    } else {
        None
    }
}

/// Whether no other name starts with the first `len` characters of `id`.
pub open spec fn tells_apart(id: Seq<char>, len: int, names: Seq<Seq<char>>) -> bool {
    forall|i: int|
        0 <= i < names.len() && names[i] != id ==> !text::has_prefix(
            #[trigger] names[i],
            id.take(len),
        )
}

/// The smallest length from `len` on that tells `id` apart from the others.
pub open spec fn telling_length(id: Seq<char>, len: int, names: Seq<Seq<char>>) -> int
    decreases id.len() - len,
{
    if len >= id.len() {
        id.len() as int
    } else if tells_apart(id, len, names) {
        len
    } else {
        telling_length(id, len + 1, names)
    }
}

/// The shortest prefix of `id` that stands for no other session; it is short
/// when the sessions are not known.
pub open spec fn short_id(id: Seq<char>, names: Option<Seq<Seq<char>>>) -> Seq<char> {
    match names {
        Some(v) => id.take(telling_length(id, MIN_PREFIX_LEN as int, v)),
        None => text::first_chars(id, MIN_PREFIX_LEN as int),
    }
}

fn sets_apart(id: &str, prefix: &str, names: &Vec<String>) -> (r: bool)
    ensures
        forall|len: int|
            prefix@ == #[trigger] id@.take(len) ==> r == tells_apart(
                id@,
                len,
                text::texts(names@),
            ),
{
    let ghost nv = text::texts(names@);
    let total: usize = names.len();
    assert(nv.len() == total);
    let mut i: usize = 0;
    while i < total
        invariant
            total == names@.len(),
            nv == text::texts(names@),
            nv.len() == total,
            i <= total,
            forall|j: int|
                0 <= j < i && nv[j] != id@ ==> !text::has_prefix(#[trigger] nv[j], prefix@),
        decreases total - i,
    {
        assert(nv[i as int] == names@[i as int]@);
        let name = names[i].as_str();
        if !same_text(name, id) && starts_with(name, prefix) {
            assert(text::has_prefix(nv[i as int], prefix@));
            return false;
        }
        i = i + 1;
    }
    true
}

/// The shortest prefix of `id` that stands for no other session.
pub fn shortest_unique_prefix(id: &str, names: Option<&Vec<String>>) -> (r: String)
    ensures
        r@ == short_id(
            id@,
            match names {
                Some(v) => Some(text::texts(v@)),
                None => None,
            },
        ),
{
    let others = match names {
        Some(v) => v,
        None => return take_chars(id, MIN_PREFIX_LEN),
    };
    let ghost nv = text::texts(others@);
    let total: usize = char_count(id);
    let mut len: usize = MIN_PREFIX_LEN;
    while len < total
        invariant
            total == id@.len(),
            names == Some(others),
            nv == text::texts(others@),
            MIN_PREFIX_LEN <= len,
            telling_length(id@, MIN_PREFIX_LEN as int, nv) == telling_length(
                id@,
                len as int,
                nv,
            ),
        decreases total - len,
    {
        let prefix = take_chars(id, len);
        assert(prefix@ == id@.take(len as int));
        let apart: bool = sets_apart(id, prefix.as_str(), others);
        assert(apart == tells_apart(id@, len as int, nv));
        if apart {
            assert(telling_length(id@, len as int, nv) == len);
            return prefix;
        }
        len = len + 1;
    }
    assert(id@.take(total as int) =~= id@);
    id.to_owned()
}

/// The prefix that is shown tells the session apart, if any prefix of its id
/// does, and no shorter one from `len` characters on does.
pub proof fn law_short_id_tells_apart(id: Seq<char>, len: int, names: Seq<Seq<char>>)
    requires
        0 <= len <= id.len(),
        tells_apart(id, id.len() as int, names),
    ensures
        tells_apart(id, telling_length(id, len, names), names),
        len <= telling_length(id, len, names) <= id.len(),
        forall|k: int|
            len <= k < telling_length(id, len, names) ==> !#[trigger] tells_apart(id, k, names),
    decreases id.len() - len,
{
    if len < id.len() && !tells_apart(id, len, names) {
        law_short_id_tells_apart(id, len + 1, names);
    }
}

proof fn lemma_none_starts(names: Seq<Seq<char>>, n: int, prefix: Seq<char>)
    requires
        0 <= n <= names.len(),
        forall|i: int| 0 <= i < n ==> !text::has_prefix(#[trigger] names[i], prefix),
    ensures
        starting(names, n, prefix) == 0,
    decreases n,
{
    if n > 0 {
        lemma_none_starts(names, n - 1, prefix);
    }
}

proof fn lemma_one_starts(names: Seq<Seq<char>>, n: int, prefix: Seq<char>, at: int)
    requires
        0 <= at < n <= names.len(),
        text::has_prefix(names[at], prefix),
        forall|i: int|
            0 <= i < n && i != at ==> !text::has_prefix(#[trigger] names[i], prefix),
    ensures
        starting(names, n, prefix) == 1,
        last_starting(names, n, prefix) == names[at],
    decreases n,
{
    if at == n - 1 {
        lemma_none_starts(names, n - 1, prefix);
    } else {
        lemma_one_starts(names, n - 1, prefix, at);
    }
}

/// The prefix that is shown of a session leads back to it: it stands for that
/// session among those that there are.
pub proof fn law_short_id_leads_back(id: Seq<char>, names: Seq<Seq<char>>, at: int)
    requires
        id.len() >= MIN_PREFIX_LEN,
        0 <= at < names.len(),
        names[at] == id,
        forall|i: int| 0 <= i < names.len() && i != at ==> #[trigger] names[i] != id,
        tells_apart(id, id.len() as int, names),
    ensures
        ({
            let short = short_id(id, Some(names));
            resolved(short, names.contains(short), names) == Some(id)
        }),
{
    let len = telling_length(id, MIN_PREFIX_LEN as int, names);
    law_short_id_tells_apart(id, MIN_PREFIX_LEN as int, names);
    let short = id.take(len);
    assert(text::has_prefix(id, short));
    assert(short.take(short.len() as int) =~= short);
    if names.contains(short) {
        let i = choose|i: int| 0 <= i < names.len() && names[i] == short;
        assert(text::has_prefix(names[i], short));
        assert(names[i] == id);
    } else {
        assert forall|i: int| 0 <= i < names.len() && i != at implies !text::has_prefix(
            #[trigger] names[i],
            short,
        ) by {
            assert(names[i] != id);
        }
        lemma_one_starts(names, names.len() as int, short, at);
    }
}

/// How to take a session up again.
pub fn resume_hint(id: &str, names: Option<&Vec<String>>) -> (r: String)
    ensures
        r@ == "resume with:\nsmelt --resume "@ + short_id(
            id@,
            match names {
                Some(v) => Some(text::texts(v@)),
                None => None,
            },
        ) + "\n"@,
{
    let short = shortest_unique_prefix(id, names);
    cat3("resume with:\nsmelt --resume ", short.as_str(), "\n")
}

// ── Messages ─────────────────────────────────────────────────────────────

/// A part of a message.
pub enum ContentPart<T> {
    Text { text: T },
    ImageUrl { url: T, label: Option<T> },
}

/// What a message says.
pub enum Content<T, L> {
    Text(T),
    Parts(L),
}

/// A call of a tool that the model has asked for.
pub struct ToolCall<T> {
    pub id: T,
    pub name: T,
    pub arguments: T,
}

/// A message of a conversation.
pub struct Message {
    pub role: String,
    pub content: Option<Content<String, Vec<ContentPart<String>>>>,
    pub tool_calls: Option<Vec<ToolCall<String>>>,
    /// The call that the message answers.
    pub tool_call_id: Option<String>,
}

/// A message, in characters.
pub struct MessageView {
    pub role: Seq<char>,
    pub content: Option<Content<Seq<char>, Seq<ContentPart<Seq<char>>>>>,
    pub tool_calls: Option<Seq<ToolCall<Seq<char>>>>,
    pub tool_call_id: Option<Seq<char>>,
}

pub open spec fn call_view(c: ToolCall<String>) -> ToolCall<Seq<char>> {
    ToolCall { id: c.id@, name: c.name@, arguments: c.arguments@ }
}

pub open spec fn calls_view(v: Seq<ToolCall<String>>) -> Seq<ToolCall<Seq<char>>> {
    Seq::new(v.len(), |i: int| call_view(v[i]))
}

pub open spec fn part_view(p: ContentPart<String>) -> ContentPart<Seq<char>> {
    match p {
        ContentPart::Text { text: t } => ContentPart::Text { text: t@ },
        ContentPart::ImageUrl { url, label } => ContentPart::ImageUrl {
            url: url@,
            label: model::opt_view(label),
        },
    }
}

pub open spec fn parts_view(v: Seq<ContentPart<String>>) -> Seq<ContentPart<Seq<char>>> {
    Seq::new(v.len(), |i: int| part_view(v[i]))
}

pub open spec fn message_view(m: Message) -> MessageView {
    MessageView {
        role: m.role@,
        content: match m.content {
            Some(Content::Text(t)) => Some(Content::Text(t@)),
            Some(Content::Parts(v)) => Some(Content::Parts(parts_view(v@))),
            None => None,
        },
        tool_calls: match m.tool_calls {
            Some(v) => Some(calls_view(v@)),
            None => None,
        },
        tool_call_id: model::opt_view(m.tool_call_id),
    }
}

pub open spec fn messages_view(v: Seq<Message>) -> Seq<MessageView> {
    Seq::new(v.len(), |i: int| message_view(v[i]))
}

/// Pairs of texts, in characters.
pub open spec fn pairs_view(v: Seq<(String, String)>) -> Seq<(Seq<char>, Seq<char>)> {
    Seq::new(v.len(), |i: int| (v[i].0@, v[i].1@))
}

/// What stands for `key` from entry `k` of the table on.
pub open spec fn entry_from(table: Seq<(Seq<char>, Seq<char>)>, k: int, key: Seq<char>) -> Option<
    Seq<char>,
>
    decreases table.len() - k,
{
    if k < 0 || k >= table.len() {
        None
    } else if table[k].0 == key {
        Some(table[k].1)
    } else {
        entry_from(table, k + 1, key)
    }
}

/// What stands for an address.
pub open spec fn exchanged(table: Seq<(Seq<char>, Seq<char>)>, url: Seq<char>) -> Seq<char> {
    match entry_from(table, 0, url) {
        Some(t) => t,
        None => url,
    }
}

/// A part with its address exchanged.
pub open spec fn part_exchanged(table: Seq<(Seq<char>, Seq<char>)>, p: ContentPart<Seq<char>>) -> ContentPart<
    Seq<char>,
> {
    match p {
        ContentPart::Text { text: t } => ContentPart::Text { text: t },
        ContentPart::ImageUrl { url, label } => ContentPart::ImageUrl {
            url: exchanged(table, url),
            label,
        },
    }
}

/// Parts with their addresses exchanged.
pub open spec fn parts_exchanged(
    table: Seq<(Seq<char>, Seq<char>)>,
    v: Seq<ContentPart<Seq<char>>>,
) -> Seq<ContentPart<Seq<char>>> {
    Seq::new(v.len(), |i: int| part_exchanged(table, v[i]))
}

/// A message with its addresses exchanged.
pub open spec fn message_exchanged(table: Seq<(Seq<char>, Seq<char>)>, m: MessageView) -> MessageView {
    match m.content {
        Some(Content::Parts(v)) => MessageView {
            content: Some(Content::Parts(parts_exchanged(table, v))),
            ..m
        },
        _ => m,
    }
}

/// Messages with their addresses exchanged.
pub open spec fn messages_exchanged(
    table: Seq<(Seq<char>, Seq<char>)>,
    v: Seq<MessageView>,
) -> Seq<MessageView> {
    Seq::new(v.len(), |i: int| message_exchanged(table, v[i]))
}

fn exchange(table: &Vec<(String, String)>, url: String) -> (r: String)
    ensures
        r@ == exchanged(pairs_view(table@), url@),
{
    let ghost tv = pairs_view(table@);
    let total: usize = table.len();
    let mut i: usize = 0;
    while i < total
        invariant
            total == table@.len(),
            i <= total,
            tv == pairs_view(table@),
            entry_from(tv, 0, url@) == entry_from(tv, i as int, url@),
        decreases total - i,
    {
        assert(tv[i as int] == (table@[i as int].0@, table@[i as int].1@));
        if same_text(table[i].0.as_str(), url.as_str()) {
            return table[i].1.as_str().to_owned();
        }
        i = i + 1;
    }
    url
}

fn exchange_parts(table: &Vec<(String, String)>, parts: Vec<ContentPart<String>>) -> (r: Vec<
    ContentPart<String>,
>)
    ensures
        parts_view(r@) == parts_exchanged(pairs_view(table@), parts_view(parts@)),
{
    let ghost tv = pairs_view(table@);
    let ghost pv = parts_view(parts@);
    let ghost p0 = parts@;
    let mut parts = parts;
    let total: usize = parts.len();
    let mut i: usize = 0;
    while i < total
        invariant
            total == p0.len(),
            parts@.len() == total,
            i <= total,
            tv == pairs_view(table@),
            pv == parts_view(p0),
            forall|j: int|
                0 <= j < i ==> part_view(#[trigger] parts@[j]) == part_exchanged(tv, pv[j]),
            forall|j: int| i <= j < total ==> #[trigger] parts@[j] == p0[j],
        decreases total - i,
    {
        assert(parts@[i as int] == p0[i as int]);
        let p = parts.remove(i);
        let q = match p {
            ContentPart::Text { text: t } => ContentPart::Text { text: t },
            ContentPart::ImageUrl { url, label } => ContentPart::ImageUrl {
                url: exchange(table, url),
                label,
            },
        };
        parts.insert(i, q);
        i = i + 1;
    }
    assert(parts_view(parts@) =~= parts_exchanged(tv, pv));
    parts
}

fn exchange_all(messages: &mut Vec<Message>, table: &Vec<(String, String)>)
    ensures
        messages_view(final(messages)@) == messages_exchanged(
            pairs_view(table@),
            messages_view(old(messages)@),
        ),
{
    let ghost tv = pairs_view(table@);
    let ghost m0 = messages@;
    let ghost mv = messages_view(m0);
    let total: usize = messages.len();
    let mut i: usize = 0;
    while i < total
        invariant
            total == m0.len(),
            messages@.len() == total,
            i <= total,
            tv == pairs_view(table@),
            mv == messages_view(m0),
            forall|j: int|
                0 <= j < i ==> message_view(#[trigger] messages@[j]) == message_exchanged(
                    tv,
                    mv[j],
                ),
            forall|j: int| i <= j < total ==> #[trigger] messages@[j] == m0[j],
        decreases total - i,
    {
        assert(messages@[i as int] == m0[i as int]);
        let m = messages.remove(i);
        let content = match m.content {
            Some(Content::Parts(v)) => Some(Content::Parts(exchange_parts(table, v))),
            other => other,
        };
        messages.insert(
            i,
            Message {
                role: m.role,
                content,
                tool_calls: m.tool_calls,
                tool_call_id: m.tool_call_id,
            },
        );
        i = i + 1;
    }
    assert(messages_view(messages@) =~= messages_exchanged(tv, mv));
}

/// Exchanges images for the names of the files that hold them.
pub fn externalize_blobs(messages: &mut Vec<Message>, url_to_blob: &Vec<(String, String)>)
    ensures
        messages_view(final(messages)@) == messages_exchanged(
            pairs_view(url_to_blob@),
            messages_view(old(messages)@),
        ),
{
    exchange_all(messages, url_to_blob);
}

/// Exchanges the names of files for the images that they hold.
pub fn internalize_blobs(messages: &mut Vec<Message>, blob_to_url: &Vec<(String, String)>)
    ensures
        messages_view(final(messages)@) == messages_exchanged(
            pairs_view(blob_to_url@),
            messages_view(old(messages)@),
        ),
{
    exchange_all(messages, blob_to_url);
}

/// The table that leads back.
pub open spec fn reversed(table: Seq<(Seq<char>, Seq<char>)>) -> Seq<(Seq<char>, Seq<char>)> {
    Seq::new(table.len(), |i: int| (table[i].1, table[i].0))
}

/// No two entries of the table lead to the same text.
pub open spec fn leads_apart(table: Seq<(Seq<char>, Seq<char>)>) -> bool {
    forall|i: int, j: int| 0 <= i < j < table.len() ==> table[i].1 != table[j].1
}

/// Whether no entry of the table leads to `url`.
pub open spec fn not_led_to(table: Seq<(Seq<char>, Seq<char>)>, url: Seq<char>) -> bool {
    forall|i: int| 0 <= i < table.len() ==> (#[trigger] table[i]).1 != url
}

proof fn lemma_entry(table: Seq<(Seq<char>, Seq<char>)>, k: int, key: Seq<char>) -> (r: int)
    requires
        0 <= k,
    ensures
        match entry_from(table, k, key) {
            Some(t) => k <= r < table.len() && table[r].0 == key && table[r].1 == t,
            None => forall|i: int| k <= i < table.len() ==> (#[trigger] table[i]).0 != key,
        },
    decreases table.len() - k,
{
    if k >= table.len() {
        0
    } else if table[k].0 == key {
        k
    } else {
        lemma_entry(table, k + 1, key)
    }
}

/// What was exchanged comes back, unless the address was that of a file
/// already.
pub proof fn law_exchange_leads_back(table: Seq<(Seq<char>, Seq<char>)>, url: Seq<char>)
    requires
        leads_apart(table),
        not_led_to(table, url),
    ensures
        exchanged(reversed(table), exchanged(table, url)) == url,
{
    let back = reversed(table);
    let r = lemma_entry(table, 0, url);
    let to = exchanged(table, url);
    let s = lemma_entry(back, 0, to);
    match entry_from(table, 0, url) {
        Some(t) => {
            assert(back[r] == (t, url));
            if entry_from(back, 0, to) is Some {
                assert(table[s].1 == back[s].0);
                assert(table[s].1 == table[r].1);
                assert(s == r);
            } else {
                assert(back[r].0 == to);
            }
        },
        None => {
            if entry_from(back, 0, to) is Some {
                assert(back[s].0 == table[s].1);
                assert(false);
            }
        },
    }
}

/// Whether no image of a message is held in a file already.
pub open spec fn all_inline(table: Seq<(Seq<char>, Seq<char>)>, m: MessageView) -> bool {
    match m.content {
        Some(Content::Parts(v)) => forall|i: int|
            0 <= i < v.len() ==> match #[trigger] v[i] {
                ContentPart::ImageUrl { url, label: _ } => not_led_to(table, url),
                _ => true,
            },
        _ => true,
    }
}

/// A conversation that was put into files is read back as it was.
pub proof fn law_blobs_come_back(table: Seq<(Seq<char>, Seq<char>)>, v: Seq<MessageView>)
    requires
        leads_apart(table),
        forall|i: int| 0 <= i < v.len() ==> all_inline(table, #[trigger] v[i]),
    ensures
        messages_exchanged(reversed(table), messages_exchanged(table, v)) == v,
{
    let back = reversed(table);
    let w = messages_exchanged(table, v);
    assert forall|i: int| 0 <= i < v.len() implies message_exchanged(back, w[i]) == v[i] by {
        let m = v[i];
        assert(all_inline(table, m));
        match m.content {
            Some(Content::Parts(ps)) => {
                let qs = parts_exchanged(table, ps);
                assert forall|j: int| 0 <= j < ps.len() implies part_exchanged(back, qs[j])
                    == ps[j] by {
                    match ps[j] {
                        ContentPart::ImageUrl { url, label: _ } => {
                            assert(not_led_to(table, url));
                            law_exchange_leads_back(table, url);
                        },
                        _ => {},
                    }
                }
                assert(parts_exchanged(back, qs) =~= ps);
            },
            _ => {},
        }
    }
    assert(messages_exchanged(back, w) =~= v);
}

// ── Sessions ─────────────────────────────────────────────────────────────

/// What is known of one turn.
pub struct TurnMeta {
    pub elapsed_ms: u64,
    /// The bits of the average speed, in tokens per second.
    pub avg_tps: Option<u64>,
    pub interrupted: bool,
    /// How long tools took, by id.
    pub tool_elapsed: Vec<(String, u64)>,
    /// What is shown of agents, by id.
    pub agent_blocks: Vec<(String, Json)>,
}

/// What is known of one turn, in characters.
#[verifier::ext_equal]
pub struct TurnView {
    pub elapsed_ms: u64,
    pub avg_tps: Option<u64>,
    pub interrupted: bool,
    pub tool_elapsed: Seq<(Seq<char>, u64)>,
    pub agent_blocks: Seq<(Seq<char>, JsonView)>,
}

/// Times by id, in characters.
pub open spec fn times_view(v: Seq<(String, u64)>) -> Seq<(Seq<char>, u64)> {
    Seq::new(v.len(), |i: int| (v[i].0@, v[i].1))
}

pub open spec fn turn_view(t: TurnMeta) -> TurnView {
    TurnView {
        elapsed_ms: t.elapsed_ms,
        avg_tps: t.avg_tps,
        interrupted: t.interrupted,
        tool_elapsed: times_view(t.tool_elapsed@),
        agent_blocks: json::fields_view(t.agent_blocks@),
    }
}

/// Turns by the length of the conversation, in characters.
pub open spec fn turns_view(v: Seq<(usize, TurnMeta)>) -> Seq<(usize, TurnView)> {
    Seq::new(v.len(), |i: int| (v[i].0, turn_view(v[i].1)))
}

/// What is kept of a conversation.
pub struct Session {
    pub id: String,
    pub title: Option<String>,
    pub slug: Option<String>,
    pub first_user_message: Option<String>,
    pub created_at_ms: u64,
    pub updated_at_ms: u64,
    pub mode: Option<String>,
    pub reasoning_effort: Option<ReasoningEffort>,
    pub model: Option<String>,
    pub cwd: Option<String>,
    pub parent_id: Option<String>,
    pub messages: Vec<Message>,
    pub context_tokens: Option<u32>,
    /// Tokens of the context, by the length of the conversation.
    pub token_snapshots: Vec<(usize, u32)>,
    /// The bits of what the session has cost in dollars, by the length of the
    /// conversation.
    pub cost_snapshots: Vec<(usize, u64)>,
    /// The turns, by the length of the conversation.
    pub turn_metas: Vec<(usize, TurnMeta)>,
}

/// What is shown of a session in a list.
pub struct SessionMeta {
    pub id: String,
    pub title: Option<String>,
    pub slug: Option<String>,
    pub first_user_message: Option<String>,
    pub created_at_ms: u64,
    pub updated_at_ms: u64,
    pub mode: Option<String>,
    pub reasoning_effort: Option<ReasoningEffort>,
    pub model: Option<String>,
    pub cwd: Option<String>,
    pub parent_id: Option<String>,
    pub context_tokens: Option<u32>,
}

fn copy_text(t: &Option<String>) -> (r: Option<String>)
    ensures
        model::opt_view(r) == model::opt_view(*t),
{
    match t {
        Some(s) => Some(s.as_str().to_owned()),
        None => None,
    }
}

fn copy_parts(v: &Vec<ContentPart<String>>) -> (r: Vec<ContentPart<String>>)
    ensures
        parts_view(r@) == parts_view(v@),
{
    let n: usize = v.len();
    let mut r: Vec<ContentPart<String>> = Vec::new();
    let mut i: usize = 0;
    while i < n
        invariant
            n == v@.len(),
            i <= n,
            r@.len() == i,
            forall|j: int| 0 <= j < i ==> part_view(#[trigger] r@[j]) == part_view(v@[j]),
        decreases n - i,
    {
        let p = match &v[i] {
            ContentPart::Text { text: t } => ContentPart::Text { text: t.as_str().to_owned() },
            ContentPart::ImageUrl { url, label } => ContentPart::ImageUrl {
                url: url.as_str().to_owned(),
                label: copy_text(label),
            },
        };
        r.push(p);
        i = i + 1;
    }
    assert(parts_view(r@) =~= parts_view(v@));
    r
}

fn copy_calls(v: &Vec<ToolCall<String>>) -> (r: Vec<ToolCall<String>>)
    ensures
        calls_view(r@) == calls_view(v@),
{
    let n: usize = v.len();
    let mut r: Vec<ToolCall<String>> = Vec::new();
    let mut i: usize = 0;
    while i < n
        invariant
            n == v@.len(),
            i <= n,
            r@.len() == i,
            forall|j: int| 0 <= j < i ==> call_view(#[trigger] r@[j]) == call_view(v@[j]),
        decreases n - i,
    {
        let c = &v[i];
        r.push(
            ToolCall {
                id: c.id.as_str().to_owned(),
                name: c.name.as_str().to_owned(),
                arguments: c.arguments.as_str().to_owned(),
            },
        );
        i = i + 1;
    }
    assert(calls_view(r@) =~= calls_view(v@));
    r
}

fn copy_messages(v: &Vec<Message>) -> (r: Vec<Message>)
    ensures
        messages_view(r@) == messages_view(v@),
{
    let n: usize = v.len();
    let mut r: Vec<Message> = Vec::new();
    let mut i: usize = 0;
    while i < n
        invariant
            n == v@.len(),
            i <= n,
            r@.len() == i,
            forall|j: int| 0 <= j < i ==> message_view(#[trigger] r@[j]) == message_view(v@[j]),
        decreases n - i,
    {
        let content = match &v[i].content {
            Some(Content::Text(t)) => Some(Content::Text(t.as_str().to_owned())),
            Some(Content::Parts(ps)) => Some(Content::Parts(copy_parts(ps))),
            None => None,
        };
        let tool_calls = match &v[i].tool_calls {
            Some(c) => Some(copy_calls(c)),
            None => None,
        };
        r.push(
            Message {
                role: v[i].role.as_str().to_owned(),
                content,
                tool_calls,
                tool_call_id: copy_text(&v[i].tool_call_id),
            },
        );
        i = i + 1;
    }
    assert(messages_view(r@) =~= messages_view(v@));
    r
}

fn copy_snapshots<T: Copy>(v: &Vec<(usize, T)>) -> (r: Vec<(usize, T)>)
    ensures
        r@ == v@,
{
    let n: usize = v.len();
    let mut r: Vec<(usize, T)> = Vec::new();
    let mut i: usize = 0;
    while i < n
        invariant
            n == v@.len(),
            i <= n,
            r@ == v@.take(i as int),
        decreases n - i,
    {
        r.push(v[i]);
        assert(r@ =~= v@.take(i + 1));
        i = i + 1;
    }
    assert(v@.take(n as int) =~= v@);
    r
}

fn copy_times(v: &Vec<(String, u64)>) -> (r: Vec<(String, u64)>)
    ensures
        times_view(r@) == times_view(v@),
{
    let n: usize = v.len();
    let mut r: Vec<(String, u64)> = Vec::new();
    let mut i: usize = 0;
    while i < n
        invariant
            n == v@.len(),
            i <= n,
            r@.len() == i,
            forall|j: int| 0 <= j < i ==> (#[trigger] r@[j]).0@ == v@[j].0@ && r@[j].1 == v@[j].1,
        decreases n - i,
    {
        r.push((v[i].0.as_str().to_owned(), v[i].1));
        i = i + 1;
    }
    assert(times_view(r@) =~= times_view(v@));
    r
}

fn copy_fields(v: &Vec<(String, Json)>) -> (r: Vec<(String, Json)>)
    ensures
        json::fields_view(r@) == json::fields_view(v@),
{
    let n: usize = v.len();
    let mut r: Vec<(String, Json)> = Vec::new();
    let mut i: usize = 0;
    while i < n
        invariant
            n == v@.len(),
            i <= n,
            r@.len() == i,
            forall|j: int|
                0 <= j < i ==> (#[trigger] r@[j]).0@ == v@[j].0@ && json::value_of(r@[j].1)
                    == json::value_of(v@[j].1),
        decreases n - i,
    {
        let value = json::copy(&v[i].1);
        r.push((v[i].0.as_str().to_owned(), value));
        i = i + 1;
    }
    assert(json::fields_view(r@) =~= json::fields_view(v@));
    r
}

fn copy_turns(v: &Vec<(usize, TurnMeta)>) -> (r: Vec<(usize, TurnMeta)>)
    ensures
        turns_view(r@) == turns_view(v@),
{
    let n: usize = v.len();
    let mut r: Vec<(usize, TurnMeta)> = Vec::new();
    let mut i: usize = 0;
    while i < n
        invariant
            n == v@.len(),
            i <= n,
            r@.len() == i,
            forall|j: int|
                0 <= j < i ==> (#[trigger] r@[j]).0 == v@[j].0 && turn_view(r@[j].1) == turn_view(
                    v@[j].1,
                ),
        decreases n - i,
    {
        let t = &v[i].1;
        let turn = TurnMeta {
            elapsed_ms: t.elapsed_ms,
            avg_tps: t.avg_tps,
            interrupted: t.interrupted,
            tool_elapsed: copy_times(&t.tool_elapsed),
            agent_blocks: copy_fields(&t.agent_blocks),
        };
        r.push((v[i].0, turn));
        i = i + 1;
    }
    assert(turns_view(r@) =~= turns_view(v@));
    r
}

impl Session {
    /// A session that starts now, in the directory `cwd`.
    pub fn new(seed: IdSeed, cwd: Option<String>) -> (r: Session)
        ensures
            r.id@ == session_id(r.created_at_ms, seed),
            r.updated_at_ms == r.created_at_ms,
            r.cwd == cwd,
            r.title is None,
            r.slug is None,
            r.first_user_message is None,
            r.mode is None,
            r.reasoning_effort is None,
            r.model is None,
            r.parent_id is None,
            r.messages@.len() == 0,
            r.context_tokens is None,
            r.token_snapshots@.len() == 0,
            r.cost_snapshots@.len() == 0,
            r.turn_metas@.len() == 0,
    {
        let now: u64 = now_ms();
        Session {
            id: new_session_id(now, seed),
            title: None,
            slug: None,
            first_user_message: None,
            created_at_ms: now,
            updated_at_ms: now,
            mode: None,
            reasoning_effort: None,
            model: None,
            cwd,
            parent_id: None,
            messages: Vec::new(),
            context_tokens: None,
            token_snapshots: Vec::new(),
            cost_snapshots: Vec::new(),
            turn_metas: Vec::new(),
        }
    }

    /// What is shown of the session in a list.
    pub open spec fn described_by(self, m: SessionMeta) -> bool {
        &&& m.id@ == self.id@
        &&& model::opt_view(m.title) == model::opt_view(self.title)
        &&& model::opt_view(m.slug) == model::opt_view(self.slug)
        &&& model::opt_view(m.first_user_message) == model::opt_view(self.first_user_message)
        &&& m.created_at_ms == self.created_at_ms
        &&& m.updated_at_ms == self.updated_at_ms
        &&& model::opt_view(m.mode) == model::opt_view(self.mode)
        &&& m.reasoning_effort == self.reasoning_effort
        &&& model::opt_view(m.model) == model::opt_view(self.model)
        &&& model::opt_view(m.cwd) == model::opt_view(self.cwd)
        &&& model::opt_view(m.parent_id) == model::opt_view(self.parent_id)
        &&& m.context_tokens == self.context_tokens
    }

    pub fn meta(&self) -> (r: SessionMeta)
        ensures
            self.described_by(r),
    {
        SessionMeta {
            id: self.id.as_str().to_owned(),
            title: copy_text(&self.title),
            slug: copy_text(&self.slug),
            first_user_message: copy_text(&self.first_user_message),
            created_at_ms: self.created_at_ms,
            updated_at_ms: self.updated_at_ms,
            mode: copy_text(&self.mode),
            reasoning_effort: self.reasoning_effort,
            model: copy_text(&self.model),
            cwd: copy_text(&self.cwd),
            parent_id: copy_text(&self.parent_id),
            context_tokens: self.context_tokens,
        }
    }

    /// A session with the same contents that starts now, and points back.
    pub fn fork(&self, seed: IdSeed) -> (r: Session)
        ensures
            r.id@ == session_id(r.created_at_ms, seed),
            r.updated_at_ms == r.created_at_ms,
            model::opt_view(r.parent_id) == Some(self.id@),
            model::opt_view(r.title) == model::opt_view(self.title),
            model::opt_view(r.slug) == model::opt_view(self.slug),
            model::opt_view(r.first_user_message) == model::opt_view(self.first_user_message),
            model::opt_view(r.mode) == model::opt_view(self.mode),
            r.reasoning_effort == self.reasoning_effort,
            model::opt_view(r.model) == model::opt_view(self.model),
            model::opt_view(r.cwd) == model::opt_view(self.cwd),
            messages_view(r.messages@) == messages_view(self.messages@),
            r.context_tokens == self.context_tokens,
            r.token_snapshots@ == self.token_snapshots@,
            r.cost_snapshots@ == self.cost_snapshots@,
            turns_view(r.turn_metas@) == turns_view(self.turn_metas@),
    {
        let now: u64 = now_ms();
        Session {
            id: new_session_id(now, seed),
            title: copy_text(&self.title),
            slug: copy_text(&self.slug),
            first_user_message: copy_text(&self.first_user_message),
            created_at_ms: now,
            updated_at_ms: now,
            mode: copy_text(&self.mode),
            reasoning_effort: self.reasoning_effort,
            model: copy_text(&self.model),
            cwd: copy_text(&self.cwd),
            parent_id: Some(self.id.as_str().to_owned()),
            messages: copy_messages(&self.messages),
            context_tokens: self.context_tokens,
            token_snapshots: copy_snapshots(&self.token_snapshots),
            cost_snapshots: copy_snapshots(&self.cost_snapshots),
            turn_metas: copy_turns(&self.turn_metas),
        }
    }
}

// ── Lists ────────────────────────────────────────────────────────────────

/// When a session was last changed.
pub open spec fn updated_at(m: SessionMeta) -> u64 {
    if m.updated_at_ms > 0 {
        m.updated_at_ms
    } else {
        m.created_at_ms
    }
}

/// When a session was last changed.
pub fn session_updated_at(meta: &SessionMeta) -> (r: u64)
    ensures
        r == updated_at(*meta),
{
    if meta.updated_at_ms > 0 {
        meta.updated_at_ms
    } else {
        meta.created_at_ms
    }
}

/// A description read from the directory `name`: it goes by that name when it
/// has no id.
pub fn with_id(meta: SessionMeta, name: &str) -> (r: SessionMeta)
    ensures
        r.id@ == (if meta.id@.len() == 0 {
            name@
        } else {
            meta.id@
        }),
        r == (SessionMeta { id: r.id, ..meta }),
{
    let mut meta = meta;
    if char_count(meta.id.as_str()) == 0 {
        meta.id = name.to_owned();
    }
    meta
}

/// How many of the first `n` sessions were changed as late as `at` or later.
pub open spec fn place_of(v: Seq<SessionMeta>, n: int, at: u64) -> int
    decreases n,
{
    if n <= 0 {
        0
    } else if updated_at(v[n - 1]) >= at {
        n
    } else {
        place_of(v, n - 1, at)
    }
}

/// The first `n` sessions, the last changed first, and else as they come.
pub open spec fn latest_first(v: Seq<SessionMeta>, n: int) -> Seq<SessionMeta>
    decreases n,
{
    if n <= 0 {
        seq![]
    } else {
        let s = latest_first(v, n - 1);
        s.insert(place_of(s, s.len() as int, updated_at(v[n - 1])), v[n - 1])
    }
}

/// The sessions, the last changed first, and else as they come.
pub fn order_sessions(v: Vec<SessionMeta>) -> (r: Vec<SessionMeta>)
    ensures
        r@ == latest_first(v@, v@.len() as int),
{
    let ghost v0 = v@;
    let mut v = v;
    let mut r: Vec<SessionMeta> = Vec::new();
    let total: usize = v.len();
    let mut i: usize = 0;
    assert(v0.skip(0) =~= v0);
    while i < total
        invariant
            total == v0.len(),
            i <= total,
            v@ == v0.skip(i as int),
            r@ == latest_first(v0, i as int),
        decreases total - i,
    {
        let m = v.remove(0);
        assert(m == v0[i as int]);
        assert(v@ =~= v0.skip(i + 1));
        let at: u64 = session_updated_at(&m);
        let mut k: usize = r.len();
        while k > 0 && session_updated_at(&r[k - 1]) < at
            invariant
                k <= r@.len(),
                place_of(r@, r@.len() as int, at) == place_of(r@, k as int, at),
            decreases k,
        {
            k = k - 1;
        }
        r.insert(k, m);
        i = i + 1;
    }
    r
}

proof fn lemma_place(v: Seq<SessionMeta>, n: int, at: u64)
    requires
        0 <= n <= v.len(),
        forall|i: int, j: int|
            0 <= i <= j < v.len() ==> updated_at(#[trigger] v[i]) >= updated_at(#[trigger] v[j]),
    ensures
        0 <= place_of(v, n, at) <= n,
        forall|i: int| 0 <= i < place_of(v, n, at) ==> updated_at(#[trigger] v[i]) >= at,
        forall|i: int| place_of(v, n, at) <= i < n ==> updated_at(#[trigger] v[i]) < at,
    decreases n,
{
    if n > 0 && updated_at(v[n - 1]) < at {
        lemma_place(v, n - 1, at);
    }
}

/// The list holds every session once, the last changed first.
pub proof fn law_list_is_in_order(v: Seq<SessionMeta>, n: int)
    requires
        0 <= n <= v.len(),
    ensures
        latest_first(v, n).to_multiset() == v.take(n).to_multiset(),
        forall|i: int, j: int|
            0 <= i <= j < latest_first(v, n).len() ==> updated_at(
                #[trigger] latest_first(v, n)[i],
            ) >= updated_at(#[trigger] latest_first(v, n)[j]),
    decreases n,
{
    if n > 0 {
        law_list_is_in_order(v, n - 1);
        let s = latest_first(v, n - 1);
        let at = updated_at(v[n - 1]);
        lemma_place(s, s.len() as int, at);
        let k = place_of(s, s.len() as int, at);
        let r = s.insert(k, v[n - 1]);
        assert(v.take(n) =~= v.take(n - 1).push(v[n - 1]));
        vstd::seq_lib::to_multiset_build(v.take(n - 1), v[n - 1]);
        vstd::seq_lib::to_multiset_insert(s, k, v[n - 1]);
        assert forall|i: int, j: int| 0 <= i <= j < r.len() implies updated_at(
            #[trigger] r[i],
        ) >= updated_at(#[trigger] r[j]) by {
            let a = if i < k {
                i
            } else {
                i - 1
            };
            let b = if j < k {
                j
            } else {
                j - 1
            };
            if i != k && j != k {
                assert(r[i] == s[a]);
                assert(r[j] == s[b]);
            } else if i == k && j != k {
                assert(r[j] == s[b]);
            } else if j == k && i != k {
                assert(r[i] == s[a]);
            }
        }
    } else {
        assert(v.take(0) =~= seq![]);
    }
}

/// How long ago something was is told in the largest unit that fits whole,
/// rounded down; what was less than a second ago, or is still to come, was a
/// second ago.
pub proof fn law_ago_is_told_in_the_largest_unit(ts: u64, n: int, rest: int)
    requires
        0 < n,
        0 <= rest,
    ensures
        forall|now: u64| now < ts + 2000 ==> #[trigger] ago_text(ts, now) == "1s ago"@,
        n < 60 && rest < 1000 && ts + n * 1000 + rest <= u64::MAX ==> ago_text(
            ts,
            (ts + n * 1000 + rest) as u64,
        ) == text::dec(n as nat) + "s ago"@,
        n < 60 && rest < 60000 && ts + n * 60000 + rest <= u64::MAX ==> ago_text(
            ts,
            (ts + n * 60000 + rest) as u64,
        ) == text::dec(n as nat) + "m ago"@,
        n < 24 && rest < 3600000 && ts + n * 3600000 + rest <= u64::MAX ==> ago_text(
            ts,
            (ts + n * 3600000 + rest) as u64,
        ) == text::dec(n as nat) + "h ago"@,
        n < 7 && rest < 86400000 && ts + n * 86400000 + rest <= u64::MAX ==> ago_text(
            ts,
            (ts + n * 86400000 + rest) as u64,
        ) == text::dec(n as nat) + "d ago"@,
        n * 604800000 + rest < 2592000000 && rest < 604800000 && ts + n * 604800000 + rest
            <= u64::MAX ==> ago_text(ts, (ts + n * 604800000 + rest) as u64) == text::dec(n as nat)
            + "w ago"@,
        rest < 2592000000 && ts + n * 2592000000 + rest <= u64::MAX ==> ago_text(
            ts,
            (ts + n * 2592000000 + rest) as u64,
        ) == text::dec(n as nat) + "mo ago"@,
{
    reveal_strlit("s ago");
    reveal_strlit("1s ago");
    assert forall|now: u64| now < ts + 2000 implies #[trigger] ago_text(ts, now) == "1s ago"@ by {
        assert(text::dec(1) =~= seq!['1']);
        assert(text::dec(1) + "s ago"@ =~= "1s ago"@);
    }
}

/// A prefix stands for a session exactly when there is one of that name, or
/// else when one and only one starts with it.
pub proof fn law_prefix_stands_for_the_only_match(prefix: Seq<char>, names: Seq<Seq<char>>)
    ensures
        ({
            let r = resolved(prefix, names.contains(prefix), names);
            &&& names.contains(prefix) ==> r == Some(prefix)
            &&& r matches Some(id) ==> names.contains(id) && text::has_prefix(id, prefix)
            &&& r is Some && !names.contains(prefix) ==> forall|i: int, j: int|
                0 <= i < names.len() && 0 <= j < names.len() && text::has_prefix(
                    #[trigger] names[i],
                    prefix,
                ) && text::has_prefix(#[trigger] names[j], prefix) ==> i == j
            &&& r is None ==> forall|i: int|
                0 <= i < names.len() && text::has_prefix(#[trigger] names[i], prefix) ==> exists|
                    j: int,
                |
                    0 <= j < names.len() && j != i && text::has_prefix(#[trigger] names[j], prefix)
        }),
{
    let n = names.len() as int;
    assert(prefix.take(prefix.len() as int) =~= prefix);
    if !names.contains(prefix) {
        lemma_starting(names, n, prefix);
        if starting(names, n, prefix) == 1 {
            let at = lemma_only_one(names, n, prefix);
        } else {
            assert forall|i: int|
                0 <= i < names.len() && text::has_prefix(
                    #[trigger] names[i],
                    prefix,
                ) implies exists|j: int|
                0 <= j < names.len() && j != i && text::has_prefix(#[trigger] names[j], prefix) by {
                if !(exists|j: int|
                    0 <= j < names.len() && j != i && text::has_prefix(
                        #[trigger] names[j],
                        prefix,
                    )) {
                    lemma_one_starts(names, n, prefix, i);
                }
            }
        }
    }
}

proof fn lemma_starting(names: Seq<Seq<char>>, n: int, prefix: Seq<char>)
    requires
        0 <= n <= names.len(),
    ensures
        0 <= starting(names, n, prefix),
        starting(names, n, prefix) == 0 ==> forall|i: int|
            0 <= i < n ==> !text::has_prefix(#[trigger] names[i], prefix),
    decreases n,
{
    if n > 0 {
        lemma_starting(names, n - 1, prefix);
    }
}

proof fn lemma_only_one(names: Seq<Seq<char>>, n: int, prefix: Seq<char>) -> (at: int)
    requires
        0 <= n <= names.len(),
        starting(names, n, prefix) == 1,
    ensures
        0 <= at < n,
        text::has_prefix(names[at], prefix),
        last_starting(names, n, prefix) == names[at],
        forall|i: int| 0 <= i < n && text::has_prefix(#[trigger] names[i], prefix) ==> i == at,
    decreases n,
{
    lemma_starting(names, n - 1, prefix);
    if text::has_prefix(names[n - 1], prefix) {
        n - 1
    } else {
        lemma_only_one(names, n - 1, prefix)
    }
}

/// The prefix that is shown of a session is the start of its id, at least
/// four characters of it.
pub proof fn law_short_id_is_a_prefix(id: Seq<char>, names: Option<Seq<Seq<char>>>)
    requires
        id.len() >= 4,
    ensures
        short_id(id, names).len() >= 4,
        text::has_prefix(id, short_id(id, names)),
        names is None ==> short_id(id, names).len() == 4,
{
    match names {
        Some(v) => {
            lemma_telling_length(id, 4, v);
        },
        None => {},
    }
    assert(short_id(id, names) =~= id.take(short_id(id, names).len() as int));
}

proof fn lemma_telling_length(id: Seq<char>, len: int, names: Seq<Seq<char>>)
    requires
        0 <= len <= id.len(),
    ensures
        len <= telling_length(id, len, names) <= id.len(),
    decreases id.len() - len,
{
    if len < id.len() && !tells_apart(id, len, names) {
        lemma_telling_length(id, len + 1, names);
    }
}

} // verus!
