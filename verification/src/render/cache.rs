//! What was rendered of a session before.

use vstd::prelude::*;

use crate::digest;
use crate::digest::sha256_hex;
use crate::json;
use crate::json::{str_or_empty, Json};
use crate::render::highlight::Assets;
use crate::render::model;
use crate::render::model::{
    build_inline_diff_cache_ext, CachedNotebookEdit, NotebookRenderData, ToolOutputRenderCache,
};
use crate::render::screen::Screen;
use crate::render::styled::Env;
use crate::session::{Message, ToolCall};
use crate::text::{char_count, same_text};

verus! {

pub const RENDER_CACHE_VERSION: u32 = 1;

/// What was rendered of a session before, by the ids of its tool calls.
pub struct RenderCache {
    pub version: u32,
    pub session_hash: String,
    /// No id occurs twice.
    pub tool_outputs: Vec<(String, ToolOutputRenderCache)>,
}

/// What stands for the id from entry `k` on.
pub open spec fn output_from(
    v: Seq<(String, ToolOutputRenderCache)>,
    k: int,
    id: Seq<char>,
) -> Option<ToolOutputRenderCache>
    decreases v.len() - k,
{
    if k < 0 || k >= v.len() {
        None
    } else if v[k].0@ == id {
        Some(v[k].1)
    } else {
        output_from(v, k + 1, id)
    }
}

/// No id occurs twice.
pub open spec fn distinct(v: Seq<(String, ToolOutputRenderCache)>) -> bool {
    forall|i: int, j: int| 0 <= i < j < v.len() ==> (#[trigger] v[i]).0@ != (#[trigger] v[j]).0@
}

proof fn lemma_output(v: Seq<(String, ToolOutputRenderCache)>, k: int, id: Seq<char>) -> (r: int)
    requires
        0 <= k,
    ensures
        match output_from(v, k, id) {
            Some(o) => k <= r < v.len() && v[r].0@ == id && v[r].1 == o,
            None => forall|i: int| k <= i < v.len() ==> (#[trigger] v[i]).0@ != id,
        },
    decreases v.len() - k,
{
    if k >= v.len() {
        0
    } else if v[k].0@ == id {
        k
    } else {
        lemma_output(v, k + 1, id)
    }
}

/// An entry of distinct ids is found by its id.
proof fn lemma_found(v: Seq<(String, ToolOutputRenderCache)>, k: int)
    requires
        distinct(v),
        0 <= k < v.len(),
    ensures
        output_from(v, 0, v[k].0@) == Some(v[k].1),
{
    let r = lemma_output(v, 0, v[k].0@);
    if output_from(v, 0, v[k].0@) is Some {
        if r < k {
            assert(v[r].0@ != v[k].0@);
        } else if k < r {
            assert(v[k].0@ != v[r].0@);
        }
    }
}

/// Whether the id is that of a call among the first `n`.
pub open spec fn is_call(calls: Seq<ToolCall<String>>, n: int, id: Seq<char>) -> bool
    decreases n,
{
    n > 0 && (calls[n - 1].id@ == id || is_call(calls, n - 1, id))
}

/// Whether the id is that of a call in the first `n` messages.
pub open spec fn is_active(history: Seq<Message>, n: int, id: Seq<char>) -> bool
    decreases n,
{
    n > 0 && (is_active(history, n - 1, id) || match history[n - 1].tool_calls {
        Some(calls) => is_call(calls@, calls@.len() as int, id),
        None => false,
    })
}

fn calls_have(calls: &Vec<ToolCall<String>>, id: &str) -> (r: bool)
    ensures
        r == is_call(calls@, calls@.len() as int, id@),
{
    let n: usize = calls.len();
    let mut found: bool = false;
    let mut i: usize = 0;
    while i < n
        invariant
            n == calls@.len(),
            i <= n,
            found == is_call(calls@, i as int, id@),
        decreases n - i,
    {
        if same_text(calls[i].id.as_str(), id) {
            found = true;
        }
        i = i + 1;
    }
    found
}

fn history_has(history: &Vec<Message>, id: &str) -> (r: bool)
    ensures
        r == is_active(history@, history@.len() as int, id@),
{
    let n: usize = history.len();
    let mut found: bool = false;
    let mut i: usize = 0;
    while i < n
        invariant
            n == history@.len(),
            i <= n,
            found == is_active(history@, i as int, id@),
        decreases n - i,
    {
        match &history[i].tool_calls {
            Some(calls) => {
                if calls_have(calls, id) {
                    found = true;
                }
            },
            None => {},
        }
        i = i + 1;
    }
    found
}

// ── Files ────────────────────────────────────────────────────────────────

/// The bytes at the front of a file: "RCi1".
pub open spec fn magic() -> Seq<u8> {
    seq![82u8, 67u8, 105u8, 49u8]
}

/// Bytes as `flate2`'s deflate encoder compresses them for speed.
pub uninterp spec fn deflated(data: Seq<u8>) -> Seq<u8>;

/// What `flate2`'s deflate decoder makes of bytes; nothing where they are not
/// a whole stream.
pub uninterp spec fn inflated(data: Seq<u8>) -> Option<Seq<u8>>;

/// `flate2::write::DeflateEncoder` on a vector.  The claims are that the
/// result depends on the bytes alone, and that the decoder gives them back.
#[verifier::external_body]
fn deflate(data: &Vec<u8>) -> (r: Vec<u8>)
    ensures
        r@ == deflated(data@),
        inflated(r@) == Some(data@),
{
    let mut enc = flate2::write::DeflateEncoder::new(Vec::new(), flate2::Compression::fast());
    std::io::Write::write_all(&mut enc, data).ok();
    enc.finish().unwrap_or_default()
}

/// `flate2::read::DeflateDecoder`, read to the end.  The claim is that the
/// result depends on the bytes alone.
#[verifier::external_body]
fn inflate(data: &Vec<u8>) -> (r: Option<Vec<u8>>)
    ensures
        match r {
            Some(v) => inflated(data@) == Some(v@),
            None => inflated(data@) is None,
        },
{
    let mut dec = flate2::read::DeflateDecoder::new(data.as_slice());
    let mut payload: Vec<u8> = Vec::new();
    match std::io::Read::read_to_end(&mut dec, &mut payload) {
        Ok(_) => Some(payload),
        Err(_) => None,
    }
}

/// What a file holds; nothing where it was not written for this version.
pub open spec fn unpacked(data: Seq<u8>) -> Option<Seq<u8>> {
    if data.len() >= 4 && data.take(4) == magic() {
        inflated(data.skip(4))
    } else {
        None
    }
}

impl RenderCache {
    pub open spec fn wf(self) -> bool {
        distinct(self.tool_outputs@)
    }

    /// Whether no call occurs twice.
    pub fn is_wf(&self) -> (r: bool)
        ensures
            r == self.wf(),
    {
        let n: usize = self.tool_outputs.len();
        let mut i: usize = 0;
        while i < n
            invariant
                n == self.tool_outputs@.len(),
                i <= n,
                distinct(self.tool_outputs@.take(i as int)),
            decreases n - i,
        {
            let mut j: usize = 0;
            while j < i
                invariant
                    n == self.tool_outputs@.len(),
                    j <= i < n,
                    forall|k: int|
                        0 <= k < j ==> (#[trigger] self.tool_outputs@[k]).0@
                            != self.tool_outputs@[i as int].0@,
                decreases i - j,
            {
                if same_text(self.tool_outputs[j].0.as_str(), self.tool_outputs[i].0.as_str()) {
                    return false;
                }
                j = j + 1;
            }
            i = i + 1;
            assert(distinct(self.tool_outputs@.take(i as int))) by {
                let a = self.tool_outputs@.take(i as int);
                let b = self.tool_outputs@.take(i - 1);
                assert forall|x: int, y: int| 0 <= x < y < a.len() implies (#[trigger] a[x]).0@ != (
                #[trigger] a[y]).0@ by {
                    assert(a[x] == b[x]);
                    if y < i - 1 {
                        assert(a[y] == b[y]);
                    } else {
                        assert(self.tool_outputs@[x].0@ != self.tool_outputs@[i - 1].0@);
                    }
                }
            }
        }
        assert(self.tool_outputs@.take(n as int) =~= self.tool_outputs@);
        true
    }

    /// What was rendered for a call.
    pub open spec fn output(self, id: Seq<char>) -> Option<ToolOutputRenderCache> {
        output_from(self.tool_outputs@, 0, id)
    }

    pub fn new(session_hash: String) -> (r: RenderCache)
        ensures
            r.version == RENDER_CACHE_VERSION,
            r.session_hash == session_hash,
            r.tool_outputs@.len() == 0,
            r.wf(),
    {
        RenderCache { version: RENDER_CACHE_VERSION, session_hash, tool_outputs: Vec::new() }
    }

    /// A file that holds the payload.
    pub fn serialize(payload: &Vec<u8>) -> (r: Vec<u8>)
        ensures
            r@ == magic() + deflated(payload@),
            unpacked(r@) == Some(payload@),
    {
        let mut body = deflate(payload);
        let ghost bv = body@;
        let mut v: Vec<u8> = Vec::new();
        v.push(82);
        v.push(67);
        v.push(105);
        v.push(49);
        assert(v@ =~= magic());
        v.append(&mut body);
        assert(v@.take(4) =~= magic());
        assert(v@.skip(4) =~= bv);
        v
    }

    /// What a file holds; nothing where it was not written for this version.
    pub fn deserialize(data: &Vec<u8>) -> (r: Option<Vec<u8>>)
        ensures
            match r {
                Some(v) => unpacked(data@) == Some(v@),
                None => unpacked(data@) is None,
            },
    {
        if data.len() < 4 || data[0] != 82 || data[1] != 67 || data[2] != 105 || data[3] != 49 {
            proof {
                if data@.len() >= 4 && data@.take(4) == magic() {
                    assert(data@[0] == data@.take(4)[0]);
                    assert(data@[1] == data@.take(4)[1]);
                    assert(data@[2] == data@.take(4)[2]);
                    assert(data@[3] == data@.take(4)[3]);
                }
            }
            return None;
        }
        assert(data@.take(4) =~= magic());
        let mut body: Vec<u8> = Vec::new();
        let n: usize = data.len();
        let mut i: usize = 4;
        assert(body@ =~= data@.subrange(4, 4));
        while i < n
            invariant
                n == data@.len(),
                4 <= i <= n,
                body@ == data@.subrange(4, i as int),
            decreases n - i,
        {
            body.push(data[i]);
            assert(body@ =~= data@.subrange(4, i + 1));
            i = i + 1;
        }
        assert(data@.subrange(4, n as int) =~= data@.skip(4));
        inflate(&body)
    }

    /// Whether the cache is that of the session as it is now.
    pub fn is_compatible(&self, session_hash: &str) -> (r: bool)
        ensures
            r == (self.version == RENDER_CACHE_VERSION && self.session_hash@ == session_hash@),
    {
        self.version == RENDER_CACHE_VERSION && same_text(
            self.session_hash.as_str(),
            session_hash,
        )
    }

    pub fn get_tool_output(&self, call_id: &str) -> (r: Option<&ToolOutputRenderCache>)
        ensures
            match r {
                Some(o) => self.output(call_id@) == Some(*o),
                None => self.output(call_id@) is None,
            },
    {
        let n: usize = self.tool_outputs.len();
        let mut i: usize = 0;
        while i < n
            invariant
                n == self.tool_outputs@.len(),
                i <= n,
                self.output(call_id@) == output_from(self.tool_outputs@, i as int, call_id@),
            decreases n - i,
        {
            if same_text(self.tool_outputs[i].0.as_str(), call_id) {
                return Some(&self.tool_outputs[i].1);
            }
            i = i + 1;
        }
        None
    }

    /// Takes what was rendered for a call, in place of what there was for it.
    pub fn insert_tool_output(&mut self, call_id: String, cache: ToolOutputRenderCache)
        requires
            old(self).wf(),
        ensures
            final(self).wf(),
            final(self).version == old(self).version,
            final(self).session_hash == old(self).session_hash,
            forall|id: Seq<char>| #[trigger]
                final(self).output(id) == if id == call_id@ {
                    Some(cache)
                } else {
                    old(self).output(id)
                },
    {
        let ghost v0 = self.tool_outputs@;
        let ghost key = call_id@;
        let n: usize = self.tool_outputs.len();
        let mut i: usize = 0;
        while i < n && !same_text(self.tool_outputs[i].0.as_str(), call_id.as_str())
            invariant
                n == self.tool_outputs@.len(),
                key == call_id@,
                i <= n,
                forall|j: int| 0 <= j < i ==> (#[trigger] self.tool_outputs@[j]).0@ != key,
            decreases n - i,
        {
            i = i + 1;
        }
        if i < n {
            let _ = self.tool_outputs.remove(i);
        }
        self.tool_outputs.insert(i, (call_id, cache));
        let ghost v1 = self.tool_outputs@;
        proof {
            assert(v1 == if i < n {
                v0.update(i as int, (call_id, cache))
            } else {
                v0.push((call_id, cache))
            });
            assert(distinct(v1)) by {
                assert forall|a: int, b: int| 0 <= a < b < v1.len() implies (#[trigger] v1[a]).0@
                    != (#[trigger] v1[b]).0@ by {
                    if a == i {
                        assert(v1[b] == v0[b]);
                        assert(v0[i as int].0@ != v0[b].0@);
                    } else if b == i {
                        assert(v1[a] == v0[a]);
                        assert(v0[a].0@ != key);
                    } else {
                        assert(v1[a] == v0[a] && v1[b] == v0[b]);
                    }
                }
            }
            assert forall|id: Seq<char>| #[trigger] self.output(id) == if id == key {
                Some(cache)
            } else {
                old(self).output(id)
            } by {
                if id == key {
                    lemma_found(v1, i as int);
                } else {
                    let a = lemma_output(v0, 0, id);
                    let b = lemma_output(v1, 0, id);
                    if output_from(v0, 0, id) is Some {
                        assert(a != i);
                        assert(v1[a] == v0[a]);
                        lemma_found(v1, a);
                    } else if output_from(v1, 0, id) is Some {
                        assert(b != i);
                        assert(v0[b] == v1[b]);
                    }
                }
            }
        }
    }

    /// Keeps what was rendered for the calls of the history.
    pub fn retain_history(&mut self, history: &Vec<Message>)
        requires
            old(self).wf(),
        ensures
            final(self).wf(),
            final(self).version == old(self).version,
            final(self).session_hash == old(self).session_hash,
            forall|id: Seq<char>| #[trigger]
                final(self).output(id) == if is_active(history@, history@.len() as int, id) {
                    old(self).output(id)
                } else {
                    None
                },
    {
        let ghost v0 = self.tool_outputs@;
        let mut kept: Vec<(String, ToolOutputRenderCache)> = Vec::new();
        let n: usize = self.tool_outputs.len();
        let mut i: usize = 0;
        assert(v0.skip(0) =~= v0);
        let ghost mut from: Seq<int> = seq![];
        while i < n
            invariant
                n == v0.len(),
                i <= n,
                self.tool_outputs@ == v0.skip(i as int),
                self.version == old(self).version,
                self.session_hash == old(self).session_hash,
                kept@.len() == from.len(),
                forall|k: int|
                    0 <= k < from.len() ==> {
                        &&& 0 <= #[trigger] from[k] < i
                        &&& kept@[k] == v0[from[k]]
                        &&& is_active(history@, history@.len() as int, v0[from[k]].0@)
                    },
                forall|j: int, k: int| 0 <= j < k < from.len() ==> from[j] < from[k],
                forall|a: int|
                    0 <= a < i && is_active(
                        history@,
                        history@.len() as int,
                        (#[trigger] v0[a]).0@,
                    ) ==> from.contains(a),
            decreases n - i,
        {
            let e = self.tool_outputs.remove(0);
            assert(e == v0[i as int]);
            assert(self.tool_outputs@ =~= v0.skip(i + 1));
            if history_has(history, e.0.as_str()) {
                let ghost f0 = from;
                kept.push(e);
                proof {
                    from = from.push(i as int);
                    assert forall|a: int|
                        0 <= a < i + 1 && is_active(
                            history@,
                            history@.len() as int,
                            (#[trigger] v0[a]).0@,
                        ) implies from.contains(a) by {
                        if a == i {
                            assert(from[from.len() - 1] == a);
                        } else {
                            let k = choose|k: int| 0 <= k < f0.len() && f0[k] == a;
                            assert(from[k] == a);
                        }
                    }
                }
            }
            i = i + 1;
        }
        self.tool_outputs = kept;
        proof {
            let v1 = kept@;
            assert forall|a: int, b: int| 0 <= a < b < v1.len() implies (#[trigger] v1[a]).0@ != (
            #[trigger] v1[b]).0@ by {
                assert(from[a] < from[b]);
                assert(v0[from[a]].0@ != v0[from[b]].0@);
            }
            assert forall|id: Seq<char>| #[trigger] self.output(id) == if is_active(
                history@,
                history@.len() as int,
                id,
            ) {
                old(self).output(id)
            } else {
                None
            } by {
                let a = lemma_output(v0, 0, id);
                let b = lemma_output(v1, 0, id);
                if output_from(v1, 0, id) is Some {
                    assert(v1[b] == v0[from[b]]);
                    lemma_found(v0, from[b]);
                } else if is_active(history@, history@.len() as int, id) && output_from(v0, 0, id) is Some {
                    assert(from.contains(a));
                    let k = choose|k: int| 0 <= k < from.len() && from[k] == a;
                    assert(v1[k] == v0[a]);
                    assert(false);
                }
            }
        }
    }
}

/// Bytes that there may be.
pub open spec fn bytes_or_nothing(b: Option<&Vec<u8>>) -> Seq<u8> {
    match b {
        Some(v) => v@,
        None => seq![],
    }
}

fn copy_onto(to: &mut Vec<u8>, from: &Vec<u8>)
    ensures
        final(to)@ == old(to)@ + from@,
{
    let ghost t0 = to@;
    let n: usize = from.len();
    let mut i: usize = 0;
    assert(t0 + from@.take(0) =~= t0);
    while i < n
        invariant
            n == from@.len(),
            i <= n,
            to@ == t0 + from@.take(i as int),
        decreases n - i,
    {
        to.push(from[i]);
        assert(to@ =~= t0 + from@.take(i + 1));
        i = i + 1;
    }
    assert(from@.take(n as int) =~= from@);
}

/// What tells one state of a session from another, from its messages and
/// turns as they are stored; what cannot be stored counts as nothing.
pub fn session_render_hash(messages: Option<&Vec<u8>>, turn_metas: Option<&Vec<u8>>) -> (r: String)
    ensures
        r@ == digest::hex_text(
            digest::sha256_of(bytes_or_nothing(messages) + bytes_or_nothing(turn_metas)),
            32,
        ),
        r@.len() == 64,
{
    let mut v: Vec<u8> = Vec::new();
    assert(v@ =~= Seq::<u8>::empty());
    match messages {
        Some(b) => {
            copy_onto(&mut v, b);
        },
        None => {},
    }
    assert(v@ =~= bytes_or_nothing(messages));
    match turn_metas {
        Some(b) => {
            copy_onto(&mut v, b);
        },
        None => {},
    }
    assert(v@ =~= bytes_or_nothing(messages) + bytes_or_nothing(turn_metas));
    sha256_hex(&v)
}

/// What is rendered beforehand of the output of a tool.
pub open spec fn rendered_before(
    r: Option<ToolOutputRenderCache>,
    name: Seq<char>,
    args: Seq<(String, Json)>,
    is_error: bool,
    notebook: Option<NotebookRenderData>,
    env: Env,
) -> bool {
    if is_error {
        r is None
    } else if name == "edit_file"@ {
        let new = json::text_or_empty(args, "new_string"@);
        if new.len() == 0 {
            r is None
        } else {
            let d = model::diff_alone(
                env,
                json::text_or_empty(args, "old_string"@),
                new,
                json::text_or_empty(args, "file_path"@),
                new,
                None,
            );
            match r {
                Some(ToolOutputRenderCache::InlineDiff(c)) => c.shows(d.0.cmds, d.1),
                _ => false,
            }
        }
    } else if name == "notebook_edit"@ {
        match notebook {
            Some(data) => match r {
                Some(ToolOutputRenderCache::NotebookEdit(c)) => {
                    &&& c.data == data
                    &&& if data.edit_mode@ == "insert"@ {
                        c.diff is None
                    } else {
                        let d = model::diff_alone(
                            env,
                            data.old_source@,
                            data.new_source@,
                            data.path@,
                            data.old_source@,
                            Some(data.syntax_ext@),
                        );
                        match c.diff {
                            Some(x) => x.shows(d.0.cmds, d.1),
                            None => false,
                        }
                    }
                },
                _ => false,
            },
            None => r is None,
        }
    } else {
        r is None
    }
}

/// Renders the output of a tool beforehand where that pays.
pub fn build_tool_output_render_cache(
    name: &str,
    args: &Vec<(String, Json)>,
    is_error: bool,
    notebook: Option<NotebookRenderData>,
    assets: &Assets,
    env: &Env,
) -> (r: Option<ToolOutputRenderCache>)
    ensures
        rendered_before(r, name@, args@, is_error, notebook, *env),
{
    if is_error {
        return None;
    }
    if same_text(name, "edit_file") {
        let old_text = str_or_empty(args, "old_string");
        let new_text = str_or_empty(args, "new_string");
        if char_count(new_text) == 0 {
            return None;
        }
        let path = str_or_empty(args, "file_path");
        let c = build_inline_diff_cache_ext(assets, env, old_text, new_text, path, new_text, None);
        return Some(ToolOutputRenderCache::InlineDiff(c));
    }
    if same_text(name, "notebook_edit") {
        return match notebook {
            Some(data) => {
                let diff = if same_text(data.edit_mode.as_str(), "insert") {
                    None
                } else {
                    Some(
                        build_inline_diff_cache_ext(
                            assets,
                            env,
                            data.old_source.as_str(),
                            data.new_source.as_str(),
                            data.path.as_str(),
                            data.old_source.as_str(),
                            Some(data.syntax_ext.as_str()),
                        ),
                    )
                };
                Some(ToolOutputRenderCache::NotebookEdit(CachedNotebookEdit { data, diff }))
            },
            None => None,
        };
    }
    None
}

impl Screen {
    /// Nothing is kept of a screen between two runs.
    pub fn export_render_cache(&self) -> (r: Option<RenderCache>)
        ensures
            r is None,
    {
        None
    }

    /// A screen takes nothing from an earlier run.
    pub fn import_render_cache(&mut self, cache: RenderCache)
        ensures
            *final(self) == *old(self),
    {
    }
}

} // verus!
