//! What becomes of the tools and agents that run.

use vstd::prelude::*;

use crate::render::active;
use crate::render::history::HistoryView;
use crate::render::model::{ActiveAgent, ActiveTool, AgentBlockStatus, Block, ToolOutput, ToolStatus};

verus! {

proof fn lemma_tool_from(ts: Seq<ActiveTool>, k: int, id: Seq<char>)
    requires
        0 <= k,
    ensures
        match active::tool_from(ts, k, id) {
            Some(i) => {
                &&& k <= i < ts.len()
                &&& ts[i].call_id@ == id
                &&& forall|j: int| k <= j < i ==> (#[trigger] ts[j]).call_id@ != id
            },
            None => forall|j: int| k <= j < ts.len() ==> (#[trigger] ts[j]).call_id@ != id,
        },
    decreases ts.len() - k,
{
    if k < ts.len() && ts[k].call_id@ != id {
        lemma_tool_from(ts, k + 1, id);
    }
}

/// An id stands for the first call that has it, and an empty one for the call
/// that was started last.
pub proof fn law_call_is_found_by_its_id(ts: Seq<ActiveTool>, id: Seq<char>)
    ensures
        match active::tool_index(ts, id) {
            Some(i) => {
                &&& 0 <= i < ts.len()
                &&& id.len() == 0 ==> i == ts.len() - 1
                &&& id.len() > 0 ==> ts[i].call_id@ == id
                &&& id.len() > 0 ==> forall|j: int|
                    0 <= j < i ==> (#[trigger] ts[j]).call_id@ != id
            },
            None => {
                &&& id.len() == 0 ==> ts.len() == 0
                &&& forall|j: int| 0 <= j < ts.len() ==> (#[trigger] ts[j]).call_id@ != id
            },
        },
{
    lemma_tool_from(ts, 0, id);
}

/// An agent is found by its id where there is one.
pub proof fn law_agent_is_found_by_its_id(xs: Seq<ActiveAgent>, k: int, id: Seq<char>)
    requires
        0 <= k,
    ensures
        match active::agent_from(xs, k, id) {
            Some(i) => {
                &&& k <= i < xs.len()
                &&& xs[i].agent_id@ == id
                &&& forall|j: int| k <= j < i ==> (#[trigger] xs[j]).agent_id@ != id
            },
            None => forall|j: int| k <= j < xs.len() ==> (#[trigger] xs[j]).agent_id@ != id,
        },
    decreases xs.len() - k,
{
    if k < xs.len() && xs[k].agent_id@ != id {
        law_agent_is_found_by_its_id(xs, k + 1, id);
    }
}

/// Output that arrives is kept behind what there was, on a line of its own,
/// and nothing else of the output changes.
pub proof fn law_output_is_appended(
    a: Option<ToolOutput>,
    chunk: Seq<char>,
    b: Option<ToolOutput>,
)
    requires
        active::output_added(a, chunk, b),
    ensures
        b is Some,
        match a {
            Some(x) => {
                let c = b->0.content@;
                let n = x.content@.len() as int;
                &&& n == 0 ==> c == chunk
                &&& n > 0 ==> c.take(n) == x.content@ && c[n] == '\n' && c.skip(n + 1) == chunk
                &&& b->0.is_error == x.is_error
                &&& b->0.notebook == x.notebook
                &&& b->0.render_cache == x.render_cache
            },
            None => b->0.content@ == chunk && !b->0.is_error,
        },
{
    if a is Some {
        let x = a->0.content@;
        let c = b->0.content@;
        let n = x.len() as int;
        if n == 0 {
            assert(x + chunk =~= chunk);
        } else {
            assert(c.take(n) =~= x);
            assert(c.skip(n + 1) =~= chunk);
        }
    }
}

/// A call that ended is the call that ran: its name, summary, arguments and
/// what the user said of it are kept, and the status and output are those
/// that it ended with.
pub proof fn law_ended_call_is_the_call(
    b: Block,
    t: ActiveTool,
    id: Seq<char>,
    status: ToolStatus,
    elapsed: Option<u64>,
    output: Option<ToolOutput>,
)
    requires
        active::is_ended_tool(b, t, id, status, elapsed, output),
    ensures
        b matches Block::ToolCall {
            call_id,
            name,
            summary,
            args,
            status: s,
            elapsed: e,
            output: o,
            user_message,
        } && call_id@ == id && name@ == t.name@ && summary@ == t.summary@ && args@ == t.args@ && s
            == status && e == elapsed && o == output && user_message == t.user_message,
{
}

/// A call that is stopped keeps its output and what it was, under the status
/// that it is stopped with.
pub proof fn law_stopped_call_keeps_its_output(t: ActiveTool, status: ToolStatus, now: u64)
    ensures
        active::tool_block(t, status, now) matches Block::ToolCall {
            call_id,
            name,
            summary,
            args,
            status: s,
            elapsed: _,
            output,
            user_message,
        } && call_id == t.call_id && name == t.name && summary == t.summary && args == t.args && s
            == status && output == t.output && user_message == t.user_message,
{
}

/// A refused call has taken no time.  Otherwise a time that is given counts;
/// without one it is what has passed since the start, and it is told of tools
/// that take their time only.
pub proof fn law_time_of_a_call(t: ActiveTool, status: ToolStatus, given: Option<u64>, now: u64)
    ensures
        ({
            let r = active::final_elapsed(t, status, given, now);
            let slow = t.name@ == "bash"@ || t.name@ == "web_fetch"@ || t.name@
                == "read_process_output"@ || t.name@ == "stop_process"@ || t.name@
                == "peek_agent"@;
            &&& status == ToolStatus::Denied ==> r is None
            &&& status != ToolStatus::Denied && given is Some ==> r == given
            &&& status != ToolStatus::Denied && given is None && !slow ==> r is None
            &&& status != ToolStatus::Denied && given is None && slow ==> r is Some && r->0 == if now
                >= t.start_ms {
                now - t.start_ms
            } else {
                0
            }
        }),
{
}

/// An agent that ended is the agent that ran.  One that was running has
/// succeeded; any other keeps its status and its time.
pub proof fn law_ended_agent_is_the_agent(a: ActiveAgent, now: u64)
    ensures
        active::agent_block(a, now) matches Block::Agent {
            agent_id,
            slug,
            blocking,
            tool_calls,
            status,
            elapsed,
        } && agent_id == a.agent_id && slug == a.slug && blocking && tool_calls == a.tool_calls
            && status == (if a.status == AgentBlockStatus::Running {
            AgentBlockStatus::Done
        } else {
            a.status
        }) && (a.status != AgentBlockStatus::Running && a.final_elapsed_ms is Some ==> elapsed
            == a.final_elapsed_ms) && (a.status == AgentBlockStatus::Running && now >= a.start_ms
            ==> elapsed == Some((now - a.start_ms) as u64)),
{
}

/// Everything that ran becomes a block, in order, behind what there was.
pub proof fn law_every_block_is_added(h: HistoryView, bs: Seq<Block>, n: int)
    requires
        0 <= n <= bs.len(),
    ensures
        active::with_blocks(h, bs, n).blocks == h.blocks + bs.take(n),
    decreases n,
{
    if n <= 0 {
        assert(h.blocks + bs.take(0) =~= h.blocks);
    } else {
        law_every_block_is_added(h, bs, n - 1);
        assert(h.blocks + bs.take(n) =~= (h.blocks + bs.take(n - 1)).push(bs[n - 1]));
    }
}

/// Going back to where the conversation stood takes away what was added
/// since, and nothing else of it.
pub proof fn law_going_back_undoes_adding(h: HistoryView, bs: Seq<Block>, n: int)
    requires
        h.wf(),
        0 <= n <= bs.len(),
    ensures
        ({
            let r = active::with_blocks(h, bs, n).cut(h.blocks.len() as int);
            &&& r.blocks == h.blocks
            &&& r.visible.rows == h.visible.rows
            &&& r.visible.cached == h.visible.cached
            &&& r.hidden.rows == h.hidden.rows
            &&& r.hidden.cached == h.hidden.cached
        }),
{
    let k = h.blocks.len() as int;
    let w = active::with_blocks(h, bs, n);
    lemma_kept(h, bs, n);
    assert(w.blocks.take(k) =~= h.blocks);
    assert(w.visible.rows.take(k) =~= h.visible.rows);
    assert(w.visible.cached.take(k) =~= h.visible.cached);
    assert(w.hidden.rows.take(k) =~= h.hidden.rows);
    assert(w.hidden.cached.take(k) =~= h.hidden.cached);
}

proof fn lemma_kept(h: HistoryView, bs: Seq<Block>, n: int)
    requires
        h.wf(),
        0 <= n <= bs.len(),
    ensures
        ({
            let k = h.blocks.len() as int;
            let w = active::with_blocks(h, bs, n);
            &&& w.blocks.len() == k + n
            &&& w.visible.holds((k + n) as nat)
            &&& w.hidden.holds((k + n) as nat)
            &&& w.blocks.take(k) == h.blocks
            &&& w.visible.rows.take(k) == h.visible.rows
            &&& w.visible.cached.take(k) == h.visible.cached
            &&& w.hidden.rows.take(k) == h.hidden.rows
            &&& w.hidden.cached.take(k) == h.hidden.cached
        }),
    decreases n,
{
    let k = h.blocks.len() as int;
    if n <= 0 {
        assert(h.blocks.take(k) =~= h.blocks);
        assert(h.visible.rows.take(k) =~= h.visible.rows);
        assert(h.visible.cached.take(k) =~= h.visible.cached);
        assert(h.hidden.rows.take(k) =~= h.hidden.rows);
        assert(h.hidden.cached.take(k) =~= h.hidden.cached);
    } else {
        lemma_kept(h, bs, n - 1);
        let v = active::with_blocks(h, bs, n - 1);
        let w = active::with_blocks(h, bs, n);
        assert(w.blocks.take(k) =~= v.blocks.take(k));
        assert(w.visible.rows.take(k) =~= v.visible.rows.take(k));
        assert(w.visible.cached.take(k) =~= v.visible.cached.take(k));
        assert(w.hidden.rows.take(k) =~= v.hidden.rows.take(k));
        assert(w.hidden.cached.take(k) =~= v.hidden.cached.take(k));
    }
}

} // verus!
