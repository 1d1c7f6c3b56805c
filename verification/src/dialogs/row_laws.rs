//! What a reader sees of the rows of dialogs, and which of them is lit.

use vstd::prelude::*;

use crate::dialogs::agents;
use crate::dialogs::agents::RegistryEntry;
use crate::dialogs::help;
use crate::dialogs::permissions;
use crate::dialogs::permissions::PermissionsView;
use crate::dialogs::ps;
use crate::dialogs::ps::ProcessInfo;
use crate::dialogs::resume;
use crate::dialogs::resume::ResumeView;
use crate::dialogs::rewind;
use crate::render::bars;
use crate::render::lit;
use crate::render::model;
use crate::render::out::{Canvas, Color};
use crate::render::seen;
use crate::session;
use crate::text;
use crate::utils;

verus! {

/// The text at `i`, when that lies in the rows from `from` up to `to`.
pub open spec fn if_shown(i: int, from: int, to: int, t: Seq<char>) -> Seq<Seq<char>> {
    if from <= i < to {
        seq![t]
    } else {
        seq![]
    }
}

// ── Sessions ─────────────────────────────────────────────────────────────

/// The title of the session in row `i`, as far as it fits beside its age.
pub open spec fn session_label(s: ResumeView, i: int, w: int, now_ms: u64) -> Seq<char> {
    let e = s.entries[s.filtered[i] as int];
    let ago = session::ago_text(resume::last_change(e), now_ms);
    text::clipped(
        resume::shown_title(e.title@, model::opt_view(e.subtitle)),
        bars::at_least_zero(w - bars::capped(ago.len() + 3 + bars::capped(2 + e.depth * 2))),
    )
}

/// What rows of sessions show: of each its title and its age.
pub open spec fn sessions_seen(s: ResumeView, from: int, to: int, w: int, now_ms: u64) -> Seq<char>
    decreases to - from,
{
    if to <= from {
        seq![]
    } else {
        let e = s.entries[s.filtered[to - 1] as int];
        sessions_seen(s, from, to - 1, w, now_ms) + seen::ink(
            session_label(s, to - 1, w, now_ms),
        ) + seen::ink(session::ago_text(resume::last_change(e), now_ms))
    }
}

/// The rows show the sessions that were found, in order, each with its age,
/// and the one that is lit is the one that would be taken up.
#[verifier::rlimit(40)]
#[verifier::spinoff_prover]
pub proof fn law_sessions_are_listed(
    s: ResumeView,
    m: Canvas,
    from: int,
    to: int,
    w: int,
    now_ms: u64,
    accent: Color,
)
    requires
        lit::unlit(m, accent),
        from <= to,
    ensures
        ({
            let r = s.rows_drawn(m, from, to, w, now_ms, accent);
            &&& seen::seen(r) == seen::seen(m) + sessions_seen(s, from, to, w, now_ms)
            &&& lit::lit(r, accent) == lit::lit(m, accent) + if_shown(
                s.list.selected as int,
                from,
                to,
                session_label(s, s.list.selected as int, w, now_ms),
            )
            &&& lit::unlit(r, accent)
            &&& s.list.selected < s.filtered.len() ==> s.selected() == Some(
                s.entries[s.filtered[s.list.selected as int] as int].id@,
            )
        }),
    decreases to - from,
{
    broadcast use {
        seen::lemma_flat_push,
        seen::lemma_ink_add,
        seen::lemma_ink_fill,
        seen::lemma_seen_crlf,
    };

    if to <= from {
        assert(seen::seen(m) + sessions_seen(s, from, to, w, now_ms) =~= seen::seen(m));
        assert(lit::lit(m, accent) + Seq::<Seq<char>>::empty() =~= lit::lit(m, accent));
    } else {
        law_sessions_are_listed(s, m, from, to - 1, w, now_ms, accent);
        let a = s.rows_drawn(m, from, to - 1, w, now_ms, accent);
        let e = s.entries[s.filtered[to - 1] as int];
        let ago = session::ago_text(resume::last_change(e), now_ms);
        let indent = bars::capped(2 + e.depth * 2);
        let label = session_label(s, to - 1, w, now_ms);
        let pad = text::fill(' ', indent as nat);
        lit::lemma_unlit_print(a, pad, accent);
        let b = a.print(pad);
        let on = to - 1 == s.list.selected;
        lit::lemma_label(b, label, on, accent);
        let c = lit::label_drawn(b, label, on, accent);
        lit::lemma_unlit_print(c, " "@, accent);
        let d = c.print(" "@);
        lit::lemma_unlit_dim(d, ago, accent);
        let f = d.push_dim().print(ago).pop_style();
        lit::lemma_unlit_crlf(f, accent);
        reveal_strlit(" ");
        assert(" "@ =~= text::fill(' ', 1));
        let r = s.rows_drawn(m, from, to, w, now_ms, accent);
        assert(r == f.crlf());
        assert(seen::seen(r) =~= seen::seen(m) + sessions_seen(s, from, to, w, now_ms));
        let k = s.list.selected as int;
        let t = session_label(s, k, w, now_ms);
        assert(lit::lit(r, accent) =~= lit::lit(m, accent) + if_shown(k, from, to, t));
    }
}

// ── Turns ────────────────────────────────────────────────────────────────

/// The first line of turn `i` as far as it fits, or that it is the present.
pub open spec fn turn_text(turns: Seq<(usize, String)>, i: int, w: int) -> Seq<char> {
    text::clipped(
        rewind::turn_label(turns, i),
        bars::at_least_zero(w - (text::dec((turns.len() + 1) as nat).len() + 4)),
    )
}

/// What rows of turns show: of each its number and its first line.
pub open spec fn turns_seen(turns: Seq<(usize, String)>, from: int, to: int, w: int) -> Seq<char>
    decreases to - from,
{
    if to <= from {
        seq![]
    } else {
        turns_seen(turns, from, to - 1, w) + seen::ink(text::dec(to as nat)) + seen::ink("."@)
            + seen::ink(turn_text(turns, to - 1, w))
    }
}

proof fn lemma_turn_head(i: int, digits: int)
    ensures
        ({
            let num = text::right_aligned(text::dec((i + 1) as nat), digits);
            seen::ink("  "@ + num + "."@) == seen::ink(text::dec((i + 1) as nat)) + seen::ink("."@)
        }),
{
    broadcast use {seen::lemma_ink_add, seen::lemma_ink_fill};

    let num = text::right_aligned(text::dec((i + 1) as nat), digits);
    reveal_strlit("  ");
    assert("  "@ =~= text::fill(' ', 2));
    assert(seen::ink(num) =~= seen::ink(text::dec((i + 1) as nat)));
    assert(seen::ink("  "@ + num + "."@) =~= seen::ink(text::dec((i + 1) as nat)) + seen::ink(
        "."@,
    ));
}

/// One row of a turn.
proof fn lemma_turn_row(a: Canvas, head: Seq<char>, label: Seq<char>, on: bool, accent: Color)
    requires
        lit::unlit(a, accent),
    ensures
        ({
            let r = lit::label_drawn(
                a.push_dim().print(head).pop_style().print(" "@),
                label,
                on,
                accent,
            ).crlf();
            &&& lit::unlit(r, accent)
            &&& seen::seen(r) == seen::seen(a) + seen::ink(head) + seen::ink(label)
            &&& lit::lit(r, accent) == if on {
                lit::lit(a, accent).push(label)
            } else {
                lit::lit(a, accent)
            }
        }),
{
    broadcast use {
        seen::lemma_flat_push,
        seen::lemma_ink_add,
        seen::lemma_ink_fill,
        seen::lemma_seen_crlf,
    };

    lit::lemma_unlit_dim(a, head, accent);
    let b = a.push_dim().print(head).pop_style();
    lit::lemma_unlit_print(b, " "@, accent);
    let c = b.print(" "@);
    lit::lemma_label(c, label, on, accent);
    let d = lit::label_drawn(c, label, on, accent);
    lit::lemma_unlit_crlf(d, accent);
    reveal_strlit(" ");
    assert(" "@ =~= text::fill(' ', 1));
    assert(seen::seen(d.crlf()) =~= seen::seen(a) + seen::ink(head) + seen::ink(label));
}

/// The rows show the turns in order, each behind its number, and the one
/// that is selected is lit.
pub proof fn law_turns_are_listed(
    m: Canvas,
    turns: Seq<(usize, String)>,
    from: int,
    to: int,
    selected: int,
    w: int,
    accent: Color,
)
    requires
        lit::unlit(m, accent),
        from <= to,
    ensures
        ({
            let r = rewind::turn_rows(m, turns, from, to, selected, w, accent);
            &&& seen::seen(r) == seen::seen(m) + turns_seen(turns, from, to, w)
            &&& lit::lit(r, accent) == lit::lit(m, accent) + if_shown(
                selected,
                from,
                to,
                turn_text(turns, selected, w),
            )
            &&& lit::unlit(r, accent)
        }),
    decreases to - from,
{
    if to <= from {
        assert(seen::seen(m) + turns_seen(turns, from, to, w) =~= seen::seen(m));
        assert(lit::lit(m, accent) + Seq::<Seq<char>>::empty() =~= lit::lit(m, accent));
    } else {
        law_turns_are_listed(m, turns, from, to - 1, selected, w, accent);
        let a = rewind::turn_rows(m, turns, from, to - 1, selected, w, accent);
        let i = to - 1;
        let digits = text::dec((turns.len() + 1) as nat).len() as int;
        let head = "  "@ + text::right_aligned(text::dec((i + 1) as nat), digits) + "."@;
        lemma_turn_head(i, digits);
        lemma_turn_row(a, head, turn_text(turns, i, w), i == selected, accent);
        let r = rewind::turn_rows(m, turns, from, to, selected, w, accent);
        assert(seen::seen(r) =~= seen::seen(m) + turns_seen(turns, from, to, w));
        assert(lit::lit(r, accent) =~= lit::lit(m, accent) + if_shown(
            selected,
            from,
            to,
            turn_text(turns, selected, w),
        ));
    }
}

// ── Processes ────────────────────────────────────────────────────────────

/// How long a process has run, and its id.
pub open spec fn process_meta(p: ProcessInfo, now_ms: u64) -> Seq<char> {
    utils::duration_text((model::since(now_ms, p.started_ms) / 1000) as nat) + " "@ + p.id@
}

/// The command of a process as far as it fits beside what is said of it.
pub open spec fn process_label(p: ProcessInfo, w: int, now_ms: u64) -> Seq<char> {
    text::clipped(
        p.command@,
        bars::at_least_zero(w - bars::capped(5int + (" "@ + process_meta(p, now_ms)).len())),
    )
}

/// What rows of processes show: the command, how long it has run, and the id.
pub open spec fn processes_seen(
    procs: Seq<ProcessInfo>,
    from: int,
    to: int,
    w: int,
    now_ms: u64,
) -> Seq<char>
    decreases to - from,
{
    if to <= from {
        seq![]
    } else {
        processes_seen(procs, from, to - 1, w, now_ms) + seen::ink(
            process_label(procs[to - 1], w, now_ms),
        ) + seen::ink(process_meta(procs[to - 1], now_ms))
    }
}

/// The rows show the processes in order, each with how long it has run and
/// its id, and the one that is selected is lit.
#[verifier::rlimit(40)]
#[verifier::spinoff_prover]
pub proof fn law_processes_are_listed(
    m: Canvas,
    procs: Seq<ProcessInfo>,
    from: int,
    to: int,
    selected: int,
    w: int,
    now_ms: u64,
    accent: Color,
)
    requires
        lit::unlit(m, accent),
        from <= to,
    ensures
        ({
            let r = ps::process_rows(m, procs, from, to, selected, w, now_ms, accent);
            &&& seen::seen(r) == seen::seen(m) + processes_seen(procs, from, to, w, now_ms)
            &&& lit::lit(r, accent) == lit::lit(m, accent) + if_shown(
                selected,
                from,
                to,
                process_label(procs[selected], w, now_ms),
            )
            &&& lit::unlit(r, accent)
        }),
    decreases to - from,
{
    broadcast use {
        seen::lemma_flat_push,
        seen::lemma_ink_add,
        seen::lemma_ink_fill,
        seen::lemma_seen_crlf,
    };

    if to <= from {
        assert(seen::seen(m) + processes_seen(procs, from, to, w, now_ms) =~= seen::seen(m));
        assert(lit::lit(m, accent) + Seq::<Seq<char>>::empty() =~= lit::lit(m, accent));
    } else {
        law_processes_are_listed(m, procs, from, to - 1, selected, w, now_ms, accent);
        let a = ps::process_rows(m, procs, from, to - 1, selected, w, now_ms, accent);
        let p = procs[to - 1];
        let label = process_label(p, w, now_ms);
        let meta = process_meta(p, now_ms);
        lit::lemma_unlit_print(a, "  "@, accent);
        let b = a.print("  "@);
        lit::lemma_label(b, label, to - 1 == selected, accent);
        let c = lit::label_drawn(b, label, to - 1 == selected, accent);
        lit::lemma_unlit_print(c, " "@, accent);
        let d = c.print(" "@);
        lit::lemma_unlit_dim(d, meta, accent);
        let f = d.push_dim().print(meta).pop_style();
        lit::lemma_unlit_crlf(f, accent);
        reveal_strlit(" ");
        reveal_strlit("  ");
        assert(" "@ =~= text::fill(' ', 1));
        assert("  "@ =~= text::fill(' ', 2));
        let r = ps::process_rows(m, procs, from, to, selected, w, now_ms, accent);
        assert(r == f.crlf());
        assert(seen::seen(r) =~= seen::seen(m) + processes_seen(procs, from, to, w, now_ms));
        assert(lit::lit(r, accent) =~= lit::lit(m, accent) + if_shown(
            selected,
            from,
            to,
            process_label(procs[selected], w, now_ms),
        ));
    }
}

// ── Permissions ──────────────────────────────────────────────────────────

/// What a permission says: the tool and the pattern, a star when it is for
/// all of the tool.
pub open spec fn permission_text(p: (bool, Seq<char>, Option<Seq<char>>)) -> Seq<char> {
    p.1 + ": "@ + (match p.2 {
        Some(t) => t,
        None => "*"@,
    })
}

/// What the first `n` rows show: a heading before the first permission of
/// the session, one before the first of the workspace, and each permission
/// as far as it fits.
pub open spec fn permissions_seen(s: PermissionsView, n: int, w: int) -> Seq<char>
    decreases n,
{
    if n <= 0 {
        seq![]
    } else {
        let p = s.permissions()[n - 1];
        let heading = if n == 1 && p.0 {
            seen::ink("Session"@)
        } else if !p.0 && n - 1 == s.session.len() {
            seen::ink("Workspace"@)
        } else {
            seq![]
        };
        permissions_seen(s, n - 1, w) + heading + seen::ink(
            text::clipped(permission_text(p), bars::at_least_zero(w - 4)),
        )
    }
}

proof fn lemma_header(m: Canvas, t: Seq<char>, accent: Color)
    requires
        lit::unlit(m, accent),
    ensures
        lit::unlit(permissions::header_drawn(m, t), accent),
        lit::lit(permissions::header_drawn(m, t), accent) == lit::lit(m, accent),
        seen::seen(permissions::header_drawn(m, t)) == seen::seen(m) + seen::ink(t),
{
    broadcast use {seen::lemma_flat_push, seen::lemma_ink_add, seen::lemma_seen_crlf};

    lit::lemma_unlit_dim(m, t, accent);
    lit::lemma_unlit_crlf(m.push_dim().print(t).pop_style(), accent);
}

proof fn lemma_permission_row(m: Canvas, label: Seq<char>, selected: bool, w: int, accent: Color)
    requires
        lit::unlit(m, accent),
    ensures
        ({
            let r = permissions::row_drawn(m, label, selected, w, accent);
            let t = text::clipped(label, bars::at_least_zero(w - 4));
            &&& lit::unlit(r, accent)
            &&& lit::lit(r, accent) == if selected {
                lit::lit(m, accent).push(t)
            } else {
                lit::lit(m, accent)
            }
            &&& seen::seen(r) == seen::seen(m) + seen::ink(t)
        }),
{
    broadcast use {
        seen::lemma_flat_push,
        seen::lemma_ink_add,
        seen::lemma_ink_fill,
        seen::lemma_seen_crlf,
    };

    let t = text::clipped(label, bars::at_least_zero(w - 4));
    reveal_strlit("  ");
    assert("  "@ =~= text::fill(' ', 2));
    lit::lemma_unlit_print(m, "  "@, accent);
    lit::lemma_label(m.print("  "@), t, selected, accent);
    let b = lit::label_drawn(m.print("  "@), t, selected, accent);
    lit::lemma_unlit_crlf(b, accent);
    assert(seen::seen(b.crlf()) =~= seen::seen(m) + seen::ink(t));
}

/// The rows show the permissions in order, those of the session and those of
/// the workspace under their headings, and the one that is selected, which
/// two presses delete, is lit.
#[verifier::rlimit(40)]
#[verifier::spinoff_prover]
pub proof fn law_permissions_are_listed(
    s: PermissionsView,
    m: Canvas,
    n: int,
    w: int,
    accent: Color,
)
    requires
        lit::unlit(m, accent),
        0 <= n <= s.items().len(),
        s.session.len() <= usize::MAX,
        s.rules.len() <= usize::MAX,
        forall|i: int| 0 <= i < s.rules.len() ==> (#[trigger] s.rules[i]).1.len() <= usize::MAX,
    ensures
        ({
            let r = s.rows_drawn(m, n, w, accent);
            &&& seen::seen(r) == seen::seen(m) + permissions_seen(s, n, w)
            &&& lit::lit(r, accent) == lit::lit(m, accent) + if_shown(
                s.list.selected as int,
                0,
                n,
                text::clipped(
                    permission_text(s.permissions()[s.list.selected as int]),
                    bars::at_least_zero(w - 4),
                ),
            )
            &&& lit::unlit(r, accent)
        }),
    decreases n,
{
    broadcast use {
        seen::lemma_flat_push,
        seen::lemma_ink_add,
        seen::lemma_ink_fill,
        seen::lemma_seen_crlf,
    };

    if n <= 0 {
        assert(seen::seen(m) + permissions_seen(s, n, w) =~= seen::seen(m));
        assert(lit::lit(m, accent) + Seq::<Seq<char>>::empty() =~= lit::lit(m, accent));
    } else {
        let i = n - 1;
        law_permissions_are_listed(s, m, i, w, accent);
        let a = s.rows_drawn(m, i, w, accent);
        permissions::lemma_items(s, i);
        let p = s.permissions()[i];
        reveal_strlit(" Session");
        reveal_strlit("Session");
        reveal_strlit(" Workspace");
        reveal_strlit("Workspace");
        assert(" Session"@ =~= text::fill(' ', 1) + "Session"@);
        assert(" Workspace"@ =~= text::fill(' ', 1) + "Workspace"@);
        assert(seen::ink(" Session"@) =~= seen::ink("Session"@));
        assert(seen::ink(" Workspace"@) =~= seen::ink("Workspace"@));
        let first = i == 0 && s.items()[i] is Session;
        let b = if first {
            permissions::header_drawn(a, " Session"@)
        } else {
            a
        };
        lemma_header(a, " Session"@, accent);
        let rule = i == s.session.len();
        let c0 = if i > 0 {
            b.crlf()
        } else {
            b
        };
        lit::lemma_unlit_crlf(b, accent);
        let c = if rule {
            permissions::header_drawn(c0, " Workspace"@)
        } else {
            b
        };
        lemma_header(c0, " Workspace"@, accent);
        assert(p.0 == (s.items()[i] is Session));
        reveal_strlit(": ");
        reveal_strlit(": *");
        reveal_strlit("*");
        match s.items()[i] {
            permissions::Item::Session(k) => {
                assert(s.label(i) =~= permission_text(p));
            },
            permissions::Item::Workspace(q, k) => {
                let x = s.rules[q as int];
                if x.1.len() == 0 {
                    assert(x.0 + ": *"@ =~= x.0 + ": "@ + "*"@);
                }
                assert(s.label(i) =~= permission_text(p));
            },
        }
        lemma_permission_row(c, s.label(i), i == s.list.selected, w, accent);
        let r = s.rows_drawn(m, n, w, accent);
        assert(seen::seen(r) =~= seen::seen(m) + permissions_seen(s, n, w));
        let k = s.list.selected as int;
        let t = text::clipped(permission_text(s.permissions()[k]), bars::at_least_zero(w - 4));
        assert(lit::lit(r, accent) =~= lit::lit(m, accent) + if_shown(k, 0, n, t));
    }
}

// ── Agents and keys ──────────────────────────────────────────────────────

/// What rows of agents show: the name, whether the agent works, and its task
/// as far as it fits.
pub open spec fn agents_seen(
    v: Seq<RegistryEntry>,
    from: int,
    to: int,
    name_w: int,
    w: int,
) -> Seq<char>
    decreases to - from,
{
    if to <= from {
        seq![]
    } else {
        let a = v[to - 1];
        agents_seen(v, from, to - 1, name_w, w) + seen::ink(a.agent_id@) + (match a.status {
            agents::AgentStatus::Working => seen::ink("working"@),
            agents::AgentStatus::Idle => seen::ink("idle"@),
        }) + (match a.task_slug {
            Some(s) => seen::ink(
                text::clipped(s@, bars::at_least_zero(w - bars::capped(name_w + 12))),
            ),
            None => Seq::<char>::empty(),
        })
    }
}

proof fn lemma_agent_row(b: Canvas, name: Seq<char>, on: bool, status: Seq<char>)
    ensures
        ({
            let b = b.print("  "@);
            let c = if on {
                b.push_style(agents::name_style()).print(name).pop_style()
            } else {
                b.print(name)
            };
            let d = c.push_dim().print("  "@ + status).pop_style();
            seen::seen(d) == seen::seen(b) + seen::ink(name) + seen::ink(status)
        }),
        seen::seen(b.print("  "@)) == seen::seen(b),
        forall|d: Canvas, t: Seq<char>|
            seen::seen((#[trigger] d.print("  "@ + t)).crlf()) == seen::seen(d) + seen::ink(t),
{
    broadcast use {seen::group_seen, seen::lemma_ink_fill};

    reveal_strlit("  ");
    assert("  "@ =~= text::fill(' ', 2));
    assert(seen::seen(b.print("  "@)) =~= seen::seen(b));
    assert(seen::ink("  "@ + status) =~= seen::ink(status));
    let b = b.print("  "@);
    let c = if on {
        b.push_style(agents::name_style()).print(name).pop_style()
    } else {
        b.print(name)
    };
    assert(seen::seen(c) =~= seen::seen(b) + seen::ink(name));
    let d = c.push_dim().print("  "@ + status).pop_style();
    assert(seen::seen(d) =~= seen::seen(c) + seen::ink(status));
    assert forall|d: Canvas, t: Seq<char>|
        seen::seen((#[trigger] d.print("  "@ + t)).crlf()) == seen::seen(d) + seen::ink(t) by {
        assert(seen::ink("  "@ + t) =~= seen::ink(t));
    }
}

proof fn lemma_agent_words(a: RegistryEntry, name_w: int)
    ensures
        seen::ink(text::left_aligned(a.agent_id@, name_w)) == seen::ink(a.agent_id@),
        seen::ink("idle   "@) == seen::ink("idle"@),
{
    broadcast use {seen::lemma_ink_add, seen::lemma_ink_fill};

    reveal_strlit("idle   ");
    reveal_strlit("idle");
    assert("idle   "@ =~= "idle"@ + text::fill(' ', 3));
    assert(seen::ink("idle   "@) =~= seen::ink("idle"@));
    assert(seen::ink(text::left_aligned(a.agent_id@, name_w)) =~= seen::ink(a.agent_id@));
}

/// The rows show the agents in order, each with what it does.
pub proof fn law_agents_are_listed(
    m: Canvas,
    v: Seq<RegistryEntry>,
    from: int,
    to: int,
    selected: int,
    name_w: int,
    w: int,
)
    ensures
        seen::seen(agents::agent_rows(m, v, from, to, selected, name_w, w)) == seen::seen(m)
            + agents_seen(v, from, to, name_w, w),
    decreases to - from,
{
    if to <= from {
        assert(seen::seen(m) + agents_seen(v, from, to, name_w, w) =~= seen::seen(m));
    } else {
        law_agents_are_listed(m, v, from, to - 1, selected, name_w, w);
        let a = v[to - 1];
        let name = text::left_aligned(a.agent_id@, name_w);
        lemma_agent_words(a, name_w);
        let status = match a.status {
            agents::AgentStatus::Working => "working"@,
            agents::AgentStatus::Idle => "idle   "@,
        };
        let b = agents::agent_rows(m, v, from, to - 1, selected, name_w, w);
        lemma_agent_row(b, name, to - 1 == selected, status);
        let c = if to - 1 == selected {
            b.print("  "@).push_style(agents::name_style()).print(name).pop_style()
        } else {
            b.print("  "@).print(name)
        };
        let d = c.push_dim().print("  "@ + status).pop_style();
        seen::lemma_seen_crlf(d);
        let r = agents::agent_rows(m, v, from, to, selected, name_w, w);
        match a.task_slug {
            Some(s) => {
                let t = text::clipped(s@, bars::at_least_zero(w - bars::capped(name_w + 12)));
                assert(r == d.print("  "@ + t).crlf());
            },
            None => {
                assert(r == d.crlf());
            },
        }
        assert(seen::seen(r) =~= seen::seen(m) + agents_seen(v, from, to, name_w, w));
    }
}

/// What lines of help show: each key and what it does.
pub open spec fn help_seen(ls: Seq<(Seq<char>, Seq<char>)>, from: int, to: int) -> Seq<char>
    decreases to - from,
{
    if to <= from {
        seq![]
    } else {
        help_seen(ls, from, to - 1) + seen::ink(ls[to - 1].0) + seen::ink(ls[to - 1].1)
    }
}

/// Help shows each key beside what it does, in order.
#[verifier::rlimit(40)]
#[verifier::spinoff_prover]
pub proof fn law_help_is_listed(
    m: Canvas,
    ls: Seq<(Seq<char>, Seq<char>)>,
    from: int,
    to: int,
    column: int,
)
    ensures
        seen::seen(help::help_rows(m, ls, from, to, column)) == seen::seen(m) + help_seen(
            ls,
            from,
            to,
        ),
    decreases to - from,
{
    broadcast use {seen::group_seen, seen::lemma_ink_fill};

    if to <= from {
        assert(seen::seen(m) + help_seen(ls, from, to) =~= seen::seen(m));
    } else {
        law_help_is_listed(m, ls, from, to - 1, column);
        let (label, detail) = ls[to - 1];
        reveal_strlit("  ");
        assert("  "@ =~= text::fill(' ', 2));
        if label.len() == 0 && detail.len() == 0 {
            assert(seen::ink(label) =~= seq![]);
            assert(seen::ink(detail) =~= seq![]);
        } else {
            let pad = text::fill(' ', bars::at_least_zero(column - text::byte_len(label)) as nat);
            assert(seen::ink(pad + detail) =~= seen::ink(detail));
        }
        assert(seen::seen(help::help_rows(m, ls, from, to, column)) =~= seen::seen(m) + help_seen(
            ls,
            from,
            to,
        ));
    }
}

/// Every key of every section has its line of help, section by section, and
/// sections are set apart by empty lines.
pub proof fn law_help_holds_every_key(ss: Seq<help::HelpSection>, n: int, k: int, i: int) -> (at: int)
    requires
        0 <= k < n <= ss.len(),
        0 <= i < ss[k].entries@.len(),
    ensures
        0 <= at < help::help_lines(ss, n).len(),
        help::help_lines(ss, n)[at] == (ss[k].entries@[i].0@, ss[k].entries@[i].1@),
    decreases n,
{
    let before = help::help_lines(ss, n - 1);
    let here = help::entries_view(ss[n - 1].entries@);
    if k == n - 1 {
        assert((before + here)[before.len() + i] == here[i]);
        before.len() + i
    } else {
        let at = law_help_holds_every_key(ss, n - 1, k, i);
        assert((before + here)[at] == before[at]);
        at
    }
}

} // verus!
