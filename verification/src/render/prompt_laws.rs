//! What a reader sees around the prompt, and of the conversation above it.

use vstd::prelude::*;

use crate::render::bars;
use crate::render::blocks;
use crate::render::blocks::MessageLook;
use crate::render::blocks_laws;
use crate::render::highlight;
use crate::render::history::HistoryView;
use crate::render::markdown_laws;
use crate::render::model::{Block, Notification};
use crate::render::out;
use crate::render::out::{Canvas, Command, Drawn};
use crate::render::prompt;
use crate::render::seen;
use crate::render::spans;
use crate::render::styled::Env;
use crate::render::wrap;
use crate::text;
use crate::theme;

verus! {

// ── Notifications ────────────────────────────────────────────────────────

proof fn lemma_line_done(m: Canvas)
    ensures
        seen::seen(prompt::line_done(m)) == seen::seen(m),
{
    broadcast use seen::group_seen;

    reveal_strlit("\r\n");
    seen::lemma_ink_white("\r\n"@);
    assert(seen::seen(prompt::line_done(m)) =~= seen::seen(m));
}

/// A notification says whether it is an error, and what it is about as far as
/// that fits; without one, nothing is shown.
pub proof fn law_notification_is_shown(m: Canvas, n: Notification, usable: int)
    ensures
        seen::seen(prompt::notification_drawn(m, Some(n), usable).canvas) == seen::seen(m) + (
        if n.is_error {
            seen::ink("error"@)
        } else {
            seen::ink("info"@)
        }) + seen::ink(
            text::first_chars(
                n.message@,
                bars::at_least_zero(
                    usable - (if n.is_error {
                        8int
                    } else {
                        7
                    }),
                ),
            ),
        ),
        prompt::notification_drawn(m, Some(n), usable).rows == 1,
        prompt::notification_drawn(m, None, usable) == out::drawn(m),
        n.message@.len() + 8 <= usable ==> seen::seen(
            prompt::notification_drawn(m, Some(n), usable).canvas,
        ) == seen::seen(m) + (if n.is_error {
            seen::ink("error"@)
        } else {
            seen::ink("info"@)
        }) + seen::ink(n.message@),
{
    broadcast use {seen::group_seen, seen::lemma_ink_fill};

    reveal_strlit(" ");
    reveal_strlit("  ");
    assert(" "@ =~= text::fill(' ', 1));
    assert("  "@ =~= text::fill(' ', 2));
    let label = if n.is_error {
        "error"@
    } else {
        "info"@
    };
    let max_msg = bars::at_least_zero(
        usable - (if n.is_error {
            8int
        } else {
            7
        }),
    );
    let fg = if n.is_error {
        Some(theme::ERROR)
    } else {
        None
    };
    let t = text::first_chars(n.message@, max_msg);
    let a = m.print(" "@).push_style(prompt::fg_style(fg, true, false)).print(
        label,
    ).pop_style().print("  "@).push_dim().print(t).pop_style();
    assert(seen::seen(a) =~= seen::seen(m) + seen::ink(label) + seen::ink(t));
    lemma_line_done(a);
    if n.message@.len() + 8 <= usable {
        assert(t =~= n.message@);
    }
}

// ── Messages that wait ───────────────────────────────────────────────────

proof fn lemma_queued_rows(
    d: Drawn,
    chunks: Seq<Seq<char>>,
    n: int,
    look: MessageLook,
    paths: Seq<String>,
)
    requires
        0 <= n <= chunks.len(),
    ensures
        seen::seen(prompt::queued_rows(d, chunks, n, look, paths).canvas) == seen::seen(d.canvas)
            + seen::ink(seen::flat(chunks.take(n))),
    decreases n,
{
    broadcast use {seen::group_seen, seen::lemma_ink_fill};

    if n <= 0 {
        assert(chunks.take(n) =~= seq![]);
        assert(seen::seen(d.canvas) + seen::ink(seen::flat(chunks.take(n))) =~= seen::seen(
            d.canvas,
        ));
    } else {
        lemma_queued_rows(d, chunks, n - 1, look, paths);
        let e = prompt::queued_rows(d, chunks, n - 1, look, paths);
        reveal_strlit(" ");
        assert(" "@ =~= text::fill(' ', 1));
        let a = e.canvas.print(" "@).push_style(prompt::queued_style(look.bg)).print(" "@);
        assert(seen::seen(a) =~= seen::seen(e.canvas));
        blocks_laws::law_message_is_printed_whole(
            a,
            chunks[n - 1],
            seq![],
            look.is_command,
            paths,
            look.accent,
        );
        let b = spans::message_printed(
            a,
            chunks[n - 1],
            seq![],
            look.is_command,
            paths,
            look.accent,
        );
        let pad = blocks::message_pad(look.block_w, chunks[n - 1].len() as int);
        assert(seen::seen(b.print(text::fill(' ', pad as nat)).pop_style().crlf()) =~= seen::seen(
            b,
        ));
        assert(chunks.take(n) =~= chunks.take(n - 1).push(chunks[n - 1]));
        assert(seen::seen(prompt::queued_rows(d, chunks, n, look, paths).canvas) =~= seen::seen(
            d.canvas,
        ) + seen::ink(seen::flat(chunks.take(n))));
    }
}

proof fn lemma_queued_lines(
    d: Drawn,
    ls: Seq<Seq<char>>,
    n: int,
    look: MessageLook,
    paths: Seq<String>,
)
    requires
        0 <= n <= ls.len(),
        look.text_w >= 0,
    ensures
        seen::seen(prompt::queued_lines(d, ls, n, look, paths).canvas) == seen::seen(d.canvas)
            + seen::ink(seen::flat(ls.take(n))),
    decreases n,
{
    broadcast use {seen::group_seen, seen::lemma_ink_fill};

    if n <= 0 {
        assert(ls.take(n) =~= seq![]);
        assert(seen::seen(d.canvas) + seen::ink(seen::flat(ls.take(n))) =~= seen::seen(d.canvas));
    } else {
        lemma_queued_lines(d, ls, n - 1, look, paths);
        let e = prompt::queued_lines(d, ls, n - 1, look, paths);
        let l = ls[n - 1];
        assert(ls.take(n) =~= ls.take(n - 1).push(l));
        let r = prompt::queued_lines(d, ls, n, look, paths);
        if l.len() == 0 {
            reveal_strlit(" ");
            assert(" "@ =~= text::fill(' ', 1));
            assert(seen::ink(l) =~= seq![]);
            assert(seen::seen(r.canvas) =~= seen::seen(e.canvas));
        } else {
            let chunks = wrap::wrapped(l, look.text_w);
            lemma_queued_rows(e, chunks, chunks.len() as int, look, paths);
            assert(chunks.take(chunks.len() as int) =~= chunks);
            seen::lemma_ink_wrapped(l, look.text_w);
        }
        assert(seen::seen(r.canvas) =~= seen::seen(d.canvas) + seen::ink(seen::flat(ls.take(n))));
    }
}

/// Messages that wait are shown whole, in the order in which they wait.
pub proof fn law_waiting_messages_are_shown(
    d: Drawn,
    msgs: Seq<Seq<char>>,
    n: int,
    usable: int,
    env: Env,
)
    requires
        0 <= n <= msgs.len(),
    ensures
        seen::seen(prompt::queued_drawn(d, msgs, n, usable, env).canvas) == seen::seen(d.canvas)
            + seen::ink(seen::flat(msgs.take(n))),
    decreases n,
{
    broadcast use {seen::lemma_ink_add, seen::lemma_flat_push};

    if n <= 0 {
        assert(msgs.take(n) =~= seq![]);
        assert(seen::seen(d.canvas) + seen::ink(seen::flat(msgs.take(n))) =~= seen::seen(
            d.canvas,
        ));
    } else {
        law_waiting_messages_are_shown(d, msgs, n - 1, usable, env);
        let t = msgs[n - 1];
        let raw = text::lines_of(t);
        let ls = highlight::untabbed_lines(raw);
        lemma_queued_lines(
            prompt::queued_drawn(d, msgs, n - 1, usable, env),
            ls,
            ls.len() as int,
            prompt::queued_look(t, usable, env),
            env.paths@,
        );
        assert(ls.take(ls.len() as int) =~= ls);
        seen::lemma_ink_untabbed_lines(raw);
        seen::lemma_ink_lines(t);
        assert(msgs.take(n) =~= msgs.take(n - 1).push(t));
        assert(seen::seen(prompt::queued_drawn(d, msgs, n, usable, env).canvas) =~= seen::seen(
            d.canvas,
        ) + seen::ink(seen::flat(msgs.take(n))));
    }
}

// ── The conversation ─────────────────────────────────────────────────────

/// What blocks show, each drawn by itself.
pub open spec fn conversation_seen(
    bs: Seq<Block>,
    from: int,
    to: int,
    width: usize,
    show_thinking: bool,
    env: Env,
) -> Seq<char>
    decreases to - from,
{
    if to <= from {
        seq![]
    } else {
        conversation_seen(bs, from, to - 1, width, show_thinking, env) + seen::seen(
            blocks::block_drawn(
                Canvas::blank(),
                bs[to - 1],
                width,
                show_thinking,
                env,
            ).canvas,
        )
    }
}

proof fn lemma_gap(m: Canvas, n: int)
    ensures
        seen::seen(m.crlfs(n)) == seen::seen(m),
    decreases n,
{
    broadcast use seen::lemma_seen_crlf;

    if n > 0 {
        lemma_gap(m, n - 1);
    }
}

proof fn lemma_put_out(
    h: HistoryView,
    m: Canvas,
    n: int,
    width: usize,
    show_thinking: bool,
    env: Env,
)
    requires
        0 <= h.flushed <= n <= h.blocks.len(),
        h.mode(show_thinking).cached.len() == h.blocks.len(),
        h.mode(show_thinking).rows.len() == h.blocks.len(),
        forall|i: int|
            h.flushed <= i < h.blocks.len() ==> (#[trigger] h.mode(show_thinking).cached[i]) is None,
    ensures
        ({
            let r = h.render_up_to(m, n, true, width, show_thinking, env);
            &&& seen::seen(r.canvas) == seen::seen(m) + conversation_seen(
                h.blocks,
                h.flushed as int,
                n,
                width,
                show_thinking,
                env,
            )
            &&& r.mode.cached.len() == h.blocks.len()
            &&& r.mode.rows.len() == h.blocks.len()
            &&& forall|i: int|
                n <= i < h.blocks.len() ==> (#[trigger] r.mode.cached[i]) is None
        }),
    decreases n,
{
    if n <= h.flushed || n <= 0 {
        assert(seen::seen(m) + conversation_seen(
            h.blocks,
            h.flushed as int,
            n,
            width,
            show_thinking,
            env,
        ) =~= seen::seen(m));
    } else {
        lemma_put_out(h, m, n - 1, width, show_thinking, env);
        let r = h.render_up_to(m, n - 1, true, width, show_thinking, env);
        let i = n - 1;
        let gap = if i == h.flushed && h.suppress {
            0
        } else {
            h.gap_before(i)
        };
        assert(r.mode.cached[i] is None);
        let a = r.canvas.crlfs(gap as int);
        lemma_gap(r.canvas, gap as int);
        let d = blocks::block_drawn(Canvas::blank(), h.blocks[i], width, show_thinking, env);
        lemma_replayed(a, d.canvas.cmds);
        assert(seen::seen(h.render_up_to(m, n, true, width, show_thinking, env).canvas)
            =~= seen::seen(m) + conversation_seen(
            h.blocks,
            h.flushed as int,
            n,
            width,
            show_thinking,
            env,
        ));
    }
}

proof fn lemma_replayed(m: Canvas, cmds: Seq<Command<Seq<char>>>)
    ensures
        seen::seen(m.replay(cmds)) == seen::seen(m) + seen::ink(seen::flat(seen::prints_of(cmds))),
{
    seen::lemma_replay(m, cmds);
    seen::lemma_flat_add(seen::prints(m), seen::prints_of(cmds));
    seen::lemma_ink_add(seen::flat(seen::prints(m)), seen::flat(seen::prints_of(cmds)));
}

/// The conversation is put out block by block, in order: all blocks that have
/// not been put out yet, and none that has.
pub proof fn law_every_block_is_put_out(
    h: HistoryView,
    m: Canvas,
    width: usize,
    show_thinking: bool,
    env: Env,
)
    requires
        h.wf(),
        m.row is None,
        0 <= h.flushed <= h.blocks.len(),
        forall|i: int|
            h.flushed <= i < h.blocks.len() ==> (#[trigger] h.mode(show_thinking).cached[i]) is None,
    ensures
        ({
            let r = h.rendered(m, width, show_thinking, env);
            &&& seen::seen(r.1.canvas) == seen::seen(m) + conversation_seen(
                h.blocks,
                h.flushed as int,
                h.blocks.len() as int,
                width,
                show_thinking,
                env,
            )
            &&& r.0.blocks == h.blocks
            &&& r.0.flushed == h.blocks.len()
        }),
{
    reveal(HistoryView::rendered);
    let n = h.blocks.len() as int;
    if h.flushed >= n {
        assert(seen::seen(m) + conversation_seen(
            h.blocks,
            h.flushed as int,
            n,
            width,
            show_thinking,
            env,
        ) =~= seen::seen(m));
    } else {
        let w = h.for_width(width, true);
        assert forall|i: int| w.flushed <= i < w.blocks.len() implies (#[trigger] w.mode(
            show_thinking,
        ).cached[i]) is None by {
            assert(h.mode(show_thinking).cached[i] is None);
        }
        lemma_put_out(w, m, n, width, show_thinking, env);
    }
}

/// A block shows what it holds: a message of the user and a hint are shown
/// as they are, and so is a text without marks; a command is shown with its
/// output, and thoughts in full where they are to be shown.
pub proof fn law_block_shows_its_content(
    m: Canvas,
    b: Block,
    width: usize,
    show_thinking: bool,
    env: Env,
)
    ensures
        ({
            let r = seen::seen(blocks::block_drawn(m, b, width, show_thinking, env).canvas);
            match b {
                Block::User { text: t, image_labels: _ } => r == seen::seen(m) + seen::ink(t@),
                Block::Hint { content } => r == seen::seen(m) + seen::ink(content@),
                Block::Text { content } => markdown_laws::plain(content@) && (forall|i: int|
                    0 <= i < text::lines_of(content@).len() ==> markdown_laws::no_rule(
                        #[trigger] text::lines_of(content@)[i],
                    )) ==> r == seen::seen(m) + seen::ink(content@),
                Block::Thinking { content } => show_thinking ==> exists|rows: Seq<Seq<char>>|
                    {
                        &&& r == seen::seen(m) + #[trigger] blocks_laws::barred(rows)
                        &&& seen::ink(seen::flat(rows)) == seen::ink(content@)
                    },
                Block::Exec { command, output } => output@.len() == 0 ==> r == seen::seen(m)
                    + seen::ink("!"@) + seen::ink(command@),
                _ => true,
            }
        }),
{
    reveal(blocks::block_drawn);
    match b {
        Block::User { text: t, image_labels } => {
            blocks_laws::law_user_message_is_shown(
                m,
                t@,
                text::texts(image_labels@),
                width as int,
                env,
            );
        },
        Block::Hint { content } => {
            blocks_laws::law_hint_is_shown(m, content@);
        },
        Block::Text { content } => {
            if markdown_laws::plain(content@) && (forall|i: int|
                0 <= i < text::lines_of(content@).len() ==> markdown_laws::no_rule(
                    #[trigger] text::lines_of(content@)[i],
                )) {
                let look = blocks::block_look(width, false, env);
                reveal_strlit(" ");
                assert(" "@ =~= text::fill(' ', 1));
                seen::lemma_ink_fill(1);
                markdown_laws::law_plain_markdown_is_shown(m, content@, look);
            }
        },
        Block::Thinking { content } => {
            let rows = blocks_laws::law_thoughts_are_shown(m, content@, width as int);
        },
        Block::Exec { command, output } => {
            blocks_laws::lemma_command_line(
                m,
                command@,
                width as int,
                env.theme.user_bg_color(),
            );
            let a = blocks::command_line(m, command@, width as int, env.theme.user_bg_color());
            seen::lemma_seen_crlf(a);
        },
        _ => {},
    }
}

} // verus!
