//! What stands above the prompt: notifications, messages that wait, stashed
//! input and side questions.

use vstd::prelude::*;

use crate::hints::Hints;
use crate::render::bars;
use crate::render::blocks;
use crate::render::blocks::{block_width, MessageLook};
use crate::render::highlight;
use crate::render::highlight::Assets;
use crate::render::markdown;
use crate::render::markdown::{render_markdown_inner, MdLook};
use crate::render::model;
use crate::render::model::{spinner_frame, Notification};
use crate::render::out;
use crate::render::out::{
    copy_command, crlf, Canvas, ClearType, Color, Command, Drawn, RenderOut, StyleState,
};
use crate::render::spans;
use crate::render::spans::print_user_highlights;
use crate::render::styled;
use crate::render::styled::{one_of, Env};
use crate::render::table;
use crate::render::tools;
use crate::render::wrap;
use crate::render::wrap::wrap_line;
use crate::text;
use crate::text::{
    cat, cat3, char_count, expand_tabs, lines, number, repeat_char, same_text, take_chars, trim,
};
use crate::theme;

verus! {

/// Clears the rest of the line and goes to the next one, scrolling.
pub open spec fn line_done(m: Canvas) -> Canvas {
    m.queue(Command::Clear(ClearType::UntilNewLine)).print("\r\n"@)
}

/// Clears the rest of the line and goes to the next one, scrolling.
pub fn end_line(out: &mut RenderOut)
    ensures
        final(out)@ == line_done(old(out)@),
{
    out.queue(Command::Clear(ClearType::UntilNewLine));
    out.print("\r\n");
}

// ── Notifications ────────────────────────────────────────────────────────

/// A style with a foreground, bold or not, dim or not.
pub open spec fn fg_style(fg: Option<Color>, bold: bool, dim: bool) -> StyleState {
    StyleState { fg, bold, dim, ..out::plain_style() }
}

fn style_of(fg: Option<Color>, bold: bool, dim: bool) -> (r: StyleState)
    ensures
        r == fg_style(fg, bold, dim),
{
    let mut s = StyleState::default();
    s.fg = fg;
    s.bold = bold;
    s.dim = dim;
    s
}

/// A notification in one row; the result is the number of rows.
pub open spec fn notification_drawn(m: Canvas, n: Option<Notification>, usable: int) -> Drawn {
    match n {
        None => out::drawn(m),
        Some(n) => {
            let label = if n.is_error {
                "error"@
            } else {
                "info"@
            };
            let max_msg = bars::at_least_zero(usable - (if n.is_error { 8int } else { 7 }));
            let fg = if n.is_error {
                Some(theme::ERROR)
            } else {
                None
            };
            let m = m.print(" "@).push_style(fg_style(fg, true, false)).print(
                label,
            ).pop_style().print("  "@).push_dim().print(
                text::first_chars(n.message@, max_msg),
            ).pop_style();
            out::drawn(m).row(line_done(m))
        },
    }
}

/// Shows a notification; the result is the number of rows.
pub fn render_notification(
    out: &mut RenderOut,
    notification: &Option<Notification>,
    usable: usize,
) -> (r: u16)
    ensures
        (Drawn { canvas: final(out)@, rows: r }) == notification_drawn(
            old(out)@,
            *notification,
            usable as int,
        ),
{
    match notification {
        None => 0,
        Some(n) => {
            out.print(" ");
            if n.is_error {
                out.push_style(style_of(Some(theme::ERROR), true, false));
                out.print("error");
            } else {
                out.push_style(style_of(None, true, false));
                out.print("info");
            }
            out.pop_style();
            out.print("  ");
            let max_msg: usize = if n.is_error {
                usable.saturating_sub(8)
            } else {
                usable.saturating_sub(7)
            };
            let msg = take_chars(n.message.as_str(), max_msg);
            out.push_dim();
            out.print(msg.as_str());
            out.pop_style();
            end_line(out);
            1
        },
    }
}

/// A note that input was stashed.
pub open spec fn stash_drawn(m: Canvas, stashed: bool, usable: int) -> Drawn {
    if stashed {
        let m = m.print("  "@).push_style(
            fg_style(Some(Color::AnsiValue(theme::MUTED)), false, true),
        ).print(
            text::first_chars("\u{203a} Stashed (ctrl+s to unstash)"@, usable),
        ).pop_style();
        out::drawn(m).row(line_done(m))
    } else {
        out::drawn(m)
    }
}

/// Shows that input was stashed; the result is the number of rows.
pub fn render_stash(out: &mut RenderOut, stashed: bool, usable: usize) -> (r: u16)
    ensures
        (Drawn { canvas: final(out)@, rows: r }) == stash_drawn(
            old(out)@,
            stashed,
            usable as int,
        ),
{
    if !stashed {
        return 0;
    }
    let t = take_chars("\u{203a} Stashed (ctrl+s to unstash)", usable);
    out.print("  ");
    out.push_style(style_of(Some(theme::muted()), false, true));
    out.print(t.as_str());
    out.pop_style();
    end_line(out);
    1
}

// ── Messages that wait ───────────────────────────────────────────────────

/// The style of a message that waits.
pub open spec fn queued_style(bg: Color) -> StyleState {
    StyleState { bg: Some(bg), bold: true, ..out::plain_style() }
}

/// The first `n` rows of one line of a message that waits.
pub open spec fn queued_rows(
    d: Drawn,
    chunks: Seq<Seq<char>>,
    n: int,
    look: MessageLook,
    paths: Seq<String>,
) -> Drawn
    decreases n,
{
    if n <= 0 {
        d
    } else {
        let d = queued_rows(d, chunks, n - 1, look, paths);
        let m = d.canvas.print(" "@).push_style(queued_style(look.bg)).print(" "@);
        let m = spans::message_printed(
            m,
            chunks[n - 1],
            seq![],
            look.is_command,
            paths,
            look.accent,
        );
        let pad = blocks::message_pad(look.block_w, chunks[n - 1].len() as int);
        d.row(m.print(text::fill(' ', pad as nat)).pop_style().crlf())
    }
}

/// The first `n` lines of a message that waits.
pub open spec fn queued_lines(
    d: Drawn,
    ls: Seq<Seq<char>>,
    n: int,
    look: MessageLook,
    paths: Seq<String>,
) -> Drawn
    decreases n,
{
    if n <= 0 {
        d
    } else {
        let d = queued_lines(d, ls, n - 1, look, paths);
        if ls[n - 1].len() == 0 {
            d.row(
                d.canvas.print(" "@).push_bg(look.bg).print(
                    text::fill(' ', blocks::message_blank(look.block_w) as nat),
                ).pop_style().crlf(),
            )
        } else {
            let chunks = wrap::wrapped(ls[n - 1], look.text_w);
            queued_rows(d, chunks, chunks.len() as int, look, paths)
        }
    }
}

/// How a message that waits is shown.
pub open spec fn queued_look(msg: Seq<char>, usable: int, env: Env) -> MessageLook {
    let ls = highlight::untabbed_lines(text::lines_of(msg));
    let text_w = tools::at_least_one(bars::at_least_zero(usable - 2));
    MessageLook {
        text_w,
        block_w: blocks::message_width(ls, text_w, text_w),
        bg: env.theme.user_bg_color(),
        accent: env.theme.accent_color(),
        is_command: styled::is_one_of(env.commands@, text::trimmed(msg)),
    }
}

/// The first `n` of the messages that wait.
pub open spec fn queued_drawn(
    d: Drawn,
    msgs: Seq<Seq<char>>,
    n: int,
    usable: int,
    env: Env,
) -> Drawn
    decreases n,
{
    if n <= 0 {
        d
    } else {
        let d = queued_drawn(d, msgs, n - 1, usable, env);
        let ls = highlight::untabbed_lines(text::lines_of(msgs[n - 1]));
        queued_lines(
            d,
            ls,
            ls.len() as int,
            queued_look(msgs[n - 1], usable, env),
            env.paths@,
        )
    }
}

pub(crate) fn untabbed_message(msg: &str) -> (r: Vec<String>)
    ensures
        text::texts(r@) == highlight::untabbed_lines(text::lines_of(msg@)),
{
    let raw = lines(msg);
    let ghost rt = text::texts(raw@);
    let mut ls: Vec<String> = Vec::new();
    let mut i: usize = 0;
    while i < raw.len()
        invariant
            rt == text::texts(raw@),
            i <= raw@.len(),
            ls@.len() == i,
            forall|j: int|
                0 <= j < i ==> (#[trigger] ls@[j])@ == highlight::untabbed_lines(rt)[j],
        decreases raw@.len() - i,
    {
        assert(rt[i as int] == raw@[i as int]@);
        ls.push(expand_tabs(raw[i].as_str()));
        i = i + 1;
    }
    assert(text::texts(ls@) =~= highlight::untabbed_lines(rt));
    ls
}

fn render_queued_message(
    out: &mut RenderOut,
    msg: &str,
    usable: usize,
    rows: u16,
    env: &Env,
) -> (r: u16)
    ensures
        ({
            let ls = highlight::untabbed_lines(text::lines_of(msg@));
            (Drawn { canvas: final(out)@, rows: r }) == queued_lines(
                Drawn { canvas: old(out)@, rows },
                ls,
                ls.len() as int,
                queued_look(msg@, usable as int, *env),
                env.paths@,
            )
        }),
{
    let ghost d0 = Drawn { canvas: out@, rows };
    let w: usize = usable.saturating_sub(2);
    let text_w: usize = if w < 1 {
        1
    } else {
        w
    };
    let bare = trim(msg);
    let is_command = one_of(&env.commands, bare.as_str());
    let ls = untabbed_message(msg);
    let ghost ts = text::texts(ls@);
    let block_w: usize = block_width(&ls, text_w, text_w);
    let bg = theme::user_bg(&env.theme);
    let accent = theme::accent(&env.theme);
    let ghost look = queued_look(msg@, usable as int, *env);
    let no_labels: Vec<String> = Vec::new();
    assert(text::texts(no_labels@) =~= seq![]);
    let mut rows: u16 = rows;
    let mut i: usize = 0;
    while i < ls.len()
        invariant
            ts == text::texts(ls@),
            text::texts(no_labels@) =~= seq![],
            i <= ls@.len(),
            look == (MessageLook {
                text_w: text_w as int,
                block_w: block_w as int,
                bg,
                accent,
                is_command,
            }),
            (Drawn { canvas: out@, rows }) == queued_lines(d0, ts, i as int, look, env.paths@),
        decreases ls@.len() - i,
    {
        assert(ts[i as int] == ls@[i as int]@);
        if char_count(ls[i].as_str()) == 0 {
            let fill: usize = if block_w > 0 {
                block_w.saturating_add(1)
            } else {
                2
            };
            out.print(" ");
            out.push_bg(bg);
            let spaces = repeat_char(' ', fill);
            out.print(spaces.as_str());
            out.pop_style();
            crlf(out);
            rows = rows.saturating_add(1);
        } else {
            let ghost d1 = Drawn { canvas: out@, rows };
            let chunks = wrap_line(ls[i].as_str(), text_w);
            let ghost cs = text::texts(chunks@);
            let mut k: usize = 0;
            while k < chunks.len()
                invariant
                    cs == text::texts(chunks@),
                    text::texts(no_labels@) =~= seq![],
                    k <= chunks@.len(),
                    look == (MessageLook {
                        text_w: text_w as int,
                        block_w: block_w as int,
                        bg,
                        accent,
                        is_command,
                    }),
                    (Drawn { canvas: out@, rows }) == queued_rows(
                        d1,
                        cs,
                        k as int,
                        look,
                        env.paths@,
                    ),
                decreases chunks@.len() - k,
            {
                assert(cs[k as int] == chunks@[k as int]@);
                let len: usize = char_count(chunks[k].as_str());
                let trailing: usize = if block_w > 0 {
                    block_w.saturating_sub(len)
                } else {
                    1
                };
                out.print(" ");
                let mut s = StyleState::default();
                s.bg = Some(bg);
                s.bold = true;
                out.push_style(s);
                out.print(" ");
                print_user_highlights(
                    out,
                    chunks[k].as_str(),
                    &no_labels,
                    is_command,
                    &env.paths,
                    accent,
                );
                let spaces = repeat_char(' ', trailing);
                out.print(spaces.as_str());
                out.pop_style();
                crlf(out);
                rows = rows.saturating_add(1);
                k = k + 1;
            }
            assert(cs.len() == chunks@.len());
        }
        i = i + 1;
    }
    assert(ts.len() == ls@.len());
    rows
}

/// Shows the messages that wait; the result is the number of rows.
pub fn render_queued(
    out: &mut RenderOut,
    queued: &Vec<String>,
    usable: usize,
    env: &Env,
) -> (r: u16)
    ensures
        (Drawn { canvas: final(out)@, rows: r }) == queued_drawn(
            out::drawn(old(out)@),
            text::texts(queued@),
            queued@.len() as int,
            usable as int,
            *env,
        ),
{
    let ghost qs = text::texts(queued@);
    let ghost d0 = out::drawn(out@);
    let mut rows: u16 = 0;
    let mut i: usize = 0;
    while i < queued.len()
        invariant
            qs == text::texts(queued@),
            i <= queued@.len(),
            (Drawn { canvas: out@, rows }) == queued_drawn(
                d0,
                qs,
                i as int,
                usable as int,
                *env,
            ),
        decreases queued@.len() - i,
    {
        assert(qs[i as int] == queued@[i as int]@);
        rows = render_queued_message(out, queued[i].as_str(), usable, rows, env);
        i = i + 1;
    }
    rows
}

// ── Side questions ───────────────────────────────────────────────────────

/// A side question, and the answer once it is there.
pub struct BtwBlock {
    pub question: String,
    pub image_labels: Vec<String>,
    pub response: Option<String>,
    /// The answer as it was rendered, line by line.
    pub wrapped: Vec<Vec<Command<String>>>,
    pub scroll_offset: usize,
    /// Columns for which the answer was rendered.
    pub wrap_width: usize,
}

/// Lines of commands.
pub open spec fn command_lines(v: Seq<Vec<Command<String>>>) -> Seq<Seq<Command<Seq<char>>>> {
    Seq::new(v.len(), |i: int| out::commands_view(v[i]@))
}

/// Commands, split at line ends: the lines that are complete, and the
/// commands behind them.
pub open spec fn split_commands(cmds: Seq<Command<Seq<char>>>, n: int) -> (
    Seq<Seq<Command<Seq<char>>>>,
    Seq<Command<Seq<char>>>,
)
    decreases n,
{
    if n <= 0 {
        (seq![], seq![])
    } else {
        let a = split_commands(cmds, n - 1);
        if cmds[n - 1] == Command::Print("\r\n"@) {
            (a.0.push(a.1), seq![])
        } else {
            (a.0, a.1.push(cmds[n - 1]))
        }
    }
}

/// The lines of rendered commands.
pub open spec fn all_lines(cmds: Seq<Command<Seq<char>>>) -> Seq<Seq<Command<Seq<char>>>> {
    let a = split_commands(cmds, cmds.len() as int);
    if a.1.len() > 0 {
        a.0.push(a.1)
    } else {
        a.0
    }
}

/// How many lines of rendered commands are complete.
pub open spec fn complete_lines(cmds: Seq<Command<Seq<char>>>) -> int {
    split_commands(cmds, cmds.len() as int).0.len() as int
}

/// The lines of rendered commands, one at least.
pub open spec fn rendered_lines(cmds: Seq<Command<Seq<char>>>) -> Seq<Seq<Command<Seq<char>>>> {
    let all = all_lines(cmds);
    if all.len() == 0 {
        seq![seq![]]
    } else {
        all
    }
}

/// The commands of the first `n` lines, each with its line end.
pub open spec fn lines_joined(ls: Seq<Seq<Command<Seq<char>>>>, n: int) -> Seq<Command<Seq<char>>>
    decreases n,
{
    if n <= 0 {
        seq![]
    } else {
        lines_joined(ls, n - 1) + ls[n - 1] + seq![Command::Print("\r\n"@)]
    }
}

proof fn lemma_lines_joined_prefix(
    a: Seq<Seq<Command<Seq<char>>>>,
    b: Seq<Seq<Command<Seq<char>>>>,
    n: int,
)
    requires
        0 <= n <= a.len(),
        n <= b.len(),
        forall|i: int| 0 <= i < n ==> a[i] == b[i],
    ensures
        lines_joined(a, n) == lines_joined(b, n),
    decreases n,
{
    if n > 0 {
        lemma_lines_joined_prefix(a, b, n - 1);
    }
}

/// Splitting at line ends loses nothing: the complete lines with their line
/// ends, and what follows them, are the commands.
pub proof fn law_split_keeps_commands(cmds: Seq<Command<Seq<char>>>, n: int)
    requires
        0 <= n <= cmds.len(),
    ensures
        ({
            let a = split_commands(cmds, n);
            lines_joined(a.0, a.0.len() as int) + a.1 == cmds.take(n)
        }),
    decreases n,
{
    if n > 0 {
        law_split_keeps_commands(cmds, n - 1);
        let a = split_commands(cmds, n - 1);
        let b = split_commands(cmds, n);
        assert(cmds.take(n) =~= cmds.take(n - 1).push(cmds[n - 1]));
        if cmds[n - 1] == Command::Print("\r\n"@) {
            lemma_lines_joined_prefix(a.0, b.0, a.0.len() as int);
            assert(lines_joined(b.0, b.0.len() as int) + b.1 =~= cmds.take(n));
        } else {
            assert(lines_joined(b.0, b.0.len() as int) + b.1 =~= cmds.take(n));
        }
    } else {
        assert(cmds.take(0) =~= seq![]);
    }
}

fn is_line_end(c: &Command<String>) -> (r: bool)
    ensures
        r == (out::command_view(*c) == Command::Print("\r\n"@)),
{
    match c {
        Command::Print(t) => same_text(t.as_str(), "\r\n"),
        _ => false,
    }
}

/// The lines of rendered commands, and how many of them are complete.
pub fn split_lines(cmds: &Vec<Command<String>>) -> (r: (Vec<Vec<Command<String>>>, usize))
    ensures
        command_lines(r.0@) == all_lines(out::commands_view(cmds@)),
        r.1 == complete_lines(out::commands_view(cmds@)),
{
    let ghost cv = out::commands_view(cmds@);
    let mut done: Vec<Vec<Command<String>>> = Vec::new();
    let mut cur: Vec<Command<String>> = Vec::new();
    let mut i: usize = 0;
    assert(command_lines(done@) =~= seq![]);
    assert(out::commands_view(cur@) =~= seq![]);
    while i < cmds.len()
        invariant
            cv == out::commands_view(cmds@),
            i <= cmds@.len(),
            (command_lines(done@), out::commands_view(cur@)) == split_commands(cv, i as int),
        decreases cmds@.len() - i,
    {
        assert(cv[i as int] == out::command_view(cmds@[i as int]));
        if is_line_end(&cmds[i]) {
            let ghost before = done@;
            let ghost line = cur@;
            done.push(cur);
            cur = Vec::new();
            assert(command_lines(done@) =~= command_lines(before).push(out::commands_view(line)));
            assert(out::commands_view(cur@) =~= seq![]);
        } else {
            let c = copy_command(&cmds[i]);
            let ghost before = cur@;
            cur.push(c);
            assert(out::commands_view(cur@) =~= out::commands_view(before).push(
                out::command_view(c),
            ));
        }
        i = i + 1;
    }
    assert(cv.len() == cmds@.len());
    assert(out::commands_view(cur@).len() == cur@.len());
    assert(command_lines(done@).len() == done@.len());
    let complete: usize = done.len();
    if cur.len() > 0 {
        let ghost before = done@;
        let ghost line = cur@;
        done.push(cur);
        assert(command_lines(done@) =~= command_lines(before).push(out::commands_view(line)));
    }
    (done, complete)
}

/// The lines of rendered commands, one at least.
pub fn split_rendered(cmds: &Vec<Command<String>>) -> (r: Vec<Vec<Command<String>>>)
    ensures
        command_lines(r@) == rendered_lines(out::commands_view(cmds@)),
{
    let (mut done, _) = split_lines(cmds);
    assert(command_lines(done@).len() == done@.len());
    if done.len() == 0 {
        let empty: Vec<Command<String>> = Vec::new();
        done.push(empty);
        assert(out::commands_view(empty@) =~= seq![]);
        assert(command_lines(done@) =~= seq![seq![]]);
    }
    done
}

/// A side question as it stands.
pub struct BtwView {
    pub question: Seq<char>,
    pub labels: Seq<Seq<char>>,
    pub response: Option<Seq<char>>,
    pub wrapped: Seq<Seq<Command<Seq<char>>>>,
    pub scroll: int,
    pub width: int,
}

impl View for BtwBlock {
    type V = BtwView;

    open spec fn view(&self) -> BtwView {
        BtwView {
            question: self.question@,
            labels: text::texts(self.image_labels@),
            response: model::opt_view(self.response),
            wrapped: command_lines(self.wrapped@),
            scroll: self.scroll_offset as int,
            width: self.wrap_width as int,
        }
    }
}

/// How answers to side questions look.
pub open spec fn btw_look(usable: usize, env: Env) -> MdLook {
    MdLook {
        width: usable,
        term_width: env.term_width,
        indent: "   ",
        dim: true,
        boxed: None,
        theme: env.theme,
    }
}

/// The lines of an answer.
pub open spec fn btw_lines(t: Seq<char>, usable: usize, env: Env) -> Seq<Seq<Command<Seq<char>>>> {
    rendered_lines(markdown::markdown(Canvas::blank(), t, btw_look(usable, env)).0.cmds)
}

/// The side question, its answer rendered for the columns that there are, and
/// scrolled no further than the answer goes.
pub open spec fn btw_wrapped(b: BtwView, usable: usize, max_lines: int, env: Env) -> BtwView {
    match b.response {
        Some(t) => if b.wrapped.len() == 0 || b.width != usable {
            let ls = btw_lines(t, usable, env);
            BtwView {
                wrapped: ls,
                width: usable as int,
                scroll: table::smaller(b.scroll, bars::at_least_zero(ls.len() - max_lines)),
                ..b
            }
        } else {
            b
        },
        None => b,
    }
}

/// The lines of an answer from `from` up to `to`.
pub open spec fn btw_rows(d: Drawn, ls: Seq<Seq<Command<Seq<char>>>>, from: int, to: int) -> Drawn
    decreases to - from,
{
    if from >= to {
        d
    } else {
        let d = btw_rows(d, ls, from, to - 1);
        d.row(line_done(d.canvas.append(ls[to - 1])))
    }
}

/// The hint below an answer.
pub open spec fn btw_hint(b: BtwView, max_lines: int, h: Hints) -> Seq<char> {
    let total = b.wrapped.len() as int;
    if total > max_lines {
        let end = table::smaller(bars::capped(b.scroll + max_lines), total);
        "   ["@ + text::dec(end as nat) + ("/"@ + text::dec(total as nat) + "]  "@) + (h.nav@
            + "  "@ + (h.scroll@ + "  esc: close"@))
    } else {
        "   esc: close"@
    }
}

/// A side question: the question, and the answer or a spinner.
pub open spec fn btw_drawn(
    m: Canvas,
    b: BtwView,
    usable: int,
    max_lines: int,
    h: Hints,
    env: Env,
) -> Drawn {
    let accent = env.theme.accent_color();
    let m = m.print(" "@).push_fg(accent).print("/btw"@).pop_style().print(" "@);
    let q = text::first_chars(b.question, bars::at_least_zero(usable - 6));
    let m = spans::message_printed(m, q, b.labels, false, env.paths@, accent);
    let d = out::drawn(m).row(line_done(m));
    let muted = Color::AnsiValue(theme::MUTED);
    let d = match b.response {
        Some(_) => {
            let total = b.wrapped.len() as int;
            let visible = table::smaller(total, max_lines);
            let from = table::smaller(b.scroll, total);
            let to = table::smaller(bars::capped(b.scroll + visible), total);
            let d = btw_rows(d, b.wrapped, from, to);
            let d = d.row(line_done(d.canvas));
            d.row(
                line_done(
                    d.canvas.push_fg(muted).print(btw_hint(b, max_lines, h)).pop_style(),
                ),
            )
        },
        None => d.row(
            line_done(
                d.canvas.push_fg(muted).print(
                    "   "@ + model::spinner_at(env.now_ms) + " thinking"@,
                ).pop_style(),
            ),
        ),
    };
    d.row(line_done(d.canvas))
}

fn rewrap_btw(
    assets: &Assets,
    btw: &mut BtwBlock,
    usable: usize,
    max_lines: usize,
    env: &Env,
)
    ensures
        final(btw)@ == btw_wrapped(old(btw)@, usable, max_lines as int, *env),
{
    assert(btw@.wrapped.len() == btw.wrapped@.len());
    match &btw.response {
        Some(t) => {
            if btw.wrapped.len() == 0 || btw.wrap_width != usable {
                let look = MdLook {
                    width: usable,
                    term_width: env.term_width,
                    indent: "   ",
                    dim: true,
                    boxed: None,
                    theme: env.theme,
                };
                let mut buf = RenderOut::buffer();
                let _ = render_markdown_inner(&mut buf, assets, t.as_str(), &look);
                let cmds = buf.into_commands();
                let ls = split_rendered(&cmds);
                let max: usize = ls.len().saturating_sub(max_lines);
                assert(command_lines(ls@).len() == ls@.len());
                btw.wrapped = ls;
                btw.wrap_width = usable;
                if btw.scroll_offset > max {
                    btw.scroll_offset = max;
                }
            }
        },
        None => {},
    }
}

/// Shows a side question with at most `max_content_lines` lines of the
/// answer; the result is the number of rows.
pub fn render_btw(
    out: &mut RenderOut,
    assets: &Assets,
    btw: &mut BtwBlock,
    usable: usize,
    max_content_lines: usize,
    h: &Hints,
    env: &Env,
) -> (r: u16)
    ensures
        ({
            let max_lines = tools::at_least_one(max_content_lines as int);
            let b = btw_wrapped(old(btw)@, usable, max_lines, *env);
            &&& final(btw)@ == b
            &&& (Drawn { canvas: final(out)@, rows: r }) == btw_drawn(
                old(out)@,
                b,
                usable as int,
                max_lines,
                *h,
                *env,
            )
        }),
{
    let max_lines: usize = if max_content_lines < 1 {
        1
    } else {
        max_content_lines
    };
    rewrap_btw(assets, btw, usable, max_lines, env);
    let ghost b = btw@;
    let accent = theme::accent(&env.theme);
    out.print(" ");
    out.push_fg(accent);
    out.print("/btw");
    out.pop_style();
    out.print(" ");
    let q = take_chars(btw.question.as_str(), usable.saturating_sub(6));
    print_user_highlights(out, q.as_str(), &btw.image_labels, false, &env.paths, accent);
    end_line(out);
    let mut rows: u16 = 1;
    if btw.response.is_some() {
        let ghost d1 = Drawn { canvas: out@, rows };
        let total: usize = btw.wrapped.len();
        assert(b.wrapped.len() == total);
        let visible: usize = if total < max_lines {
            total
        } else {
            max_lines
        };
        let from: usize = if btw.scroll_offset < total {
            btw.scroll_offset
        } else {
            total
        };
        let stop: usize = btw.scroll_offset.saturating_add(visible);
        let to: usize = if stop < total {
            stop
        } else {
            total
        };
        let mut i: usize = from;
        while i < to
            invariant
                b == btw@,
                total == btw.wrapped@.len(),
                from <= i <= to <= total,
                (Drawn { canvas: out@, rows }) == btw_rows(d1, b.wrapped, from as int, i as int),
            decreases to - i,
        {
            assert(b.wrapped[i as int] == out::commands_view(btw.wrapped@[i as int]@));
            out.append(&btw.wrapped[i]);
            end_line(out);
            rows = rows.saturating_add(1);
            i = i + 1;
        }
        end_line(out);
        rows = rows.saturating_add(1);
        out.push_fg(theme::muted());
        if total > max_lines {
            let end = number(to as u64);
            let all = number(total as u64);
            let head = cat("   [", end.as_str());
            let mid = cat3("/", all.as_str(), "]  ");
            let tail = cat(h.scroll.as_str(), "  esc: close");
            let nav = cat3(h.nav.as_str(), "  ", tail.as_str());
            let t = cat3(head.as_str(), mid.as_str(), nav.as_str());
            out.print(t.as_str());
        } else {
            out.print("   esc: close");
        }
        out.pop_style();
        end_line(out);
        rows = rows.saturating_add(1);
    } else {
        out.push_fg(theme::muted());
        let t = cat3("   ", spinner_frame(env.now_ms), " thinking");
        out.print(t.as_str());
        out.pop_style();
        end_line(out);
        rows = rows.saturating_add(1);
    }
    end_line(out);
    rows.saturating_add(1)
}

/// Where the answer is scrolled to by `delta` lines, when `max_lines` are
/// shown.
pub open spec fn scrolled(b: BtwView, delta: int, max_lines: int) -> int {
    let max = bars::at_least_zero(b.wrapped.len() - max_lines);
    if delta < 0 {
        bars::at_least_zero(b.scroll + delta)
    } else {
        table::smaller(bars::capped(b.scroll + delta), max)
    }
}

/// Lines of an answer that are shown on a terminal of `height` rows.
pub open spec fn btw_room(height: int) -> int {
    bars::at_least_zero(height / 2 - 4)
}

impl BtwBlock {
    pub fn new(question: String, image_labels: Vec<String>) -> (r: BtwBlock)
        ensures
            r@ == (BtwView {
                question: question@,
                labels: text::texts(image_labels@),
                response: None,
                wrapped: seq![],
                scroll: 0,
                width: 0,
            }),
    {
        let wrapped: Vec<Vec<Command<String>>> = Vec::new();
        assert(command_lines(wrapped@) =~= seq![]);
        BtwBlock {
            question,
            image_labels,
            response: None,
            wrapped,
            scroll_offset: 0,
            wrap_width: 0,
        }
    }

    /// Takes the answer, which is then rendered anew.
    pub fn answer(&mut self, content: String)
        ensures
            final(self)@ == (BtwView {
                response: Some(content@),
                wrapped: seq![],
                scroll: 0,
                width: 0,
                ..old(self)@
            }),
    {
        self.response = Some(content);
        self.wrapped = Vec::new();
        self.scroll_offset = 0;
        self.wrap_width = 0;
        assert(command_lines(self.wrapped@) =~= seq![]);
    }

    /// Scrolls the answer by `delta` lines; the result is whether it moved.
    pub fn scroll(&mut self, delta: isize, term_height: usize) -> (r: bool)
        ensures
            ({
                let to = if old(self)@.wrapped.len() == 0 {
                    old(self)@.scroll
                } else {
                    scrolled(
                        old(self)@,
                        delta as int,
                        tools::at_least_one(btw_room(term_height as int)),
                    )
                };
                &&& final(self)@ == (BtwView { scroll: to, ..old(self)@ })
                &&& r == (to != old(self)@.scroll)
            }),
    {
        assert(self@.wrapped.len() == self.wrapped@.len());
        if self.wrapped.len() == 0 {
            return false;
        }
        let room: usize = (term_height / 2).saturating_sub(4);
        let max_lines: usize = if room < 1 {
            1
        } else {
            room
        };
        let max: usize = self.wrapped.len().saturating_sub(max_lines);
        let before: usize = self.scroll_offset;
        if delta < 0 {
            let back: usize = if delta == isize::MIN {
                isize::MAX as usize + 1
            } else {
                (-delta) as usize
            };
            self.scroll_offset = before.saturating_sub(back);
        } else {
            let to: usize = before.saturating_add(delta as usize);
            self.scroll_offset = if to < max {
                to
            } else {
                max
            };
        }
        self.scroll_offset != before
    }
}

} // verus!
