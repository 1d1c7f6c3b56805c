//! The blocks of a conversation.

use vstd::prelude::*;

use crate::render::bars;
use crate::render::highlight;
use crate::render::highlight::{render_code_block, Assets};
use crate::render::markdown;
use crate::render::markdown::{render_markdown_inner, MdLook};
use crate::render::model;
use crate::render::model::{
    ActiveExec, AgentBlockStatus, AgentToolEntry, ApprovalScope, Block, ConfirmChoice,
};
use crate::render::out;
use crate::render::out::{crlf, Attribute, Canvas, Color, Command, Drawn, RenderOut};
use crate::render::spans;
use crate::render::spans::print_user_highlights;
use crate::render::styled;
use crate::render::styled::{is_heading, one_of, pluralize, print_dim, BoxContext, Env};
use crate::render::tools;
use crate::render::tools::{elapsed_suffix, render_tool, render_wrapped_output};
use crate::render::wrap;
use crate::render::wrap::wrap_line;
use crate::text;
use crate::text::{
    cat, cat3, char_count, chars_of, ends_with, expand_tabs, join, lines, repeat_char, slice_text,
    starts_with, trim, trim_end, truncate_str,
};
use crate::theme;
use crate::utils;
use crate::utils::format_duration;

verus! {

// ── Thinking ─────────────────────────────────────────────────────────────

/// One to three dots, by the time.
pub open spec fn dots_at(now_ms: u64) -> Seq<char> {
    let n = (now_ms % 1000) / 333 % 3;
    if n == 0 {
        "."@
    } else if n == 1 {
        ".."@
    } else {
        "..."@
    }
}

/// One to three dots, by the time.
pub fn animated_dots(now_ms: u64) -> (r: &'static str)
    ensures
        r@ == dots_at(now_ms),
{
    let n: u64 = (now_ms % 1000) / 333 % 3;
    if n == 0 {
        "."
    } else if n == 1 {
        ".."
    } else {
        "..."
    }
}

/// Whether a block holds thoughts.
pub open spec fn is_thinking(b: Block) -> bool {
    b is Thinking
}

/// The content of a block of thoughts.
pub open spec fn thought(b: Block) -> Seq<char> {
    match b {
        Block::Thinking { content } => content@,
        _ => seq![],
    }
}

/// The first of the blocks of thoughts that the first `n` blocks end with.
pub open spec fn thoughts_start(blocks: Seq<Block>, n: int) -> int
    decreases n,
{
    if n <= 0 || !is_thinking(blocks[n - 1]) {
        n
    } else {
        thoughts_start(blocks, n - 1)
    }
}

/// `acc` and `part` in lines of their own.
pub open spec fn on_new_line(acc: Seq<char>, part: Seq<char>) -> Seq<char> {
    if acc.len() > 0 {
        acc.push('\n') + part
    } else {
        acc + part
    }
}

/// The thoughts in `blocks[from..to]`.
pub open spec fn thoughts(blocks: Seq<Block>, from: int, to: int) -> Seq<char>
    decreases to - from,
{
    if from >= to {
        seq![]
    } else {
        on_new_line(thoughts(blocks, from, to - 1), thought(blocks[to - 1]))
    }
}

/// The thoughts that the blocks end with.
pub open spec fn trailing_thoughts(blocks: Seq<Block>) -> Seq<char> {
    let n = blocks.len() as int;
    thoughts(blocks, thoughts_start(blocks, n), n)
}

/// The thoughts that the blocks end with.
pub fn collect_trailing_thinking(blocks: &Vec<Block>) -> (r: String)
    ensures
        r@ == trailing_thoughts(blocks@),
{
    let total: usize = blocks.len();
    let mut start: usize = total;
    let mut more = true;
    while start > 0 && more
        invariant
            total == blocks@.len(),
            start <= total,
            thoughts_start(blocks@, total as int) == thoughts_start(blocks@, start as int),
            !more ==> thoughts_start(blocks@, start as int) == start,
        decreases
            start,
            if more {
                1int
            } else {
                0
            },
    {
        match &blocks[start - 1] {
            Block::Thinking { content: _ } => {
                start = start - 1;
            },
            _ => {
                more = false;
            },
        }
    }
    let mut r = String::new();
    let mut i: usize = start;
    assert(r@ =~= Seq::<char>::empty());
    while i < total
        invariant
            total == blocks@.len(),
            start <= i <= total,
            r@ == thoughts(blocks@, start as int, i as int),
        decreases total - i,
    {
        let ghost acc = r@;
        if char_count(r.as_str()) > 0 {
            r.push('\n');
        }
        match &blocks[i] {
            Block::Thinking { content } => {
                r.append(content.as_str());
            },
            _ => {},
        }
        assert(r@ =~= on_new_line(acc, thought(blocks@[i as int])));
        i = i + 1;
    }
    r
}

/// Whether a line is a title in bold type.
pub open spec fn bold_title(t: Seq<char>) -> bool {
    text::has_prefix(t, "**"@) && text::has_suffix(t, "**"@) && t.len() > 4
}

/// The title of thoughts, where their first line that is not blank is one,
/// and how many lines are not blank, in the first `n` lines.
pub open spec fn thought_lines(ls: Seq<Seq<char>>, n: int) -> (Option<Seq<char>>, int)
    decreases n,
{
    if n <= 0 {
        (None, 0)
    } else {
        let a = thought_lines(ls, n - 1);
        let t = text::trimmed(ls[n - 1]);
        if t.len() == 0 {
            a
        } else if a.1 == 0 && bold_title(t) {
            (Some(text::trimmed(t.subrange(2, t.len() - 2))), a.1 + 1)
        } else {
            (a.0, a.1 + 1)
        }
    }
}

/// The title of thoughts, `thinking` when they have none, and how many lines
/// are not blank.
pub open spec fn thought_summary(content: Seq<char>) -> (Seq<char>, int) {
    let ls = text::lines_of(content);
    let a = thought_lines(ls, ls.len() as int);
    (
        match a.0 {
            Some(l) => l,
            None => "thinking"@,
        },
        a.1,
    )
}

/// The title of thoughts, and how many lines are not blank.
pub fn thinking_summary(content: &str) -> (r: (String, usize))
    ensures
        (r.0@, r.1 as int) == thought_summary(content@),
{
    let ls = lines(content);
    let ghost ts = text::texts(ls@);
    let total: usize = ls.len();
    let mut label: Option<String> = None;
    let mut count: usize = 0;
    let mut i: usize = 0;
    proof {
        reveal_strlit("**");
    }
    while i < total
        invariant
            ts == text::texts(ls@),
            total == ls@.len(),
            "**"@.len() == 2,
            count <= i <= total,
            (model::opt_view(label), count as int) == thought_lines(ts, i as int),
        decreases total - i,
    {
        assert(ts[i as int] == ls@[i as int]@);
        let t = trim(ls[i].as_str());
        let n: usize = char_count(t.as_str());
        if n > 0 {
            if count == 0 && starts_with(t.as_str(), "**") && ends_with(t.as_str(), "**") && n > 4 {
                let c = chars_of(t.as_str());
                let inner = slice_text(&c, 2, n - 2);
                label = Some(trim(inner.as_str()));
            }
            count = count + 1;
        }
        i = i + 1;
    }
    assert(ts.len() == total);
    match label {
        Some(l) => (l, count),
        None => ("thinking".to_owned(), count),
    }
}

/// Rows with a bar before them, dim and italic: the first `n` of `segs`.
pub open spec fn barred_rows(d: Drawn, segs: Seq<Seq<char>>, n: int) -> Drawn
    decreases n,
{
    if n <= 0 {
        d
    } else {
        let d = barred_rows(d, segs, n - 1);
        d.row(
            d.canvas.set_dim_italic().print(" \u{2502} "@ + segs[n - 1]).reset_style().crlf(),
        )
    }
}

fn print_barred_rows(out: &mut RenderOut, segs: &Vec<String>) -> (r: u16)
    ensures
        (Drawn { canvas: final(out)@, rows: r }) == barred_rows(
            out::drawn(old(out)@),
            text::texts(segs@),
            segs@.len() as int,
        ),
{
    let ghost ss = text::texts(segs@);
    let ghost d0 = out::drawn(out@);
    let mut rows: u16 = 0;
    let mut i: usize = 0;
    while i < segs.len()
        invariant
            ss == text::texts(segs@),
            i <= segs@.len(),
            (Drawn { canvas: out@, rows }) == barred_rows(d0, ss, i as int),
        decreases segs@.len() - i,
    {
        assert(ss[i as int] == segs@[i as int]@);
        out.set_dim_italic();
        let t = cat(" \u{2502} ", segs[i].as_str());
        out.print(t.as_str());
        out.reset_style();
        crlf(out);
        rows = rows.saturating_add(1);
        i = i + 1;
    }
    rows
}

/// Columns for thoughts.
pub open spec fn thought_columns(width: int) -> int {
    tools::at_least_one(bars::at_least_zero(width - 4))
}

fn columns_for_thoughts(width: usize) -> (r: usize)
    ensures
        r == thought_columns(width as int),
{
    let w: usize = width.saturating_sub(4);
    if w < 1 {
        1
    } else {
        w
    }
}

/// Hidden thoughts: their title and how many lines there are.
pub open spec fn thinking_row(
    m: Canvas,
    width: int,
    label: Seq<char>,
    count: nat,
    dots: Seq<char>,
) -> Drawn {
    let t = label + " ("@ + (styled::counted(count, "line"@, "lines"@) + ")"@ + dots);
    let segs = wrap::wrapped(t, thought_columns(width));
    barred_rows(out::drawn(m), segs, segs.len() as int)
}

/// Shows hidden thoughts; `dots` follow while they go on.
pub fn render_thinking_summary(
    out: &mut RenderOut,
    width: usize,
    label: &str,
    line_count: usize,
    dots: &str,
) -> (r: u16)
    ensures
        (Drawn { canvas: final(out)@, rows: r }) == thinking_row(
            old(out)@,
            width as int,
            label@,
            line_count as nat,
            dots@,
        ),
{
    let c = pluralize(line_count, "line", "lines");
    let tail = cat3(c.as_str(), ")", dots);
    let t = cat3(label, " (", tail.as_str());
    let segs = wrap_line(t.as_str(), columns_for_thoughts(width));
    assert(text::texts(segs@).len() == segs@.len());
    print_barred_rows(out, &segs)
}

// ── Gaps ─────────────────────────────────────────────────────────────────

/// What stands above or below a gap.
pub enum Element<'a> {
    Block(&'a Block),
    ActiveTool,
    ActiveExec,
}

/// The last line of a text; empty when there is none.
pub open spec fn last_line(content: Seq<char>) -> Seq<char> {
    let ls = text::lines_of(content);
    if ls.len() > 0 {
        ls.last()
    } else {
        ""@
    }
}

/// Whether a text ends with a heading.
pub open spec fn ends_with_heading(content: Seq<char>) -> bool {
    styled::heading(last_line(content))
}

fn has_heading_last(content: &str) -> (r: bool)
    ensures
        r == ends_with_heading(content@),
{
    let ls = lines(content);
    let n: usize = ls.len();
    if n > 0 {
        assert(text::texts(ls@).last() == ls@[n - 1]@);
        is_heading(ls[n - 1].as_str())
    } else {
        assert(text::texts(ls@).len() == 0);
        is_heading("")
    }
}

/// What decides about gaps.
pub enum Kind {
    /// Stands apart from everything.
    Apart,
    Thinking,
    /// A text, and whether it ends with a heading.
    Text(bool),
    CodeLine,
    Tool,
    RunningTool,
    Confirm,
}

/// What decides about the gaps around a block.
pub open spec fn block_kind(b: Block) -> Kind {
    match b {
        Block::Thinking { content: _ } => Kind::Thinking,
        Block::Text { content } => Kind::Text(ends_with_heading(content@)),
        Block::CodeLine { content: _, lang: _ } => Kind::CodeLine,
        Block::ToolCall { .. } => Kind::Tool,
        Block::Confirm { .. } => Kind::Confirm,
        _ => Kind::Apart,
    }
}

/// What decides about the gaps around an element.
pub open spec fn kind_of(e: Element) -> Kind {
    match e {
        Element::ActiveTool => Kind::RunningTool,
        Element::ActiveExec => Kind::Apart,
        Element::Block(b) => block_kind(*b),
    }
}

/// Empty lines between two elements: none between lines of code, between
/// thoughts, behind a heading, and around a request that belongs to its tool;
/// one elsewhere.
pub open spec fn gap(above: Kind, below: Kind) -> u16 {
    match (above, below) {
        (Kind::CodeLine, Kind::CodeLine) => 0,
        (Kind::Thinking, Kind::Thinking) => 0,
        (Kind::Text(true), Kind::CodeLine) => 0,
        (Kind::Text(true), Kind::Text(_)) => 0,
        (Kind::Confirm, Kind::Text(_)) => 0,
        (Kind::Confirm, Kind::Tool) => 0,
        (Kind::Confirm, Kind::RunningTool) => 0,
        (Kind::Confirm, Kind::Confirm) => 0,
        (Kind::Text(_), Kind::Confirm) => 0,
        (Kind::Tool, Kind::Confirm) => 0,
        (Kind::RunningTool, Kind::Confirm) => 0,
        (Kind::RunningTool, Kind::Text(_)) => 0,
        (Kind::RunningTool, Kind::Tool) => 0,
        _ => 1,
    }
}

fn find_kind(e: &Element) -> (r: Kind)
    ensures
        r == kind_of(*e),
{
    match e {
        Element::ActiveTool => Kind::RunningTool,
        Element::ActiveExec => Kind::Apart,
        Element::Block(b) => match b {
            Block::Thinking { content: _ } => Kind::Thinking,
            Block::Text { content } => Kind::Text(has_heading_last(content.as_str())),
            Block::CodeLine { content: _, lang: _ } => Kind::CodeLine,
            Block::ToolCall { .. } => Kind::Tool,
            Block::Confirm { .. } => Kind::Confirm,
            _ => Kind::Apart,
        },
    }
}

/// Empty lines between two elements.
pub fn gap_between(above: &Element, below: &Element) -> (r: u16)
    ensures
        r == gap(kind_of(*above), kind_of(*below)),
        r <= 1,
{
    match (find_kind(above), find_kind(below)) {
        (Kind::CodeLine, Kind::CodeLine) => 0,
        (Kind::Thinking, Kind::Thinking) => 0,
        (Kind::Text(true), Kind::CodeLine) => 0,
        (Kind::Text(true), Kind::Text(_)) => 0,
        (Kind::Confirm, Kind::Text(_)) => 0,
        (Kind::Confirm, Kind::Tool) => 0,
        (Kind::Confirm, Kind::RunningTool) => 0,
        (Kind::Confirm, Kind::Confirm) => 0,
        (Kind::Text(_), Kind::Confirm) => 0,
        (Kind::Tool, Kind::Confirm) => 0,
        (Kind::RunningTool, Kind::Confirm) => 0,
        (Kind::RunningTool, Kind::Text(_)) => 0,
        (Kind::RunningTool, Kind::Tool) => 0,
        _ => 1,
    }
}

// ── Messages of the user ─────────────────────────────────────────────────

/// The first text at or behind `i` that is not empty.
pub open spec fn first_filled(ls: Seq<Seq<char>>, i: int) -> int
    decreases ls.len() - i,
{
    if i < 0 || i >= ls.len() {
        ls.len() as int
    } else if ls[i].len() > 0 {
        i
    } else {
        first_filled(ls, i + 1)
    }
}

/// The end of the last text before `n` that is not empty.
pub open spec fn filled_end(ls: Seq<Seq<char>>, n: int) -> int
    decreases n,
{
    if n <= 0 || ls[n - 1].len() > 0 {
        n
    } else {
        filled_end(ls, n - 1)
    }
}

/// The lines of a message: no tabs, no empty lines at either end, and no
/// white space behind a line.
pub open spec fn message_lines(t: Seq<char>) -> Seq<Seq<char>> {
    let ls = highlight::untabbed_lines(text::lines_of(t));
    let from = first_filled(ls, 0);
    let to = filled_end(ls, ls.len() as int);
    if from >= to {
        seq![]
    } else {
        Seq::new((to - from) as nat, |i: int| text::trim_back(ls[from + i]))
    }
}

/// The longest of the first `n` lines.
pub open spec fn longest_line(ls: Seq<Seq<char>>, n: int) -> int
    decreases n,
{
    if n <= 0 {
        0
    } else {
        let a = longest_line(ls, n - 1);
        if ls[n - 1].len() > a {
            ls[n - 1].len() as int
        } else {
            a
        }
    }
}

/// Columns that all rows of a message are filled up to; zero for a message of
/// one row, which has its own width.  `full` is the width when a line has to
/// be wrapped.
pub open spec fn message_width(ls: Seq<Seq<char>>, text_w: int, full: int) -> int {
    let most = longest_line(ls, ls.len() as int);
    if most > text_w {
        full
    } else if ls.len() > 1 {
        bars::capped(most + 1)
    } else {
        0
    }
}

/// Spaces behind `len` characters of a message.
pub open spec fn message_pad(block_w: int, len: int) -> int {
    if block_w > 0 {
        bars::at_least_zero(block_w - len)
    } else {
        1
    }
}

/// Spaces that stand for an empty line of a message.
pub open spec fn message_blank(block_w: int) -> int {
    if block_w > 0 {
        bars::capped(block_w + 1)
    } else {
        2
    }
}

/// How the rows of a message are shown.
pub struct MessageLook {
    pub text_w: int,
    pub block_w: int,
    pub bg: Color,
    pub accent: Color,
    pub is_command: bool,
}

/// The first `n` rows of one line of a message.
pub open spec fn message_rows(
    d: Drawn,
    chunks: Seq<Seq<char>>,
    n: int,
    look: MessageLook,
    labels: Seq<Seq<char>>,
    paths: Seq<String>,
) -> Drawn
    decreases n,
{
    if n <= 0 {
        d
    } else {
        let d = message_rows(d, chunks, n - 1, look, labels, paths);
        let m = d.canvas.set_bg(look.bg).set_bold().print(" "@);
        let m = spans::message_printed(
            m,
            chunks[n - 1],
            labels,
            look.is_command,
            paths,
            look.accent,
        );
        let pad = message_pad(look.block_w, chunks[n - 1].len() as int);
        d.row(m.print(text::fill(' ', pad as nat)).reset_style().crlf())
    }
}

/// The first `n` lines of a message.
pub open spec fn message_shown(
    d: Drawn,
    ls: Seq<Seq<char>>,
    n: int,
    look: MessageLook,
    labels: Seq<Seq<char>>,
    paths: Seq<String>,
) -> Drawn
    decreases n,
{
    if n <= 0 {
        d
    } else {
        let d = message_shown(d, ls, n - 1, look, labels, paths);
        if ls[n - 1].len() == 0 {
            d.row(
                d.canvas.set_bg(look.bg).print(
                    text::fill(' ', message_blank(look.block_w) as nat),
                ).reset_style().crlf(),
            )
        } else {
            let chunks = wrap::wrapped(ls[n - 1], look.text_w);
            message_rows(d, chunks, chunks.len() as int, look, labels, paths)
        }
    }
}

/// A message of the user on a background of its own.
pub open spec fn user_message(
    m: Canvas,
    t: Seq<char>,
    labels: Seq<Seq<char>>,
    width: int,
    env: Env,
) -> Drawn {
    let ls = message_lines(t);
    let text_w = tools::at_least_one(bars::at_least_zero(width - 2));
    let look = MessageLook {
        text_w,
        block_w: message_width(ls, text_w, bars::capped(text_w + 1)),
        bg: env.theme.user_bg_color(),
        accent: env.theme.accent_color(),
        is_command: styled::is_one_of(env.commands@, text::trimmed(t)),
    };
    message_shown(out::drawn(m), ls, ls.len() as int, look, labels, env.paths@)
}

pub(crate) fn split_message(t: &str) -> (r: Vec<String>)
    ensures
        text::texts(r@) == message_lines(t@),
{
    let raw = lines(t);
    let ghost rt = text::texts(raw@);
    let ghost us = highlight::untabbed_lines(rt);
    let total: usize = raw.len();
    let mut ls: Vec<String> = Vec::new();
    let mut i: usize = 0;
    while i < total
        invariant
            rt == text::texts(raw@),
            us == highlight::untabbed_lines(rt),
            total == raw@.len(),
            i <= total,
            ls@.len() == i,
            forall|j: int| 0 <= j < i ==> (#[trigger] ls@[j])@ == us[j],
        decreases total - i,
    {
        assert(rt[i as int] == raw@[i as int]@);
        ls.push(expand_tabs(raw[i].as_str()));
        i = i + 1;
    }
    assert(us.len() == total);
    let mut from: usize = 0;
    while from < total && char_count(ls[from].as_str()) == 0
        invariant
            total == us.len(),
            ls@.len() == total,
            forall|j: int| 0 <= j < total ==> (#[trigger] ls@[j])@ == us[j],
            from <= total,
            first_filled(us, 0) == first_filled(us, from as int),
        decreases total - from,
    {
        assert(ls@[from as int]@ == us[from as int]);
        from = from + 1;
    }
    assert(from < total ==> ls@[from as int]@ == us[from as int]);
    let mut to: usize = total;
    while to > 0 && char_count(ls[to - 1].as_str()) == 0
        invariant
            total == us.len(),
            ls@.len() == total,
            forall|j: int| 0 <= j < total ==> (#[trigger] ls@[j])@ == us[j],
            to <= total,
            filled_end(us, total as int) == filled_end(us, to as int),
        decreases to,
    {
        assert(ls@[to - 1]@ == us[to - 1]);
        to = to - 1;
    }
    assert(to > 0 ==> ls@[to - 1]@ == us[to - 1]);
    let mut r: Vec<String> = Vec::new();
    let mut i: usize = from;
    while i < to
        invariant
            total == us.len(),
            ls@.len() == total,
            forall|j: int| 0 <= j < total ==> (#[trigger] ls@[j])@ == us[j],
            from <= i,
            to <= total,
            i <= to || r@.len() == 0,
            r@.len() == i - from,
            forall|j: int|
                0 <= j < r@.len() ==> (#[trigger] r@[j])@ == text::trim_back(us[from + j]),
        decreases to - i,
    {
        assert(ls@[i as int]@ == us[i as int]);
        r.push(trim_end(ls[i].as_str()));
        i = i + 1;
    }
    assert(text::texts(r@) =~= message_lines(t@));
    r
}

fn longest_of(ls: &Vec<String>) -> (r: usize)
    ensures
        r == longest_line(text::texts(ls@), ls@.len() as int),
{
    let ghost ts = text::texts(ls@);
    let mut most: usize = 0;
    let mut i: usize = 0;
    while i < ls.len()
        invariant
            ts == text::texts(ls@),
            i <= ls@.len(),
            most == longest_line(ts, i as int),
        decreases ls@.len() - i,
    {
        assert(ts[i as int] == ls@[i as int]@);
        let n: usize = char_count(ls[i].as_str());
        if n > most {
            most = n;
        }
        i = i + 1;
    }
    most
}

/// Columns that all rows of a message are filled up to.
pub fn block_width(ls: &Vec<String>, text_w: usize, full: usize) -> (r: usize)
    ensures
        r == message_width(text::texts(ls@), text_w as int, full as int),
{
    let most: usize = longest_of(ls);
    assert(text::texts(ls@).len() == ls@.len());
    if most > text_w {
        full
    } else if ls.len() > 1 {
        most.saturating_add(1)
    } else {
        0
    }
}

fn render_user_message(
    out: &mut RenderOut,
    t: &str,
    labels: &Vec<String>,
    width: usize,
    env: &Env,
) -> (r: u16)
    ensures
        (Drawn { canvas: final(out)@, rows: r }) == user_message(
            old(out)@,
            t@,
            text::texts(labels@),
            width as int,
            *env,
        ),
{
    let bare = trim(t);
    let is_command = one_of(&env.commands, bare.as_str());
    let w: usize = width.saturating_sub(2);
    let text_w: usize = if w < 1 {
        1
    } else {
        w
    };
    let ls = split_message(t);
    let ghost ts = text::texts(ls@);
    let block_w: usize = block_width(&ls, text_w, text_w.saturating_add(1));
    let bg = theme::user_bg(&env.theme);
    let accent = theme::accent(&env.theme);
    let ghost look = MessageLook {
        text_w: text_w as int,
        block_w: block_w as int,
        bg,
        accent,
        is_command,
    };
    let ghost lv = text::texts(labels@);
    let ghost d0 = out::drawn(out@);
    let mut rows: u16 = 0;
    let mut i: usize = 0;
    while i < ls.len()
        invariant
            ts == text::texts(ls@),
            lv == text::texts(labels@),
            i <= ls@.len(),
            look == (MessageLook {
                text_w: text_w as int,
                block_w: block_w as int,
                bg,
                accent,
                is_command,
            }),
            (Drawn { canvas: out@, rows }) == message_shown(
                d0,
                ts,
                i as int,
                look,
                lv,
                env.paths@,
            ),
        decreases ls@.len() - i,
    {
        assert(ts[i as int] == ls@[i as int]@);
        if char_count(ls[i].as_str()) == 0 {
            let fill: usize = if block_w > 0 {
                block_w.saturating_add(1)
            } else {
                2
            };
            out.set_bg(bg);
            let spaces = repeat_char(' ', fill);
            out.print(spaces.as_str());
            out.reset_style();
            crlf(out);
            rows = rows.saturating_add(1);
        } else {
            let ghost d1 = Drawn { canvas: out@, rows };
            let chunks = wrap_line(ls[i].as_str(), text_w);
            let ghost cs = text::texts(chunks@);
            let mut k: usize = 0;
            while k < chunks.len()
                invariant
                    cs == text::texts(chunks@),
                    lv == text::texts(labels@),
                    k <= chunks@.len(),
                    look == (MessageLook {
                        text_w: text_w as int,
                        block_w: block_w as int,
                        bg,
                        accent,
                        is_command,
                    }),
                    (Drawn { canvas: out@, rows }) == message_rows(
                        d1,
                        cs,
                        k as int,
                        look,
                        lv,
                        env.paths@,
                    ),
                decreases chunks@.len() - k,
            {
                assert(cs[k as int] == chunks@[k as int]@);
                let len: usize = char_count(chunks[k].as_str());
                let trailing: usize = if block_w > 0 {
                    block_w.saturating_sub(len)
                } else {
                    1
                };
                out.set_bg(bg);
                out.set_bold();
                out.print(" ");
                print_user_highlights(
                    out,
                    chunks[k].as_str(),
                    labels,
                    is_command,
                    &env.paths,
                    accent,
                );
                let spaces = repeat_char(' ', trailing);
                out.print(spaces.as_str());
                out.reset_style();
                crlf(out);
                rows = rows.saturating_add(1);
                k = k + 1;
            }
            assert(cs.len() == chunks@.len());
        }
        i = i + 1;
    }
    assert(ts.len() == ls@.len());
    rows
}

// ── Other blocks ─────────────────────────────────────────────────────────

/// Thoughts, or their summary when they are hidden.
pub open spec fn thinking_block(m: Canvas, content: Seq<char>, width: int, show: bool) -> Drawn {
    if show {
        let ls = text::lines_of(content);
        let segs = tools::wrapped_all(ls, ls.len() as int, thought_columns(width));
        barred_rows(out::drawn(m), segs, segs.len() as int)
    } else {
        let s = thought_summary(content);
        thinking_row(m, width, s.0, s.1 as nat, ""@)
    }
}

fn render_thinking_block(out: &mut RenderOut, content: &str, width: usize, show: bool) -> (r: u16)
    ensures
        (Drawn { canvas: final(out)@, rows: r }) == thinking_block(
            old(out)@,
            content@,
            width as int,
            show,
        ),
{
    if show {
        let ls = lines(content);
        assert(text::texts(ls@).len() == ls@.len());
        let segs = tools::wrap_all(&ls, columns_for_thoughts(width));
        assert(text::texts(segs@).len() == segs@.len());
        print_barred_rows(out, &segs)
    } else {
        let (label, n) = thinking_summary(content);
        render_thinking_summary(out, width, label.as_str(), n, "")
    }
}

/// The first `n` rows of a request's description.
pub open spec fn request_rows(m: Canvas, segs: Seq<Seq<char>>, n: int) -> Canvas
    decreases n,
{
    if n <= 0 {
        m
    } else {
        let m = request_rows(m, segs, n - 1);
        let m = if n == 1 {
            styled::dim_text(m, "   \u{2502} "@)
        } else {
            m.print("     "@)
        };
        m.print(segs[n - 1]).crlf()
    }
}

/// How a scope is named behind a choice that stands.
pub open spec fn scope_suffix(scope: ApprovalScope, named: Seq<char>) -> Seq<char> {
    if scope == ApprovalScope::Workspace {
        named
    } else {
        ""@
    }
}

/// What was chosen.
pub open spec fn choice_shown(m: Canvas, c: ConfirmChoice) -> Canvas {
    match c {
        ConfirmChoice::Yes => styled::dim_text(m, "approved"@),
        ConfirmChoice::YesAutoApply => styled::dim_text(m, "approved"@),
        ConfirmChoice::Always(scope) => styled::dim_text(
            m,
            "always"@ + scope_suffix(scope, " (workspace)"@),
        ),
        ConfirmChoice::AlwaysPatterns(pats, scope) => styled::dim_text(
            m,
            "always"@ + scope_suffix(scope, " workspace"@) + (" ("@ + text::join_texts(
                text::texts(pats@),
                ", "@,
            ) + ")"@),
        ),
        ConfirmChoice::AlwaysDir(dir, scope) => styled::dim_text(
            m,
            "always"@ + scope_suffix(scope, " workspace"@) + (" (dir: "@ + dir@ + ")"@),
        ),
        ConfirmChoice::No => tools::error_text(m, "denied"@),
    }
}

/// A request for permission, and what was chosen.
pub open spec fn confirm_block(
    m: Canvas,
    tool: Seq<char>,
    desc: Seq<char>,
    choice: Option<ConfirmChoice>,
    width: int,
) -> Drawn {
    let m = m.queue(Command::SetForegroundColor(Color::AnsiValue(theme::APPLY))).print(
        "   allow? "@,
    ).queue(Command::ResetColor);
    let m = styled::dim_text(m, tool).crlf();
    let segs = wrap::wrapped(desc, bars::at_least_zero(width - 5));
    let m = request_rows(m, segs, segs.len() as int);
    let rows = out::rows_plus(2, bars::at_least_zero(segs.len() - 1) as u16);
    match choice {
        Some(c) => Drawn {
            canvas: choice_shown(m.print("   "@), c).crlf(),
            rows: out::rows_plus(rows, 1),
        },
        None => Drawn { canvas: m, rows },
    }
}

fn print_choice(out: &mut RenderOut, c: &ConfirmChoice)
    ensures
        final(out)@ == choice_shown(old(out)@, *c),
{
    match c {
        ConfirmChoice::Yes => {
            print_dim(out, "approved");
        },
        ConfirmChoice::YesAutoApply => {
            print_dim(out, "approved");
        },
        ConfirmChoice::Always(scope) => {
            let t = if *scope == ApprovalScope::Workspace {
                cat("always", " (workspace)")
            } else {
                cat("always", "")
            };
            print_dim(out, t.as_str());
        },
        ConfirmChoice::AlwaysPatterns(pats, scope) => {
            let head = if *scope == ApprovalScope::Workspace {
                cat("always", " workspace")
            } else {
                cat("always", "")
            };
            let p = join(pats, ", ");
            let tail = cat3(" (", p.as_str(), ")");
            let t = cat(head.as_str(), tail.as_str());
            print_dim(out, t.as_str());
        },
        ConfirmChoice::AlwaysDir(dir, scope) => {
            let head = if *scope == ApprovalScope::Workspace {
                cat("always", " workspace")
            } else {
                cat("always", "")
            };
            let tail = cat3(" (dir: ", dir.as_str(), ")");
            let t = cat(head.as_str(), tail.as_str());
            print_dim(out, t.as_str());
        },
        ConfirmChoice::No => {
            out.queue(Command::SetForegroundColor(theme::ERROR));
            out.print("denied");
            out.queue(Command::ResetColor);
        },
    }
}

fn render_confirm_result(
    out: &mut RenderOut,
    tool: &str,
    desc: &str,
    choice: &Option<ConfirmChoice>,
    width: usize,
) -> (r: u16)
    ensures
        (Drawn { canvas: final(out)@, rows: r }) == confirm_block(
            old(out)@,
            tool@,
            desc@,
            *choice,
            width as int,
        ),
{
    out.queue(Command::SetForegroundColor(Color::AnsiValue(theme::APPLY)));
    out.print("   allow? ");
    out.queue(Command::ResetColor);
    print_dim(out, tool);
    crlf(out);
    let segs = wrap_line(desc, width.saturating_sub(5));
    let ghost ss = text::texts(segs@);
    let ghost m0 = out@;
    let mut i: usize = 0;
    while i < segs.len()
        invariant
            ss == text::texts(segs@),
            i <= segs@.len(),
            out@ == request_rows(m0, ss, i as int),
        decreases segs@.len() - i,
    {
        assert(ss[i as int] == segs@[i as int]@);
        if i == 0 {
            print_dim(out, "   \u{2502} ");
        } else {
            out.print("     ");
        }
        out.print(segs[i].as_str());
        crlf(out);
        i = i + 1;
    }
    assert(ss.len() == segs@.len());
    let n: usize = segs.len().saturating_sub(1);
    #[verifier::truncate]
    let more: u16 = n as u16;
    let mut rows: u16 = 2u16.saturating_add(more);
    match choice {
        Some(c) => {
            rows = rows.saturating_add(1);
            out.print("   ");
            print_choice(out, c);
            crlf(out);
        },
        None => {},
    }
    rows
}

/// Characters before the summary of an agent's tool call, and a margin.
pub open spec fn entry_columns(e: AgentToolEntry, width: int) -> int {
    let time = tools::time_suffix(e.elapsed_ms);
    bars::at_least_zero(
        width - bars::capped(
            bars::capped(text::byte_len(e.tool_name@) + 6) + text::byte_len(time),
        ),
    )
}

/// A tool call of an agent.
pub open spec fn agent_entry(m: Canvas, e: AgentToolEntry, width: int) -> Canvas {
    let time = tools::time_suffix(e.elapsed_ms);
    let m = m.queue(Command::SetForegroundColor(Color::AnsiValue(theme::AGENT))).print(
        " \u{2502} "@,
    ).queue(Command::ResetColor).queue(Command::SetAttribute(Attribute::Dim)).print(
        e.tool_name@,
    ).queue(Command::SetAttribute(Attribute::NormalIntensity)).print(
        " "@ + text::clipped(e.summary@, entry_columns(e, width)),
    );
    let m = if time.len() > 0 {
        m.queue(Command::SetAttribute(Attribute::Dim)).print(time).queue(
            Command::SetAttribute(Attribute::NormalIntensity),
        )
    } else {
        m
    };
    m.crlf()
}

/// The tool calls of an agent from `from` up to `to`.
pub open spec fn agent_entries(
    d: Drawn,
    es: Seq<AgentToolEntry>,
    from: int,
    to: int,
    width: int,
) -> Drawn
    decreases to - from,
{
    if from >= to {
        d
    } else {
        let d = agent_entries(d, es, from, to - 1, width);
        d.row(agent_entry(d.canvas, es[to - 1], width))
    }
}

/// Ends all attributes and colours, and the line.
pub open spec fn plain_end(m: Canvas) -> Canvas {
    m.queue(Command::SetAttribute(Attribute::Reset)).queue(Command::ResetColor).crlf()
}

/// An agent: its name, and, where its parent waits for it, its task, how it
/// ended, how long it took, and its last three tool calls.
pub open spec fn agent_block(
    m: Canvas,
    agent_id: Seq<char>,
    slug: Option<Seq<char>>,
    blocking: bool,
    calls: Seq<AgentToolEntry>,
    status: AgentBlockStatus,
    elapsed: Option<u64>,
    width: int,
) -> Drawn {
    let muted = Command::SetForegroundColor(Color::AnsiValue(theme::MUTED));
    let agent = Command::SetForegroundColor(Color::AnsiValue(theme::AGENT));
    let m = m.queue(agent).queue(Command::SetAttribute(Attribute::Bold)).print(
        " + "@ + agent_id,
    ).queue(Command::SetAttribute(Attribute::NormalIntensity));
    if !blocking {
        out::drawn(m).row(plain_end(m.queue(muted).print(" started"@)))
    } else {
        let m = match slug {
            Some(s) => m.queue(Command::SetAttribute(Attribute::Dim)).print(
                " \u{00b7} "@ + s,
            ).queue(Command::SetAttribute(Attribute::NormalIntensity)),
            None => m,
        };
        let m = match status {
            AgentBlockStatus::Done => m.queue(
                Command::SetForegroundColor(Color::AnsiValue(theme::SUCCESS)),
            ).print(" \u{2713}"@),
            AgentBlockStatus::Error => m.queue(Command::SetForegroundColor(theme::ERROR)).print(
                " \u{2717}"@,
            ),
            AgentBlockStatus::Running => m,
        };
        let time = tools::time_suffix(elapsed);
        let m = if time.len() > 0 {
            m.queue(Command::SetAttribute(Attribute::Dim)).queue(muted).print(time).queue(
                Command::SetAttribute(Attribute::NormalIntensity),
            )
        } else {
            m
        };
        let d = out::drawn(m).row(plain_end(m));
        let n = calls.len() as int;
        let d = agent_entries(d, calls, bars::at_least_zero(n - 3), n, width);
        d.row(
            d.canvas.queue(agent).print(
                " \u{2570}"@ + text::fill('\u{2500}', bars::at_least_zero(width - 2) as nat),
            ).queue(Command::ResetColor).crlf(),
        )
    }
}

fn print_agent_entry(out: &mut RenderOut, e: &AgentToolEntry, width: usize)
    ensures
        final(out)@ == agent_entry(old(out)@, *e, width as int),
{
    out.queue(Command::SetForegroundColor(Color::AnsiValue(theme::AGENT)));
    out.print(" \u{2502} ");
    out.queue(Command::ResetColor);
    out.queue(Command::SetAttribute(Attribute::Dim));
    out.print(e.tool_name.as_str());
    out.queue(Command::SetAttribute(Attribute::NormalIntensity));
    let time = elapsed_suffix(e.elapsed_ms);
    let max: usize = width.saturating_sub(
        e.tool_name.as_str().len().saturating_add(6).saturating_add(time.as_str().len()),
    );
    let s = truncate_str(e.summary.as_str(), max);
    let t = cat(" ", s.as_str());
    out.print(t.as_str());
    if char_count(time.as_str()) > 0 {
        out.queue(Command::SetAttribute(Attribute::Dim));
        out.print(time.as_str());
        out.queue(Command::SetAttribute(Attribute::NormalIntensity));
    }
    crlf(out);
}

/// Shows an agent; the result is the number of rows.
pub fn render_agent_block(
    out: &mut RenderOut,
    agent_id: &str,
    slug: &Option<String>,
    blocking: bool,
    tool_calls: &Vec<AgentToolEntry>,
    status: AgentBlockStatus,
    elapsed: Option<u64>,
    width: usize,
) -> (r: u16)
    ensures
        (Drawn { canvas: final(out)@, rows: r }) == agent_block(
            old(out)@,
            agent_id@,
            model::opt_view(*slug),
            blocking,
            tool_calls@,
            status,
            elapsed,
            width as int,
        ),
{
    out.queue(Command::SetForegroundColor(Color::AnsiValue(theme::AGENT)));
    out.queue(Command::SetAttribute(Attribute::Bold));
    let head = cat(" + ", agent_id);
    out.print(head.as_str());
    out.queue(Command::SetAttribute(Attribute::NormalIntensity));
    if !blocking {
        out.queue(Command::SetForegroundColor(theme::muted()));
        out.print(" started");
        out.queue(Command::SetAttribute(Attribute::Reset));
        out.queue(Command::ResetColor);
        crlf(out);
        return 1;
    }
    match slug {
        Some(s) => {
            out.queue(Command::SetAttribute(Attribute::Dim));
            let t = cat(" \u{00b7} ", s.as_str());
            out.print(t.as_str());
            out.queue(Command::SetAttribute(Attribute::NormalIntensity));
        },
        None => {},
    }
    match status {
        AgentBlockStatus::Done => {
            out.queue(Command::SetForegroundColor(Color::AnsiValue(theme::SUCCESS)));
            out.print(" \u{2713}");
        },
        AgentBlockStatus::Error => {
            out.queue(Command::SetForegroundColor(theme::ERROR));
            out.print(" \u{2717}");
        },
        AgentBlockStatus::Running => {},
    }
    let time = elapsed_suffix(elapsed);
    if char_count(time.as_str()) > 0 {
        out.queue(Command::SetAttribute(Attribute::Dim));
        out.queue(Command::SetForegroundColor(theme::muted()));
        out.print(time.as_str());
        out.queue(Command::SetAttribute(Attribute::NormalIntensity));
    }
    out.queue(Command::SetAttribute(Attribute::Reset));
    out.queue(Command::ResetColor);
    crlf(out);
    let mut rows: u16 = 1;
    let ghost d1 = Drawn { canvas: out@, rows };
    let total: usize = tool_calls.len();
    let from: usize = total.saturating_sub(3);
    let mut i: usize = from;
    while i < total
        invariant
            total == tool_calls@.len(),
            from <= i <= total,
            (Drawn { canvas: out@, rows }) == agent_entries(
                d1,
                tool_calls@,
                from as int,
                i as int,
                width as int,
            ),
        decreases total - i,
    {
        print_agent_entry(out, &tool_calls[i], width);
        rows = rows.saturating_add(1);
        i = i + 1;
    }
    out.queue(Command::SetForegroundColor(Color::AnsiValue(theme::AGENT)));
    let strokes = repeat_char('\u{2500}', width.saturating_sub(2));
    let t = cat(" \u{2570}", strokes.as_str());
    out.print(t.as_str());
    out.queue(Command::ResetColor);
    crlf(out);
    rows.saturating_add(1)
}

/// The line of a command: the command on a background of its own, without
/// the line end.
pub open spec fn command_line(m: Canvas, command: Seq<char>, width: int, bg: Color) -> Canvas {
    let len = bars::capped(command.len() as int + 1);
    let pad_width = if bars::capped(len + 2) < width {
        bars::capped(len + 2)
    } else {
        width
    };
    let trailing = bars::at_least_zero(pad_width - bars::capped(len + 1));
    m.queue(Command::SetBackgroundColor(bg)).queue(
        Command::SetForegroundColor(Color::AnsiValue(theme::EXEC)),
    ).queue(Command::SetAttribute(Attribute::Bold)).print(" !"@).queue(
        Command::SetForegroundColor(Color::Reset),
    ).print(command + text::fill(' ', trailing as nat)).queue(
        Command::SetAttribute(Attribute::Reset),
    ).queue(Command::ResetColor)
}

fn print_command_line(out: &mut RenderOut, command: &str, width: usize, bg: Color)
    ensures
        final(out)@ == command_line(old(out)@, command@, width as int, bg),
{
    let len: usize = char_count(command).saturating_add(1);
    let full: usize = len.saturating_add(2);
    let pad_width: usize = if full < width {
        full
    } else {
        width
    };
    let trailing: usize = pad_width.saturating_sub(len.saturating_add(1));
    out.queue(Command::SetBackgroundColor(bg));
    out.queue(Command::SetForegroundColor(Color::AnsiValue(theme::EXEC)));
    out.queue(Command::SetAttribute(Attribute::Bold));
    out.print(" !");
    out.queue(Command::SetForegroundColor(Color::Reset));
    let spaces = repeat_char(' ', trailing);
    let t = cat(command, spaces.as_str());
    out.print(t.as_str());
    out.queue(Command::SetAttribute(Attribute::Reset));
    out.queue(Command::ResetColor);
}

/// Output below a command's line, if there is any.
pub open spec fn output_below(d: Drawn, output: Seq<char>, width: int) -> Drawn {
    if output.len() > 0 {
        let e = tools::wrapped_output(d.canvas, output, false, width);
        d.rows(e.canvas, e.rows)
    } else {
        d
    }
}

/// A command that has run.
pub open spec fn exec_block(
    m: Canvas,
    command: Seq<char>,
    output: Seq<char>,
    width: int,
    bg: Color,
) -> Drawn {
    let d = out::drawn(m).row(command_line(m, command, width, bg).crlf());
    output_below(d, output, width)
}

/// A command that runs, and for how long.
pub open spec fn active_exec_drawn(m: Canvas, e: ActiveExec, width: int, env: Env) -> Drawn {
    let secs = model::since(env.now_ms, e.start_ms) / 1000;
    let m = command_line(m, e.command@, width, env.theme.user_bg_color());
    let d = out::drawn(m).row(
        styled::dim_text(m, " "@ + utils::duration_text(secs as nat)).crlf(),
    );
    output_below(d, e.output@, width)
}

/// Shows a command that runs; the result is the number of rows.
pub fn render_active_exec(
    out: &mut RenderOut,
    exec: &ActiveExec,
    width: usize,
    env: &Env,
) -> (r: u16)
    ensures
        (Drawn { canvas: final(out)@, rows: r }) == active_exec_drawn(
            old(out)@,
            *exec,
            width as int,
            *env,
        ),
{
    print_command_line(out, exec.command.as_str(), width, theme::user_bg(&env.theme));
    let secs: u64 = env.now_ms.saturating_sub(exec.start_ms) / 1000;
    let d = format_duration(secs);
    let t = cat(" ", d.as_str());
    print_dim(out, t.as_str());
    crlf(out);
    let rows: u16 = 1;
    if char_count(exec.output.as_str()) > 0 {
        let n: u16 = render_wrapped_output(out, exec.output.as_str(), false, width);
        rows.saturating_add(n)
    } else {
        rows
    }
}

/// How markdown in blocks looks.
pub open spec fn block_look(width: usize, dim: bool, env: Env) -> MdLook {
    MdLook {
        width,
        term_width: env.term_width,
        indent: " ",
        dim,
        boxed: None,
        theme: env.theme,
    }
}

/// How messages of agents look.
pub open spec fn agent_look(width: usize, env: Env) -> MdLook {
    MdLook {
        width,
        term_width: env.term_width,
        indent: " \u{2502} ",
        dim: true,
        boxed: Some(
            BoxContext {
                left: " \u{2502} ",
                right: "",
                color: Color::AnsiValue(theme::AGENT),
                inner_w: bars::at_least_zero(width - 4) as usize,
            },
        ),
        theme: env.theme,
    }
}

/// A hint in dim italics.
pub open spec fn hint_block(m: Canvas, content: Seq<char>) -> Drawn {
    out::drawn(m).row(
        m.queue(Command::SetAttribute(Attribute::Dim)).queue(
            Command::SetAttribute(Attribute::Italic),
        ).print(content).queue(Command::SetAttribute(Attribute::Reset)).crlf(),
    )
}

/// A line that says that the conversation was compacted, and the summary.
pub open spec fn compacted_block(m: Canvas, summary: Seq<char>, width: usize, env: Env) -> Drawn {
    let remaining = bars::at_least_zero(width - 11);
    let left = remaining / 2;
    let m = m.queue(Command::SetAttribute(Attribute::Dim)).print(
        text::fill('\u{2500}', left as nat),
    ).print(" compacted "@).print(text::fill('\u{2500}', (remaining - left) as nat)).queue(
        Command::SetAttribute(Attribute::Reset),
    ).crlf();
    let md = markdown::markdown(m, summary, block_look(width, true, env));
    Drawn { canvas: md.0, rows: out::rows_plus(1, md.1) }
}

/// A message of another agent.
pub open spec fn agent_message_block(
    m: Canvas,
    from_id: Seq<char>,
    content: Seq<char>,
    width: usize,
    env: Env,
) -> Drawn {
    let m = plain_end(
        m.queue(Command::SetForegroundColor(Color::AnsiValue(theme::AGENT))).queue(
            Command::SetAttribute(Attribute::Bold),
        ).print(" \u{279c} "@ + from_id),
    );
    let md = markdown::markdown(m, content, agent_look(width, env));
    Drawn { canvas: md.0, rows: out::rows_plus(1, md.1) }
}

/// A block, each kind in its own way.
#[verifier::opaque]
pub open spec fn block_drawn(m: Canvas, b: Block, width: usize, show_thinking: bool, env: Env) -> Drawn {
    match b {
        Block::User { text: t, image_labels } => user_message(
            m,
            t@,
            text::texts(image_labels@),
            width as int,
            env,
        ),
        Block::Thinking { content } => thinking_block(m, content@, width as int, show_thinking),
        Block::Text { content } => {
            let md = markdown::markdown(m, content@, block_look(width, false, env));
            Drawn { canvas: md.0, rows: md.1 }
        },
        Block::CodeLine { content, lang } => {
            let c = highlight::code_block(
                m,
                seq![content@],
                lang@,
                width as int,
                false,
                highlight::code_look(env.theme, None),
            );
            Drawn { canvas: c.0, rows: c.1 }
        },
        Block::ToolCall {
            call_id: _,
            name,
            summary,
            args,
            status,
            elapsed,
            output,
            user_message,
        } => tools::tool_drawn(
            m,
            name@,
            summary@,
            args@,
            status,
            elapsed,
            output,
            model::opt_view(user_message),
            width,
            env,
        ),
        Block::Confirm { tool, desc, choice } => confirm_block(
            m,
            tool@,
            desc@,
            choice,
            width as int,
        ),
        Block::Hint { content } => hint_block(m, content@),
        Block::Compacted { summary } => compacted_block(m, summary@, width, env),
        Block::Exec { command, output } => exec_block(
            m,
            command@,
            output@,
            width as int,
            env.theme.user_bg_color(),
        ),
        Block::AgentMessage { from_id, from_slug: _, content } => agent_message_block(
            m,
            from_id@,
            content@,
            width,
            env,
        ),
        Block::Agent { agent_id, slug, blocking, tool_calls, status, elapsed } => agent_block(
            m,
            agent_id@,
            model::opt_view(slug),
            blocking,
            tool_calls@,
            status,
            elapsed,
            width as int,
        ),
    }
}

fn render_compacted(
    out: &mut RenderOut,
    assets: &Assets,
    summary: &str,
    width: usize,
    env: &Env,
) -> (r: u16)
    ensures
        (Drawn { canvas: final(out)@, rows: r }) == compacted_block(
            old(out)@,
            summary@,
            width,
            *env,
        ),
{
    let remaining: usize = width.saturating_sub(11);
    let left: usize = remaining / 2;
    out.queue(Command::SetAttribute(Attribute::Dim));
    let l = repeat_char('\u{2500}', left);
    out.print(l.as_str());
    out.print(" compacted ");
    let r = repeat_char('\u{2500}', remaining - left);
    out.print(r.as_str());
    out.queue(Command::SetAttribute(Attribute::Reset));
    crlf(out);
    let look = MdLook {
        width,
        term_width: env.term_width,
        indent: " ",
        dim: true,
        boxed: None,
        theme: env.theme,
    };
    let n: u16 = render_markdown_inner(out, assets, summary, &look);
    1u16.saturating_add(n)
}

fn render_agent_message(
    out: &mut RenderOut,
    assets: &Assets,
    from_id: &str,
    content: &str,
    width: usize,
    env: &Env,
) -> (r: u16)
    ensures
        (Drawn { canvas: final(out)@, rows: r }) == agent_message_block(
            old(out)@,
            from_id@,
            content@,
            width,
            *env,
        ),
{
    out.queue(Command::SetForegroundColor(Color::AnsiValue(theme::AGENT)));
    out.queue(Command::SetAttribute(Attribute::Bold));
    let head = cat(" \u{279c} ", from_id);
    out.print(head.as_str());
    out.queue(Command::SetAttribute(Attribute::Reset));
    out.queue(Command::ResetColor);
    crlf(out);
    let boxed = BoxContext {
        left: " \u{2502} ",
        right: "",
        color: Color::AnsiValue(theme::AGENT),
        inner_w: width.saturating_sub(4),
    };
    let look = MdLook {
        width,
        term_width: env.term_width,
        indent: " \u{2502} ",
        dim: true,
        boxed: Some(boxed),
        theme: env.theme,
    };
    let n: u16 = render_markdown_inner(out, assets, content, &look);
    1u16.saturating_add(n)
}

/// Shows a block; the result is the number of rows.
pub fn render_block(
    out: &mut RenderOut,
    assets: &Assets,
    block: &Block,
    width: usize,
    show_thinking: bool,
    env: &Env,
) -> (r: u16)
    ensures
        (Drawn { canvas: final(out)@, rows: r }) == block_drawn(
            old(out)@,
            *block,
            width,
            show_thinking,
            *env,
        ),
{
    proof {
        reveal(block_drawn);
    }
    match block {
        Block::User { text: t, image_labels } => render_user_message(
            out,
            t.as_str(),
            image_labels,
            width,
            env,
        ),
        Block::Thinking { content } => render_thinking_block(
            out,
            content.as_str(),
            width,
            show_thinking,
        ),
        Block::Text { content } => {
            let look = MdLook {
                width,
                term_width: env.term_width,
                indent: " ",
                dim: false,
                boxed: None,
                theme: env.theme,
            };
            render_markdown_inner(out, assets, content.as_str(), &look)
        },
        Block::CodeLine { content, lang } => {
            let mut ls: Vec<String> = Vec::new();
            ls.push(content.clone());
            assert(text::texts(ls@) =~= seq![content@]);
            render_code_block(out, assets, &ls, lang.as_str(), width, false, None, &env.theme)
        },
        Block::ToolCall {
            call_id: _,
            name,
            summary,
            args,
            status,
            elapsed,
            output,
            user_message,
        } => render_tool(
            out,
            assets,
            name.as_str(),
            summary.as_str(),
            args,
            *status,
            *elapsed,
            output,
            user_message,
            width,
            env,
        ),
        Block::Confirm { tool, desc, choice } => render_confirm_result(
            out,
            tool.as_str(),
            desc.as_str(),
            choice,
            width,
        ),
        Block::Hint { content } => {
            out.queue(Command::SetAttribute(Attribute::Dim));
            out.queue(Command::SetAttribute(Attribute::Italic));
            out.print(content.as_str());
            out.queue(Command::SetAttribute(Attribute::Reset));
            crlf(out);
            1
        },
        Block::Compacted { summary } => render_compacted(
            out,
            assets,
            summary.as_str(),
            width,
            env,
        ),
        Block::Exec { command, output } => {
            print_command_line(out, command.as_str(), width, theme::user_bg(&env.theme));
            crlf(out);
            let rows: u16 = 1;
            if char_count(output.as_str()) > 0 {
                let n: u16 = render_wrapped_output(out, output.as_str(), false, width);
                rows.saturating_add(n)
            } else {
                rows
            }
        },
        Block::AgentMessage { from_id, from_slug: _, content } => render_agent_message(
            out,
            assets,
            from_id.as_str(),
            content.as_str(),
            width,
            env,
        ),
        Block::Agent { agent_id, slug, blocking, tool_calls, status, elapsed } => {
            render_agent_block(
                out,
                agent_id.as_str(),
                slug,
                *blocking,
                tool_calls,
                *status,
                *elapsed,
                width,
            )
        },
    }
}

} // verus!
