//! Tool calls and what they returned.

use vstd::prelude::*;

use crate::json;
use crate::json::{
    display, get_str, get_u64, opened, parse_value, str_or_empty, Json, JsonView, Opened,
};
use crate::render::bars;
use crate::render::diff;
use crate::render::diff::{print_inline_diff, print_syntax_file};
use crate::render::highlight;
use crate::render::highlight::{Assets, BashHighlighter};
use crate::render::markdown;
use crate::render::markdown::{render_markdown_inner, MdLook};
use crate::render::model;
use crate::render::model::{
    print_cached_inline_diff, NotebookRenderData, ToolOutput, ToolOutputRenderCache, ToolStatus,
};
use crate::render::out;
use crate::render::out::{crlf, Canvas, Color, Command, Drawn, RenderOut};
use crate::render::styled;
use crate::render::styled::{pluralize, print_dim, BoxContext, Env};
use crate::render::wrap;
use crate::render::wrap::wrap_line;
use crate::text;
use crate::text::{
    cat, cat3, char_count, chars_of, expand_tabs, find_text, join, lines, part_of, repeat_char,
    same_text, slice_text, split_text, trim, trim_end_char, truncate_str,
};
use crate::theme;
use crate::theme::Theme;
use crate::utils;
use crate::utils::format_duration;

verus! {

// ── Rows of output ───────────────────────────────────────────────────────

/// Text in the colour of errors.
pub open spec fn error_text(m: Canvas, t: Seq<char>) -> Canvas {
    m.queue(Command::SetForegroundColor(theme::ERROR)).print(t).queue(Command::ResetColor)
}

/// The first `n` rows of output, indented: dim, or in the colour of errors.
pub open spec fn output_rows(d: Drawn, segs: Seq<Seq<char>>, n: int, is_error: bool) -> Drawn
    decreases n,
{
    if n <= 0 {
        d
    } else {
        let d = output_rows(d, segs, n - 1, is_error);
        let t = "   "@ + segs[n - 1];
        let m = if is_error {
            error_text(d.canvas, t)
        } else {
            styled::dim_text(d.canvas, t)
        };
        d.row(m.crlf())
    }
}

/// Prints rows of output; the result is `rows` and as many more.
fn print_output_rows(out: &mut RenderOut, segs: &Vec<String>, is_error: bool, rows: u16) -> (r: u16)
    ensures
        (Drawn { canvas: final(out)@, rows: r }) == output_rows(
            Drawn { canvas: old(out)@, rows },
            text::texts(segs@),
            segs@.len() as int,
            is_error,
        ),
{
    let ghost ss = text::texts(segs@);
    let ghost d0 = Drawn { canvas: out@, rows };
    let mut rows: u16 = rows;
    let mut i: usize = 0;
    while i < segs.len()
        invariant
            ss == text::texts(segs@),
            i <= segs@.len(),
            (Drawn { canvas: out@, rows }) == output_rows(d0, ss, i as int, is_error),
        decreases segs@.len() - i,
    {
        assert(ss[i as int] == segs@[i as int]@);
        let t = cat("   ", segs[i].as_str());
        if is_error {
            out.queue(Command::SetForegroundColor(theme::ERROR));
            out.print(t.as_str());
            out.queue(Command::ResetColor);
        } else {
            print_dim(out, t.as_str());
        }
        crlf(out);
        rows = rows.saturating_add(1);
        i = i + 1;
    }
    rows
}

/// The rows of the first `n` lines.
pub open spec fn wrapped_all(ls: Seq<Seq<char>>, n: int, width: int) -> Seq<Seq<char>>
    decreases n,
{
    if n <= 0 {
        seq![]
    } else {
        wrapped_all(ls, n - 1, width) + wrap::wrapped(ls[n - 1], width)
    }
}

/// The rows of lines.
pub fn wrap_all(ls: &Vec<String>, width: usize) -> (r: Vec<String>)
    ensures
        text::texts(r@) == wrapped_all(text::texts(ls@), ls@.len() as int, width as int),
{
    let ghost ts = text::texts(ls@);
    let mut r: Vec<String> = Vec::new();
    let mut i: usize = 0;
    assert(text::texts(r@) =~= seq![]);
    while i < ls.len()
        invariant
            ts == text::texts(ls@),
            i <= ls@.len(),
            text::texts(r@) == wrapped_all(ts, i as int, width as int),
        decreases ls@.len() - i,
    {
        assert(ts[i as int] == ls@[i as int]@);
        let mut segs = wrap_line(ls[i].as_str(), width);
        let ghost before = r@;
        let ghost more = segs@;
        r.append(&mut segs);
        assert(text::texts(r@) =~= text::texts(before) + text::texts(more));
        i = i + 1;
    }
    r
}

/// Rows of wrapped output that are shown.
pub const MAX_VISUAL_ROWS: usize = 20;

/// The rows of output text.
pub open spec fn output_segments(content: Seq<char>, width: int) -> Seq<Seq<char>> {
    let ls = highlight::untabbed_lines(text::lines_of(content));
    wrapped_all(ls, ls.len() as int, bars::at_least_zero(width - 4))
}

/// Output text: its last rows, with a note on how many there are above.
pub open spec fn wrapped_output(m: Canvas, content: Seq<char>, is_error: bool, width: int) -> Drawn {
    let segs = output_segments(content, width);
    let total = segs.len();
    let d = out::drawn(m);
    if total > MAX_VISUAL_ROWS {
        let skipped = (total - MAX_VISUAL_ROWS) as nat;
        let d = d.row(
            styled::dim_text(
                m,
                "   ... "@ + styled::counted(skipped, "line"@, "lines"@) + " above"@,
            ).crlf(),
        );
        output_rows(d, segs.skip(skipped as int), MAX_VISUAL_ROWS as int, is_error)
    } else {
        output_rows(d, segs, total as int, is_error)
    }
}

pub fn render_wrapped_output(
    out: &mut RenderOut,
    content: &str,
    is_error: bool,
    width: usize,
) -> (r: u16)
    ensures
        (Drawn { canvas: final(out)@, rows: r }) == wrapped_output(
            old(out)@,
            content@,
            is_error,
            width as int,
        ),
{
    let raw = lines(content);
    let ghost rt = text::texts(raw@);
    let mut ls: Vec<String> = Vec::new();
    let mut i: usize = 0;
    while i < raw.len()
        invariant
            rt == text::texts(raw@),
            i <= raw@.len(),
            ls@.len() == i,
            forall|j: int|
                0 <= j < i ==> (#[trigger] ls@[j])@ == highlight::untabbed_lines(rt)[j],
        decreases raw@.len() - i,
    {
        assert(rt[i as int] == raw@[i as int]@);
        ls.push(expand_tabs(raw[i].as_str()));
        i = i + 1;
    }
    assert(text::texts(ls@) =~= highlight::untabbed_lines(rt));
    let segs = wrap_all(&ls, width.saturating_sub(4));
    let total: usize = segs.len();
    assert(text::texts(segs@).len() == total);
    if total > MAX_VISUAL_ROWS {
        let skipped: usize = total - MAX_VISUAL_ROWS;
        let n = pluralize(skipped, "line", "lines");
        let t = cat3("   ... ", n.as_str(), " above");
        print_dim(out, t.as_str());
        crlf(out);
        let tail = part_of(&segs, skipped, total);
        assert(text::texts(tail@) =~= text::texts(segs@).skip(skipped as int));
        assert(text::texts(tail@).len() == tail@.len());
        print_output_rows(out, &tail, is_error, 1)
    } else {
        print_output_rows(out, &segs, is_error, 0)
    }
}

/// The first lines of a text in one line.
pub open spec fn preview(content: Seq<char>, max_lines: int) -> Seq<char> {
    let ls = text::lines_of(text::drop_back(content, |x: char| x == '\n'));
    if ls.len() <= max_lines {
        text::join_texts(ls, " | "@)
    } else {
        text::join_texts(ls.take(max_lines), " | "@) + " ... ("@ + (styled::counted(
            ls.len(),
            "line"@,
            "lines"@,
        ) + ")"@)
    }
}

/// The first lines of a text in one line.
pub fn result_preview(content: &str, max_lines: usize) -> (r: String)
    ensures
        r@ == preview(content@, max_lines as int),
{
    let t = trim_end_char(content, '\n');
    let ls = lines(t.as_str());
    let total: usize = ls.len();
    assert(text::texts(ls@).len() == total);
    if total <= max_lines {
        join(&ls, " | ")
    } else {
        let head = part_of(&ls, 0, max_lines);
        assert(text::texts(head@) =~= text::texts(ls@).take(max_lines as int));
        let j = join(&head, " | ");
        let c = pluralize(total, "line", "lines");
        let tail = cat(c.as_str(), ")");
        cat3(j.as_str(), " ... (", tail.as_str())
    }
}

/// Output of which only a preview is shown.
pub open spec fn default_output(m: Canvas, content: Seq<char>, is_error: bool, width: int) -> Drawn {
    let segs = wrap::wrapped(preview(content, 3), bars::at_least_zero(width - 4));
    output_rows(out::drawn(m), segs, segs.len() as int, is_error)
}

fn render_default_output(out: &mut RenderOut, content: &str, is_error: bool, width: usize) -> (r:
    u16)
    ensures
        (Drawn { canvas: final(out)@, rows: r }) == default_output(
            old(out)@,
            content@,
            is_error,
            width as int,
        ),
{
    let p = result_preview(content, 3);
    let segs = wrap_line(p.as_str(), width.saturating_sub(4));
    assert(text::texts(segs@).len() == segs@.len());
    print_output_rows(out, &segs, is_error, 0)
}

/// A dim row that counts things.
pub open spec fn count_row(m: Canvas, count: nat, singular: Seq<char>, plural: Seq<char>) -> Drawn {
    out::drawn(m).row(styled::dim_text(m, "   "@ + styled::counted(count, singular, plural)).crlf())
}

fn print_dim_count(out: &mut RenderOut, count: usize, singular: &str, plural: &str) -> (r: u16)
    ensures
        (Drawn { canvas: final(out)@, rows: r }) == count_row(
            old(out)@,
            count as nat,
            singular@,
            plural@,
        ),
{
    let c = pluralize(count, singular, plural);
    let t = cat("   ", c.as_str());
    print_dim(out, t.as_str());
    crlf(out);
    1
}

// ── The line of a tool call ──────────────────────────────────────────────

/// How long a call took, where that is worth showing.
pub open spec fn time_suffix(elapsed: Option<u64>) -> Seq<char> {
    match elapsed {
        Some(ms) => if ms >= 100 {
            "  "@ + utils::duration_text((ms / 1000) as nat)
        } else {
            ""@
        },
        None => ""@,
    }
}

pub fn elapsed_suffix(elapsed: Option<u64>) -> (r: String)
    ensures
        r@ == time_suffix(elapsed),
{
    match elapsed {
        Some(ms) => {
            if ms >= 100 {
                let d = format_duration(ms / 1000);
                cat("  ", d.as_str())
            } else {
                "".to_owned()
            }
        },
        None => "".to_owned(),
    }
}

/// Characters before the summary: the pill, the name and a space.
pub open spec fn tool_prefix(name: Seq<char>) -> int {
    bars::capped(text::byte_len(name) + 4)
}

/// Columns for the summary when `suffix` bytes follow.
pub open spec fn summary_columns(name: Seq<char>, suffix: int, width: int) -> int {
    bars::at_least_zero(width - bars::capped(bars::capped(tool_prefix(name) + suffix) + 1))
}

struct ToolLineLayout {
    prefix_len: usize,
    max_summary: usize,
}

fn tool_line_layout(name: &str, suffix_len: usize, width: usize) -> (r: ToolLineLayout)
    ensures
        r.prefix_len == tool_prefix(name@),
        r.max_summary == summary_columns(name@, suffix_len as int, width as int),
{
    let prefix_len: usize = name.len().saturating_add(4);
    ToolLineLayout {
        prefix_len,
        max_summary: width.saturating_sub(prefix_len.saturating_add(suffix_len).saturating_add(1)),
    }
}

/// Rows of the summary of a shell command that are shown.
pub const MAX_TOOL_SUMMARY_ROWS: usize = 20;

/// `n`, or 1 when it is zero.
pub open spec fn at_least_one(n: int) -> int {
    if n < 1 {
        1
    } else {
        n
    }
}

/// The rows of a shell command.
pub open spec fn summary_segments(summary: Seq<char>, cols: int) -> Seq<Seq<char>> {
    let ls = text::lines_of(summary);
    wrapped_all(ls, ls.len() as int, at_least_one(cols))
}

/// Rows that the line of a tool call takes.
pub open spec fn tool_line_height(name: Seq<char>, summary: Seq<char>, width: int) -> u16 {
    if name != "bash"@ {
        1
    } else {
        let total = summary_segments(summary, summary_columns(name, 0, width)).len() as int;
        if total > MAX_TOOL_SUMMARY_ROWS {
            (MAX_TOOL_SUMMARY_ROWS + 1) as u16
        } else {
            at_least_one(total) as u16
        }
    }
}

/// Rows that the line of a tool call takes.
pub fn tool_line_rows(name: &str, summary: &str, width: usize) -> (r: u16)
    ensures
        r == tool_line_height(name@, summary@, width as int),
{
    if !same_text(name, "bash") {
        return 1;
    }
    let ly = tool_line_layout(name, 0, width);
    let cols: usize = if ly.max_summary < 1 {
        1
    } else {
        ly.max_summary
    };
    let ls = lines(summary);
    let segs = wrap_all(&ls, cols);
    let total: usize = segs.len();
    assert(text::texts(ls@).len() == ls@.len());
    assert(text::texts(segs@).len() == total);
    if total > MAX_TOOL_SUMMARY_ROWS {
        21
    } else if total < 1 {
        1
    } else {
        total as u16
    }
}

/// Prints the text in dim, unless it is empty.
pub open spec fn dim_if_any(m: Canvas, t: Seq<char>) -> Canvas {
    if t.len() > 0 {
        styled::dim_text(m, t)
    } else {
        m
    }
}

fn print_dim_if_any(out: &mut RenderOut, t: &str)
    ensures
        final(out)@ == dim_if_any(old(out)@, t@),
{
    if char_count(t) > 0 {
        print_dim(out, t);
    }
}

/// The first `n` rows of a shell command, highlighted; the first with what
/// follows the summary.
pub open spec fn shell_rows(
    d: Drawn,
    segs: Seq<Seq<char>>,
    n: int,
    prefix: int,
    time: Seq<char>,
    timeout: Seq<char>,
) -> Drawn
    decreases n,
{
    if n <= 0 {
        d
    } else {
        let d = shell_rows(d, segs, n - 1, prefix, time, timeout);
        let h = highlight::after_lines(highlight::shell_history(), segs, n - 1);
        let m = if n > 1 {
            d.canvas.print(text::fill(' ', prefix as nat))
        } else {
            d.canvas
        };
        let m = highlight::shell_line(m, h, segs[n - 1]);
        let m = if n == 1 {
            dim_if_any(dim_if_any(m, time), timeout)
        } else {
            m
        };
        d.row(m.crlf())
    }
}

/// Skips white space from `i` on.
pub open spec fn solid_char_from(s: Seq<char>, i: int) -> int
    decreases s.len() - i,
{
    if i < 0 || i >= s.len() {
        s.len() as int
    } else if !text::is_white(s[i]) {
        i
    } else {
        solid_char_from(s, i + 1)
    }
}

/// The first space or comma at or behind `i`.
pub open spec fn name_stop(s: Seq<char>, i: int) -> int
    decreases s.len() - i,
{
    if i < 0 || i >= s.len() {
        s.len() as int
    } else if s[i] == ' ' || s[i] == ',' {
        i
    } else {
        name_stop(s, i + 1)
    }
}

pub proof fn lemma_name_scans(s: Seq<char>, i: int)
    requires
        0 <= i <= s.len(),
    ensures
        i <= solid_char_from(s, i) <= s.len(),
        i <= name_stop(s, i) <= s.len(),
    decreases s.len() - i,
{
    if i < s.len() {
        lemma_name_scans(s, i + 1);
    }
}

/// Where the names of agents end that a summary starts with: words that are
/// separated by a comma and a space.
pub open spec fn names_end(s: Seq<char>, from: int) -> int
    decreases s.len() - from,
{
    if from < 0 || from > s.len() {
        s.len() as int
    } else {
        let a = solid_char_from(s, from);
        let w = name_stop(s, a);
        proof {
            lemma_name_scans(s, from);
            lemma_name_scans(s, a);
        }
        if w == a {
            from
        } else if text::stands_at(s, ", "@, w) && w + 2 <= s.len() {
            names_end(s, w + 2)
        } else {
            w
        }
    }
}

/// The first `n` names of agents in their colour.
pub open spec fn names_printed(m: Canvas, names: Seq<Seq<char>>, n: int) -> Canvas
    decreases n,
{
    if n <= 0 {
        m
    } else {
        let m = names_printed(m, names, n - 1);
        let m = if n > 1 {
            m.print(", "@)
        } else {
            m
        };
        m.queue(Command::SetForegroundColor(Color::AnsiValue(theme::AGENT))).print(
            text::trimmed(names[n - 1]),
        ).queue(Command::ResetColor)
    }
}

/// A summary that starts with names of agents.
pub open spec fn agent_summary(m: Canvas, s: Seq<char>) -> Canvas {
    let end = names_end(s, 0);
    let names = text::parts_from(s.take(end), ", "@, 0);
    let m = if end > 0 {
        names_printed(m, names, names.len() as int)
    } else {
        m
    };
    if end < s.len() {
        m.print(s.skip(end))
    } else {
        m
    }
}

fn find_names_end(chars: &Vec<char>) -> (r: usize)
    ensures
        r == names_end(chars@, 0),
        r <= chars@.len(),
{
    let sep = chars_of(", ");
    proof {
        reveal_strlit(", ");
    }
    let total: usize = chars.len();
    let mut from: usize = 0;
    loop
        invariant
            total == chars@.len(),
            sep@ == ", "@,
            sep@.len() == 2,
            from <= total,
            names_end(chars@, 0) == names_end(chars@, from as int),
        decreases total - from,
    {
        proof {
            lemma_name_scans(chars@, from as int);
        }
        let mut a: usize = from;
        while a < total && chars[a].is_whitespace()
            invariant
                total == chars@.len(),
                from <= a <= total,
                solid_char_from(chars@, from as int) == solid_char_from(chars@, a as int),
            decreases total - a,
        {
            a = a + 1;
        }
        let mut w: usize = a;
        while w < total && chars[w] != ' ' && chars[w] != ','
            invariant
                total == chars@.len(),
                a <= w <= total,
                name_stop(chars@, a as int) == name_stop(chars@, w as int),
            decreases total - w,
        {
            w = w + 1;
        }
        if w == a {
            return from;
        }
        if text::matches_at(chars, &sep, w) {
            from = w + 2;
        } else {
            return w;
        }
    }
}

/// Prints a summary that starts with names of agents.
pub fn print_agent_summary(out: &mut RenderOut, summary: &str)
    ensures
        final(out)@ == agent_summary(old(out)@, summary@),
{
    let chars = chars_of(summary);
    let end: usize = find_names_end(&chars);
    if end > 0 {
        let head = slice_text(&chars, 0, end);
        assert(head@ =~= summary@.take(end as int));
        let names = split_text(head.as_str(), ", ");
        let ghost ns = text::texts(names@);
        let ghost m0 = out@;
        let mut i: usize = 0;
        while i < names.len()
            invariant
                ns == text::texts(names@),
                i <= names@.len(),
                out@ == names_printed(m0, ns, i as int),
            decreases names@.len() - i,
        {
            assert(ns[i as int] == names@[i as int]@);
            if i > 0 {
                out.print(", ");
            }
            out.queue(Command::SetForegroundColor(Color::AnsiValue(theme::AGENT)));
            let t = trim(names[i].as_str());
            out.print(t.as_str());
            out.queue(Command::ResetColor);
            i = i + 1;
        }
        assert(ns.len() == names@.len());
    }
    if end < chars.len() {
        let tail = slice_text(&chars, end, chars.len());
        assert(tail@ =~= summary@.skip(end as int));
        out.print(tail.as_str());
    }
}

/// Tools whose summary starts with names of agents.
pub open spec fn names_agents(name: Seq<char>) -> bool {
    name == "message_agent"@ || name == "stop_agent"@ || name == "peek_agent"@
}

/// The line of a tool call: a pill, the name, the summary, how long the call
/// took, and the timeout.  A shell command takes as many rows as it needs, up
/// to a limit.
#[verifier::opaque]
pub open spec fn tool_line(
    m: Canvas,
    name: Seq<char>,
    summary: Seq<char>,
    color: Color,
    elapsed: Option<u64>,
    timeout: Option<Seq<char>>,
    width: int,
) -> Drawn {
    let time = time_suffix(elapsed);
    let limit = match timeout {
        Some(l) => " ("@ + l + ")"@,
        None => ""@,
    };
    let suffix = bars::capped(text::byte_len(time) + text::byte_len(limit));
    let cols = summary_columns(name, suffix, width);
    let m = m.print(" "@).queue(Command::SetForegroundColor(color)).print("\u{23fa}"@).queue(
        Command::ResetColor,
    );
    let m = styled::dim_text(m, " "@ + name + " "@);
    if name == "bash"@ {
        let segs = summary_segments(summary, cols);
        let total = segs.len() as int;
        let show = if total > MAX_TOOL_SUMMARY_ROWS {
            MAX_TOOL_SUMMARY_ROWS as int
        } else {
            total
        };
        let d = shell_rows(out::drawn(m), segs, show, tool_prefix(name), time, limit);
        if total > MAX_TOOL_SUMMARY_ROWS {
            let skipped = (total - MAX_TOOL_SUMMARY_ROWS) as nat;
            d.row(
                styled::dim_text(
                    d.canvas.print(text::fill(' ', tool_prefix(name) as nat)),
                    "... "@ + styled::counted(skipped, "line"@, "lines"@) + " below"@,
                ).crlf(),
            )
        } else {
            d
        }
    } else {
        let t = text::clipped(summary, cols);
        let m = if names_agents(name) {
            agent_summary(m, t)
        } else {
            m.print(t)
        };
        out::drawn(m).row(dim_if_any(dim_if_any(m, time), limit).crlf())
    }
}

fn print_tool_line(
    out: &mut RenderOut,
    assets: &Assets,
    name: &str,
    summary: &str,
    pill_color: Color,
    elapsed: Option<u64>,
    timeout_label: Option<&str>,
    width: usize,
) -> (r: u16)
    ensures
        (Drawn { canvas: final(out)@, rows: r }) == tool_line(
            old(out)@,
            name@,
            summary@,
            pill_color,
            elapsed,
            match timeout_label {
                Some(l) => Some(l@),
                None => None,
            },
            width as int,
        ),
{
    proof {
        reveal(tool_line);
    }
    out.print(" ");
    out.queue(Command::SetForegroundColor(pill_color));
    out.print("\u{23fa}");
    out.queue(Command::ResetColor);
    let time = elapsed_suffix(elapsed);
    let limit = match timeout_label {
        Some(l) => cat3(" (", l, ")"),
        None => "".to_owned(),
    };
    let suffix: usize = time.as_str().len().saturating_add(limit.as_str().len());
    let ly = tool_line_layout(name, suffix, width);
    let label = cat3(" ", name, " ");
    print_dim(out, label.as_str());
    if same_text(name, "bash") {
        let cols: usize = if ly.max_summary < 1 {
            1
        } else {
            ly.max_summary
        };
        let ls = lines(summary);
        assert(text::texts(ls@).len() == ls@.len());
        let segs = wrap_all(&ls, cols);
        let ghost ss = text::texts(segs@);
        let total: usize = segs.len();
        assert(ss.len() == total);
        let show: usize = if total > MAX_TOOL_SUMMARY_ROWS {
            MAX_TOOL_SUMMARY_ROWS
        } else {
            total
        };
        let mut bh = BashHighlighter::new(assets);
        let ghost d0 = out::drawn(out@);
        let mut rows: u16 = 0;
        let mut i: usize = 0;
        while i < show
            invariant
                ss == text::texts(segs@),
                show <= segs@.len(),
                i <= show,
                ly.prefix_len == tool_prefix(name@),
                bh.history() == highlight::after_lines(
                    highlight::shell_history(),
                    ss,
                    i as int,
                ),
                (Drawn { canvas: out@, rows }) == shell_rows(
                    d0,
                    ss,
                    i as int,
                    tool_prefix(name@),
                    time@,
                    limit@,
                ),
            decreases show - i,
        {
            assert(ss[i as int] == segs@[i as int]@);
            if i > 0 {
                let pad = repeat_char(' ', ly.prefix_len);
                out.print(pad.as_str());
            }
            bh.print_line(out, segs[i].as_str());
            if i == 0 {
                print_dim_if_any(out, time.as_str());
                print_dim_if_any(out, limit.as_str());
            }
            crlf(out);
            rows = rows.saturating_add(1);
            i = i + 1;
        }
        if total > MAX_TOOL_SUMMARY_ROWS {
            let skipped: usize = total - MAX_TOOL_SUMMARY_ROWS;
            let pad = repeat_char(' ', ly.prefix_len);
            out.print(pad.as_str());
            let c = pluralize(skipped, "line", "lines");
            let t = cat3("... ", c.as_str(), " below");
            print_dim(out, t.as_str());
            crlf(out);
            rows = rows.saturating_add(1);
        }
        rows
    } else {
        let t = truncate_str(summary, ly.max_summary);
        if same_text(name, "message_agent") || same_text(name, "stop_agent") || same_text(
            name,
            "peek_agent",
        ) {
            print_agent_summary(out, t.as_str());
        } else {
            out.print(t.as_str());
        }
        print_dim_if_any(out, time.as_str());
        print_dim_if_any(out, limit.as_str());
        crlf(out);
        1
    }
}

// ── Output, tool by tool ─────────────────────────────────────────────────

/// Whether a character is a decimal digit.
pub open spec fn is_digit(c: char) -> bool {
    '0' <= c <= '9'
}

/// The title in a numbered line of search results.
pub open spec fn result_title(line: Seq<char>) -> Option<Seq<char>> {
    let at = text::find_from(line, ". "@, 0);
    if 0 < at <= line.len() && (forall|i: int| 0 <= i < at ==> is_digit(#[trigger] line[i])) {
        Some(line.skip(at + 2))
    } else {
        None
    }
}

/// The titles in the first `n` lines of search results.
pub open spec fn titles(d: Drawn, ls: Seq<Seq<char>>, n: int) -> Drawn
    decreases n,
{
    if n <= 0 {
        d
    } else {
        let d = titles(d, ls, n - 1);
        match result_title(ls[n - 1]) {
            Some(t) => d.row(styled::dim_text(d.canvas, "   "@ + t).crlf()),
            None => d,
        }
    }
}

/// Search results.
pub open spec fn search_output(m: Canvas, content: Seq<char>) -> Drawn {
    let ls = text::lines_of(content);
    let d = titles(out::drawn(m), ls, ls.len() as int);
    if d.rows == 0 {
        out::drawn(d.canvas).row(styled::dim_text(d.canvas, "   No results found"@).crlf())
    } else {
        d
    }
}

fn find_title(line: &str) -> (r: Option<String>)
    ensures
        match r {
            Some(t) => result_title(line@) == Some(t@),
            None => result_title(line@) is None,
        },
{
    let chars = chars_of(line);
    let dot = chars_of(". ");
    proof {
        reveal_strlit(". ");
    }
    match find_text(&chars, &dot, 0) {
        Some(at) => {
            if at == 0 {
                return None;
            }
            let total: usize = chars.len();
            let mut i: usize = 0;
            while i < at
                invariant
                    i <= at,
                    at + 2 <= total,
                    total == chars@.len(),
                    chars@ == line@,
                    at == text::find_from(line@, ". "@, 0),
                    forall|j: int| 0 <= j < i ==> is_digit(#[trigger] line@[j]),
                decreases at - i,
            {
                if !('0' <= chars[i] && chars[i] <= '9') {
                    assert(!is_digit(line@[i as int]));
                    return None;
                }
                i = i + 1;
            }
            let t = slice_text(&chars, at + 2, total);
            assert(t@ =~= line@.skip(at + 2));
            Some(t)
        },
        None => None,
    }
}

fn render_search_output(out: &mut RenderOut, content: &str) -> (r: u16)
    ensures
        (Drawn { canvas: final(out)@, rows: r }) == search_output(old(out)@, content@),
{
    let ls = lines(content);
    let ghost ts = text::texts(ls@);
    let ghost d0 = out::drawn(out@);
    let mut rows: u16 = 0;
    let mut i: usize = 0;
    while i < ls.len()
        invariant
            ts == text::texts(ls@),
            i <= ls@.len(),
            (Drawn { canvas: out@, rows }) == titles(d0, ts, i as int),
        decreases ls@.len() - i,
    {
        assert(ts[i as int] == ls@[i as int]@);
        match find_title(ls[i].as_str()) {
            Some(title) => {
                let t = cat("   ", title.as_str());
                print_dim(out, t.as_str());
                crlf(out);
                rows = rows.saturating_add(1);
            },
            None => {},
        }
        i = i + 1;
    }
    assert(ts.len() == ls@.len());
    if rows == 0 {
        print_dim(out, "   No results found");
        crlf(out);
        1
    } else {
        rows
    }
}

/// A file with line numbers.
pub open spec fn file_shown(m: Canvas, content: Seq<char>, path: Seq<char>, term_width: usize) -> Drawn {
    let w = diff::file_window(
        m,
        text::lines_of(content),
        diff::file_extension(path),
        0,
        0,
        term_width,
    );
    Drawn { canvas: w.canvas, rows: w.emitted }
}

/// A difference in a file.
pub open spec fn diff_shown(
    m: Canvas,
    env: Env,
    old_text: Seq<char>,
    new_text: Seq<char>,
    path: Seq<char>,
    anchor: Seq<char>,
) -> Drawn {
    let d = diff::inline_diff(
        m,
        env.file(path),
        old_text,
        new_text,
        diff::file_extension(path),
        anchor,
        0,
        0,
        env.term_width,
    );
    Drawn { canvas: d.0, rows: d.1 }
}

/// What an edit did: how many lines it deleted, or the difference.
pub open spec fn edit_output(m: Canvas, o: ToolOutput, args: Seq<(String, Json)>, env: Env) -> Drawn {
    let old_text = json::text_or_empty(args, "old_string"@);
    let new_text = json::text_or_empty(args, "new_string"@);
    let path = json::text_or_empty(args, "file_path"@);
    if new_text.len() == 0 {
        count_row(m, text::lines_of(old_text).len(), "line deleted"@, "lines deleted"@)
    } else {
        match o.render_cache {
            Some(ToolOutputRenderCache::InlineDiff(c)) => Drawn {
                canvas: m.append(out::commands_view(c.commands@)),
                rows: c.rows,
            },
            _ => diff_shown(m, env, old_text, new_text, path, new_text),
        }
    }
}

fn render_edit_output(
    out: &mut RenderOut,
    assets: &Assets,
    output: &ToolOutput,
    args: &Vec<(String, Json)>,
    env: &Env,
) -> (r: u16)
    ensures
        (Drawn { canvas: final(out)@, rows: r }) == edit_output(old(out)@, *output, args@, *env),
{
    let old_text = str_or_empty(args, "old_string");
    let new_text = str_or_empty(args, "new_string");
    let path = str_or_empty(args, "file_path");
    if char_count(new_text) == 0 {
        let ls = lines(old_text);
        assert(text::texts(ls@).len() == ls@.len());
        print_dim_count(out, ls.len(), "line deleted", "lines deleted")
    } else {
        match &output.render_cache {
            Some(ToolOutputRenderCache::InlineDiff(c)) => print_cached_inline_diff(out, c),
            _ => print_inline_diff(out, assets, env, old_text, new_text, path, new_text, 0, 0),
        }
    }
}

/// What was written to a file.
pub open spec fn write_output(m: Canvas, args: Seq<(String, Json)>, env: Env) -> Drawn {
    file_shown(
        m,
        json::text_or_empty(args, "content"@),
        json::text_or_empty(args, "file_path"@),
        env.term_width,
    )
}

fn render_write_output(
    out: &mut RenderOut,
    assets: &Assets,
    args: &Vec<(String, Json)>,
    env: &Env,
) -> (r: u16)
    ensures
        (Drawn { canvas: final(out)@, rows: r }) == write_output(old(out)@, args@, *env),
{
    let content = str_or_empty(args, "content");
    let path = str_or_empty(args, "file_path");
    print_syntax_file(out, assets, content, path, 0, 0, env.term_width)
}

/// A change of a notebook: its title, and the new cell or the difference.
pub open spec fn notebook_change(m: Canvas, n: NotebookRenderData, env: Env) -> Drawn {
    let d = out::drawn(m).row(styled::dim_text(m, "   "@ + n.title@).crlf());
    let e = if n.edit_mode@ == "insert"@ {
        file_shown(d.canvas, n.new_source@, n.path@, env.term_width)
    } else {
        diff_shown(d.canvas, env, n.old_source@, n.new_source@, n.path@, n.old_source@)
    };
    d.rows(e.canvas, e.rows)
}

fn render_notebook_change(
    out: &mut RenderOut,
    assets: &Assets,
    n: &NotebookRenderData,
    env: &Env,
) -> (r: u16)
    ensures
        (Drawn { canvas: final(out)@, rows: r }) == notebook_change(old(out)@, *n, *env),
{
    let t = cat("   ", n.title.as_str());
    print_dim(out, t.as_str());
    crlf(out);
    let rows: u16 = 1;
    let more: u16 = if same_text(n.edit_mode.as_str(), "insert") {
        print_syntax_file(
            out,
            assets,
            n.new_source.as_str(),
            n.path.as_str(),
            0,
            0,
            env.term_width,
        )
    } else {
        print_inline_diff(
            out,
            assets,
            env,
            n.old_source.as_str(),
            n.new_source.as_str(),
            n.path.as_str(),
            n.old_source.as_str(),
            0,
            0,
        )
    };
    rows.saturating_add(more)
}

/// Answers to questions, in order: the question, whether the answer is a
/// list, and the texts in it.
pub open spec fn answers_view(v: Seq<(String, bool, Vec<Option<String>>)>) -> Seq<
    (Seq<char>, bool, Seq<Option<Seq<char>>>),
> {
    Seq::new(v.len(), |i: int| (v[i].0@, v[i].1, items_view(v[i].2@)))
}

/// Characters for texts.
pub open spec fn items_view(v: Seq<Option<String>>) -> Seq<Option<Seq<char>>> {
    Seq::new(v.len(), |i: int| model::opt_view(v[i]))
}

/// An answer that a field holds: a string is given as its text, a list item by
/// item, with the text of each item that is a string, and any other value as
/// it is displayed.
pub open spec fn answer_in(f: (Seq<char>, JsonView)) -> (Seq<char>, bool, Seq<Option<Seq<char>>>) {
    match f.1 {
        JsonView::Str(s) => (f.0, false, seq![Some(s)]),
        JsonView::Arr(a) => (f.0, true, Seq::new(a.len(), |i: int| json::string_in(a[i]))),
        _ => (f.0, false, seq![Some(json::displayed(f.1))]),
    }
}

/// The answers in the object that a text holds; nothing when it does not hold
/// an object.
pub open spec fn parsed_answers(content: Seq<char>) -> Option<
    Seq<(Seq<char>, bool, Seq<Option<Seq<char>>>)>,
> {
    match json::parsed_json(content) {
        Some(JsonView::Obj(f)) => Some(Seq::new(f.len(), |i: int| answer_in(f[i]))),
        _ => None,
    }
}

fn read_answer(question: &str, v: &serde_json::Value) -> (r: (String, bool, Vec<Option<String>>))
    ensures
        (r.0@, r.1, items_view(r.2@)) == answer_in((question@, json::value_held(*v))),
{
    let mut items: Vec<Option<String>> = Vec::new();
    match opened(v) {
        Opened::Str(s) => {
            items.push(Some(s.to_owned()));
            assert(items_view(items@) =~= seq![Some(s@)]);
            (question.to_owned(), false, items)
        },
        Opened::Arr(a) => {
            let ghost held = json::value_held(*v)->Arr_0;
            let n: usize = a.len();
            let mut i: usize = 0;
            while i < n
                invariant
                    n == a@.len(),
                    held.len() == n,
                    forall|k: int| 0 <= k < n ==> #[trigger] held[k] == json::value_held(*a@[k]),
                    i <= n,
                    items@.len() == i,
                    forall|k: int|
                        0 <= k < i ==> model::opt_view(#[trigger] items@[k]) == json::string_in(
                            held[k],
                        ),
                decreases n - i,
            {
                assert(held[i as int] == json::value_held(*a@[i as int]));
                let t: Option<String> = match opened(a[i]) {
                    Opened::Str(s) => Some(s.to_owned()),
                    _ => None,
                };
                items.push(t);
                i = i + 1;
            }
            assert(items_view(items@) =~= Seq::new(held.len(), |i: int| json::string_in(held[i])));
            (question.to_owned(), true, items)
        },
        _ => {
            items.push(Some(display(v)));
            assert(items_view(items@) =~= seq![Some(json::displayed(json::value_held(*v)))]);
            (question.to_owned(), false, items)
        },
    }
}

/// The answers in the object that a text holds.
fn parse_answers(content: &str) -> (r: Option<Vec<(String, bool, Vec<Option<String>>)>>)
    ensures
        match r {
            Some(v) => parsed_answers(content@) == Some(answers_view(v@)),
            None => parsed_answers(content@) is None,
        },
{
    let value = match parse_value(content) {
        Some(v) => v,
        None => return None,
    };
    let fields = match opened(&value) {
        Opened::Obj(f) => f,
        _ => return None,
    };
    let ghost fs = json::value_held(value)->Obj_0;
    let n: usize = fields.len();
    let mut v: Vec<(String, bool, Vec<Option<String>>)> = Vec::new();
    let mut i: usize = 0;
    while i < n
        invariant
            n == fields@.len(),
            fs.len() == n,
            forall|k: int|
                0 <= k < n ==> #[trigger] fs[k] == (
                    fields@[k].0@,
                    json::value_held(*fields@[k].1),
                ),
            i <= n,
            v@.len() == i,
            forall|k: int| 0 <= k < i ==> #[trigger] answers_view(v@)[k] == answer_in(fs[k]),
        decreases n - i,
    {
        let ghost before = v@;
        let (question, x) = fields[i];
        assert(fs[i as int] == (question@, json::value_held(*x)));
        let a = read_answer(question, x);
        v.push(a);
        i = i + 1;
        assert forall|k: int| 0 <= k < i implies #[trigger] answers_view(v@)[k] == answer_in(
            fs[k],
        ) by {
            if k < i - 1 {
                assert(v@[k] == before[k]);
                assert(answers_view(before)[k] == answer_in(fs[k]));
            }
        }
    }
    assert(answers_view(v@) =~= Seq::new(fs.len(), |i: int| answer_in(fs[i])));
    Some(v)
}

/// The texts among the first `n` items.
pub open spec fn present(items: Seq<Option<Seq<char>>>, n: int) -> Seq<Seq<char>>
    decreases n,
{
    if n <= 0 {
        seq![]
    } else {
        match items[n - 1] {
            Some(t) => present(items, n - 1).push(t),
            None => present(items, n - 1),
        }
    }
}

/// The first `n` answers, each behind its question.
pub open spec fn answers_shown(
    d: Drawn,
    answers: Seq<(Seq<char>, bool, Seq<Option<Seq<char>>>)>,
    n: int,
    cols: int,
) -> Drawn
    decreases n,
{
    if n <= 0 {
        d
    } else {
        let d = answers_shown(d, answers, n - 1, cols);
        let a = answers[n - 1];
        let t = text::join_texts(present(a.2, a.2.len() as int), ", "@);
        let segs = wrap::wrapped(a.0 + " "@ + t, cols);
        output_rows(d, segs, segs.len() as int, false)
    }
}

/// Answers to questions, or the text as it is when it holds none.
pub open spec fn question_output(
    m: Canvas,
    content: Seq<char>,
    answers: Option<Seq<(Seq<char>, bool, Seq<Option<Seq<char>>>)>>,
    width: int,
) -> Drawn {
    let cols = bars::at_least_zero(width - 4);
    match answers {
        Some(a) => answers_shown(out::drawn(m), a, a.len() as int, cols),
        None => {
            let segs = wrap::wrapped(content, cols);
            output_rows(out::drawn(m), segs, segs.len() as int, false)
        },
    }
}

/// Shows answers to questions, or the text as it is when there are none.
pub fn render_answers(
    out: &mut RenderOut,
    content: &str,
    answers: &Option<Vec<(String, bool, Vec<Option<String>>)>>,
    width: usize,
) -> (r: u16)
    ensures
        (Drawn { canvas: final(out)@, rows: r }) == question_output(
            old(out)@,
            content@,
            match *answers {
                Some(v) => Some(answers_view(v@)),
                None => None,
            },
            width as int,
        ),
{
    let cols: usize = width.saturating_sub(4);
    match answers {
        Some(v) => {
            let ghost av = answers_view(v@);
            let ghost d0 = out::drawn(out@);
            let mut rows: u16 = 0;
            let mut i: usize = 0;
            while i < v.len()
                invariant
                    av == answers_view(v@),
                    i <= v@.len(),
                    (Drawn { canvas: out@, rows }) == answers_shown(d0, av, i as int, cols as int),
                decreases v@.len() - i,
            {
                assert(av[i as int] == (v@[i as int].0@, v@[i as int].1, items_view(
                    v@[i as int].2@,
                )));
                let items = &v[i].2;
                let ghost iv = items_view(items@);
                let mut texts: Vec<String> = Vec::new();
                let mut k: usize = 0;
                assert(text::texts(texts@) =~= seq![]);
                while k < items.len()
                    invariant
                        iv == items_view(items@),
                        k <= items@.len(),
                        text::texts(texts@) == present(iv, k as int),
                    decreases items@.len() - k,
                {
                    assert(iv[k as int] == model::opt_view(items@[k as int]));
                    match &items[k] {
                        Some(t) => {
                            let c = t.clone();
                            let ghost before = texts@;
                            texts.push(c);
                            proof {
                                text::lemma_texts_push(before, c);
                            }
                        },
                        None => {},
                    }
                    k = k + 1;
                }
                assert(iv.len() == items@.len());
                let t = join(&texts, ", ");
                let line = cat3(v[i].0.as_str(), " ", t.as_str());
                let segs = wrap_line(line.as_str(), cols);
                assert(text::texts(segs@).len() == segs@.len());
                rows = print_output_rows(out, &segs, false, rows);
                i = i + 1;
            }
            assert(av.len() == v@.len());
            rows
        },
        None => {
            let segs = wrap_line(content, cols);
            assert(text::texts(segs@).len() == segs@.len());
            print_output_rows(out, &segs, false, 0)
        },
    }
}

fn render_question_output(out: &mut RenderOut, content: &str, width: usize) -> (r: u16)
    ensures
        (Drawn { canvas: final(out)@, rows: r }) == question_output(
            old(out)@,
            content@,
            parsed_answers(content@),
            width as int,
        ),
{
    let answers = parse_answers(content);
    render_answers(out, content, &answers, width)
}

/// The box of a plan.
pub open spec fn plan_box(inner_w: usize) -> BoxContext {
    BoxContext {
        left: "  \u{2502} ",
        right: " \u{2502}",
        color: Color::AnsiValue(theme::PLAN),
        inner_w,
    }
}

/// A plan in a box.
pub open spec fn plan_output(m: Canvas, args: Seq<(String, Json)>, width: usize, env: Env) -> Drawn {
    let body = json::text_or_empty(args, "plan_summary"@);
    if body.len() == 0 {
        out::drawn(m)
    } else {
        let inner_w = bars::at_least_zero(width - 7) as usize;
        let fill = bars::capped(bars::at_least_zero(inner_w - 6) + 1);
        let plan = Command::SetForegroundColor(Color::AnsiValue(theme::PLAN));
        let m = m.queue(plan).print(
            "  \u{250c}\u{2500} Plan "@ + text::fill('\u{2500}', fill as nat) + "\u{2510}"@,
        ).queue(Command::ResetColor).crlf();
        let md = markdown::markdown(
            m,
            body,
            MdLook {
                width,
                term_width: env.term_width,
                indent: "  \u{2502} ",
                dim: false,
                boxed: Some(plan_box(inner_w)),
                theme: env.theme,
            },
        );
        let m = md.0.queue(plan).print(
            "  \u{2514}"@ + text::fill('\u{2500}', bars::capped(inner_w + 2) as nat) + "\u{2518}"@,
        ).queue(Command::ResetColor).crlf();
        Drawn { canvas: m, rows: out::rows_plus(out::rows_plus(1, md.1), 1) }
    }
}

fn render_plan_output(
    out: &mut RenderOut,
    assets: &Assets,
    args: &Vec<(String, Json)>,
    width: usize,
    env: &Env,
) -> (r: u16)
    ensures
        (Drawn { canvas: final(out)@, rows: r }) == plan_output(old(out)@, args@, width, *env),
{
    let body = str_or_empty(args, "plan_summary");
    if char_count(body) == 0 {
        return 0;
    }
    let inner_w: usize = width.saturating_sub(7);
    let fill: usize = inner_w.saturating_sub(6).saturating_add(1);
    out.queue(Command::SetForegroundColor(Color::AnsiValue(theme::PLAN)));
    let strokes = repeat_char('\u{2500}', fill);
    let top = cat3("  \u{250c}\u{2500} Plan ", strokes.as_str(), "\u{2510}");
    out.print(top.as_str());
    out.queue(Command::ResetColor);
    crlf(out);
    let boxed = BoxContext {
        left: "  \u{2502} ",
        right: " \u{2502}",
        color: Color::AnsiValue(theme::PLAN),
        inner_w,
    };
    let look = MdLook {
        width,
        term_width: env.term_width,
        indent: "  \u{2502} ",
        dim: false,
        boxed: Some(boxed),
        theme: env.theme,
    };
    let n: u16 = render_markdown_inner(out, assets, body, &look);
    let rows: u16 = 1u16.saturating_add(n);
    out.queue(Command::SetForegroundColor(Color::AnsiValue(theme::PLAN)));
    let strokes = repeat_char('\u{2500}', inner_w.saturating_add(2));
    let bottom = cat3("  \u{2514}", strokes.as_str(), "\u{2518}");
    out.print(bottom.as_str());
    out.queue(Command::ResetColor);
    crlf(out);
    rows.saturating_add(1)
}

/// Every line of the output, dim; one row is counted even for none.
pub open spec fn lines_output(m: Canvas, content: Seq<char>) -> Drawn {
    let ls = text::lines_of(content);
    let d = output_rows(out::drawn(m), ls, ls.len() as int, false);
    if d.rows < 1 {
        Drawn { rows: 1, ..d }
    } else {
        d
    }
}

/// What is counted in the output of a tool that finds things.
pub open spec fn found_things(name: Seq<char>) -> (Seq<char>, Seq<char>) {
    if name == "glob"@ {
        ("file"@, "files"@)
    } else if name == "grep"@ {
        ("match"@, "matches"@)
    } else {
        ("line"@, "lines"@)
    }
}

/// The output of a tool, each tool in its own way.
#[verifier::opaque]
pub open spec fn tool_output(
    m: Canvas,
    name: Seq<char>,
    o: ToolOutput,
    args: Seq<(String, Json)>,
    width: usize,
    env: Env,
) -> Drawn {
    let content = o.content@;
    let fine = !o.is_error;
    if fine && name == "web_search"@ {
        search_output(m, content)
    } else if fine && (name == "read_file"@ || name == "glob"@ || name == "grep"@) {
        count_row(
            m,
            text::lines_of(content).len(),
            found_things(name).0,
            found_things(name).1,
        )
    } else if fine && name == "web_fetch"@ {
        count_row(m, text::lines_of(content).len(), "line"@, "lines"@)
    } else if fine && name == "edit_file"@ {
        edit_output(m, o, args, env)
    } else if fine && name == "write_file"@ {
        write_output(m, args, env)
    } else if fine && name == "notebook_edit"@ {
        match o.notebook {
            Some(n) => notebook_change(m, n, env),
            None => default_output(m, content, o.is_error, width as int),
        }
    } else if fine && name == "ask_user_question"@ {
        question_output(m, content, parsed_answers(content), width as int)
    } else if fine && name == "exit_plan_mode"@ {
        plan_output(m, args, width, env)
    } else if name == "bash"@ || name == "read_process_output"@ || name == "stop_process"@ {
        wrapped_output(m, content, o.is_error, width as int)
    } else if fine && name == "peek_agent"@ {
        wrapped_output(m, content, false, width as int)
    } else if fine && (name == "list_agents"@ || name == "message_agent"@ || name == "stop_agent"@
        || name == "spawn_agent"@) {
        lines_output(m, content)
    } else {
        default_output(m, content, o.is_error, width as int)
    }
}

fn count_lines(content: &str) -> (r: usize)
    ensures
        r == text::lines_of(content@).len(),
{
    let ls = lines(content);
    assert(text::texts(ls@).len() == ls@.len());
    ls.len()
}

/// Shows the output of a tool; the result is the number of rows.
pub fn print_tool_output(
    out: &mut RenderOut,
    assets: &Assets,
    name: &str,
    output: &ToolOutput,
    args: &Vec<(String, Json)>,
    width: usize,
    env: &Env,
) -> (r: u16)
    ensures
        (Drawn { canvas: final(out)@, rows: r }) == tool_output(
            old(out)@,
            name@,
            *output,
            args@,
            width,
            *env,
        ),
{
    proof {
        reveal(tool_output);
    }
    let content = output.content.as_str();
    let fine = !output.is_error;
    if fine && same_text(name, "web_search") {
        render_search_output(out, content)
    } else if fine && (same_text(name, "read_file") || same_text(name, "glob") || same_text(
        name,
        "grep",
    )) {
        let n: usize = count_lines(content);
        if same_text(name, "glob") {
            print_dim_count(out, n, "file", "files")
        } else if same_text(name, "grep") {
            print_dim_count(out, n, "match", "matches")
        } else {
            print_dim_count(out, n, "line", "lines")
        }
    } else if fine && same_text(name, "web_fetch") {
        let n: usize = count_lines(content);
        print_dim_count(out, n, "line", "lines")
    } else if fine && same_text(name, "edit_file") {
        render_edit_output(out, assets, output, args, env)
    } else if fine && same_text(name, "write_file") {
        render_write_output(out, assets, args, env)
    } else if fine && same_text(name, "notebook_edit") {
        match &output.notebook {
            Some(n) => render_notebook_change(out, assets, n, env),
            None => render_default_output(out, content, output.is_error, width),
        }
    } else if fine && same_text(name, "ask_user_question") {
        render_question_output(out, content, width)
    } else if fine && same_text(name, "exit_plan_mode") {
        render_plan_output(out, assets, args, width, env)
    } else if same_text(name, "bash") || same_text(name, "read_process_output") || same_text(
        name,
        "stop_process",
    ) {
        render_wrapped_output(out, content, output.is_error, width)
    } else if fine && same_text(name, "peek_agent") {
        render_wrapped_output(out, content, false, width)
    } else if fine && (same_text(name, "list_agents") || same_text(name, "message_agent")
        || same_text(name, "stop_agent") || same_text(name, "spawn_agent")) {
        let ls = lines(content);
        assert(text::texts(ls@).len() == ls@.len());
        let rows: u16 = print_output_rows(out, &ls, false, 0);
        if rows < 1 {
            1
        } else {
            rows
        }
    } else {
        render_default_output(out, content, output.is_error, width)
    }
}

// ── Tool calls ───────────────────────────────────────────────────────────

/// The colour of a tool call's pill.
pub open spec fn status_color(status: ToolStatus, theme: Theme) -> Color {
    match status {
        ToolStatus::Success => Color::AnsiValue(theme::SUCCESS),
        ToolStatus::Failed => theme::ERROR,
        ToolStatus::Denied => theme::ERROR,
        ToolStatus::Confirm => theme.accent_color(),
        ToolStatus::Pending => theme.tool_pending_color(),
    }
}

/// Tools whose duration is shown.
pub open spec fn timed_tool(name: Seq<char>) -> bool {
    name == "bash"@ || name == "web_fetch"@ || name == "read_process_output"@ || name
        == "stop_process"@ || name == "peek_agent"@
}

pub fn is_timed_tool(name: &str) -> (r: bool)
    ensures
        r == timed_tool(name@),
{
    same_text(name, "bash") || same_text(name, "web_fetch") || same_text(
        name,
        "read_process_output",
    ) || same_text(name, "stop_process") || same_text(name, "peek_agent")
}

/// What is said of a timeout of `ms` milliseconds.
pub open spec fn timeout_text(ms: u64) -> Seq<char> {
    "timeout: "@ + utils::duration_text((ms / 1000) as nat)
}

/// The timeout that the arguments of a call give.
pub fn tool_timeout_label(args: &Vec<(String, Json)>) -> (r: Option<String>)
    ensures
        match r {
            Some(t) => json::natural_of(args@, "timeout_ms"@) is Some && t@ == timeout_text(
                json::natural_of(args@, "timeout_ms"@)->0,
            ),
            None => json::natural_of(args@, "timeout_ms"@) is None,
        },
{
    match get_u64(args, "timeout_ms") {
        Some(ms) => {
            let d = format_duration(ms / 1000);
            Some(cat("timeout: ", d.as_str()))
        },
        None => None,
    }
}

/// Milliseconds after which a shell command is stopped unless its arguments
/// say otherwise.
pub const DEFAULT_TIMEOUT_MS: u64 = 120000;

/// A tool call: its line, what it was asked, what the user said of it, and
/// its output.
pub open spec fn tool_drawn(
    m: Canvas,
    name: Seq<char>,
    summary: Seq<char>,
    args: Seq<(String, Json)>,
    status: ToolStatus,
    elapsed: Option<u64>,
    output: Option<ToolOutput>,
    user_message: Option<Seq<char>>,
    width: usize,
    env: Env,
) -> Drawn {
    let time = if timed_tool(name) && status != ToolStatus::Confirm {
        elapsed
    } else {
        None
    };
    let limit = if name == "bash"@ && status == ToolStatus::Pending {
        Some(
            timeout_text(
                match json::natural_of(args, "timeout_ms"@) {
                    Some(ms) => ms,
                    None => DEFAULT_TIMEOUT_MS,
                },
            ),
        )
    } else {
        None
    };
    let d = tool_line(
        m,
        name,
        summary,
        status_color(status, env.theme),
        time,
        limit,
        width as int,
    );
    let d = if name == "web_fetch"@ {
        match json::text_of(args, "prompt"@) {
            Some(p) => {
                let segs = wrap::wrapped(p, bars::at_least_zero(width - 4));
                output_rows(d, segs, segs.len() as int, false)
            },
            None => d,
        }
    } else {
        d
    };
    let d = match user_message {
        Some(t) => d.row(styled::dim_text(d.canvas, "   "@ + t).crlf()),
        None => d,
    };
    match output {
        Some(o) => if status != ToolStatus::Denied && o.content@.len() > 0 {
            let e = tool_output(d.canvas, name, o, args, width, env);
            d.rows(e.canvas, e.rows)
        } else {
            d
        },
        None => d,
    }
}

/// Shows a tool call; the result is the number of rows.
pub fn render_tool(
    out: &mut RenderOut,
    assets: &Assets,
    name: &str,
    summary: &str,
    args: &Vec<(String, Json)>,
    status: ToolStatus,
    elapsed: Option<u64>,
    output: &Option<ToolOutput>,
    user_message: &Option<String>,
    width: usize,
    env: &Env,
) -> (r: u16)
    ensures
        (Drawn { canvas: final(out)@, rows: r }) == tool_drawn(
            old(out)@,
            name@,
            summary@,
            args@,
            status,
            elapsed,
            *output,
            model::opt_view(*user_message),
            width,
            *env,
        ),
{
    let color = match status {
        ToolStatus::Success => Color::AnsiValue(theme::SUCCESS),
        ToolStatus::Failed => theme::ERROR,
        ToolStatus::Denied => theme::ERROR,
        ToolStatus::Confirm => theme::accent(&env.theme),
        ToolStatus::Pending => theme::tool_pending(&env.theme),
    };
    let time: Option<u64> = if is_timed_tool(name) && status != ToolStatus::Confirm {
        elapsed
    } else {
        None
    };
    let mut rows: u16 = if same_text(name, "bash") && status == ToolStatus::Pending {
        let ms: u64 = match get_u64(args, "timeout_ms") {
            Some(ms) => ms,
            None => DEFAULT_TIMEOUT_MS,
        };
        let d = format_duration(ms / 1000);
        let l = cat("timeout: ", d.as_str());
        print_tool_line(out, assets, name, summary, color, time, Some(l.as_str()), width)
    } else {
        print_tool_line(out, assets, name, summary, color, time, None, width)
    };
    if same_text(name, "web_fetch") {
        match get_str(args, "prompt") {
            Some(p) => {
                let segs = wrap_line(p, width.saturating_sub(4));
                assert(text::texts(segs@).len() == segs@.len());
                rows = print_output_rows(out, &segs, false, rows);
            },
            None => {},
        }
    }
    match user_message {
        Some(msg) => {
            let t = cat("   ", msg.as_str());
            print_dim(out, t.as_str());
            crlf(out);
            rows = rows.saturating_add(1);
        },
        None => {},
    }
    match output {
        Some(o) => {
            if status != ToolStatus::Denied && char_count(o.content.as_str()) > 0 {
                let n: u16 = print_tool_output(out, assets, name, o, args, width, env);
                rows = rows.saturating_add(n);
            }
        },
        None => {},
    }
    rows
}

proof fn lemma_shell_rows(
    d: Drawn,
    segs: Seq<Seq<char>>,
    n: int,
    prefix: int,
    time: Seq<char>,
    timeout: Seq<char>,
)
    requires
        0 <= n,
        d.rows + n <= u16::MAX,
    ensures
        shell_rows(d, segs, n, prefix, time, timeout).rows == d.rows + n,
    decreases n,
{
    if n > 0 {
        lemma_shell_rows(d, segs, n - 1, prefix, time, timeout);
    }
}

proof fn lemma_wrapped_some(s: Seq<char>, width: int)
    ensures
        wrap::wrapped(s, width).len() >= 1,
{
    let parts = text::split_on(s, '\n');
    wrap::lemma_split_nonempty(s, '\n', 0);
    let n = parts.len() as int;
    assert(wrap::wrapped_lines(parts, n, width).len() >= wrap::wrapped_logical(
        parts[n - 1],
        width,
    ).len());
}

/// The rows that are counted for the line of a tool call are those that it
/// takes when it is shown without a time and a timeout.
pub proof fn law_tool_line_height(
    m: Canvas,
    name: Seq<char>,
    summary: Seq<char>,
    color: Color,
    width: int,
)
    requires
        text::lines_of(summary).len() > 0,
    ensures
        tool_line(m, name, summary, color, None, None, width).rows == tool_line_height(
            name,
            summary,
            width,
        ),
{
    reveal(tool_line);
    reveal_strlit("");
    assert(text::byte_len(""@) == 0) by {
        assert(""@ =~= Seq::<char>::empty());
        reveal_with_fuel(vstd::utf8::encode_utf8, 1);
    }
    let cols = summary_columns(name, 0, width);
    let segs = summary_segments(summary, cols);
    let total = segs.len() as int;
    let show = if total > MAX_TOOL_SUMMARY_ROWS {
        MAX_TOOL_SUMMARY_ROWS as int
    } else {
        total
    };
    let ls = text::lines_of(summary);
    lemma_wrapped_some(ls[ls.len() - 1], at_least_one(cols));
    assert(total >= 1);
    let c = m.print(" "@).queue(Command::SetForegroundColor(color)).print("\u{23fa}"@).queue(
        Command::ResetColor,
    );
    let d = out::drawn(styled::dim_text(c, " "@ + name + " "@));
    lemma_shell_rows(d, segs, show, tool_prefix(name), time_suffix(None), ""@);
}

} // verus!
