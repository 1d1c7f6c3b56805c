//! What a reader sees of tool calls.

use vstd::prelude::*;

use crate::json::Json;
use crate::render::bars;
use crate::render::highlight;
use crate::render::model::{ToolOutput, ToolStatus};
use crate::render::out;
use crate::render::out::{Attribute, Canvas, Color, Command, Drawn};
use crate::render::seen;
use crate::render::styled;
use crate::render::styled::Env;
use crate::render::tools;
use crate::render::wrap;
use crate::text;

verus! {

/// Texts behind an indentation.
pub open spec fn indented(ls: Seq<Seq<char>>) -> Seq<Seq<char>> {
    Seq::new(ls.len(), |i: int| "   "@ + ls[i])
}

/// How rows of output are printed: dim, or in red when they tell of an
/// error.
pub open spec fn row_style(is_error: bool) -> Command<Seq<char>> {
    if is_error {
        Command::SetForegroundColor(Color::Red)
    } else {
        Command::SetAttribute(Attribute::Dim)
    }
}

pub proof fn lemma_row_behind(m: Canvas, t: Seq<char>, is_error: bool)
    ensures
        ({
            let r = if is_error {
                tools::error_text(m, t)
            } else {
                styled::dim_text(m, t)
            };
            &&& seen::prints_behind(r.crlf().cmds, row_style(is_error)) == seen::prints_behind(
                m.cmds,
                row_style(is_error),
            ).push(t)
            &&& seen::prints(r) == seen::prints(m).push(t)
        }),
{
    broadcast use seen::group_prints;

    reveal(Canvas::queue);
    reveal(Canvas::print);
    reveal(Canvas::crlf);
    let c = row_style(is_error);
    let end = if is_error {
        Command::ResetColor
    } else {
        Command::SetAttribute(Attribute::Reset)
    };
    let a = m.cmds.push(c);
    let b = a.push(Command::Print(t));
    let e = b.push(end);
    let f = e.push(Command::Clear(out::ClearType::UntilNewLine));
    seen::lemma_behind_push(m.cmds, c, c);
    seen::lemma_behind_push(a, Command::Print(t), c);
    seen::lemma_behind_push(b, end, c);
    seen::lemma_behind_push(e, Command::Clear(out::ClearType::UntilNewLine), c);
    match m.row {
        Some(r) => {
            seen::lemma_behind_push(f, Command::MoveTo(0, out::rows_plus(r, 1)), c);
        },
        None => {
            seen::lemma_behind_push(f, Command::Print("\r\n"@), c);
        },
    }
}

pub proof fn lemma_output_rows(d: Drawn, segs: Seq<Seq<char>>, n: int, is_error: bool)
    requires
        0 <= n <= segs.len(),
    ensures
        ({
            let r = tools::output_rows(d, segs, n, is_error).canvas;
            &&& seen::seen(r) == seen::seen(d.canvas) + seen::ink(seen::flat(segs.take(n)))
            &&& seen::prints_behind(r.cmds, row_style(is_error)) == seen::prints_behind(
                d.canvas.cmds,
                row_style(is_error),
            ) + indented(segs.take(n))
        }),
    decreases n,
{
    broadcast use {
        seen::lemma_seen_crlf,
        seen::lemma_flat_push,
        seen::lemma_ink_add,
        seen::lemma_ink_fill,
    };

    let c = row_style(is_error);
    if n <= 0 {
        assert(segs.take(n) =~= seq![]);
        assert(seen::seen(d.canvas) + seen::ink(seen::flat(segs.take(n))) =~= seen::seen(
            d.canvas,
        ));
        assert(seen::prints_behind(d.canvas.cmds, c) + indented(segs.take(n))
            =~= seen::prints_behind(d.canvas.cmds, c));
    } else {
        lemma_output_rows(d, segs, n - 1, is_error);
        let e = tools::output_rows(d, segs, n - 1, is_error);
        let s = segs[n - 1];
        let t = "   "@ + s;
        lemma_row_behind(e.canvas, t, is_error);
        reveal_strlit("   ");
        assert("   "@ =~= text::fill(' ', 3));
        assert(segs.take(n) =~= segs.take(n - 1).push(s));
        let r = tools::output_rows(d, segs, n, is_error).canvas;
        assert(seen::seen(r) =~= seen::seen(d.canvas) + seen::ink(seen::flat(segs.take(n))));
        assert(indented(segs.take(n)) =~= indented(segs.take(n - 1)).push(t));
        assert(seen::prints_behind(r.cmds, c) =~= seen::prints_behind(d.canvas.cmds, c) + indented(
            segs.take(n),
        ));
    }
}

pub proof fn lemma_wrapped_all(ls: Seq<Seq<char>>, n: int, width: int)
    requires
        0 <= n <= ls.len(),
        width >= 0,
    ensures
        seen::ink(seen::flat(tools::wrapped_all(ls, n, width))) == seen::ink(
            seen::flat(ls.take(n)),
        ),
    decreases n,
{
    broadcast use {seen::lemma_flat_push, seen::lemma_ink_add, seen::lemma_ink_wrapped};

    if n <= 0 {
        assert(ls.take(n) =~= seq![]);
    } else {
        lemma_wrapped_all(ls, n - 1, width);
        seen::lemma_flat_add(
            tools::wrapped_all(ls, n - 1, width),
            wrap::wrapped(ls[n - 1], width),
        );
        assert(ls.take(n) =~= ls.take(n - 1).push(ls[n - 1]));
    }
}

/// The rows of output text hold every character of the text that can be
/// seen, in order.
pub proof fn law_rows_hold_the_text(content: Seq<char>, width: int)
    ensures
        seen::ink(seen::flat(tools::output_segments(content, width))) == seen::ink(content),
{
    let ls = text::lines_of(content);
    let us = highlight::untabbed_lines(ls);
    lemma_wrapped_all(us, us.len() as int, bars::at_least_zero(width - 4));
    assert(us.take(us.len() as int) =~= us);
    seen::lemma_ink_untabbed_lines(ls);
    seen::lemma_ink_lines(content);
}

/// Whatever the status of a call that was not denied, its output is drawn
/// behind what is drawn of a call without output; output of a denied call,
/// and empty output, adds nothing.
pub proof fn law_output_is_drawn_whatever_the_status(
    m: Canvas,
    name: Seq<char>,
    summary: Seq<char>,
    args: Seq<(String, Json)>,
    status: ToolStatus,
    elapsed: Option<u64>,
    o: ToolOutput,
    said: Option<Seq<char>>,
    width: usize,
    env: Env,
)
    ensures
        ({
            let without = tools::tool_drawn(
                m,
                name,
                summary,
                args,
                status,
                elapsed,
                None,
                said,
                width,
                env,
            );
            let with = tools::tool_drawn(
                m,
                name,
                summary,
                args,
                status,
                elapsed,
                Some(o),
                said,
                width,
                env,
            );
            let shown = tools::tool_output(without.canvas, name, o, args, width, env);
            if status == ToolStatus::Denied || o.content@.len() == 0 {
                with == without
            } else {
                with.canvas == shown.canvas && with.rows == out::rows_plus(
                    without.rows,
                    shown.rows,
                )
            }
        }),
{
}

/// The tools whose output is shown row by row.
pub open spec fn shows_rows(name: Seq<char>) -> bool {
    name == "bash"@ || name == "read_process_output"@ || name == "stop_process"@
}

/// What is printed below a call when its rows of output are `rows`: all of
/// them, or the last twenty behind a note on how many there are above.
pub open spec fn tail_seen(rows: Seq<Seq<char>>) -> Seq<char> {
    if rows.len() <= 20 {
        seen::ink(seen::flat(rows))
    } else {
        seen::ink("..."@) + seen::ink(
            if rows.len() == 21 {
                "1 line above"@
            } else {
                text::dec((rows.len() - 20) as nat) + "lines above"@
            },
        ) + seen::ink(seen::flat(rows.skip(rows.len() - 20)))
    }
}

proof fn lemma_note(n: nat)
    ensures
        seen::ink("   ... "@ + styled::counted(n, "line"@, "lines"@) + " above"@) == seen::ink(
            "..."@,
        ) + seen::ink(
            if n == 1 {
                "1 line above"@
            } else {
                text::dec(n) + "lines above"@
            },
        ),
{
    broadcast use {seen::lemma_ink_add, seen::lemma_ink_fill};

    reveal_strlit("   ... ");
    reveal_strlit("...");
    reveal_strlit(" above");
    reveal_strlit("1 ");
    reveal_strlit("line");
    reveal_strlit("lines");
    reveal_strlit(" ");
    reveal_strlit("1 line above");
    reveal_strlit("lines above");
    assert("   ... "@ =~= text::fill(' ', 3) + "..."@ + text::fill(' ', 1));
    assert(" "@ =~= text::fill(' ', 1));
    let c = styled::counted(n, "line"@, "lines"@);
    if n == 1 {
        assert(c + " above"@ =~= "1 line above"@);
        assert("   ... "@ + c + " above"@ =~= "   ... "@ + (c + " above"@));
    } else {
        assert("lines above"@ =~= "lines"@ + " above"@);
        assert(seen::ink(c) =~= seen::ink(text::dec(n)) + seen::ink("lines"@));
    }
    assert(seen::ink("   ... "@ + c + " above"@) =~= seen::ink("..."@) + seen::ink(
        if n == 1 {
            "1 line above"@
        } else {
            text::dec(n) + "lines above"@
        },
    ));
}

pub proof fn lemma_wrapped_output(m: Canvas, content: Seq<char>, is_error: bool, width: int)
    ensures
        ({
            let r = tools::wrapped_output(m, content, is_error, width).canvas;
            let rows = tools::output_segments(content, width);
            &&& seen::seen(r) == seen::seen(m) + tail_seen(rows)
            &&& rows.len() <= 20 ==> seen::prints_behind(r.cmds, row_style(is_error))
                == seen::prints_behind(m.cmds, row_style(is_error)) + indented(rows)
        }),
{
    broadcast use {seen::lemma_seen_crlf, seen::lemma_flat_push, seen::lemma_ink_add};

    let rows = tools::output_segments(content, width);
    let r = tools::wrapped_output(m, content, is_error, width).canvas;
    if rows.len() > 20 {
        let k = (rows.len() - 20) as nat;
        let note = "   ... "@ + styled::counted(k, "line"@, "lines"@) + " above"@;
        let d = out::drawn(m).row(styled::dim_text(m, note).crlf());
        lemma_row_behind(m, note, false);
        lemma_note(k);
        let tail = rows.skip(k as int);
        lemma_output_rows(d, tail, 20, is_error);
        assert(tail.take(20) =~= tail);
        assert(seen::seen(r) =~= seen::seen(m) + tail_seen(rows));
    } else {
        lemma_output_rows(out::drawn(m), rows, rows.len() as int, is_error);
        assert(rows.take(rows.len() as int) =~= rows);
    }
}

/// A text without line feeds at its end.
pub open spec fn without_end(content: Seq<char>) -> Seq<char> {
    text::drop_back(content, |x: char| x == '\n')
}

/// What is seen of a text of which three lines are shown: the lines with
/// bars between them, and how many there are where there are more.
pub open spec fn head_seen(ls: Seq<Seq<char>>) -> Seq<char> {
    if ls.len() <= 3 {
        seen::ink(text::join_texts(ls, " | "@))
    } else {
        seen::ink(ls[0]) + seen::ink("|"@) + seen::ink(ls[1]) + seen::ink("|"@) + seen::ink(ls[2])
            + seen::ink("...("@) + seen::ink(text::dec(ls.len())) + seen::ink("lines)"@)
    }
}

proof fn lemma_preview(content: Seq<char>)
    ensures
        seen::ink(tools::preview(content, 3)) == head_seen(text::lines_of(without_end(content))),
{
    broadcast use {seen::lemma_ink_add, seen::lemma_ink_fill};

    let ls = text::lines_of(without_end(content));
    assert(text::drop_back(content, |x: char| x == '\n') == without_end(content));
    if ls.len() > 3 {
        let a = ls.take(3);
        assert(a.drop_last() =~= ls.take(2));
        assert(ls.take(2).drop_last() =~= ls.take(1));
        assert(text::join_texts(ls.take(1), " | "@) == ls[0]);
        assert(text::join_texts(ls.take(2), " | "@) == ls[0] + " | "@ + ls[1]);
        assert(text::join_texts(a, " | "@) == ls[0] + " | "@ + ls[1] + " | "@ + ls[2]);
        reveal_strlit(" | ");
        reveal_strlit("|");
        reveal_strlit(" ... (");
        reveal_strlit("...(");
        reveal_strlit(" ");
        reveal_strlit("lines");
        reveal_strlit("lines)");
        reveal_strlit(")");
        let sp = text::fill(' ', 1);
        assert(" | "@ =~= sp + "|"@ + sp);
        assert(" "@ =~= sp);
        assert(" ... ("@ =~= sp + "..."@ + sp + "("@) by {
            reveal_strlit("...");
            reveal_strlit("(");
        }
        assert("...("@ =~= "..."@ + "("@) by {
            reveal_strlit("...");
            reveal_strlit("(");
        }
        assert("lines)"@ =~= "lines"@ + ")"@);
        assert(seen::ink(" | "@) =~= seen::ink("|"@));
        assert(seen::ink(" ... ("@) =~= seen::ink("...("@));
        let c = styled::counted(ls.len(), "line"@, "lines"@);
        assert(seen::ink(c + ")"@) =~= seen::ink(text::dec(ls.len())) + seen::ink("lines)"@));
        assert(seen::ink(tools::preview(content, 3)) =~= head_seen(ls));
    }
}

proof fn lemma_default_output(m: Canvas, content: Seq<char>, is_error: bool, width: int)
    ensures
        ({
            let r = tools::default_output(m, content, is_error, width).canvas;
            let ls = text::lines_of(without_end(content));
            let before = seen::prints_behind(m.cmds, row_style(is_error));
            &&& seen::seen(r) == seen::seen(m) + head_seen(ls)
            &&& exists|rows: Seq<Seq<char>>|
                {
                    &&& seen::prints_behind(r.cmds, row_style(is_error)) == before
                        + #[trigger] indented(rows)
                    &&& seen::ink(seen::flat(rows)) == head_seen(ls)
                }
        }),
{
    let w = bars::at_least_zero(width - 4);
    let p = tools::preview(content, 3);
    let segs = wrap::wrapped(p, w);
    lemma_output_rows(out::drawn(m), segs, segs.len() as int, is_error);
    assert(segs.take(segs.len() as int) =~= segs);
    lemma_preview(content);
    seen::lemma_ink_wrapped(p, w);
    let r = tools::default_output(m, content, is_error, width).canvas;
    assert(seen::prints_behind(r.cmds, row_style(is_error)) == seen::prints_behind(
        m.cmds,
        row_style(is_error),
    ) + indented(segs));
}

/// The output of a call that ended in an error is shown below it, in red: of
/// a shell command or a process its rows, of which the last twenty where
/// there are more; of any other tool its first three lines.
pub proof fn law_errors_are_shown(
    m: Canvas,
    name: Seq<char>,
    o: ToolOutput,
    args: Seq<(String, Json)>,
    width: usize,
    env: Env,
)
    requires
        o.is_error,
    ensures
        ({
            let r = tools::tool_output(m, name, o, args, width, env).canvas;
            let red = Command::SetForegroundColor(Color::Red);
            let rows = tools::output_segments(o.content@, width as int);
            let ls = text::lines_of(without_end(o.content@));
            let shown = if shows_rows(name) {
                tail_seen(rows)
            } else {
                head_seen(ls)
            };
            &&& seen::seen(r) == seen::seen(m) + shown
            &&& seen::ink(seen::flat(rows)) == seen::ink(o.content@)
            &&& seen::ink(seen::flat(ls)) == seen::ink(o.content@)
            &&& !shows_rows(name) || rows.len() <= 20 ==> exists|inred: Seq<Seq<char>>|
                {
                    &&& seen::prints_behind(r.cmds, red) == seen::prints_behind(m.cmds, red)
                        + #[trigger] indented(inred)
                    &&& seen::ink(seen::flat(inred)) == shown
                }
        }),
{
    reveal(tools::tool_output);
    let content = o.content@;
    lemma_wrapped_output(m, content, true, width as int);
    lemma_default_output(m, content, true, width as int);
    law_rows_hold_the_text(content, width as int);
    seen::lemma_ink_lines(without_end(content));
    lemma_without_end(content);
    let rows = tools::output_segments(content, width as int);
    let r = tools::tool_output(m, name, o, args, width, env).canvas;
    if shows_rows(name) && rows.len() <= 20 {
        assert(seen::prints_behind(r.cmds, Command::SetForegroundColor(Color::Red))
            == seen::prints_behind(m.cmds, Command::SetForegroundColor(Color::Red)) + indented(
            rows,
        ));
    }
}

proof fn lemma_without_end(s: Seq<char>)
    ensures
        seen::ink(without_end(s)) == seen::ink(s),
    decreases s.len(),
{
    if s.len() > 0 && s.last() == '\n' {
        lemma_without_end(s.drop_last());
        assert(text::drop_back(s, |x: char| x == '\n') == text::drop_back(
            s.drop_last(),
            |x: char| x == '\n',
        ));
    }
}

/// The text of a failed call's output appears below the call: a single line
/// whole, whatever the tool.
pub proof fn law_failure_says_why(
    m: Canvas,
    name: Seq<char>,
    summary: Seq<char>,
    args: Seq<(String, Json)>,
    elapsed: Option<u64>,
    o: ToolOutput,
    said: Option<Seq<char>>,
    width: usize,
    env: Env,
)
    requires
        o.is_error,
        o.content@.len() > 0,
        text::lines_of(without_end(o.content@)).len() <= 1,
        tools::output_segments(o.content@, width as int).len() <= 20,
    ensures
        ({
            let without = tools::tool_drawn(
                m,
                name,
                summary,
                args,
                ToolStatus::Failed,
                elapsed,
                None,
                said,
                width,
                env,
            ).canvas;
            let with = tools::tool_drawn(
                m,
                name,
                summary,
                args,
                ToolStatus::Failed,
                elapsed,
                Some(o),
                said,
                width,
                env,
            ).canvas;
            seen::seen(with) == seen::seen(without) + seen::ink(o.content@)
        }),
{
    law_output_is_drawn_whatever_the_status(
        m,
        name,
        summary,
        args,
        ToolStatus::Failed,
        elapsed,
        o,
        said,
        width,
        env,
    );
    let without = tools::tool_drawn(
        m,
        name,
        summary,
        args,
        ToolStatus::Failed,
        elapsed,
        None,
        said,
        width,
        env,
    ).canvas;
    law_errors_are_shown(without, name, o, args, width, env);
    let ls = text::lines_of(without_end(o.content@));
    if ls.len() == 1 {
        assert(seen::flat(ls.drop_last()) == Seq::<char>::empty());
        assert(seen::flat(ls) =~= ls[0]);
    }
}

/// Output of a shell command or a process that went well is shown dim, row
/// by row, and so is what an agent that is watched says.
pub proof fn law_rows_of_output_are_shown(
    m: Canvas,
    name: Seq<char>,
    o: ToolOutput,
    args: Seq<(String, Json)>,
    width: usize,
    env: Env,
)
    requires
        !o.is_error,
        shows_rows(name) || name == "peek_agent"@,
    ensures
        ({
            let r = tools::tool_output(m, name, o, args, width, env).canvas;
            let rows = tools::output_segments(o.content@, width as int);
            let dim = Command::SetAttribute(Attribute::Dim);
            &&& seen::seen(r) == seen::seen(m) + tail_seen(rows)
            &&& seen::ink(seen::flat(rows)) == seen::ink(o.content@)
            &&& rows.len() <= 20 ==> seen::prints_behind(r.cmds, dim) == seen::prints_behind(
                m.cmds,
                dim,
            ) + indented(rows)
        }),
{
    lemma_names();
    reveal(tools::tool_output);
    lemma_wrapped_output(m, o.content@, false, width as int);
    law_rows_hold_the_text(o.content@, width as int);
}

/// The names of tools differ.
pub proof fn lemma_names()
    ensures
        "bash"@.len() == 4,
        "glob"@.len() == 4,
        "grep"@.len() == 4,
        "bash"@ != "glob"@,
        "bash"@ != "grep"@,
        "glob"@ != "grep"@,
        "read_file"@.len() == 9,
        "edit_file"@.len() == 9,
        "web_fetch"@.len() == 9,
        "read_file"@ != "edit_file"@,
        "read_file"@ != "web_fetch"@,
        "edit_file"@ != "web_fetch"@,
        "web_search"@.len() == 10,
        "write_file"@.len() == 10,
        "peek_agent"@.len() == 10,
        "stop_agent"@.len() == 10,
        "web_search"@ != "write_file"@,
        "web_search"@ != "peek_agent"@,
        "web_search"@ != "stop_agent"@,
        "write_file"@ != "peek_agent"@,
        "write_file"@ != "stop_agent"@,
        "peek_agent"@ != "stop_agent"@,
        "list_agents"@.len() == 11,
        "spawn_agent"@.len() == 11,
        "list_agents"@ != "spawn_agent"@,
        "stop_process"@.len() == 12,
        "notebook_edit"@.len() == 13,
        "message_agent"@.len() == 13,
        "notebook_edit"@ != "message_agent"@,
        "exit_plan_mode"@.len() == 14,
        "ask_user_question"@.len() == 17,
        "read_process_output"@.len() == 19,
{
    reveal_strlit("bash");
    reveal_strlit("glob");
    reveal_strlit("grep");
    reveal_strlit("read_file");
    reveal_strlit("edit_file");
    reveal_strlit("web_fetch");
    reveal_strlit("web_search");
    reveal_strlit("write_file");
    reveal_strlit("peek_agent");
    reveal_strlit("stop_agent");
    reveal_strlit("list_agents");
    reveal_strlit("spawn_agent");
    reveal_strlit("stop_process");
    reveal_strlit("notebook_edit");
    reveal_strlit("message_agent");
    reveal_strlit("exit_plan_mode");
    reveal_strlit("ask_user_question");
    reveal_strlit("read_process_output");
    assert("bash"@[0] == 'b');
    assert("glob"@[1] == 'l');
    assert("grep"@[1] == 'r');
    assert("read_file"@[0] == 'r');
    assert("edit_file"@[0] == 'e');
    assert("web_fetch"@[0] == 'w');
    assert("web_search"@[2] == 'b');
    assert("write_file"@[2] == 'i');
    assert("peek_agent"@[2] == 'e');
    assert("stop_agent"@[2] == 'o');
    assert("list_agents"@[0] == 'l');
    assert("spawn_agent"@[0] == 's');
    assert("notebook_edit"@[0] == 'n');
    assert("message_agent"@[0] == 'm');
}

/// What agents are told and asked is answered in full: every line of the
/// output is shown.
pub proof fn law_lines_of_output_are_shown(
    m: Canvas,
    name: Seq<char>,
    o: ToolOutput,
    args: Seq<(String, Json)>,
    width: usize,
    env: Env,
)
    requires
        !o.is_error,
        name == "list_agents"@ || name == "message_agent"@ || name == "stop_agent"@ || name
            == "spawn_agent"@,
    ensures
        seen::seen(tools::tool_output(m, name, o, args, width, env).canvas) == seen::seen(m)
            + seen::ink(o.content@),
{
    lemma_names();
    reveal(tools::tool_output);
    let ls = text::lines_of(o.content@);
    lemma_output_rows(out::drawn(m), ls, ls.len() as int, false);
    assert(ls.take(ls.len() as int) =~= ls);
    seen::lemma_ink_lines(o.content@);
}

pub proof fn lemma_count_row(m: Canvas, n: nat, one: Seq<char>, many: Seq<char>)
    ensures
        tools::count_row(m, n, one, many).rows == 1,
        seen::seen(tools::count_row(m, n, one, many).canvas) == seen::seen(m) + seen::ink(
            text::dec(n),
        ) + seen::ink(
            if n == 1 {
                one
            } else {
                many
            },
        ),
{
    broadcast use {
        seen::lemma_seen_crlf,
        seen::lemma_flat_push,
        seen::lemma_ink_add,
        seen::lemma_ink_fill,
    };

    let t = "   "@ + styled::counted(n, one, many);
    lemma_row_behind(m, t, false);
    reveal_strlit("   ");
    reveal_strlit(" ");
    reveal_strlit("1 ");
    assert("   "@ =~= text::fill(' ', 3));
    assert(" "@ =~= text::fill(' ', 1));
    let noun = if n == 1 {
        one
    } else {
        many
    };
    if n == 1 {
        assert(text::dec(1) =~= seq!['1']);
        assert("1 "@ =~= text::dec(1) + text::fill(' ', 1));
    }
    assert(seen::ink(t) =~= seen::ink(text::dec(n)) + seen::ink(noun));
    assert(seen::seen(tools::count_row(m, n, one, many).canvas) =~= seen::seen(m) + seen::ink(
        text::dec(n),
    ) + seen::ink(noun));
}

/// Of what tools find and read only the number of lines is shown, with the
/// noun that fits: files, matches, or lines.
pub proof fn law_found_things_are_counted(
    m: Canvas,
    name: Seq<char>,
    o: ToolOutput,
    args: Seq<(String, Json)>,
    width: usize,
    env: Env,
)
    requires
        !o.is_error,
        name == "read_file"@ || name == "web_fetch"@ || name == "glob"@ || name == "grep"@,
    ensures
        ({
            let r = tools::tool_output(m, name, o, args, width, env);
            let n = text::lines_of(o.content@).len();
            let noun = if name == "glob"@ {
                if n == 1 {
                    "file"@
                } else {
                    "files"@
                }
            } else if name == "grep"@ {
                if n == 1 {
                    "match"@
                } else {
                    "matches"@
                }
            } else {
                if n == 1 {
                    "line"@
                } else {
                    "lines"@
                }
            };
            &&& r.rows == 1
            &&& seen::seen(r.canvas) == seen::seen(m) + seen::ink(text::dec(n)) + seen::ink(noun)
        }),
{
    lemma_names();
    reveal(tools::tool_output);
    let n = text::lines_of(o.content@).len();
    if name == "glob"@ {
        lemma_count_row(m, n, "file"@, "files"@);
    } else if name == "grep"@ {
        lemma_count_row(m, n, "match"@, "matches"@);
    } else {
        lemma_count_row(m, n, "line"@, "lines"@);
    }
}

} // verus!
