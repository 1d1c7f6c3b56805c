//! What a dialog shows of the call that it asks about.

use vstd::prelude::*;

use crate::dialogs::notebook;
use crate::dialogs::notebook::NotebookEdit;
use crate::json;
use crate::json::{str_or_empty, Json};
use crate::render::bars;
use crate::render::diff;
use crate::render::diff::{count_inline_diff_rows, print_inline_diff, print_syntax_file};
use crate::render::diff_laws;
use crate::render::highlight;
use crate::render::highlight::{Assets, BashHighlighter, History};
use crate::render::markdown;
use crate::render::markdown::{render_markdown_inner, MdLook};
use crate::render::out;
use crate::render::out::{crlf, Canvas, Color, Command, RenderOut};
use crate::render::prompt;
use crate::render::prompt::split_lines;
use crate::render::screen;
use crate::render::styled::Env;
use crate::render::tools;
use crate::render::wrap;
use crate::render::wrap::wrap_line;
use crate::text;
use crate::text::{lines, same_text};
use crate::theme;

verus! {

/// What a dialog shows of a call.
pub enum ConfirmPreview<T> {
    Nothing,
    /// The difference that an edit makes.
    Diff { old: T, new: T, path: T },
    /// The change of a notebook, under a title.
    Notebook { edit: NotebookEdit<T>, title: T },
    /// The file that is written.
    FileContent { content: T, path: T },
    /// A command of several lines; the first is in the title of the dialog.
    BashBody { full_command: T },
    /// A plan.
    PlanContent { summary: T },
}

pub open spec fn preview_view(p: ConfirmPreview<String>) -> ConfirmPreview<Seq<char>> {
    match p {
        ConfirmPreview::Nothing => ConfirmPreview::Nothing,
        ConfirmPreview::Diff { old, new, path } => ConfirmPreview::Diff {
            old: old@,
            new: new@,
            path: path@,
        },
        ConfirmPreview::Notebook { edit, title } => ConfirmPreview::Notebook {
            edit: notebook::edit_view(edit),
            title: title@,
        },
        ConfirmPreview::FileContent { content, path } => ConfirmPreview::FileContent {
            content: content@,
            path: path@,
        },
        ConfirmPreview::BashBody { full_command } => ConfirmPreview::BashBody {
            full_command: full_command@,
        },
        ConfirmPreview::PlanContent { summary } => ConfirmPreview::PlanContent {
            summary: summary@,
        },
    }
}

/// A change of a notebook under its title, in characters.
pub open spec fn titled_view(e: Option<(NotebookEdit<String>, String)>) -> Option<
    (NotebookEdit<Seq<char>>, Seq<char>),
> {
    match e {
        Some((edit, title)) => Some((notebook::edit_view(edit), title@)),
        None => None,
    }
}

/// What is shown of a call.
pub open spec fn preview_of(
    tool: Seq<char>,
    desc: Seq<char>,
    args: Seq<(String, Json)>,
    edit: Option<(NotebookEdit<Seq<char>>, Seq<char>)>,
) -> ConfirmPreview<Seq<char>> {
    if tool == "edit_file"@ {
        ConfirmPreview::Diff {
            old: json::text_or_empty(args, "old_string"@),
            new: json::text_or_empty(args, "new_string"@),
            path: json::text_or_empty(args, "file_path"@),
        }
    } else if tool == "notebook_edit"@ {
        match edit {
            Some((e, title)) => ConfirmPreview::Notebook { edit: e, title },
            None => ConfirmPreview::Nothing,
        }
    } else if tool == "write_file"@ {
        ConfirmPreview::FileContent {
            content: json::text_or_empty(args, "content"@),
            path: json::text_or_empty(args, "file_path"@),
        }
    } else if tool == "bash"@ && text::lines_of(desc).len() > 1 {
        ConfirmPreview::BashBody { full_command: desc }
    } else if tool == "exit_plan_mode"@ {
        ConfirmPreview::PlanContent { summary: json::text_or_empty(args, "plan_summary"@) }
    } else {
        ConfirmPreview::Nothing
    }
}

// ── Rows ─────────────────────────────────────────────────────────────────

/// The lines of a notebook's title.
pub open spec fn title_lines(title: Seq<char>, env: Env) -> Seq<Seq<char>> {
    wrap::wrapped(title, bars::at_least_zero(env.term_width - 4))
}

/// Rows of a notebook's change.
pub open spec fn notebook_rows(e: NotebookEdit<Seq<char>>, title: Seq<char>, env: Env) -> u16 {
    out::rows_plus(
        title_lines(title, env).len() as u16,
        if e.edit_mode == "insert"@ {
            tools::at_least_one(text::lines_of(e.new_source).len() as int) as u16
        } else {
            diff::diff_row_count(
                env.file(e.path),
                e.old_source,
                e.new_source,
                e.old_source,
                env.term_width,
            )
        },
    )
}

/// How a plan is rendered.
pub open spec fn plan_look(width: usize, env: Env) -> MdLook {
    MdLook {
        width,
        term_width: env.term_width,
        indent: " ",
        dim: false,
        boxed: None,
        theme: env.theme,
    }
}

/// A plan, rendered.
pub open spec fn plan_commands(summary: Seq<char>, width: usize, env: Env) -> Seq<
    Command<Seq<char>>,
> {
    markdown::markdown(Canvas::blank(), summary, plan_look(width, env)).0.cmds
}

/// Rows of what is shown of a call.
#[verifier::opaque]
pub open spec fn preview_rows(p: ConfirmPreview<Seq<char>>, width: usize, env: Env) -> u16 {
    match p {
        ConfirmPreview::Nothing => 0,
        ConfirmPreview::Diff { old, new, path } => diff::diff_row_count(
            env.file(path),
            old,
            new,
            old,
            env.term_width,
        ),
        ConfirmPreview::Notebook { edit, title } => notebook_rows(edit, title, env),
        ConfirmPreview::FileContent { content, path: _ } => text::lines_of(content).len() as u16,
        ConfirmPreview::BashBody { full_command } => bars::at_least_zero(
            text::lines_of(full_command).len() - 1,
        ) as u16,
        ConfirmPreview::PlanContent { summary } => prompt::complete_lines(
            plan_commands(summary, width, env),
        ) as u16,
    }
}

/// Whether anything is shown.
pub open spec fn shows_anything<T>(p: ConfirmPreview<T>) -> bool {
    !(p is Nothing)
}

/// Whether a line stands above what is shown.
pub open spec fn has_line_above<T>(p: ConfirmPreview<T>) -> bool {
    !(p is Nothing) && !(p is BashBody)
}

// ── Drawing ──────────────────────────────────────────────────────────────

/// Part of a command that is shown.
pub struct BodyState {
    pub canvas: Canvas,
    pub history: History,
    pub emitted: u16,
}

/// Draws those of the first `n` lines of a command that are shown: `skip` are
/// left out, and `viewport` are shown at most.
pub open spec fn body_drawn(
    s: BodyState,
    ls: Seq<Seq<char>>,
    n: int,
    skip: u16,
    viewport: u16,
) -> BodyState
    decreases n,
{
    if n <= 0 {
        s
    } else {
        let a = body_drawn(s, ls, n - 1, skip, viewport);
        let line = ls[n - 1];
        let h = highlight::after_line(a.history, line);
        if a.emitted >= viewport {
            a
        } else if ((n - 1) as u16) < skip {
            BodyState { history: h, ..a }
        } else {
            BodyState {
                canvas: highlight::shell_line(a.canvas.print(" "@), a.history, line).crlf(),
                history: h,
                emitted: (a.emitted + 1) as u16,
            }
        }
    }
}

/// Part of rendered lines that is shown.
pub struct LinesState {
    pub canvas: Canvas,
    pub emitted: u16,
}

/// Draws those of the first `n` rendered lines that are shown.
pub open spec fn lines_drawn(
    m: Canvas,
    ls: Seq<Seq<Command<Seq<char>>>>,
    n: int,
    skip: u16,
    viewport: u16,
) -> LinesState
    decreases n,
{
    if n <= 0 {
        LinesState { canvas: m, emitted: 0 }
    } else {
        let a = lines_drawn(m, ls, n - 1, skip, viewport);
        if a.emitted >= viewport || ((n - 1) as u16) < skip {
            a
        } else {
            LinesState {
                canvas: a.canvas.append(ls[n - 1]).crlf(),
                emitted: (a.emitted + 1) as u16,
            }
        }
    }
}

/// Part of a title that is shown.
pub struct TitleState {
    pub canvas: Canvas,
    /// Lines still to be left out.
    pub skip: u16,
    pub emitted: u16,
    /// There was no room for a line.
    pub full: bool,
}

/// Draws those of the first `n` lines of a title that are shown; there is no
/// limit when `viewport` is zero.
pub open spec fn title_drawn(
    m: Canvas,
    ls: Seq<Seq<char>>,
    n: int,
    skip: u16,
    viewport: u16,
) -> TitleState
    decreases n,
{
    if n <= 0 {
        TitleState { canvas: m, skip, emitted: 0, full: false }
    } else {
        let a = title_drawn(m, ls, n - 1, skip, viewport);
        if a.full {
            a
        } else if a.skip > 0 {
            TitleState { skip: (a.skip - 1) as u16, ..a }
        } else if viewport > 0 && a.emitted >= viewport {
            TitleState { full: true, ..a }
        } else {
            TitleState {
                canvas: a.canvas.print(" "@).push_fg(Color::AnsiValue(theme::MUTED)).print(
                    ls[n - 1],
                ).pop_style().crlf(),
                emitted: out::rows_plus(a.emitted, 1),
                ..a
            }
        }
    }
}

/// Draws a notebook's change.
pub open spec fn notebook_drawn(
    m: Canvas,
    e: NotebookEdit<Seq<char>>,
    title: Seq<char>,
    skip: u16,
    viewport: u16,
    env: Env,
) -> Canvas {
    let ls = title_lines(title, env);
    let t = title_drawn(m, ls, ls.len() as int, skip, viewport);
    let left = if viewport == 0 {
        0
    } else {
        screen::rows_minus(viewport, t.emitted)
    };
    if t.full || (left == 0 && viewport > 0) {
        t.canvas
    } else if e.edit_mode == "insert"@ {
        diff::file_window(
            t.canvas,
            text::lines_of(e.new_source),
            diff::file_extension(e.path),
            t.skip,
            left,
            env.term_width,
        ).canvas
    } else {
        diff::inline_diff(
            t.canvas,
            env.file(e.path),
            e.old_source,
            e.new_source,
            diff::file_extension(e.path),
            e.old_source,
            t.skip,
            left,
            env.term_width,
        ).0
    }
}

/// Draws what is shown of a call: `skip` rows are left out, and `viewport` are
/// shown at most.  A `viewport` of zero is no limit on files, differences and
/// notebooks, and leaves no room for commands and plans.
#[verifier::opaque]
pub open spec fn preview_drawn(
    m: Canvas,
    p: ConfirmPreview<Seq<char>>,
    skip: u16,
    viewport: u16,
    width: usize,
    env: Env,
) -> Canvas {
    match p {
        ConfirmPreview::Nothing => m,
        ConfirmPreview::Diff { old, new, path } => diff::inline_diff(
            m,
            env.file(path),
            old,
            new,
            diff::file_extension(path),
            old,
            skip,
            viewport,
            env.term_width,
        ).0,
        ConfirmPreview::Notebook { edit, title } => notebook_drawn(
            m,
            edit,
            title,
            skip,
            viewport,
            env,
        ),
        ConfirmPreview::FileContent { content, path } => diff::file_window(
            m,
            text::lines_of(content),
            diff::file_extension(path),
            skip,
            viewport,
            env.term_width,
        ).canvas,
        ConfirmPreview::BashBody { full_command } => {
            let ls = text::lines_of(full_command);
            if ls.len() == 0 {
                m
            } else {
                let rest = ls.skip(1);
                body_drawn(
                    BodyState {
                        canvas: m,
                        history: highlight::after_line(highlight::shell_history(), ls[0]),
                        emitted: 0,
                    },
                    rest,
                    rest.len() as int,
                    skip,
                    viewport,
                ).canvas
            }
        },
        ConfirmPreview::PlanContent { summary } => {
            let ls = prompt::all_lines(plan_commands(summary, width, env));
            lines_drawn(m, ls, ls.len() as int, skip, viewport).canvas
        },
    }
}

// ── Laws ─────────────────────────────────────────────────────────────────

proof fn lemma_line_row(m: Canvas, ps: Seq<(u8, u8, u8, Seq<char>)>, n: int)
    ensures
        highlight::line_printed(m, ps, n).row == m.row,
    decreases n,
{
    reveal(Canvas::queue);
    reveal(Canvas::print);
    if n > 0 {
        lemma_line_row(m, ps, n - 1);
    }
}

proof fn lemma_body_row(
    s: BodyState,
    ls: Seq<Seq<char>>,
    n: int,
    skip: u16,
    viewport: u16,
    from: Option<u16>,
)
    requires
        s.emitted <= viewport,
        s.canvas.row == diff_laws::row_after(from, s.emitted),
    ensures
        ({
            let a = body_drawn(s, ls, n, skip, viewport);
            a.emitted <= viewport && a.canvas.row == diff_laws::row_after(from, a.emitted)
        }),
    decreases n,
{
    if n > 0 {
        lemma_body_row(s, ls, n - 1, skip, viewport, from);
        let a = body_drawn(s, ls, n - 1, skip, viewport);
        let ps = highlight::line_pieces(a.history, ls[n - 1]);
        reveal(Canvas::queue);
        reveal(Canvas::print);
        reveal(Canvas::crlf);
        lemma_line_row(a.canvas.print(" "@), ps, ps.len() as int);
    }
}

proof fn lemma_lines_row(
    m: Canvas,
    ls: Seq<Seq<Command<Seq<char>>>>,
    n: int,
    skip: u16,
    viewport: u16,
)
    ensures
        ({
            let a = lines_drawn(m, ls, n, skip, viewport);
            a.emitted <= viewport && a.canvas.row == diff_laws::row_after(m.row, a.emitted)
        }),
    decreases n,
{
    if n > 0 {
        lemma_lines_row(m, ls, n - 1, skip, viewport);
        reveal(Canvas::append);
        reveal(Canvas::crlf);
    }
}

proof fn lemma_title_row(m: Canvas, ls: Seq<Seq<char>>, n: int, skip: u16, viewport: u16)
    ensures
        ({
            let t = title_drawn(m, ls, n, skip, viewport);
            &&& viewport > 0 ==> t.emitted <= viewport
            &&& t.canvas.row == diff_laws::row_after(m.row, t.emitted)
        }),
    decreases n,
{
    if n > 0 {
        lemma_title_row(m, ls, n - 1, skip, viewport);
        reveal(Canvas::print);
        reveal(Canvas::crlf);
        reveal(Canvas::settled);
        reveal(Canvas::push_style);
        reveal(Canvas::push_fg);
        reveal(Canvas::pop_style);
    }
}

/// Output that stood at row `from` has ended `limit` lines at most and stands
/// at row `to`.
pub open spec fn few_rows(from: Option<u16>, to: Option<u16>, limit: u16) -> bool {
    exists|n: u16| n <= limit && to == #[trigger] diff_laws::row_after(from, n)
}

proof fn lemma_few_rows(from: Option<u16>, to: Option<u16>, n: u16, limit: u16)
    requires
        n <= limit,
        to == diff_laws::row_after(from, n),
    ensures
        few_rows(from, to, limit),
{
}

/// Rows of one part behind those of another.
proof fn lemma_rows_in_turn(
    from: Option<u16>,
    mid: Option<u16>,
    to: Option<u16>,
    a: u16,
    b: u16,
    limit: u16,
)
    requires
        a + b <= limit,
        mid == diff_laws::row_after(from, a),
        to == diff_laws::row_after(mid, b),
    ensures
        few_rows(from, to, limit),
{
    assert(to == diff_laws::row_after(from, (a + b) as u16));
}

#[verifier::spinoff_prover]
proof fn lemma_notebook_row(
    m: Canvas,
    e: NotebookEdit<Seq<char>>,
    title: Seq<char>,
    skip: u16,
    viewport: u16,
    env: Env,
)
    requires
        viewport > 0,
    ensures
        few_rows(m.row, notebook_drawn(m, e, title, skip, viewport, env).row, viewport),
{
    let ls = title_lines(title, env);
    lemma_title_row(m, ls, ls.len() as int, skip, viewport);
    let t = title_drawn(m, ls, ls.len() as int, skip, viewport);
    let left = screen::rows_minus(viewport, t.emitted);
    let ext = diff::file_extension(e.path);
    if t.full || left == 0 {
        lemma_few_rows(m.row, t.canvas.row, t.emitted, viewport);
    } else if e.edit_mode == "insert"@ {
        let source = text::lines_of(e.new_source);
        diff_laws::law_file_stays_in_window(t.canvas, source, ext, t.skip, left, env.term_width);
        let w = diff::file_window(t.canvas, source, ext, t.skip, left, env.term_width);
        lemma_rows_in_turn(m.row, t.canvas.row, w.canvas.row, t.emitted, w.emitted, viewport);
    } else {
        diff_laws::law_difference_stays_in_window(
            t.canvas,
            env.file(e.path),
            e.old_source,
            e.new_source,
            ext,
            e.old_source,
            t.skip,
            left,
            env.term_width,
        );
        let d = diff::inline_diff(
            t.canvas,
            env.file(e.path),
            e.old_source,
            e.new_source,
            ext,
            e.old_source,
            t.skip,
            left,
            env.term_width,
        );
        lemma_rows_in_turn(m.row, t.canvas.row, d.0.row, t.emitted, d.1, viewport);
    }
}

proof fn lemma_difference_row(
    m: Canvas,
    old_text: Seq<char>,
    new_text: Seq<char>,
    path: Seq<char>,
    skip: u16,
    viewport: u16,
    env: Env,
)
    requires
        viewport > 0,
    ensures
        few_rows(
            m.row,
            diff::inline_diff(
                m,
                env.file(path),
                old_text,
                new_text,
                diff::file_extension(path),
                old_text,
                skip,
                viewport,
                env.term_width,
            ).0.row,
            viewport,
        ),
{
    diff_laws::law_difference_stays_in_window(
        m,
        env.file(path),
        old_text,
        new_text,
        diff::file_extension(path),
        old_text,
        skip,
        viewport,
        env.term_width,
    );
}

/// What is shown of a call takes no more rows than it was granted, unless that
/// is none: drawn from a row on, it ends so many lines at most.
#[verifier::spinoff_prover]
pub proof fn law_preview_stays_in_viewport(
    m: Canvas,
    p: ConfirmPreview<Seq<char>>,
    skip: u16,
    viewport: u16,
    width: usize,
    env: Env,
)
    requires
        viewport > 0,
    ensures
        few_rows(m.row, preview_drawn(m, p, skip, viewport, width, env).row, viewport),
{
    reveal(preview_drawn);
    match p {
        ConfirmPreview::Nothing => {
            lemma_few_rows(m.row, m.row, 0, viewport);
        },
        ConfirmPreview::Diff { old, new, path } => {
            lemma_difference_row(m, old, new, path, skip, viewport, env);
        },
        ConfirmPreview::Notebook { edit, title } => {
            lemma_notebook_row(m, edit, title, skip, viewport, env);
        },
        ConfirmPreview::FileContent { content, path } => {
            let ls = text::lines_of(content);
            let ext = diff::file_extension(path);
            diff_laws::law_file_stays_in_window(m, ls, ext, skip, viewport, env.term_width);
            let w = diff::file_window(m, ls, ext, skip, viewport, env.term_width);
            lemma_few_rows(m.row, w.canvas.row, w.emitted, viewport);
        },
        ConfirmPreview::BashBody { full_command } => {
            let ls = text::lines_of(full_command);
            if ls.len() == 0 {
                lemma_few_rows(m.row, m.row, 0, viewport);
            } else {
                let rest = ls.skip(1);
                let s = BodyState {
                    canvas: m,
                    history: highlight::after_line(highlight::shell_history(), ls[0]),
                    emitted: 0,
                };
                lemma_body_row(s, rest, rest.len() as int, skip, viewport, m.row);
                let b = body_drawn(s, rest, rest.len() as int, skip, viewport);
                lemma_few_rows(m.row, b.canvas.row, b.emitted, viewport);
            }
        },
        ConfirmPreview::PlanContent { summary } => {
            let ls = prompt::all_lines(plan_commands(summary, width, env));
            lemma_lines_row(m, ls, ls.len() as int, skip, viewport);
            let l = lines_drawn(m, ls, ls.len() as int, skip, viewport);
            lemma_few_rows(m.row, l.canvas.row, l.emitted, viewport);
        },
    }
}

impl ConfirmPreview<String> {
    /// What is shown of a call.
    pub fn from_tool(
        tool_name: &str,
        desc: &str,
        args: &Vec<(String, Json)>,
        edit: Option<(NotebookEdit<String>, String)>,
    ) -> (r: ConfirmPreview<String>)
        ensures
            preview_view(r) == preview_of(tool_name@, desc@, args@, titled_view(edit)),
    {
        if same_text(tool_name, "edit_file") {
            ConfirmPreview::Diff {
                old: str_or_empty(args, "old_string").to_owned(),
                new: str_or_empty(args, "new_string").to_owned(),
                path: str_or_empty(args, "file_path").to_owned(),
            }
        } else if same_text(tool_name, "notebook_edit") {
            match edit {
                Some((edit, title)) => ConfirmPreview::Notebook { edit, title },
                None => ConfirmPreview::Nothing,
            }
        } else if same_text(tool_name, "write_file") {
            ConfirmPreview::FileContent {
                content: str_or_empty(args, "content").to_owned(),
                path: str_or_empty(args, "file_path").to_owned(),
            }
        } else if same_text(tool_name, "bash") && has_several_lines(desc) {
            ConfirmPreview::BashBody { full_command: desc.to_owned() }
        } else if same_text(tool_name, "exit_plan_mode") {
            ConfirmPreview::PlanContent {
                summary: str_or_empty(args, "plan_summary").to_owned(),
            }
        } else {
            ConfirmPreview::Nothing
        }
    }

    pub fn is_some(&self) -> (r: bool)
        ensures
            r == shows_anything(preview_view(*self)),
    {
        match self {
            ConfirmPreview::Nothing => false,
            _ => true,
        }
    }

    /// Whether a line stands above what is shown.
    pub fn has_top_separator(&self) -> (r: bool)
        ensures
            r == has_line_above(preview_view(*self)),
    {
        match self {
            ConfirmPreview::Nothing => false,
            ConfirmPreview::BashBody { full_command: _ } => false,
            _ => true,
        }
    }

    /// Rows of what is shown.
    pub fn total_rows(&self, width: usize, assets: &Assets, env: &Env) -> (r: u16)
        ensures
            r == preview_rows(preview_view(*self), width, *env),
    {
        proof {
            reveal(preview_rows);
        }
        match self {
            ConfirmPreview::Nothing => 0,
            ConfirmPreview::Diff { old, new, path } => count_inline_diff_rows(
                env,
                old.as_str(),
                new.as_str(),
                path.as_str(),
                old.as_str(),
            ),
            ConfirmPreview::Notebook { edit, title } => notebook_preview_rows(
                edit,
                title.as_str(),
                env,
            ),
            ConfirmPreview::FileContent { content, path: _ } => {
                let n: usize = count_of_lines(content.as_str());
                #[verifier::truncate]
                let rows: u16 = n as u16;
                rows
            },
            ConfirmPreview::BashBody { full_command } => {
                let n: usize = count_of_lines(full_command.as_str()).saturating_sub(1);
                #[verifier::truncate]
                let rows: u16 = n as u16;
                rows
            },
            ConfirmPreview::PlanContent { summary } => {
                let (_, n) = render_plan(summary.as_str(), width, assets, env);
                #[verifier::truncate]
                let rows: u16 = n as u16;
                rows
            },
        }
    }

    /// Draws what is shown.
    pub fn render(
        &self,
        out: &mut RenderOut,
        skip: u16,
        viewport: u16,
        width: usize,
        assets: &Assets,
        env: &Env,
    )
        ensures
            final(out)@ == preview_drawn(
                old(out)@,
                preview_view(*self),
                skip,
                viewport,
                width,
                *env,
            ),
    {
        proof {
            reveal(preview_drawn);
        }
        match self {
            ConfirmPreview::Nothing => {},
            ConfirmPreview::Diff { old, new, path } => {
                let _ = print_inline_diff(
                    out,
                    assets,
                    env,
                    old.as_str(),
                    new.as_str(),
                    path.as_str(),
                    old.as_str(),
                    skip,
                    viewport,
                );
            },
            ConfirmPreview::Notebook { edit, title } => {
                render_notebook_preview(out, edit, title.as_str(), skip, viewport, assets, env);
            },
            ConfirmPreview::FileContent { content, path } => {
                let _ = print_syntax_file(
                    out,
                    assets,
                    content.as_str(),
                    path.as_str(),
                    skip,
                    viewport,
                    env.term_width,
                );
            },
            ConfirmPreview::BashBody { full_command } => {
                render_body(out, full_command.as_str(), skip, viewport, assets);
            },
            ConfirmPreview::PlanContent { summary } => {
                let (ls, _) = render_plan(summary.as_str(), width, assets, env);
                print_lines(out, &ls, skip, viewport);
            },
        }
    }
}

fn count_of_lines(s: &str) -> (r: usize)
    ensures
        r == text::lines_of(s@).len(),
{
    let ls = lines(s);
    assert(text::texts(ls@).len() == ls@.len());
    ls.len()
}

fn has_several_lines(s: &str) -> (r: bool)
    ensures
        r == (text::lines_of(s@).len() > 1),
{
    count_of_lines(s) > 1
}

fn render_plan(summary: &str, width: usize, assets: &Assets, env: &Env) -> (r: (
    Vec<Vec<Command<String>>>,
    usize,
))
    ensures
        prompt::command_lines(r.0@) == prompt::all_lines(plan_commands(summary@, width, *env)),
        r.1 == prompt::complete_lines(plan_commands(summary@, width, *env)),
{
    let look = MdLook {
        width,
        term_width: env.term_width,
        indent: " ",
        dim: false,
        boxed: None,
        theme: env.theme,
    };
    let mut buf = RenderOut::buffer();
    let _ = render_markdown_inner(&mut buf, assets, summary, &look);
    let cmds = buf.into_commands();
    split_lines(&cmds)
}

fn print_lines(out: &mut RenderOut, ls: &Vec<Vec<Command<String>>>, skip: u16, viewport: u16)
    ensures
        final(out)@ == lines_drawn(
            old(out)@,
            prompt::command_lines(ls@),
            ls@.len() as int,
            skip,
            viewport,
        ).canvas,
{
    let ghost lv = prompt::command_lines(ls@);
    let n: usize = ls.len();
    let mut emitted: u16 = 0;
    let mut i: usize = 0;
    while i < n
        invariant
            n == ls@.len(),
            i <= n,
            lv == prompt::command_lines(ls@),
            (LinesState { canvas: out@, emitted }) == lines_drawn(
                old(out)@,
                lv,
                i as int,
                skip,
                viewport,
            ),
        decreases n - i,
    {
        #[verifier::truncate]
        let at: u16 = i as u16;
        if emitted < viewport && at >= skip {
            assert(lv[i as int] == out::commands_view(ls@[i as int]@));
            out.append(&ls[i]);
            crlf(out);
            emitted = emitted + 1;
        }
        i = i + 1;
    }
}

fn render_body(out: &mut RenderOut, command: &str, skip: u16, viewport: u16, assets: &Assets)
    ensures
        ({
            let ls = text::lines_of(command@);
            final(out)@ == (if ls.len() == 0 {
                old(out)@
            } else {
                let rest = ls.skip(1);
                body_drawn(
                    BodyState {
                        canvas: old(out)@,
                        history: highlight::after_line(highlight::shell_history(), ls[0]),
                        emitted: 0,
                    },
                    rest,
                    rest.len() as int,
                    skip,
                    viewport,
                ).canvas
            })
        }),
{
    let ls = lines(command);
    let ghost lv = text::texts(ls@);
    let total: usize = ls.len();
    assert(lv.len() == total);
    if total == 0 {
        return;
    }
    let mut bh = BashHighlighter::new(assets);
    assert(lv[0] == ls@[0]@);
    bh.advance(ls[0].as_str());
    let ghost rest = lv.skip(1);
    let ghost start = BodyState { canvas: out@, history: bh.history(), emitted: 0 };
    let mut emitted: u16 = 0;
    let mut i: usize = 0;
    while i < total - 1
        invariant
            total == ls@.len(),
            total > 0,
            i <= total - 1,
            lv == text::texts(ls@),
            rest == lv.skip(1),
            (BodyState { canvas: out@, history: bh.history(), emitted }) == body_drawn(
                start,
                rest,
                i as int,
                skip,
                viewport,
            ),
        decreases total - i,
    {
        #[verifier::truncate]
        let at: u16 = i as u16;
        assert(rest[i as int] == ls@[i + 1]@);
        let line = ls[i + 1].as_str();
        if emitted < viewport {
            if at < skip {
                bh.advance(line);
            } else {
                out.print(" ");
                bh.print_line(out, line);
                crlf(out);
                emitted = emitted + 1;
            }
        }
        i = i + 1;
    }
}

/// Rows of a notebook's change.
pub fn notebook_preview_rows(edit: &NotebookEdit<String>, title: &str, env: &Env) -> (r: u16)
    ensures
        r == notebook_rows(notebook::edit_view(*edit), title@, *env),
{
    let ls = wrap_line(title, env.term_width.saturating_sub(4));
    let n: usize = ls.len();
    assert(text::texts(ls@).len() == n);
    #[verifier::truncate]
    let head: u16 = n as u16;
    let rows: u16 = if same_text(edit.edit_mode.as_str(), "insert") {
        let k: usize = count_of_lines(edit.new_source.as_str());
        let k: usize = if k < 1 {
            1
        } else {
            k
        };
        #[verifier::truncate]
        let rows: u16 = k as u16;
        rows
    } else {
        count_inline_diff_rows(
            env,
            edit.old_source.as_str(),
            edit.new_source.as_str(),
            edit.path.as_str(),
            edit.old_source.as_str(),
        )
    };
    head.saturating_add(rows)
}

fn render_title(out: &mut RenderOut, ls: &Vec<String>, skip: u16, viewport: u16) -> (r: (
    u16,
    u16,
    bool,
))
    ensures
        (TitleState { canvas: final(out)@, skip: r.0, emitted: r.1, full: r.2 }) == title_drawn(
            old(out)@,
            text::texts(ls@),
            ls@.len() as int,
            skip,
            viewport,
        ),
{
    let ghost lv = text::texts(ls@);
    let ghost skip0 = skip;
    let n: usize = ls.len();
    let mut skip: u16 = skip;
    let mut emitted: u16 = 0;
    let mut full = false;
    let mut i: usize = 0;
    while i < n
        invariant
            n == ls@.len(),
            i <= n,
            lv == text::texts(ls@),
            (TitleState { canvas: out@, skip, emitted, full }) == title_drawn(
                old(out)@,
                lv,
                i as int,
                skip0,
                viewport,
            ),
        decreases n - i,
    {
        assert(lv[i as int] == ls@[i as int]@);
        if !full {
            if skip > 0 {
                skip = skip - 1;
            } else if viewport > 0 && emitted >= viewport {
                full = true;
            } else {
                out.print(" ");
                out.push_fg(theme::muted());
                out.print(ls[i].as_str());
                out.pop_style();
                crlf(out);
                emitted = emitted.saturating_add(1);
            }
        }
        i = i + 1;
    }
    (skip, emitted, full)
}

/// Draws a notebook's change.
pub fn render_notebook_preview(
    out: &mut RenderOut,
    edit: &NotebookEdit<String>,
    title: &str,
    skip: u16,
    viewport: u16,
    assets: &Assets,
    env: &Env,
)
    ensures
        final(out)@ == notebook_drawn(
            old(out)@,
            notebook::edit_view(*edit),
            title@,
            skip,
            viewport,
            *env,
        ),
{
    let ls = wrap_line(title, env.term_width.saturating_sub(4));
    assert(text::texts(ls@).len() == ls@.len());
    let (left_out, emitted, full) = render_title(out, &ls, skip, viewport);
    if full {
        return;
    }
    let left: u16 = if viewport == 0 {
        0
    } else {
        viewport.saturating_sub(emitted)
    };
    if left == 0 && viewport > 0 {
        return;
    }
    if same_text(edit.edit_mode.as_str(), "insert") {
        let _ = print_syntax_file(
            out,
            assets,
            edit.new_source.as_str(),
            edit.path.as_str(),
            left_out,
            left,
            env.term_width,
        );
    } else {
        let _ = print_inline_diff(
            out,
            assets,
            env,
            edit.old_source.as_str(),
            edit.new_source.as_str(),
            edit.path.as_str(),
            edit.old_source.as_str(),
            left_out,
            left,
        );
    }
}

} // verus!
