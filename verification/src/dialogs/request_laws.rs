//! What is read from the arguments of a call that the user is asked about.

use vstd::prelude::*;

use crate::dialogs::notebook;
use crate::dialogs::notebook::NotebookEdit;
use crate::dialogs::preview;
use crate::dialogs::preview::ConfirmPreview;
use crate::dialogs::questions;
use crate::dialogs::questions::{OptionView, QuestionView};
use crate::json;
use crate::json::{Json, JsonView};
use crate::text;

verus! {

// ── Questions ────────────────────────────────────────────────────────────

/// An option as it is written.
pub open spec fn option_value(o: OptionView) -> JsonView {
    JsonView::Obj(
        seq![
            ("label"@, JsonView::Str(o.label)),
            ("description"@, JsonView::Str(o.description)),
        ],
    )
}

pub open spec fn option_values(os: Seq<OptionView>) -> Seq<JsonView> {
    Seq::new(os.len(), |i: int| option_value(os[i]))
}

/// A question as it is written.
pub open spec fn question_value(q: QuestionView) -> JsonView {
    JsonView::Obj(
        seq![
            ("question"@, JsonView::Str(q.question)),
            ("header"@, JsonView::Str(q.header)),
            ("options"@, JsonView::Arr(option_values(q.options))),
            ("multiSelect"@, JsonView::Bool(q.multi_select)),
        ],
    )
}

pub open spec fn question_values(qs: Seq<QuestionView>) -> Seq<JsonView> {
    Seq::new(qs.len(), |i: int| question_value(qs[i]))
}

proof fn lemma_option(o: OptionView)
    ensures
        json::member_text(option_value(o), "label"@) == Some(o.label),
        json::member_text(option_value(o), "description"@) == Some(o.description),
{
    reveal_strlit("label");
    reveal_strlit("description");
    assert("label"@.len() == 5 && "description"@.len() == 11);
    reveal_with_fuel(json::named_from, 3);
}

proof fn lemma_options(os: Seq<OptionView>, n: int)
    requires
        0 <= n <= os.len(),
    ensures
        questions::options_in(option_values(os), n) == os.take(n),
    decreases n,
{
    if n > 0 {
        lemma_options(os, n - 1);
        lemma_option(os[n - 1]);
        assert(option_values(os)[n - 1] == option_value(os[n - 1]));
    }
    assert(questions::options_in(option_values(os), n) =~= os.take(n));
}

/// A question is read as it was written, with all its options in order.
pub proof fn law_question_is_read(q: QuestionView)
    ensures
        questions::question_in(question_value(q)) == Some(q),
{
    reveal_strlit("question");
    reveal_strlit("header");
    reveal_strlit("options");
    reveal_strlit("multiSelect");
    assert("question"@.len() == 8 && "header"@.len() == 6);
    assert("options"@.len() == 7 && "multiSelect"@.len() == 11);
    reveal_with_fuel(json::named_from, 5);
    let v = question_value(q);
    let n = q.options.len() as int;
    lemma_options(q.options, n);
    assert(q.options.take(n) =~= q.options);
    assert(json::member_text(v, "question"@) == Some(q.question));
    assert(json::member_text(v, "header"@) == Some(q.header));
    assert(json::member_of(v, "options"@) == Some(JsonView::Arr(option_values(q.options))));
    assert(json::member_true(v, "multiSelect"@) == q.multi_select);
}

/// All questions are read as they were written, in order.
pub proof fn law_questions_are_read(qs: Seq<QuestionView>, n: int)
    requires
        0 <= n <= qs.len(),
    ensures
        questions::questions_in(question_values(qs), n) == qs.take(n),
    decreases n,
{
    if n > 0 {
        law_questions_are_read(qs, n - 1);
        law_question_is_read(qs[n - 1]);
        assert(question_values(qs)[n - 1] == question_value(qs[n - 1]));
    }
    assert(questions::questions_in(question_values(qs), n) =~= qs.take(n));
}

// ── Notebooks ────────────────────────────────────────────────────────────

proof fn lemma_cell_from(cells: Seq<JsonView>, k: int, id: Seq<char>)
    requires
        0 <= k,
    ensures
        match notebook::cell_from(cells, k, id) {
            Some(i) => {
                &&& k <= i < cells.len()
                &&& json::member_text(cells[i], "id"@) == Some(id)
                &&& forall|j: int|
                    k <= j < i ==> json::member_text(#[trigger] cells[j], "id"@) != Some(id)
            },
            None => forall|j: int|
                k <= j < cells.len() ==> json::member_text(#[trigger] cells[j], "id"@) != Some(id),
        },
    decreases cells.len() - k,
{
    if k < cells.len() && json::member_text(cells[k], "id"@) != Some(id) {
        lemma_cell_from(cells, k + 1, id);
    }
}

/// The cell of a change is the one that the arguments name: the first with
/// the id, or without an id the one with the number.
pub proof fn law_cell_is_the_one_named(args: Seq<(String, Json)>, cells: Seq<JsonView>)
    ensures
        ({
            let id = json::text_or_empty(args, "cell_id"@);
            match notebook::existing_cell(args, cells) {
                Some(i) => {
                    &&& 0 <= i < cells.len()
                    &&& id.len() > 0 ==> json::member_text(cells[i], "id"@) == Some(id)
                    &&& id.len() == 0 ==> json::integer_of(args, "cell_number"@) is Some
                        && json::integer_of(args, "cell_number"@)->0 == i
                },
                None => id.len() > 0 ==> forall|j: int|
                    0 <= j < cells.len() ==> json::member_text(#[trigger] cells[j], "id"@) != Some(
                        id,
                    ),
            }
        }),
{
    lemma_cell_from(cells, 0, json::text_or_empty(args, "cell_id"@));
}

/// A change of a cell shows what the cell holds and what it will hold: what
/// the arguments give when it is replaced, nothing when it is deleted.  A new
/// cell holds what the arguments give, and stands behind the cell that they
/// name or at the start.
pub proof fn law_notebook_change_is_what_is_asked(
    args: Seq<(String, Json)>,
    book: Option<JsonView>,
    cells: Seq<JsonView>,
)
    requires
        notebook::cells_of(book) == Some(cells),
        cells.len() < usize::MAX,
    ensures
        ({
            let mode = json::text_of(args, "edit_mode"@);
            let inserts = mode == Some("insert"@);
            let deletes = mode == Some("delete"@);
            let at = notebook::existing_cell(args, cells);
            let asked = json::text_or_empty(args, "new_source"@);
            match notebook::notebook_edit(args, book) {
                Some(e) => {
                    &&& e.path == json::text_or_empty(args, "notebook_path"@)
                    &&& inserts ==> {
                        &&& e.edit_mode == "insert"@
                        &&& e.old_source.len() == 0
                        &&& e.new_source == asked
                        &&& e.index == match at {
                            Some(i) => i + 1,
                            None => 0,
                        }
                    }
                    &&& !inserts ==> {
                        &&& at == Some(e.index as int)
                        &&& e.cell_id == json::member_text(cells[e.index as int], "id"@)
                        &&& e.old_source == notebook::cell_source(cells[e.index as int])
                        &&& e.edit_mode == if deletes {
                            "delete"@
                        } else {
                            "replace"@
                        }
                        &&& deletes ==> e.new_source.len() == 0
                        &&& !deletes ==> e.new_source == asked
                    }
                },
                None => at is None,
            }
        }),
{
    law_cell_is_the_one_named(args, cells);
    reveal_strlit("insert");
    reveal_strlit("replace");
    reveal_strlit("delete");
    assert("insert"@.len() == 6 && "replace"@.len() == 7 && "delete"@.len() == 6);
    assert("insert"@[0] == 'i' && "delete"@[0] == 'd');
}

// ── Previews ─────────────────────────────────────────────────────────────

/// The user is shown what a call will do: the two texts of an edit, the
/// contents of a file, the whole of a command that takes lines, the plan, and
/// the change of a notebook.
pub proof fn law_preview_shows_what_will_be_done(
    tool: Seq<char>,
    desc: Seq<char>,
    args: Seq<(String, Json)>,
    edit: Option<(NotebookEdit<Seq<char>>, Seq<char>)>,
)
    ensures
        ({
            let p = preview::preview_of(tool, desc, args, edit);
            &&& tool == "edit_file"@ ==> p == (ConfirmPreview::Diff {
                old: json::text_or_empty(args, "old_string"@),
                new: json::text_or_empty(args, "new_string"@),
                path: json::text_or_empty(args, "file_path"@),
            })
            &&& tool == "write_file"@ ==> p == (ConfirmPreview::FileContent {
                content: json::text_or_empty(args, "content"@),
                path: json::text_or_empty(args, "file_path"@),
            })
            &&& tool == "bash"@ && text::lines_of(desc).len() > 1 ==> p == (
            ConfirmPreview::BashBody { full_command: desc })
            &&& tool == "exit_plan_mode"@ ==> p == (ConfirmPreview::PlanContent {
                summary: json::text_or_empty(args, "plan_summary"@),
            })
            &&& tool == "notebook_edit"@ && edit is Some ==> p == (ConfirmPreview::Notebook {
                edit: edit->Some_0.0,
                title: edit->Some_0.1,
            })
            &&& tool == "bash"@ && text::lines_of(desc).len() <= 1 ==> p is Nothing
        }),
{
    reveal_strlit("edit_file");
    reveal_strlit("write_file");
    reveal_strlit("bash");
    reveal_strlit("exit_plan_mode");
    reveal_strlit("notebook_edit");
    assert("edit_file"@.len() == 9 && "write_file"@.len() == 10 && "bash"@.len() == 4);
    assert("exit_plan_mode"@.len() == 14 && "notebook_edit"@.len() == 13);
}

} // verus!
