//! Changes of a notebook's cells.

use vstd::prelude::*;

use crate::json;
use crate::json::{
    as_array, as_str, get_i64, get_str, member, member_str, parse, str_or_empty, Json, JsonView,
};
use crate::render::model;
use crate::text;
use crate::text::{char_count, join, same_text};

verus! {

/// A change of a notebook.
pub struct NotebookEdit<T> {
    pub edit_mode: T,
    pub path: T,
    /// The place of the cell.
    pub index: usize,
    pub old_type: Option<T>,
    pub new_type: Option<T>,
    pub cell_id: Option<T>,
    pub old_source: T,
    pub new_source: T,
}

pub open spec fn edit_view(e: NotebookEdit<String>) -> NotebookEdit<Seq<char>> {
    NotebookEdit {
        edit_mode: e.edit_mode@,
        path: e.path@,
        index: e.index,
        old_type: model::opt_view(e.old_type),
        new_type: model::opt_view(e.new_type),
        cell_id: model::opt_view(e.cell_id),
        old_source: e.old_source@,
        new_source: e.new_source@,
    }
}

/// The texts among the first `n` values.
pub open spec fn texts_in(vs: Seq<JsonView>, n: int) -> Seq<Seq<char>>
    decreases n,
{
    if n <= 0 {
        seq![]
    } else {
        match json::string_in(vs[n - 1]) {
            Some(t) => texts_in(vs, n - 1).push(t),
            None => texts_in(vs, n - 1),
        }
    }
}

/// A text that is given as one or in parts.
pub open spec fn joined_text(v: JsonView) -> Option<Seq<char>> {
    match v {
        JsonView::Str(s) => Some(s),
        JsonView::Arr(a) => Some(text::join_texts(texts_in(a, a.len() as int), ""@)),
        _ => None,
    }
}

/// A text that is given as one or in parts.
pub fn join_string_or_array(value: &Json) -> (r: Option<String>)
    ensures
        model::opt_view(r) == joined_text(json::value_of(*value)),
{
    match value {
        Json::Str(s) => Some(s.as_str().to_owned()),
        Json::Arr(a) => {
            let ghost vs = json::values_of(a@);
            assert(json::value_of(*value)->Arr_0 =~= vs);
            let mut v: Vec<String> = Vec::new();
            let total: usize = a.len();
            let mut i: usize = 0;
            assert(text::texts(v@) =~= Seq::<Seq<char>>::empty());
            while i < total
                invariant
                    total == a@.len(),
                    vs == json::values_of(a@),
                    i <= total,
                    text::texts(v@) == texts_in(vs, i as int),
                decreases total - i,
            {
                match as_str(&a[i]) {
                    Some(t) => {
                        let s = t.to_owned();
                        proof {
                            text::lemma_texts_push(v@, s);
                        }
                        v.push(s);
                    },
                    None => {},
                }
                i = i + 1;
            }
            Some(join(&v, ""))
        },
        _ => None,
    }
}

/// The first cell from `k` on with the id.
pub open spec fn cell_from(cells: Seq<JsonView>, k: int, id: Seq<char>) -> Option<int>
    decreases cells.len() - k,
{
    if k < 0 || k >= cells.len() {
        None
    } else if json::member_text(cells[k], "id"@) == Some(id) {
        Some(k)
    } else {
        cell_from(cells, k + 1, id)
    }
}

/// The cells of a notebook.
pub open spec fn cells_of(notebook: Option<JsonView>) -> Option<Seq<JsonView>> {
    match notebook {
        Some(v) => match json::member_of(v, "cells"@) {
            Some(c) => json::items_in(c),
            None => None,
        },
        None => None,
    }
}

/// The cell that the arguments name: by its id, or else by its number.
pub open spec fn target_cell(args: Seq<(String, Json)>, cells: Seq<JsonView>) -> Option<int> {
    let id = json::text_or_empty(args, "cell_id"@);
    let num = json::integer_of(args, "cell_number"@);
    if id.len() > 0 {
        cell_from(cells, 0, id)
    } else if num is Some && num->0 >= 0 {
        Some(num->0 as int)
    } else {
        None
    }
}

/// The cell that the arguments name, if there is one.
pub open spec fn existing_cell(args: Seq<(String, Json)>, cells: Seq<JsonView>) -> Option<int> {
    match target_cell(args, cells) {
        Some(i) => if i < cells.len() {
            Some(i)
        } else {
            None
        },
        None => None,
    }
}

/// The type that the arguments ask for.
pub open spec fn requested_type(args: Seq<(String, Json)>) -> Option<Seq<char>> {
    match json::text_of(args, "cell_type"@) {
        Some(t) => if t.len() > 0 {
            Some(t)
        } else {
            None
        },
        None => None,
    }
}

/// The source of a cell.
pub open spec fn cell_source(cell: JsonView) -> Seq<char> {
    match json::member_of(cell, "source"@) {
        Some(v) => match joined_text(v) {
            Some(t) => t,
            None => seq![],
        },
        None => seq![],
    }
}

/// The change that the arguments ask for, in a notebook that was read; none
/// when there is no such notebook or cell.
pub open spec fn notebook_edit(args: Seq<(String, Json)>, notebook: Option<JsonView>) -> Option<
    NotebookEdit<Seq<char>>,
> {
    match cells_of(notebook) {
        Some(cells) => {
            let path = json::text_or_empty(args, "notebook_path"@);
            let mode = match json::text_of(args, "edit_mode"@) {
                Some(t) => t,
                None => "replace"@,
            };
            let source = json::text_or_empty(args, "new_source"@);
            let nowhere = json::text_or_empty(args, "cell_id"@).len() == 0 && json::integer_of(
                args,
                "cell_number"@,
            ) is None;
            let at = existing_cell(args, cells);
            if mode == "insert"@ {
                if nowhere || at is Some {
                    Some(
                        NotebookEdit {
                            edit_mode: "insert"@,
                            path,
                            index: if nowhere {
                                0
                            } else {
                                (at->0 + 1) as usize
                            },
                            old_type: None,
                            new_type: requested_type(args),
                            cell_id: None,
                            old_source: seq![],
                            new_source: source,
                        },
                    )
                } else {
                    None
                }
            } else {
                match at {
                    Some(i) => {
                        let cell = cells[i];
                        let was = json::member_text(cell, "cell_type"@);
                        let deletes = mode == "delete"@;
                        Some(
                            NotebookEdit {
                                edit_mode: if deletes {
                                    "delete"@
                                } else {
                                    "replace"@
                                },
                                path,
                                index: i as usize,
                                old_type: was,
                                new_type: if deletes {
                                    None
                                } else if requested_type(args) is Some {
                                    requested_type(args)
                                } else {
                                    was
                                },
                                cell_id: json::member_text(cell, "id"@),
                                old_source: cell_source(cell),
                                new_source: if deletes {
                                    seq![]
                                } else {
                                    source
                                },
                            },
                        )
                    },
                    None => None,
                }
            }
        },
        None => None,
    }
}

fn owned(t: Option<&str>) -> (r: Option<String>)
    ensures
        model::opt_view(r) == (match t {
            Some(s) => Some(s@),
            None => None,
        }),
{
    match t {
        Some(s) => Some(s.to_owned()),
        None => None,
    }
}

fn find_cell(cells: &Vec<Json>, id: &str) -> (r: Option<usize>)
    ensures
        match r {
            Some(i) => cell_from(json::values_of(cells@), 0, id@) == Some(i as int) && i
                < cells@.len(),
            None => cell_from(json::values_of(cells@), 0, id@) is None,
        },
{
    let total: usize = cells.len();
    let mut i: usize = 0;
    while i < total
        invariant
            total == cells@.len(),
            i <= total,
            cell_from(json::values_of(cells@), 0, id@) == cell_from(
                json::values_of(cells@),
                i as int,
                id@,
            ),
        decreases total - i,
    {
        match member_str(&cells[i], "id") {
            Some(t) => {
                if same_text(t, id) {
                    return Some(i);
                }
            },
            None => {},
        }
        i = i + 1;
    }
    None
}

fn find_target(args: &Vec<(String, Json)>, cells: &Vec<Json>) -> (r: Option<usize>)
    ensures
        match r {
            Some(i) => existing_cell(args@, json::values_of(cells@)) == Some(i as int) && i
                < cells@.len(),
            None => existing_cell(args@, json::values_of(cells@)) is None,
        },
{
    let id = str_or_empty(args, "cell_id");
    if char_count(id) > 0 {
        return find_cell(cells, id);
    }
    let total: usize = cells.len();
    match get_i64(args, "cell_number") {
        Some(n) => if n >= 0 && (n as u64) < total as u64 {
            Some(n as usize)
        } else {
            None
        },
        None => None,
    }
}

fn find_source(cell: &Json) -> (r: String)
    ensures
        r@ == cell_source(json::value_of(*cell)),
{
    match member(cell, "source") {
        Some(v) => match join_string_or_array(v) {
            Some(t) => t,
            None => {
                let s = String::new();
                assert(s@ =~= Seq::<char>::empty());
                s
            },
        },
        None => {
            let s = String::new();
            assert(s@ =~= Seq::<char>::empty());
            s
        },
    }
}

fn find_requested(args: &Vec<(String, Json)>) -> (r: Option<String>)
    ensures
        model::opt_view(r) == requested_type(args@),
{
    match get_str(args, "cell_type") {
        Some(t) => if char_count(t) > 0 {
            Some(t.to_owned())
        } else {
            None
        },
        None => None,
    }
}

/// The change that the arguments ask for, in the notebook whose file holds the
/// text; none when the text is no notebook or there is no such cell.
pub fn notebook_preview(args: &Vec<(String, Json)>, content: &str) -> (r: Option<
    NotebookEdit<String>,
>)
    ensures
        match r {
            Some(e) => notebook_edit(args@, json::parsed_json(content@)) == Some(edit_view(e)),
            None => notebook_edit(args@, json::parsed_json(content@)) is None,
        },
{
    match parse(content) {
        Some(v) => build_notebook_preview(args, Some(&v)),
        None => build_notebook_preview(args, None),
    }
}

/// The change that the arguments ask for, in a notebook that was read; none
/// when there is no such notebook or cell.
pub fn build_notebook_preview(args: &Vec<(String, Json)>, notebook: Option<&Json>) -> (r: Option<
    NotebookEdit<String>,
>)
    ensures
        match r {
            Some(e) => notebook_edit(
                args@,
                match notebook {
                    Some(v) => Some(json::value_of(*v)),
                    None => None,
                },
            ) == Some(edit_view(e)),
            None => notebook_edit(
                args@,
                match notebook {
                    Some(v) => Some(json::value_of(*v)),
                    None => None,
                },
            ) is None,
        },
{
    let root = match notebook {
        Some(v) => v,
        None => return None,
    };
    let cells = match member(root, "cells") {
        Some(c) => match as_array(c) {
            Some(a) => a,
            None => return None,
        },
        None => return None,
    };
    let path: String = str_or_empty(args, "notebook_path").to_owned();
    let source: String = str_or_empty(args, "new_source").to_owned();
    let mode: &str = match get_str(args, "edit_mode") {
        Some(t) => t,
        None => "replace",
    };
    let nothing = String::new();
    assert(nothing@ =~= Seq::<char>::empty());
    let at = find_target(args, cells);
    let total: usize = cells.len();
    if same_text(mode, "insert") {
        let nowhere = char_count(str_or_empty(args, "cell_id")) == 0 && get_i64(
            args,
            "cell_number",
        ).is_none();
        let index: usize = if nowhere {
            0
        } else {
            match at {
                Some(i) => {
                    assert(i < total);
                    i + 1
                },
                None => return None,
            }
        };
        return Some(
            NotebookEdit {
                edit_mode: "insert".to_owned(),
                path,
                index,
                old_type: None,
                new_type: find_requested(args),
                cell_id: None,
                old_source: nothing,
                new_source: source,
            },
        );
    }
    let i: usize = match at {
        Some(i) => i,
        None => return None,
    };
    let cell = &cells[i];
    let old_type = owned(member_str(cell, "cell_type"));
    let cell_id = owned(member_str(cell, "id"));
    let old_source = find_source(cell);
    if same_text(mode, "delete") {
        Some(
            NotebookEdit {
                edit_mode: "delete".to_owned(),
                path,
                index: i,
                old_type,
                new_type: None,
                cell_id,
                old_source,
                new_source: nothing,
            },
        )
    } else {
        let asked = find_requested(args);
        let new_type = match asked {
            Some(t) => Some(t),
            None => owned(member_str(cell, "cell_type")),
        };
        Some(
            NotebookEdit {
                edit_mode: "replace".to_owned(),
                path,
                index: i,
                old_type,
                new_type,
                cell_id,
                old_source,
                new_source: source,
            },
        )
    }
}

} // verus!
