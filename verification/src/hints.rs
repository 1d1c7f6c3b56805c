//! Key hints at the bottom of dialogs and pickers.

use vstd::prelude::*;

use crate::text;
use crate::text::{cat, join};

verus! {

/// The texts of key hints, as the key bindings have them.
pub struct Hints {
    pub nav: String,
    pub scroll: String,
    pub picker_nav: String,
    pub dd_delete: String,
    pub dd_pending: String,
    pub select: String,
    pub cancel: String,
    pub close: String,
    pub send: String,
    pub confirm: String,
    pub confirm_with_msg: String,
    pub edit_msg: String,
    pub add_msg: String,
    pub back: String,
    pub kill_proc: String,
}

/// Hints in one line, indented and set apart.
pub open spec fn hint_line(parts: Seq<Seq<char>>) -> Seq<char> {
    " "@ + text::join_texts(parts, "  "@)
}

/// One hint.
pub fn one(a: &str) -> (r: String)
    ensures
        r@ == hint_line(seq![a@]),
{
    let mut v: Vec<String> = Vec::new();
    v.push(a.to_owned());
    assert(text::texts(v@) =~= seq![a@]);
    let j = join(&v, "  ");
    cat(" ", j.as_str())
}

/// Two hints.
pub fn two(a: &str, b: &str) -> (r: String)
    ensures
        r@ == hint_line(seq![a@, b@]),
{
    let mut v: Vec<String> = Vec::new();
    v.push(a.to_owned());
    v.push(b.to_owned());
    assert(text::texts(v@) =~= seq![a@, b@]);
    let j = join(&v, "  ");
    cat(" ", j.as_str())
}

/// Three hints.
pub fn three(a: &str, b: &str, c: &str) -> (r: String)
    ensures
        r@ == hint_line(seq![a@, b@, c@]),
{
    let mut v: Vec<String> = Vec::new();
    v.push(a.to_owned());
    v.push(b.to_owned());
    v.push(c.to_owned());
    assert(text::texts(v@) =~= seq![a@, b@, c@]);
    let j = join(&v, "  ");
    cat(" ", j.as_str())
}

/// Four hints.
pub fn four(a: &str, b: &str, c: &str, d: &str) -> (r: String)
    ensures
        r@ == hint_line(seq![a@, b@, c@, d@]),
{
    let mut v: Vec<String> = Vec::new();
    v.push(a.to_owned());
    v.push(b.to_owned());
    v.push(c.to_owned());
    v.push(d.to_owned());
    assert(text::texts(v@) =~= seq![a@, b@, c@, d@]);
    let j = join(&v, "  ");
    cat(" ", j.as_str())
}

} // verus!
