//! Structured values: the arguments of tool calls and what their output says.

use serde_json::Value;
use vstd::prelude::*;

use crate::text::same_text;

verus! {

/// The value of a number, where it is an integer of at most 64 bits.
#[derive(Clone, Copy, Debug, PartialEq, Eq, Structural)]
pub enum Amount {
    Natural(u64),
    Negative(i64),
    Other,
}

/// A structured value.
pub enum Json {
    Null,
    Bool(bool),
    /// A number: its text, and its value where that is an integer.
    Num(String, Amount),
    Str(String),
    Arr(Vec<Json>),
    /// The fields of an object, in order.
    Obj(Vec<(String, Json)>),
}

/// A structured value, with its texts and lists as sequences.
pub enum JsonView {
    Null,
    Bool(bool),
    Num(Seq<char>, Amount),
    Str(Seq<char>),
    Arr(Seq<JsonView>),
    Obj(Seq<(Seq<char>, JsonView)>),
}

/// What a value holds.
pub open spec fn value_of(v: Json) -> JsonView
    decreases v,
{
    match v {
        Json::Null => JsonView::Null,
        Json::Bool(b) => JsonView::Bool(b),
        Json::Num(t, n) => JsonView::Num(t@, n),
        Json::Str(t) => JsonView::Str(t@),
        Json::Arr(a) => JsonView::Arr(
            Seq::new(
                a@.len(),
                |i: int|
                    if 0 <= i < a@.len() {
                        value_of(a@[i])
                    } else {
                        JsonView::Null
                    },
            ),
        ),
        Json::Obj(f) => JsonView::Obj(
            Seq::new(
                f@.len(),
                |i: int|
                    if 0 <= i < f@.len() {
                        (f@[i].0@, value_of(f@[i].1))
                    } else {
                        (seq![], JsonView::Null)
                    },
            ),
        ),
    }
}

/// What the values of a list hold.
pub open spec fn values_of(vs: Seq<Json>) -> Seq<JsonView> {
    Seq::new(vs.len(), |i: int| value_of(vs[i]))
}

/// What the fields of an object hold.
pub open spec fn fields_view(fields: Seq<(String, Json)>) -> Seq<(Seq<char>, JsonView)> {
    Seq::new(fields.len(), |i: int| (fields[i].0@, value_of(fields[i].1)))
}

/// What an optional value holds.
pub open spec fn opt_value(v: Option<Json>) -> Option<JsonView> {
    match v {
        Some(x) => Some(value_of(x)),
        None => None,
    }
}

/// The first field from `k` on that is named `key`.
pub open spec fn field_from(fields: Seq<(String, Json)>, k: int, key: Seq<char>) -> Option<Json>
    decreases fields.len() - k,
{
    if k < 0 || k >= fields.len() {
        None
    } else if fields[k].0@ == key {
        Some(fields[k].1)
    } else {
        field_from(fields, k + 1, key)
    }
}

/// The field that is named `key`.
pub open spec fn field_of(fields: Seq<(String, Json)>, key: Seq<char>) -> Option<Json> {
    field_from(fields, 0, key)
}

/// The field that is named `key`.
pub fn get<'a>(fields: &'a Vec<(String, Json)>, key: &str) -> (r: Option<&'a Json>)
    ensures
        match r {
            Some(v) => field_of(fields@, key@) == Some(*v),
            None => field_of(fields@, key@) is None,
        },
{
    let mut i: usize = 0;
    while i < fields.len()
        invariant
            i <= fields@.len(),
            field_of(fields@, key@) == field_from(fields@, i as int, key@),
        decreases fields@.len() - i,
    {
        if same_text(fields[i].0.as_str(), key) {
            return Some(&fields[i].1);
        }
        i = i + 1;
    }
    None
}

/// The text in the field that is named `key`.
pub open spec fn text_of(fields: Seq<(String, Json)>, key: Seq<char>) -> Option<Seq<char>> {
    match field_of(fields, key) {
        Some(Json::Str(s)) => Some(s@),
        _ => None,
    }
}

/// The text in the field that is named `key`.
pub fn get_str<'a>(fields: &'a Vec<(String, Json)>, key: &str) -> (r: Option<&'a str>)
    ensures
        match r {
            Some(v) => text_of(fields@, key@) == Some(v@),
            None => text_of(fields@, key@) is None,
        },
{
    match get(fields, key) {
        Some(Json::Str(s)) => Some(s.as_str()),
        _ => None,
    }
}

/// The text in the field that is named `key`; empty when there is none.
pub open spec fn text_or_empty(fields: Seq<(String, Json)>, key: Seq<char>) -> Seq<char> {
    match text_of(fields, key) {
        Some(s) => s,
        None => ""@,
    }
}

/// The text in the field that is named `key`; empty when there is none.
pub fn str_or_empty<'a>(fields: &'a Vec<(String, Json)>, key: &str) -> (r: &'a str)
    ensures
        r@ == text_or_empty(fields@, key@),
{
    match get_str(fields, key) {
        Some(s) => s,
        None => "",
    }
}

/// The natural number in the field that is named `key`.
pub open spec fn natural_of(fields: Seq<(String, Json)>, key: Seq<char>) -> Option<u64> {
    match field_of(fields, key) {
        Some(Json::Num(_, Amount::Natural(n))) => Some(n),
        _ => None,
    }
}

/// The natural number in the field that is named `key`.
pub fn get_u64(fields: &Vec<(String, Json)>, key: &str) -> (r: Option<u64>)
    ensures
        r == natural_of(fields@, key@),
{
    match get(fields, key) {
        Some(Json::Num(_, Amount::Natural(n))) => Some(*n),
        _ => None,
    }
}

/// The integer in the field that is named `key`, where it has at most 64 bits
/// and a sign.
pub open spec fn integer_of(fields: Seq<(String, Json)>, key: Seq<char>) -> Option<i64> {
    match field_of(fields, key) {
        Some(Json::Num(_, Amount::Natural(n))) => if n <= i64::MAX {
            Some(n as i64)
        } else {
            None
        },
        Some(Json::Num(_, Amount::Negative(n))) => Some(n),
        _ => None,
    }
}

/// The integer in the field that is named `key`, where it has at most 64 bits
/// and a sign.
pub fn get_i64(fields: &Vec<(String, Json)>, key: &str) -> (r: Option<i64>)
    ensures
        r == integer_of(fields@, key@),
{
    match get(fields, key) {
        Some(Json::Num(_, Amount::Natural(n))) => if *n <= 0x7fff_ffff_ffff_ffff {
            Some(*n as i64)
        } else {
            None
        },
        Some(Json::Num(_, Amount::Negative(n))) => Some(*n),
        _ => None,
    }
}

/// The text that a value is.
pub open spec fn string_in(v: JsonView) -> Option<Seq<char>> {
    match v {
        JsonView::Str(s) => Some(s),
        _ => None,
    }
}

/// The text that a value is.
pub fn as_str<'a>(v: &'a Json) -> (r: Option<&'a str>)
    ensures
        match r {
            Some(s) => string_in(value_of(*v)) == Some(s@),
            None => string_in(value_of(*v)) is None,
        },
{
    match v {
        Json::Str(s) => Some(s.as_str()),
        _ => None,
    }
}

/// The items of a list.
pub open spec fn items_in(v: JsonView) -> Option<Seq<JsonView>> {
    match v {
        JsonView::Arr(a) => Some(a),
        _ => None,
    }
}

/// The items of a list.
pub fn as_array<'a>(v: &'a Json) -> (r: Option<&'a Vec<Json>>)
    ensures
        match r {
            Some(a) => items_in(value_of(*v)) == Some(values_of(a@)),
            None => items_in(value_of(*v)) is None,
        },
{
    match v {
        Json::Arr(a) => {
            assert(items_in(value_of(*v))->0 =~= values_of(a@));
            Some(a)
        },
        _ => None,
    }
}

/// The first field from `k` on that is named `key`.
pub open spec fn named_from(
    fields: Seq<(Seq<char>, JsonView)>,
    k: int,
    key: Seq<char>,
) -> Option<JsonView>
    decreases fields.len() - k,
{
    if k < 0 || k >= fields.len() {
        None
    } else if fields[k].0 == key {
        Some(fields[k].1)
    } else {
        named_from(fields, k + 1, key)
    }
}

/// The field of an object that is named `key`.
pub open spec fn member_of(v: JsonView, key: Seq<char>) -> Option<JsonView> {
    match v {
        JsonView::Obj(f) => named_from(f, 0, key),
        _ => None,
    }
}

/// A field holds the same whether it is found before or after its object is
/// viewed.
proof fn lemma_named(fields: Seq<(String, Json)>, k: int, key: Seq<char>)
    ensures
        named_from(fields_view(fields), k, key) == opt_value(field_from(fields, k, key)),
    decreases fields.len() - k,
{
    if 0 <= k < fields.len() {
        lemma_named(fields, k + 1, key);
    }
}

/// The field of an object that is named `key`.
pub fn member<'a>(v: &'a Json, key: &str) -> (r: Option<&'a Json>)
    ensures
        match r {
            Some(x) => member_of(value_of(*v), key@) == Some(value_of(*x)),
            None => member_of(value_of(*v), key@) is None,
        },
{
    match v {
        Json::Obj(f) => {
            proof {
                lemma_named(f@, 0, key@);
                assert(value_of(*v)->Obj_0 =~= fields_view(f@));
            }
            get(f, key)
        },
        _ => None,
    }
}

/// The text in the field of an object that is named `key`.
pub open spec fn member_text(v: JsonView, key: Seq<char>) -> Option<Seq<char>> {
    match member_of(v, key) {
        Some(x) => string_in(x),
        None => None,
    }
}

/// The text in the field of an object that is named `key`.
pub fn member_str<'a>(v: &'a Json, key: &str) -> (r: Option<&'a str>)
    ensures
        match r {
            Some(s) => member_text(value_of(*v), key@) == Some(s@),
            None => member_text(value_of(*v), key@) is None,
        },
{
    match member(v, key) {
        Some(x) => as_str(x),
        None => None,
    }
}

/// Whether the field of an object that is named `key` is there and true.
pub open spec fn member_true(v: JsonView, key: Seq<char>) -> bool {
    match member_of(v, key) {
        Some(JsonView::Bool(b)) => b,
        _ => false,
    }
}

/// Whether the field of an object that is named `key` is there and true.
pub fn is_member_true(v: &Json, key: &str) -> (r: bool)
    ensures
        r == member_true(value_of(*v), key@),
{
    match member(v, key) {
        Some(x) => match x {
            Json::Bool(b) => *b,
            _ => false,
        },
        None => false,
    }
}

/// A copy of a value.
pub fn copy(v: &Json) -> (r: Json)
    ensures
        value_of(r) == value_of(*v),
    decreases v,
{
    match v {
        Json::Null => Json::Null,
        Json::Bool(b) => Json::Bool(*b),
        Json::Num(t, n) => Json::Num(t.as_str().to_owned(), *n),
        Json::Str(t) => Json::Str(t.as_str().to_owned()),
        Json::Arr(a) => {
            let n: usize = a.len();
            let mut items: Vec<Json> = Vec::new();
            let mut i: usize = 0;
            while i < n
                invariant
                    *v == Json::Arr(*a),
                    n == a@.len(),
                    i <= n,
                    items@.len() == i,
                    forall|k: int| 0 <= k < i ==> value_of(#[trigger] items@[k]) == value_of(a@[k]),
                decreases n - i,
            {
                assert(decreases_to!(*v => v->Arr_0));
                assert(decreases_to!(v->Arr_0 => v->Arr_0@));
                assert(decreases_to!(v->Arr_0@ => v->Arr_0@[i as int]));
                let item = copy(&a[i]);
                items.push(item);
                i = i + 1;
            }
            let r = Json::Arr(items);
            assert(value_of(r)->Arr_0 =~= value_of(*v)->Arr_0);
            r
        },
        Json::Obj(f) => {
            let n: usize = f.len();
            let mut fields: Vec<(String, Json)> = Vec::new();
            let mut i: usize = 0;
            while i < n
                invariant
                    *v == Json::Obj(*f),
                    n == f@.len(),
                    i <= n,
                    fields@.len() == i,
                    forall|k: int|
                        0 <= k < i ==> (#[trigger] fields@[k]).0@ == f@[k].0@ && value_of(
                            fields@[k].1,
                        ) == value_of(f@[k].1),
                decreases n - i,
            {
                assert(decreases_to!(*v => v->Obj_0));
                assert(decreases_to!(v->Obj_0 => v->Obj_0@));
                assert(decreases_to!(v->Obj_0@ => v->Obj_0@[i as int]));
                assert(decreases_to!(v->Obj_0@[i as int] => v->Obj_0@[i as int].1));
                let item = copy(&f[i].1);
                fields.push((f[i].0.as_str().to_owned(), item));
                i = i + 1;
            }
            let r = Json::Obj(fields);
            assert(value_of(r)->Obj_0 =~= value_of(*v)->Obj_0);
            r
        },
    }
}

// ── Reading text ─────────────────────────────────────────────────────────

/// `serde_json::Value`.
#[verifier::external_type_specification]
#[verifier::external_body]
pub struct ExValue(Value);

/// What a `serde_json::Value` holds, with the fields of an object in the order
/// in which its map is walked.
pub uninterp spec fn value_held(v: Value) -> JsonView;

/// The value that a text holds in the sense of `serde_json::from_str`; nothing
/// when it holds none.
pub uninterp spec fn parsed_json(content: Seq<char>) -> Option<JsonView>;

/// A `serde_json::Value` with its outermost part taken off.
pub enum Opened<'a> {
    Null,
    Bool(bool),
    Num(String, Amount),
    Str(&'a str),
    Arr(Vec<&'a Value>),
    Obj(Vec<(&'a str, &'a Value)>),
}

/// What a value holds.
pub open spec fn opened_view(v: Opened) -> JsonView {
    match v {
        Opened::Null => JsonView::Null,
        Opened::Bool(b) => JsonView::Bool(b),
        Opened::Num(t, n) => JsonView::Num(t@, n),
        Opened::Str(t) => JsonView::Str(t@),
        Opened::Arr(a) => JsonView::Arr(Seq::new(a@.len(), |i: int| value_held(*a@[i]))),
        Opened::Obj(f) => JsonView::Obj(
            Seq::new(f@.len(), |i: int| (f@[i].0@, value_held(*f@[i].1))),
        ),
    }
}

/// Hands over what is directly in a `serde_json::Value`: a number by the text
/// that `Number` displays, and by its value where `as_u64` or `as_i64` gives
/// one; the fields of an object in the order in which its `Map` is walked.  The
/// claim is that this is what the value holds.
#[verifier::external_body]
pub(crate) fn opened<'a>(v: &'a Value) -> (r: Opened<'a>)
    ensures
        opened_view(r) == value_held(*v),
{
    match v {
        Value::Null => Opened::Null,
        Value::Bool(b) => Opened::Bool(*b),
        Value::Number(n) => {
            let natural = n.as_u64().map(Amount::Natural);
            let amount = natural.or(n.as_i64().map(Amount::Negative)).unwrap_or(Amount::Other);
            Opened::Num(n.to_string(), amount)
        }
        Value::String(s) => Opened::Str(s),
        Value::Array(a) => Opened::Arr(a.iter().collect()),
        Value::Object(o) => Opened::Obj(o.iter().map(|(k, x)| (k.as_str(), x)).collect()),
    }
}

/// A value of `serde_json` as one of the library.
pub fn from_value(v: &Value) -> (r: Json)
    ensures
        value_of(r) == value_held(*v),
    decreases value_held(*v),
{
    match opened(v) {
        Opened::Null => Json::Null,
        Opened::Bool(b) => Json::Bool(b),
        Opened::Num(t, n) => Json::Num(t, n),
        Opened::Str(t) => Json::Str(t.to_owned()),
        Opened::Arr(a) => {
            let n: usize = a.len();
            let mut items: Vec<Json> = Vec::new();
            let ghost held = value_held(*v)->Arr_0;
            let mut i: usize = 0;
            while i < n
                invariant
                    n == a@.len(),
                    value_held(*v) == JsonView::Arr(held),
                    held.len() == n,
                    forall|k: int| 0 <= k < n ==> #[trigger] held[k] == value_held(*a@[k]),
                    i <= n,
                    items@.len() == i,
                    forall|k: int| 0 <= k < i ==> value_of(#[trigger] items@[k]) == held[k],
                decreases n - i,
            {
                assert(held[i as int] == value_held(*a@[i as int]));
                assert(decreases_to!(value_held(*v) => value_held(*v)->Arr_0));
                assert(decreases_to!(held => held[i as int]));
                let item = from_value(a[i]);
                items.push(item);
                i = i + 1;
            }
            let r = Json::Arr(items);
            assert(value_of(r)->Arr_0 =~= held);
            r
        },
        Opened::Obj(f) => {
            let n: usize = f.len();
            let mut fields: Vec<(String, Json)> = Vec::new();
            let ghost held = value_held(*v)->Obj_0;
            let mut i: usize = 0;
            while i < n
                invariant
                    n == f@.len(),
                    value_held(*v) == JsonView::Obj(held),
                    held.len() == n,
                    forall|k: int|
                        0 <= k < n ==> #[trigger] held[k] == (f@[k].0@, value_held(*f@[k].1)),
                    i <= n,
                    fields@.len() == i,
                    forall|k: int|
                        0 <= k < i ==> ((#[trigger] fields@[k]).0@, value_of(fields@[k].1))
                            == held[k],
                decreases n - i,
            {
                assert(held[i as int] == (f@[i as int].0@, value_held(*f@[i as int].1)));
                assert(decreases_to!(value_held(*v) => value_held(*v)->Obj_0));
                assert(decreases_to!(held => held[i as int]));
                assert(decreases_to!(held[i as int] => held[i as int].1));
                let (key, x) = f[i];
                let item = from_value(x);
                fields.push((key.to_owned(), item));
                i = i + 1;
            }
            let r = Json::Obj(fields);
            assert(value_of(r)->Obj_0 =~= held);
            r
        },
    }
}

/// `serde_json::from_str` into a `serde_json::Value`.  The claim is that whether
/// there is a value, and what it holds, depends on the text alone.
#[verifier::external_body]
pub(crate) fn parse_value(content: &str) -> (r: Option<Value>)
    ensures
        match r {
            Some(v) => parsed_json(content@) == Some(value_held(v)),
            None => parsed_json(content@) is None,
        },
{
    serde_json::from_str(content).ok()
}

/// A value as `serde_json::Value` displays it.
pub uninterp spec fn displayed(v: JsonView) -> Seq<char>;

/// `serde_json::Value::to_string`.  The claim is that the text depends on what
/// the value holds alone.
#[verifier::external_body]
pub(crate) fn display(v: &Value) -> (r: String)
    ensures
        r@ == displayed(value_held(*v)),
{
    v.to_string()
}

/// The value that a text holds.
pub fn parse(content: &str) -> (r: Option<Json>)
    ensures
        opt_value(r) == parsed_json(content@),
{
    match parse_value(content) {
        Some(v) => Some(from_value(&v)),
        None => None,
    }
}

} // verus!
