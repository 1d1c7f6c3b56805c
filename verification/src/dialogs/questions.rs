//! Questions to the user, and the answers to them.

use vstd::prelude::*;

use crate::json;
use crate::json::{as_array, get, is_member_true, member, member_str, Json, JsonView};
use crate::render::tools;
use crate::text;

verus! {

pub struct QuestionOption {
    pub label: String,
    pub description: String,
}

pub struct Question {
    pub question: String,
    pub header: String,
    pub options: Vec<QuestionOption>,
    pub multi_select: bool,
}

/// An option, in characters.
pub struct OptionView {
    pub label: Seq<char>,
    pub description: Seq<char>,
}

/// A question, in characters.
pub struct QuestionView {
    pub question: Seq<char>,
    pub header: Seq<char>,
    pub options: Seq<OptionView>,
    pub multi_select: bool,
}

pub open spec fn option_view(o: QuestionOption) -> OptionView {
    OptionView { label: o.label@, description: o.description@ }
}

pub open spec fn options_view(v: Seq<QuestionOption>) -> Seq<OptionView> {
    Seq::new(v.len(), |i: int| option_view(v[i]))
}

pub open spec fn question_view(q: Question) -> QuestionView {
    QuestionView {
        question: q.question@,
        header: q.header@,
        options: options_view(q.options@),
        multi_select: q.multi_select,
    }
}

pub open spec fn questions_view(v: Seq<Question>) -> Seq<QuestionView> {
    Seq::new(v.len(), |i: int| question_view(v[i]))
}

// ── Reading questions ────────────────────────────────────────────────────

/// The options among the first `n` values; a value without a label or a
/// description is none.
pub open spec fn options_in(vs: Seq<JsonView>, n: int) -> Seq<OptionView>
    decreases n,
{
    if n <= 0 {
        seq![]
    } else {
        let before = options_in(vs, n - 1);
        match (
            json::member_text(vs[n - 1], "label"@),
            json::member_text(vs[n - 1], "description"@),
        ) {
            (Some(label), Some(description)) => before.push(OptionView { label, description }),
            _ => before,
        }
    }
}

/// The question that a value is, if it has all its parts.
pub open spec fn question_in(v: JsonView) -> Option<QuestionView> {
    match (json::member_text(v, "question"@), json::member_text(v, "header"@)) {
        (Some(question), Some(header)) => match json::member_of(v, "options"@) {
            Some(o) => match json::items_in(o) {
                Some(items) => Some(
                    QuestionView {
                        question,
                        header,
                        options: options_in(items, items.len() as int),
                        multi_select: json::member_true(v, "multiSelect"@),
                    },
                ),
                None => None,
            },
            None => None,
        },
        _ => None,
    }
}

/// The questions among the first `n` values.
pub open spec fn questions_in(vs: Seq<JsonView>, n: int) -> Seq<QuestionView>
    decreases n,
{
    if n <= 0 {
        seq![]
    } else {
        let before = questions_in(vs, n - 1);
        match question_in(vs[n - 1]) {
            Some(q) => before.push(q),
            None => before,
        }
    }
}

/// The questions in the arguments of a call.
pub open spec fn asked(args: Seq<(String, Json)>) -> Seq<QuestionView> {
    match json::field_of(args, "questions"@) {
        Some(v) => match json::items_in(json::value_of(v)) {
            Some(items) => questions_in(items, items.len() as int),
            None => seq![],
        },
        None => seq![],
    }
}

fn parse_options(vs: &Vec<Json>) -> (r: Vec<QuestionOption>)
    ensures
        options_view(r@) == options_in(json::values_of(vs@), vs@.len() as int),
{
    let mut v: Vec<QuestionOption> = Vec::new();
    let total: usize = vs.len();
    let mut i: usize = 0;
    assert(options_view(v@) =~= seq![]);
    while i < total
        invariant
            total == vs@.len(),
            i <= total,
            options_view(v@) == options_in(json::values_of(vs@), i as int),
        decreases total - i,
    {
        match (member_str(&vs[i], "label"), member_str(&vs[i], "description")) {
            (Some(l), Some(d)) => {
                let o = QuestionOption { label: l.to_owned(), description: d.to_owned() };
                let ghost v0 = v@;
                v.push(o);
                assert(options_view(v@) =~= options_view(v0).push(option_view(o)));
            },
            _ => {},
        }
        i = i + 1;
    }
    v
}

fn parse_question(v: &Json) -> (r: Option<Question>)
    ensures
        match r {
            Some(q) => question_in(json::value_of(*v)) == Some(question_view(q)),
            None => question_in(json::value_of(*v)) is None,
        },
{
    match (member_str(v, "question"), member_str(v, "header")) {
        (Some(q), Some(h)) => match member(v, "options") {
            Some(o) => match as_array(o) {
                Some(items) => Some(
                    Question {
                        question: q.to_owned(),
                        header: h.to_owned(),
                        options: parse_options(items),
                        multi_select: is_member_true(v, "multiSelect"),
                    },
                ),
                None => None,
            },
            None => None,
        },
        _ => None,
    }
}

/// The questions in the arguments of a call.
pub fn parse_questions(args: &Vec<(String, Json)>) -> (r: Vec<Question>)
    ensures
        questions_view(r@) == asked(args@),
{
    let mut v: Vec<Question> = Vec::new();
    assert(questions_view(v@) =~= seq![]);
    match get(args, "questions") {
        Some(x) => match as_array(x) {
            Some(items) => {
                let total: usize = items.len();
                let mut i: usize = 0;
                while i < total
                    invariant
                        total == items@.len(),
                        i <= total,
                        questions_view(v@) == questions_in(json::values_of(items@), i as int),
                    decreases total - i,
                {
                    match parse_question(&items[i]) {
                        Some(q) => {
                            let ghost v0 = v@;
                            v.push(q);
                            assert(questions_view(v@) =~= questions_view(v0).push(
                                question_view(q),
                            ));
                        },
                        None => {},
                    }
                    i = i + 1;
                }
            },
            None => {},
        },
        None => {},
    }
    v
}

// ── Writing answers ──────────────────────────────────────────────────────

/// An answer: one text, or several.
pub enum Answer<T, L> {
    One(T),
    Many(L),
}

pub open spec fn answer_view(a: Answer<String, Vec<String>>) -> Answer<Seq<char>, Seq<Seq<char>>> {
    match a {
        Answer::One(t) => Answer::One(t@),
        Answer::Many(ts) => Answer::Many(text::texts(ts@)),
    }
}

/// Answers behind their questions, in characters.
pub open spec fn answers_view(v: Seq<(String, Answer<String, Vec<String>>)>) -> Seq<
    (Seq<char>, Answer<Seq<char>, Seq<Seq<char>>>),
> {
    Seq::new(v.len(), |i: int| (v[i].0@, answer_view(v[i].1)))
}

/// No two answers are to the same question.
pub open spec fn distinct_questions(v: Seq<(Seq<char>, Answer<Seq<char>, Seq<Seq<char>>>)>) -> bool {
    forall|i: int, j: int| 0 <= i < j < v.len() ==> v[i].0 != v[j].0
}

/// An answer as it is read back: the question, whether it is a list, and the
/// texts in it.
pub open spec fn as_read(a: (Seq<char>, Answer<Seq<char>, Seq<Seq<char>>>)) -> (
    Seq<char>,
    bool,
    Seq<Option<Seq<char>>>,
) {
    match a.1 {
        Answer::One(t) => (a.0, false, seq![Some(t)]),
        Answer::Many(ts) => (a.0, true, Seq::new(ts.len(), |i: int| Some(ts[i]))),
    }
}

/// Whether the answers that were read are those that were written, in some
/// order.
pub open spec fn read_back(
    written: Seq<(Seq<char>, Answer<Seq<char>, Seq<Seq<char>>>)>,
    read: Option<Seq<(Seq<char>, bool, Seq<Option<Seq<char>>>)>>,
) -> bool {
    match read {
        Some(r) => r.len() == written.len() && forall|i: int|
            0 <= i < written.len() ==> r.contains(as_read(#[trigger] written[i])),
        None => false,
    }
}

/// The object that holds the answers, as `serde_json::Value` displays it.
pub uninterp spec fn answers_text(
    answers: Seq<(Seq<char>, Answer<Seq<char>, Seq<Seq<char>>>)>,
) -> Seq<char>;

/// `serde_json::Value::to_string` of an object with a field for each answer: a
/// string, or a list of strings.  The claims are that the text depends on the
/// answers alone, and that `serde_json::from_str` reads the answers back from
/// it when no question occurs twice.
#[verifier::external_body]
fn write_answers(answers: &Vec<(String, Answer<String, Vec<String>>)>) -> (r: String)
    ensures
        r@ == answers_text(answers_view(answers@)),
        distinct_questions(answers_view(answers@)) ==> read_back(
            answers_view(answers@),
            tools::parsed_answers(r@),
        ),
{
    let map: serde_json::Map<String, serde_json::Value> = answers.iter().map(|(q, a)| (
        q.clone(),
        match a {
            Answer::One(t) => serde_json::Value::from(t.clone()),
            Answer::Many(ts) => serde_json::Value::from(ts.clone()),
        },
    )).collect();
    serde_json::Value::Object(map).to_string()
}

/// The text that says the answers.
pub fn answer_text(answers: &Vec<(String, Answer<String, Vec<String>>)>) -> (r: String)
    ensures
        r@ == answers_text(answers_view(answers@)),
        distinct_questions(answers_view(answers@)) ==> read_back(
            answers_view(answers@),
            tools::parsed_answers(r@),
        ),
{
    write_answers(answers)
}

} // verus!
