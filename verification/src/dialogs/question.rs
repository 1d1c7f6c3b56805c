//! The dialog that asks questions.

use vstd::prelude::*;

use crate::dialogs::keys::{KeyCode, KeyModifiers};
use crate::dialogs::questions;
use crate::dialogs::questions::{answer_text, Answer, Question, QuestionView};
use crate::dialogs::result::DialogResult;
use crate::dialogs::text_area;
use crate::dialogs::text_area::{AreaView, TextArea};
use crate::render::tools;
use crate::text;
use crate::text::cat;

verus! {

/// A number of rows, at most as many as there can be.
pub open spec fn rows16(n: int) -> u16 {
    if n > u16::MAX {
        u16::MAX
    } else {
        n as u16
    }
}

pub(crate) fn cap_rows(n: usize) -> (r: u16)
    ensures
        r == rows16(n as int),
{
    if n > 0xffff {
        0xffff
    } else {
        n as u16
    }
}

// ── State ────────────────────────────────────────────────────────────────

/// The state of a dialog that asks questions.
#[verifier::ext_equal]
pub struct AskView {
    pub questions: Seq<QuestionView>,
    pub tab: int,
    /// The option that is selected, for each question; behind the last is
    /// the user's own answer.
    pub selections: Seq<usize>,
    pub toggles: Seq<Seq<bool>>,
    /// The user's own answers.
    pub areas: Seq<AreaView>,
    pub editing: Seq<bool>,
    pub visited: Seq<bool>,
    pub answered: Seq<bool>,
    pub dirty: bool,
    pub request_id: u64,
    pub anchor: Option<u16>,
}

/// What a key makes of a dialog that asks questions.
pub enum Reply {
    Stay,
    Cancel,
    Finish,
}

/// The dialog that asks questions.
pub struct QuestionDialog {
    pub questions: Vec<Question>,
    pub has_tabs: bool,
    pub active_tab: usize,
    pub selections: Vec<usize>,
    pub multi_toggles: Vec<Vec<bool>>,
    pub other_areas: Vec<TextArea>,
    pub editing_other: Vec<bool>,
    pub visited: Vec<bool>,
    pub answered: Vec<bool>,
    pub dirty: bool,
    pub request_id: u64,
    /// The row at which the dialog starts, once it has been drawn.
    pub anchor_row: Option<u16>,
}

/// The marks of lists.
pub open spec fn marks_view(v: Seq<Vec<bool>>) -> Seq<Seq<bool>> {
    Seq::new(v.len(), |i: int| v[i]@)
}

/// The texts that are edited.
pub open spec fn areas_view(v: Seq<TextArea>) -> Seq<AreaView> {
    Seq::new(v.len(), |i: int| v[i]@)
}

impl View for QuestionDialog {
    type V = AskView;

    open spec fn view(&self) -> AskView {
        AskView {
            questions: questions::questions_view(self.questions@),
            tab: self.active_tab as int,
            selections: self.selections@,
            toggles: marks_view(self.multi_toggles@),
            areas: areas_view(self.other_areas@),
            editing: self.editing_other@,
            visited: self.visited@,
            answered: self.answered@,
            dirty: self.dirty,
            request_id: self.request_id,
            anchor: self.anchor_row,
        }
    }
}

/// `n` times the same.
pub open spec fn all_of<A>(n: nat, a: A) -> Seq<A> {
    Seq::new(n, |i: int| a)
}

impl AskView {
    pub open spec fn first(qs: Seq<QuestionView>, request_id: u64) -> AskView {
        AskView {
            questions: qs,
            tab: 0,
            selections: all_of(qs.len(), 0),
            toggles: Seq::new(qs.len(), |i: int| all_of((qs[i].options.len() + 1) as nat, false)),
            areas: all_of(qs.len(), AreaView::blank()),
            editing: all_of(qs.len(), false),
            visited: all_of(qs.len(), false),
            answered: all_of(qs.len(), false),
            dirty: true,
            request_id,
            anchor: None,
        }
    }

    /// There is a state for every question, and every state is one that can
    /// be shown.
    pub open spec fn wf(self) -> bool {
        let n = self.questions.len();
        &&& 0 <= self.tab
        &&& n > 0 ==> self.tab < n
        &&& self.selections.len() == n
        &&& self.toggles.len() == n
        &&& self.areas.len() == n
        &&& self.editing.len() == n
        &&& self.visited.len() == n
        &&& self.answered.len() == n
        &&& forall|i: int|
            0 <= i < n ==> (#[trigger] self.selections[i]) <= self.questions[i].options.len()
        &&& forall|i: int|
            0 <= i < n ==> (#[trigger] self.toggles[i]).len() == self.questions[i].options.len()
                + 1
        &&& forall|i: int| 0 <= i < n ==> (#[trigger] self.areas[i]).wf()
        &&& forall|i: int|
            0 <= i < n ==> (#[trigger] self.questions[i]).options.len() < usize::MAX
    }

    /// The question that is shown.
    pub open spec fn question(self) -> QuestionView {
        self.questions[self.tab]
    }

    /// The place of the user's own answer.
    pub open spec fn other(self) -> int {
        self.question().options.len() as int
    }

    pub open spec fn selected(self, k: int) -> AskView {
        AskView { selections: self.selections.update(self.tab, k as usize), ..self }
    }

    pub open spec fn toggled_to(self, k: int, b: bool) -> AskView {
        AskView {
            toggles: self.toggles.update(self.tab, self.toggles[self.tab].update(k, b)),
            ..self
        }
    }

    pub open spec fn toggled(self, k: int) -> AskView {
        self.toggled_to(k, !self.toggles[self.tab][k])
    }

    pub open spec fn edits(self, b: bool) -> AskView {
        AskView { editing: self.editing.update(self.tab, b), ..self }
    }

    pub open spec fn with_area(self, a: AreaView) -> AskView {
        AskView { areas: self.areas.update(self.tab, a), ..self }
    }

    /// Another question is shown.
    pub open spec fn turned_to(self, tab: int) -> AskView {
        AskView { visited: self.visited.update(self.tab, true), tab, ..self }
    }

    /// The first question from `i` on without an answer.
    pub open spec fn unanswered(self, i: int) -> Option<int>
        decreases self.answered.len() - i,
    {
        if i < 0 || i >= self.answered.len() {
            None
        } else if !self.answered[i] {
            Some(i)
        } else {
            self.unanswered(i + 1)
        }
    }

    /// What a key does while the user's own answer is edited.
    pub open spec fn edited(self, code: KeyCode, mods: KeyModifiers, word_start: int) -> (
        AskView,
        Reply,
    ) {
        let area = self.areas[self.tab];
        match code {
            KeyCode::Esc => (self.edits(false), Reply::Stay),
            KeyCode::Char(c) => if c == 'c' && mods.control {
                if area.empty() {
                    (self, Reply::Cancel)
                } else {
                    let s = self.with_area(AreaView::blank()).edits(false);
                    (
                        if self.question().multi_select {
                            s.toggled_to(self.other(), false)
                        } else {
                            s
                        },
                        Reply::Stay,
                    )
                }
            } else {
                self.typed(code, mods, word_start)
            },
            _ => self.typed(code, mods, word_start),
        }
    }

    /// A key goes to the user's own answer.
    pub open spec fn typed(self, code: KeyCode, mods: KeyModifiers, word_start: int) -> (
        AskView,
        Reply,
    ) {
        (
            match self.areas[self.tab].after_key(code, mods, word_start) {
                Some(a) => self.with_area(a),
                None => self,
            },
            Reply::Stay,
        )
    }

    /// The question that is shown has its answer.
    pub open spec fn confirmed(self) -> (AskView, Reply) {
        let s = AskView { answered: self.answered.update(self.tab, true), ..self };
        match s.unanswered(0) {
            Some(i) => (AskView { tab: i, ..s }, Reply::Stay),
            None => (s, Reply::Finish),
        }
    }

    pub open spec fn next_tab(self) -> AskView {
        if self.questions.len() > 1 {
            self.turned_to((self.tab + 1) % (self.questions.len() as int))
        } else {
            self
        }
    }

    pub open spec fn previous_tab(self) -> AskView {
        if self.questions.len() > 1 {
            self.turned_to(
                if self.tab == 0 {
                    self.questions.len() - 1
                } else {
                    self.tab - 1
                },
            )
        } else {
            self
        }
    }

    pub open spec fn selected_up(self) -> AskView {
        let k = self.selections[self.tab];
        self.selected(
            if k == 0 {
                self.other()
            } else {
                k - 1
            },
        )
    }

    pub open spec fn selected_down(self) -> AskView {
        self.selected((self.selections[self.tab] + 1) % (self.other() + 1))
    }

    /// The user's own answer is to be edited, if it is selected.
    pub open spec fn own_answer(self) -> AskView {
        if self.selections[self.tab] == self.other() {
            let s = self.edits(true);
            if self.question().multi_select {
                s.toggled_to(self.other(), true)
            } else {
                s
            }
        } else {
            self
        }
    }

    /// The selected option is marked, or no longer.
    pub open spec fn marked(self) -> AskView {
        let k = self.selections[self.tab] as int;
        if k == self.other() && self.areas[self.tab].empty() {
            self.edits(true)
        } else {
            self.toggled(k)
        }
    }

    /// An option is chosen by its number.
    pub open spec fn chosen(self, num: int) -> AskView {
        if 1 <= num <= self.other() + 1 {
            if self.question().multi_select {
                self.toggled(num - 1)
            } else {
                self.selected(num - 1)
            }
        } else {
            self
        }
    }

    /// What a key does while an option is chosen.
    pub open spec fn chose(self, code: KeyCode, mods: KeyModifiers) -> (AskView, Reply) {
        match code {
            KeyCode::Esc => (self, Reply::Cancel),
            KeyCode::Enter => self.confirmed(),
            KeyCode::Tab => (self.own_answer(), Reply::Stay),
            KeyCode::Right => (self.next_tab(), Reply::Stay),
            KeyCode::BackTab => (self.previous_tab(), Reply::Stay),
            KeyCode::Left => (self.previous_tab(), Reply::Stay),
            KeyCode::Up => (self.selected_up(), Reply::Stay),
            KeyCode::Down => (self.selected_down(), Reply::Stay),
            KeyCode::Char(c) => if c == 'c' && mods.control && !mods.shift && !mods.alt
                && !mods.other {
                (self, Reply::Cancel)
            } else if c == 'l' {
                (self.next_tab(), Reply::Stay)
            } else if c == 'h' {
                (self.previous_tab(), Reply::Stay)
            } else if c == 'k' {
                (self.selected_up(), Reply::Stay)
            } else if c == 'j' {
                (self.selected_down(), Reply::Stay)
            } else if c == ' ' && self.question().multi_select {
                (self.marked(), Reply::Stay)
            } else if '0' <= c && c <= '9' {
                (self.chosen(c as int - '0' as int), Reply::Stay)
            } else {
                (self, Reply::Stay)
            },
            _ => (self, Reply::Stay),
        }
    }

    /// What a key does.
    pub open spec fn after_key(self, code: KeyCode, mods: KeyModifiers, word_start: int) -> (
        AskView,
        Reply,
    ) {
        let s = AskView { dirty: true, ..self };
        if self.editing[self.tab] {
            s.edited(code, mods, word_start)
        } else {
            s.chose(code, mods)
        }
    }

    // ── Answers ──────────────────────────────────────────────────────────

    /// The user's own answer to question `i`.
    pub open spec fn own_text(self, i: int) -> Seq<char> {
        "Other: "@ + self.areas[i].text()
    }

    /// The text of option `k` of question `i`.
    pub open spec fn option_text(self, i: int, k: int) -> Seq<char> {
        if k == self.questions[i].options.len() {
            self.own_text(i)
        } else {
            self.questions[i].options[k].label
        }
    }

    /// The texts of the marked ones among the first `k` options of question
    /// `i`.
    pub open spec fn marked_texts(self, i: int, k: int) -> Seq<Seq<char>>
        decreases k,
    {
        if k <= 0 {
            seq![]
        } else if self.toggles[i][k - 1] {
            self.marked_texts(i, k - 1).push(self.option_text(i, k - 1))
        } else {
            self.marked_texts(i, k - 1)
        }
    }

    /// The answer to question `i`: what is marked, or else what is selected.
    pub open spec fn answer(self, i: int) -> Answer<Seq<char>, Seq<Seq<char>>> {
        let marked = self.marked_texts(i, self.toggles[i].len() as int);
        if self.questions[i].multi_select && marked.len() > 0 {
            Answer::Many(marked)
        } else {
            Answer::One(self.option_text(i, self.selections[i] as int))
        }
    }

    /// All answers, behind their questions.
    pub open spec fn answers(self) -> Seq<(Seq<char>, Answer<Seq<char>, Seq<Seq<char>>>)> {
        Seq::new(
            self.questions.len(),
            |i: int| (self.questions[i].question, self.answer(i)),
        )
    }
}

// ── Laws ─────────────────────────────────────────────────────────────────

/// Every key keeps the dialog in a state that can be shown.
pub proof fn law_keys_keep_dialog(s: AskView, code: KeyCode, mods: KeyModifiers, word_start: int)
    requires
        s.wf(),
        s.questions.len() > 0,
        word_start >= 0,
    ensures
        s.after_key(code, mods, word_start).0.wf(),
        s.after_key(code, mods, word_start).0.questions == s.questions,
{
    let a = s.areas[s.tab];
    text_area::law_keys_keep_cursor(a, code, mods, word_start);
    let d = AskView { dirty: true, ..s };
    lemma_unanswered(AskView { answered: d.answered.update(d.tab, true), ..d }, 0);
    let n = s.questions.len() as int;
    assert(0 <= (s.tab + 1) % n < n) by (nonlinear_arith)
        requires
            n > 0,
    ;
    let k = s.selections[s.tab] as int;
    let m = s.other() + 1;
    assert(0 <= (k + 1) % m < m) by (nonlinear_arith)
        requires
            m > 0,
    ;
}

proof fn lemma_unanswered(s: AskView, i: int)
    requires
        0 <= i <= s.answered.len(),
    ensures
        match s.unanswered(i) {
            Some(k) => i <= k < s.answered.len() && !s.answered[k],
            None => forall|j: int| i <= j < s.answered.len() ==> s.answered[j],
        },
    decreases s.answered.len() - i,
{
    if i < s.answered.len() && s.answered[i] {
        lemma_unanswered(s, i + 1);
    }
}

/// The dialog ends with an answer only once every question has one.
pub proof fn law_all_are_answered(s: AskView, code: KeyCode, mods: KeyModifiers, word_start: int)
    requires
        s.wf(),
        s.questions.len() > 0,
        s.after_key(code, mods, word_start).1 is Finish,
    ensures
        forall|i: int|
            0 <= i < s.questions.len() ==> s.after_key(code, mods, word_start).0.answered[i],
{
    let d = AskView { dirty: true, ..s };
    lemma_unanswered(AskView { answered: d.answered.update(d.tab, true), ..d }, 0);
}

/// The place of the options that are marked among the first `k`.
spec fn marked_places(s: AskView, i: int, k: int) -> Seq<int>
    decreases k,
{
    if k <= 0 {
        seq![]
    } else if s.toggles[i][k - 1] {
        marked_places(s, i, k - 1).push(k - 1)
    } else {
        marked_places(s, i, k - 1)
    }
}

proof fn lemma_marked_places(s: AskView, i: int, k: int)
    ensures
        ({
            let v = marked_places(s, i, k);
            &&& s.marked_texts(i, k) == Seq::new(v.len(), |j: int| s.option_text(i, v[j]))
            &&& forall|j: int| 0 <= j < v.len() ==> 0 <= #[trigger] v[j] < k && s.toggles[i][v[j]]
            &&& forall|a: int, b: int| 0 <= a < b < v.len() ==> v[a] < v[b]
            &&& forall|o: int| 0 <= o < k && #[trigger] s.toggles[i][o] ==> v.contains(o)
        }),
    decreases k,
{
    let v = marked_places(s, i, k);
    if k <= 0 {
        assert(s.marked_texts(i, k) =~= Seq::new(v.len(), |j: int| s.option_text(i, v[j])));
    } else {
        lemma_marked_places(s, i, k - 1);
        let u = marked_places(s, i, k - 1);
        assert(s.marked_texts(i, k) =~= Seq::new(v.len(), |j: int| s.option_text(i, v[j])));
        assert forall|o: int| 0 <= o < k && #[trigger] s.toggles[i][o] implies v.contains(o) by {
            if o < k - 1 {
                assert(u.contains(o));
                let j = choose|j: int| 0 <= j < u.len() && u[j] == o;
                assert(v[j] == o);
            } else {
                assert(v[u.len() as int] == o);
            }
        }
    }
}

/// The answer to a question is the label of the option that is selected, or
/// what the user wrote instead. Where several may be chosen and some are
/// marked, it is the labels of all that are marked, in their order, and of no
/// others: `places` says where they stand.
pub proof fn law_answer_is_what_was_chosen(s: AskView, i: int) -> (places: Seq<int>)
    requires
        s.wf(),
        0 <= i < s.questions.len(),
    ensures
        ({
            let q = s.questions[i];
            let n = q.options.len() as int;
            let label = |k: int|
                if k == n {
                    "Other: "@ + s.areas[i].text()
                } else {
                    q.options[k].label
                };
            &&& s.answers()[i].0 == q.question
            &&& forall|j: int|
                0 <= j < places.len() ==> 0 <= #[trigger] places[j] <= n && s.toggles[i][places[j]]
            &&& forall|a: int, b: int| 0 <= a < b < places.len() ==> places[a] < places[b]
            &&& forall|o: int| 0 <= o <= n && #[trigger] s.toggles[i][o] ==> places.contains(o)
            &&& if q.multi_select && places.len() > 0 {
                s.answers()[i].1 matches Answer::Many(v) && v.len() == places.len() && forall|
                    j: int,
                |
                    0 <= j < v.len() ==> #[trigger] v[j] == label(places[j])
            } else {
                s.answers()[i].1 matches Answer::One(t) && t == label(s.selections[i] as int)
            }
        }),
{
    let n = s.questions[i].options.len() as int;
    assert(s.toggles[i].len() == n + 1);
    assert(s.selections[i] <= n);
    lemma_marked_places(s, i, n + 1);
    let v = marked_places(s, i, n + 1);
    assert(s.marked_texts(i, n + 1).len() == v.len());
    v
}

/// A digit chooses the option of that number: it is selected, or, where
/// several may be chosen, marked or no longer marked; no other option and no
/// other question changes.
pub proof fn law_digit_chooses_its_option(s: AskView, num: int, mods: KeyModifiers, word_start: int)
    requires
        s.wf(),
        s.questions.len() > 0,
        !s.editing[s.tab],
        1 <= num <= 9,
    ensures
        ({
            let key = KeyCode::Char((num + '0' as int) as char);
            let r = s.after_key(key, mods, word_start);
            let n = s.questions[s.tab].options.len();
            &&& r.1 is Stay
            &&& r.0.tab == s.tab
            &&& r.0.answered == s.answered
            &&& num > n + 1 ==> r.0.selections == s.selections && r.0.toggles == s.toggles
            &&& num <= n + 1 && !s.questions[s.tab].multi_select ==> r.0.selections
                == s.selections.update(s.tab, (num - 1) as usize) && r.0.toggles == s.toggles
            &&& num <= n + 1 && s.questions[s.tab].multi_select ==> r.0.selections == s.selections
                && r.0.toggles == s.toggles.update(
                s.tab,
                s.toggles[s.tab].update(num - 1, !s.toggles[s.tab][num - 1]),
            )
        }),
{
}

/// The user comes back to a question by going on and back.
pub proof fn law_tabs_go_back(s: AskView)
    requires
        s.wf(),
        s.questions.len() > 1,
    ensures
        s.next_tab().previous_tab().tab == s.tab,
        s.previous_tab().next_tab().tab == s.tab,
{
    let n = s.questions.len() as int;
    if s.tab + 1 < n {
        assert((s.tab + 1) % n == s.tab + 1) by (nonlinear_arith)
            requires
                0 <= s.tab + 1 < n,
        ;
    } else {
        assert((s.tab + 1) % n == 0) by (nonlinear_arith)
            requires
                s.tab + 1 == n,
                n > 0,
        ;
    }
    if s.tab == 0 {
        assert((n - 1 + 1) % n == 0) by (nonlinear_arith)
            requires
                n > 0,
        ;
    } else {
        assert((s.tab - 1 + 1) % n == s.tab) by (nonlinear_arith)
            requires
                0 <= s.tab < n,
        ;
    }
}

// ── Keys ─────────────────────────────────────────────────────────────────

impl QuestionDialog {
    pub fn new(questions: Vec<Question>, request_id: u64) -> (r: QuestionDialog)
        requires
            forall|i: int| 0 <= i < questions@.len() ==> (#[trigger] questions@[i]).options@.len()
                < usize::MAX,
        ensures
            r@ == AskView::first(questions::questions_view(questions@), request_id),
            r@.wf(),
            r.has_tabs == (questions@.len() > 1),
    {
        let n: usize = questions.len();
        let ghost qs = questions::questions_view(questions@);
        let mut selections: Vec<usize> = Vec::new();
        let mut multi_toggles: Vec<Vec<bool>> = Vec::new();
        let mut other_areas: Vec<TextArea> = Vec::new();
        let mut editing_other: Vec<bool> = Vec::new();
        let mut visited: Vec<bool> = Vec::new();
        let mut answered: Vec<bool> = Vec::new();
        let mut i: usize = 0;
        while i < n
            invariant
                n == questions@.len(),
                i <= n,
                qs == questions::questions_view(questions@),
                forall|i: int|
                    0 <= i < questions@.len() ==> (#[trigger] questions@[i]).options@.len()
                        < usize::MAX,
                selections@ == all_of(i as nat, 0usize),
                marks_view(multi_toggles@) == Seq::new(
                    i as nat,
                    |j: int| all_of((qs[j].options.len() + 1) as nat, false),
                ),
                areas_view(other_areas@) == all_of(i as nat, AreaView::blank()),
                editing_other@ == all_of(i as nat, false),
                visited@ == all_of(i as nat, false),
                answered@ == all_of(i as nat, false),
            decreases n - i,
        {
            let k: usize = questions[i].options.len() + 1;
            assert(qs[i as int].options.len() + 1 == k);
            let mut marks: Vec<bool> = Vec::new();
            let mut j: usize = 0;
            while j < k
                invariant
                    j <= k,
                    marks@ == all_of(j as nat, false),
                decreases k - j,
            {
                marks.push(false);
                assert(marks@ =~= all_of((j + 1) as nat, false));
                j = j + 1;
            }
            let ghost m0 = multi_toggles@;
            let ghost a0 = other_areas@;
            selections.push(0);
            multi_toggles.push(marks);
            other_areas.push(TextArea::new());
            editing_other.push(false);
            visited.push(false);
            answered.push(false);
            assert(selections@ =~= all_of((i + 1) as nat, 0usize));
            assert(marks_view(multi_toggles@) =~= Seq::new(
                (i + 1) as nat,
                |j: int| all_of((qs[j].options.len() + 1) as nat, false),
            )) by {
                assert(marks_view(multi_toggles@) =~= marks_view(m0).push(marks@));
            }
            assert(areas_view(other_areas@) =~= all_of((i + 1) as nat, AreaView::blank())) by {
                assert(areas_view(other_areas@) =~= areas_view(a0).push(AreaView::blank()));
            }
            assert(editing_other@ =~= all_of((i + 1) as nat, false));
            assert(visited@ =~= all_of((i + 1) as nat, false));
            assert(answered@ =~= all_of((i + 1) as nat, false));
            i = i + 1;
        }
        let r = QuestionDialog {
            questions,
            has_tabs: n > 1,
            active_tab: 0,
            selections,
            multi_toggles,
            other_areas,
            editing_other,
            visited,
            answered,
            dirty: true,
            request_id,
            anchor_row: None,
        };
        assert(r@ =~= AskView::first(qs, request_id));
        assert forall|i: int| 0 <= i < qs.len() implies (#[trigger] qs[i]).options.len()
            < usize::MAX by {
            assert(questions@[i].options@.len() < usize::MAX);
        }
        r
    }

    /// A dialog that can be drawn and takes keys.
    pub open spec fn ready(self) -> bool {
        &&& self@.wf()
        &&& self.questions@.len() > 0
        &&& self.has_tabs == (self.questions@.len() > 1)
    }

    /// Whether the dialog can be drawn and takes keys.
    pub fn is_ready(&self) -> (r: bool)
        ensures
            r == self.ready(),
    {
        let n: usize = self.questions.len();
        assert(self@.questions.len() == n);
        assert(self@.toggles.len() == self.multi_toggles@.len());
        assert(self@.areas.len() == self.other_areas@.len());
        if n == 0 || self.has_tabs != (n > 1) || self.active_tab >= n || self.selections.len() != n
            || self.multi_toggles.len() != n || self.other_areas.len() != n
            || self.editing_other.len() != n || self.visited.len() != n || self.answered.len() != n {
            return false;
        }
        let mut i: usize = 0;
        while i < n
            invariant
                n == self@.questions.len(),
                n == self.questions@.len(),
                n == self.selections@.len(),
                n == self.multi_toggles@.len(),
                n == self.other_areas@.len(),
                i <= n,
                forall|j: int|
                    0 <= j < i ==> (#[trigger] self@.selections[j])
                        <= self@.questions[j].options.len(),
                forall|j: int|
                    0 <= j < i ==> (#[trigger] self@.toggles[j]).len()
                        == self@.questions[j].options.len() + 1,
                forall|j: int| 0 <= j < i ==> (#[trigger] self@.areas[j]).wf(),
                forall|j: int|
                    0 <= j < i ==> (#[trigger] self@.questions[j]).options.len() < usize::MAX,
            decreases n - i,
        {
            let k: usize = self.questions[i].options.len();
            let marks: usize = self.multi_toggles[i].len();
            proof {
                assert(self@.questions[i as int].options.len() == k);
                assert(self@.toggles[i as int].len() == marks);
                assert(self@.areas[i as int] == self.other_areas@[i as int]@);
                assert(self@.selections[i as int] == self.selections@[i as int]);
            }
            if k >= usize::MAX || self.selections[i] > k || marks != k + 1
                || !self.other_areas[i].is_wf() {
                return false;
            }
            i = i + 1;
        }
        true
    }

    pub fn blocks_agent(&self) -> (r: bool)
        ensures
            r,
    {
        true
    }

    pub fn mark_dirty(&mut self)
        ensures
            *final(self) == (QuestionDialog { dirty: true, ..*old(self) }),
    {
        self.dirty = true;
    }

    pub fn handle_resize(&mut self)
        ensures
            *final(self) == (QuestionDialog { anchor_row: None, dirty: true, ..*old(self) }),
    {
        self.anchor_row = None;
        self.dirty = true;
    }

    pub fn anchor_row(&self) -> (r: Option<u16>)
        ensures
            r == self.anchor_row,
    {
        self.anchor_row
    }

    fn set_toggle(&mut self, k: usize, b: bool)
        requires
            old(self).ready(),
            k <= old(self)@.other(),
        ensures
            final(self)@ == old(self)@.toggled_to(k as int, b),
            final(self).has_tabs == old(self).has_tabs,
            final(self).questions == old(self).questions,
    {
        let tab: usize = self.active_tab;
        let ghost m0 = self.multi_toggles@;
        assert(marks_view(m0)[tab as int] == m0[tab as int]@);
        let mut marks = self.multi_toggles.remove(tab);
        marks.set(k, b);
        self.multi_toggles.insert(tab, marks);
        assert(self@ =~= old(self)@.toggled_to(k as int, b)) by {
            assert(marks_view(self.multi_toggles@) =~= marks_view(m0).update(
                tab as int,
                m0[tab as int]@.update(k as int, b),
            ));
        }
    }

    fn flip(&mut self, k: usize)
        requires
            old(self).ready(),
            k <= old(self)@.other(),
        ensures
            final(self)@ == old(self)@.toggled(k as int),
            final(self).has_tabs == old(self).has_tabs,
            final(self).questions == old(self).questions,
    {
        let ghost m0 = self.multi_toggles@;
        assert(marks_view(m0)[self.active_tab as int] == m0[self.active_tab as int]@);
        let b = self.multi_toggles[self.active_tab][k];
        self.set_toggle(k, !b);
    }

    fn select(&mut self, k: usize)
        requires
            old(self).ready(),
        ensures
            final(self)@ == old(self)@.selected(k as int),
            final(self).has_tabs == old(self).has_tabs,
            final(self).questions == old(self).questions,
    {
        self.selections.set(self.active_tab, k);
    }

    fn set_editing(&mut self, b: bool)
        requires
            old(self).ready(),
        ensures
            final(self)@ == old(self)@.edits(b),
            final(self).has_tabs == old(self).has_tabs,
            final(self).questions == old(self).questions,
    {
        self.editing_other.set(self.active_tab, b);
    }

    fn turn_to(&mut self, tab: usize)
        requires
            old(self).ready(),
        ensures
            final(self)@ == old(self)@.turned_to(tab as int),
            final(self).has_tabs == old(self).has_tabs,
            final(self).questions == old(self).questions,
    {
        self.visited.set(self.active_tab, true);
        self.active_tab = tab;
    }

    fn area_empty(&self) -> (r: bool)
        requires
            self.ready(),
        ensures
            r == self@.areas[self@.tab].empty(),
    {
        assert(areas_view(self.other_areas@)[self.active_tab as int]
            == self.other_areas@[self.active_tab as int]@);
        self.other_areas[self.active_tab].is_empty()
    }

    fn edit_key(&mut self, code: KeyCode, modifiers: KeyModifiers, word_start: usize) -> (r: Reply)
        requires
            old(self).ready(),
        ensures
            (final(self)@, r) == old(self)@.edited(code, modifiers, word_start as int),
            final(self).has_tabs == old(self).has_tabs,
            final(self).questions == old(self).questions,
    {
        let tab: usize = self.active_tab;
        let ghost qs = self.questions@;
        assert(questions::questions_view(qs)[tab as int] == questions::question_view(
            qs[tab as int],
        ));
        let clears = match code {
            KeyCode::Esc => {
                self.set_editing(false);
                return Reply::Stay;
            },
            KeyCode::Char(c) => c == 'c' && modifiers.control,
            _ => false,
        };
        if clears {
            if self.area_empty() {
                return Reply::Cancel;
            }
            let multi = self.questions[tab].multi_select;
            let other: usize = self.questions[tab].options.len();
            let ghost a0 = self.other_areas@;
            self.other_areas.set(tab, TextArea::new());
            assert(areas_view(self.other_areas@) =~= areas_view(a0).update(
                tab as int,
                AreaView::blank(),
            ));
            assert(self@ =~= old(self)@.with_area(AreaView::blank()));
            self.set_editing(false);
            if multi {
                self.set_toggle(other, false);
            }
            Reply::Stay
        } else {
            let ghost a0 = self.other_areas@;
            assert(areas_view(a0)[tab as int] == a0[tab as int]@);
            let mut area = self.other_areas.remove(tab);
            let _ = area.handle_key(code, modifiers, word_start);
            self.other_areas.insert(tab, area);
            assert(areas_view(self.other_areas@) =~= areas_view(a0).update(tab as int, area@));
            assert(self@ =~= old(self)@.with_area(area@));
            assert(old(self)@.areas.update(tab as int, old(self)@.areas[tab as int])
                =~= old(self)@.areas);
            Reply::Stay
        }
    }

    fn confirm(&mut self) -> (r: Reply)
        requires
            old(self).ready(),
        ensures
            (final(self)@, r) == old(self)@.confirmed(),
            final(self).has_tabs == old(self).has_tabs,
            final(self).questions == old(self).questions,
    {
        self.answered.set(self.active_tab, true);
        let n: usize = self.questions.len();
        let ghost s = self@;
        assert(s == AskView {
            answered: old(self)@.answered.update(old(self)@.tab, true),
            ..old(self)@
        });
        let mut i: usize = 0;
        while i < n
            invariant
                i <= n,
                n == self.answered@.len(),
                self@ == s,
                s == (AskView {
                    answered: old(self)@.answered.update(old(self)@.tab, true),
                    ..old(self)@
                }),
                self.questions == old(self).questions,
                self.has_tabs == old(self).has_tabs,
                s.unanswered(0) == s.unanswered(i as int),
            decreases n - i,
        {
            if !self.answered[i] {
                self.active_tab = i;
                return Reply::Stay;
            }
            i = i + 1;
        }
        Reply::Finish
    }

    fn go_next(&mut self)
        requires
            old(self).ready(),
        ensures
            final(self)@ == old(self)@.next_tab(),
            final(self).has_tabs == old(self).has_tabs,
            final(self).questions == old(self).questions,
    {
        if self.has_tabs {
            let n: usize = self.questions.len();
            assert(self@.questions.len() == n);
            self.turn_to((self.active_tab + 1) % n);
        }
    }

    fn go_back(&mut self)
        requires
            old(self).ready(),
        ensures
            final(self)@ == old(self)@.previous_tab(),
            final(self).has_tabs == old(self).has_tabs,
            final(self).questions == old(self).questions,
    {
        if self.has_tabs {
            let n: usize = self.questions.len();
            assert(self@.questions.len() == n);
            self.turn_to(
                if self.active_tab == 0 {
                    n - 1
                } else {
                    self.active_tab - 1
                },
            );
        }
    }

    fn own_place(&self) -> (r: usize)
        requires
            self.ready(),
        ensures
            r == self@.other(),
            r < usize::MAX,
    {
        let ghost qs = self.questions@;
        assert(questions::questions_view(qs)[self.active_tab as int]
            == questions::question_view(qs[self.active_tab as int]));
        assert(self@.questions[self.active_tab as int].options.len() < usize::MAX);
        self.questions[self.active_tab].options.len()
    }

    fn takes_several(&self) -> (r: bool)
        requires
            self.ready(),
        ensures
            r == self@.question().multi_select,
    {
        let ghost qs = self.questions@;
        assert(questions::questions_view(qs)[self.active_tab as int]
            == questions::question_view(qs[self.active_tab as int]));
        self.questions[self.active_tab].multi_select
    }

    fn go_up(&mut self)
        requires
            old(self).ready(),
        ensures
            final(self)@ == old(self)@.selected_up(),
            final(self).has_tabs == old(self).has_tabs,
            final(self).questions == old(self).questions,
    {
        let k: usize = self.selections[self.active_tab];
        let to: usize = if k == 0 {
            self.own_place()
        } else {
            k - 1
        };
        self.select(to);
    }

    fn go_down(&mut self)
        requires
            old(self).ready(),
        ensures
            final(self)@ == old(self)@.selected_down(),
            final(self).has_tabs == old(self).has_tabs,
            final(self).questions == old(self).questions,
    {
        let other: usize = self.own_place();
        assert(self@.selections[self@.tab] <= self@.other());
        let k: usize = self.selections[self.active_tab];
        self.select((k + 1) % (other + 1));
    }

    fn edit_own(&mut self)
        requires
            old(self).ready(),
        ensures
            final(self)@ == old(self)@.own_answer(),
            final(self).has_tabs == old(self).has_tabs,
            final(self).questions == old(self).questions,
    {
        let other: usize = self.own_place();
        if self.selections[self.active_tab] == other {
            self.set_editing(true);
            if self.takes_several() {
                self.set_toggle(other, true);
            }
        }
    }

    fn mark(&mut self)
        requires
            old(self).ready(),
        ensures
            final(self)@ == old(self)@.marked(),
            final(self).has_tabs == old(self).has_tabs,
            final(self).questions == old(self).questions,
    {
        let other: usize = self.own_place();
        assert(self@.selections[self@.tab] <= self@.other());
        let k: usize = self.selections[self.active_tab];
        if k == other && self.area_empty() {
            self.set_editing(true);
        } else {
            self.flip(k);
        }
    }

    fn choose_number(&mut self, num: usize)
        requires
            old(self).ready(),
        ensures
            final(self)@ == old(self)@.chosen(num as int),
            final(self).has_tabs == old(self).has_tabs,
            final(self).questions == old(self).questions,
    {
        let other: usize = self.own_place();
        if num >= 1 && num <= other + 1 {
            if self.takes_several() {
                self.flip(num - 1);
            } else {
                self.select(num - 1);
            }
        }
    }

    fn choose_key(&mut self, code: KeyCode, modifiers: KeyModifiers) -> (r: Reply)
        requires
            old(self).ready(),
        ensures
            (final(self)@, r) == old(self)@.chose(code, modifiers),
            final(self).has_tabs == old(self).has_tabs,
            final(self).questions == old(self).questions,
    {
        match code {
            KeyCode::Esc => {
                return Reply::Cancel;
            },
            KeyCode::Enter => {
                return self.confirm();
            },
            KeyCode::Tab => self.edit_own(),
            KeyCode::Right => self.go_next(),
            KeyCode::BackTab => self.go_back(),
            KeyCode::Left => self.go_back(),
            KeyCode::Up => self.go_up(),
            KeyCode::Down => self.go_down(),
            KeyCode::Char(c) => {
                if c == 'c' && modifiers.control && !modifiers.shift && !modifiers.alt
                    && !modifiers.other {
                    return Reply::Cancel;
                } else if c == 'l' {
                    self.go_next();
                } else if c == 'h' {
                    self.go_back();
                } else if c == 'k' {
                    self.go_up();
                } else if c == 'j' {
                    self.go_down();
                } else if c == ' ' && self.takes_several() {
                    self.mark();
                } else if '0' <= c && c <= '9' {
                    let d: u32 = c as u32 - 48;
                    self.choose_number(d as usize);
                }
            },
            _ => {},
        }
        Reply::Stay
    }

    /// Takes a key; the result is there once the dialog has come to an end.
    /// The word before the cursor of the user's own answer starts at
    /// `word_start`.
    pub fn handle_key(&mut self, code: KeyCode, modifiers: KeyModifiers, word_start: usize) -> (r:
        Option<DialogResult>)
        requires
            old(self).ready(),
        ensures
            ({
                let s = old(self)@.after_key(code, modifiers, word_start as int);
                &&& final(self)@ == s.0
                &&& match s.1 {
                    Reply::Stay => r is None,
                    Reply::Cancel => r == Some(
                        DialogResult::Question { answer: None, request_id: old(self).request_id },
                    ),
                    Reply::Finish => match r {
                        Some(DialogResult::Question { answer: Some(t), request_id }) => {
                            &&& request_id == old(self).request_id
                            &&& t@ == questions::answers_text(s.0.answers())
                            &&& questions::distinct_questions(s.0.answers())
                                ==> questions::read_back(
                                s.0.answers(),
                                tools::parsed_answers(t@),
                            )
                        },
                        _ => false,
                    },
                }
            }),
            final(self).ready(),
    {
        proof {
            law_keys_keep_dialog(self@, code, modifiers, word_start as int);
        }
        self.dirty = true;
        let reply = if self.editing_other[self.active_tab] {
            self.edit_key(code, modifiers, word_start)
        } else {
            self.choose_key(code, modifiers)
        };
        match reply {
            Reply::Stay => None,
            Reply::Cancel => Some(
                DialogResult::Question { answer: None, request_id: self.request_id },
            ),
            Reply::Finish => Some(
                DialogResult::Question {
                    answer: Some(self.build_answer()),
                    request_id: self.request_id,
                },
            ),
        }
    }

    fn find_option_text(&self, i: usize, k: usize) -> (r: String)
        requires
            self@.wf(),
            i < self.questions@.len(),
            k <= self@.questions[i as int].options.len(),
        ensures
            r@ == self@.option_text(i as int, k as int),
    {
        let ghost qs = self.questions@;
        assert(questions::questions_view(qs)[i as int] == questions::question_view(qs[i as int]));
        assert(areas_view(self.other_areas@)[i as int] == self.other_areas@[i as int]@);
        let q = &self.questions[i];
        if k == q.options.len() {
            let t = self.other_areas[i].text();
            cat("Other: ", t.as_str())
        } else {
            assert(questions::options_view(q.options@)[k as int] == questions::option_view(
                q.options@[k as int],
            ));
            q.options[k].label.as_str().to_owned()
        }
    }

    fn find_answer(&self, i: usize) -> (r: Answer<String, Vec<String>>)
        requires
            self@.wf(),
            i < self.questions@.len(),
        ensures
            questions::answer_view(r) == self@.answer(i as int),
    {
        let ghost qs = self.questions@;
        assert(questions::questions_view(qs)[i as int] == questions::question_view(qs[i as int]));
        assert(marks_view(self.multi_toggles@)[i as int] == self.multi_toggles@[i as int]@);
        assert(self@.toggles[i as int].len() == self@.questions[i as int].options.len() + 1);
        let mut marked: Vec<String> = Vec::new();
        let n: usize = self.multi_toggles[i].len();
        let mut k: usize = 0;
        assert(text::texts(marked@) =~= Seq::<Seq<char>>::empty());
        while k < n
            invariant
                self@.wf(),
                i < self.questions@.len(),
                n == self.multi_toggles@[i as int]@.len(),
                self@.toggles[i as int] == self.multi_toggles@[i as int]@,
                n == self@.questions[i as int].options.len() + 1,
                k <= n,
                text::texts(marked@) == self@.marked_texts(i as int, k as int),
            decreases n - k,
        {
            if self.multi_toggles[i][k] {
                let t = self.find_option_text(i, k);
                proof {
                    text::lemma_texts_push(marked@, t);
                }
                marked.push(t);
            }
            k = k + 1;
        }
        assert(text::texts(marked@).len() == marked@.len());
        assert(self@.selections[i as int] <= self@.questions[i as int].options.len());
        if self.questions[i].multi_select && marked.len() > 0 {
            Answer::Many(marked)
        } else {
            Answer::One(self.find_option_text(i, self.selections[i]))
        }
    }

    /// The text that says the answers.
    pub fn build_answer(&self) -> (r: String)
        requires
            self@.wf(),
        ensures
            r@ == questions::answers_text(self@.answers()),
            questions::distinct_questions(self@.answers()) ==> questions::read_back(
                self@.answers(),
                tools::parsed_answers(r@),
            ),
    {
        let n: usize = self.questions.len();
        let mut v: Vec<(String, Answer<String, Vec<String>>)> = Vec::new();
        let mut i: usize = 0;
        while i < n
            invariant
                self@.wf(),
                n == self.questions@.len(),
                i <= n,
                questions::answers_view(v@) == self@.answers().take(i as int),
            decreases n - i,
        {
            let ghost qs = self.questions@;
            assert(questions::questions_view(qs)[i as int] == questions::question_view(
                qs[i as int],
            ));
            let a = self.find_answer(i);
            let q = self.questions[i].question.as_str().to_owned();
            let ghost v0 = v@;
            v.push((q, a));
            assert(questions::answers_view(v@) =~= questions::answers_view(v0).push(
                self@.answers()[i as int],
            ));
            assert(self@.answers().take(i + 1) =~= self@.answers().take(i as int).push(
                self@.answers()[i as int],
            ));
            i = i + 1;
        }
        assert(self@.answers().take(n as int) =~= self@.answers());
        answer_text(&v)
    }
}

} // verus!
