//! The dialog that asks whether a call may be made.

use vstd::prelude::*;

use crate::dialogs::keys::{KeyCode, KeyModifiers, NavAction};
use crate::dialogs::notebook::NotebookEdit;
use crate::dialogs::preview;
use crate::dialogs::preview::ConfirmPreview;
use crate::dialogs::question;
use crate::dialogs::question::cap_rows;
use crate::dialogs::result::DialogResult;
use crate::dialogs::text_area;
use crate::dialogs::text_area::{AreaView, TextArea};
use crate::json::Json;
use crate::render::bars;
use crate::render::highlight::Assets;
use crate::render::model;
use crate::render::model::{ApprovalScope, ConfirmChoice};
use crate::render::out;
use crate::render::screen;
use crate::render::styled::Env;
use crate::render::table;
use crate::render::tools;
use crate::render::wrap;
use crate::render::wrap::wrap_line;
use crate::text;
use crate::text::{
    cat, cat3, char_count, chars_of, ends_with, first_line_or, join, number, same_text, slice_text,
    split_text, starts_with, take_chars, trim_end_char,
};

verus! {

// ── The workspace ────────────────────────────────────────────────────────

/// What follows the directory `home` in a path, when the path is that
/// directory or lies below it.  Slashes at the end of `home` do not count, and
/// every path lies below a directory without a name.
pub open spec fn below_home(path: Seq<char>, home: Seq<char>) -> Option<Seq<char>> {
    let dir = text::drop_back(home, |c: char| c == '/');
    if home.len() == 0 {
        Some(path)
    } else if path == dir {
        Some(seq![])
    } else if text::has_prefix(path, dir + "/"@) {
        Some(path.skip(dir.len() as int + 1))
    } else {
        None
    }
}

/// How a workspace is shown: short where it lies in the home directory, and
/// empty when it is not known.
pub open spec fn workspace_shown(cwd: Option<Seq<char>>, home: Seq<char>) -> Seq<char> {
    match cwd {
        Some(path) => match below_home(path, home) {
            Some(rest) => "~/"@ + rest,
            None => path,
        },
        None => seq![],
    }
}

/// How a workspace is shown.
pub fn workspace_label(cwd: Option<&str>, home: &str) -> (r: String)
    ensures
        r@ == workspace_shown(
            match cwd {
                Some(path) => Some(path@),
                None => None,
            },
            home@,
        ),
{
    let path: &str = match cwd {
        Some(path) => path,
        None => {
            let r = String::new();
            assert(r@ =~= Seq::<char>::empty());
            return r;
        },
    };
    if char_count(home) == 0 {
        return cat("~/", path);
    }
    let dir = trim_end_char(home, '/');
    if same_text(path, dir.as_str()) {
        assert("~/"@ + Seq::<char>::empty() =~= "~/"@);
        return "~/".to_owned();
    }
    let inside = cat(dir.as_str(), "/");
    if starts_with(path, inside.as_str()) {
        let chars = chars_of(path);
        let from: usize = char_count(inside.as_str());
        let rest = slice_text(&chars, from, chars.len());
        proof {
            reveal_strlit("/");
            assert(rest@ =~= path@.skip(dir@.len() as int + 1));
        }
        cat("~/", rest.as_str())
    } else {
        path.to_owned()
    }
}

/// A call that the user is asked about.
pub struct ConfirmRequest {
    pub call_id: String,
    pub tool_name: String,
    pub desc: String,
    pub args: Vec<(String, Json)>,
    pub approval_patterns: Vec<String>,
    /// A directory outside the workspace that the call touches.
    pub outside_dir: Option<String>,
    pub summary: Option<String>,
    pub request_id: u64,
}

// ── Choices ──────────────────────────────────────────────────────────────

/// A choice, in characters.
pub enum ChoiceView {
    Yes,
    YesAutoApply,
    No,
    Always(ApprovalScope),
    AlwaysPatterns(Seq<Seq<char>>, ApprovalScope),
    AlwaysDir(Seq<char>, ApprovalScope),
}

pub open spec fn choice_view(c: ConfirmChoice) -> ChoiceView {
    match c {
        ConfirmChoice::Yes => ChoiceView::Yes,
        ConfirmChoice::YesAutoApply => ChoiceView::YesAutoApply,
        ConfirmChoice::No => ChoiceView::No,
        ConfirmChoice::Always(s) => ChoiceView::Always(s),
        ConfirmChoice::AlwaysPatterns(v, s) => ChoiceView::AlwaysPatterns(text::texts(v@), s),
        ConfirmChoice::AlwaysDir(d, s) => ChoiceView::AlwaysDir(d@, s),
    }
}

/// The options of a dialog, in characters.
pub open spec fn choices_view(v: Seq<(String, ConfirmChoice)>) -> Seq<(Seq<char>, ChoiceView)> {
    Seq::new(v.len(), |i: int| (v[i].0@, choice_view(v[i].1)))
}

fn copy_texts(v: &Vec<String>) -> (r: Vec<String>)
    ensures
        text::texts(r@) == text::texts(v@),
{
    let n: usize = v.len();
    let r = text::part_of(v, 0, n);
    assert(text::texts(v@).subrange(0, n as int) =~= text::texts(v@));
    r
}

fn copy_choice(c: &ConfirmChoice) -> (r: ConfirmChoice)
    ensures
        choice_view(r) == choice_view(*c),
{
    match c {
        ConfirmChoice::Yes => ConfirmChoice::Yes,
        ConfirmChoice::YesAutoApply => ConfirmChoice::YesAutoApply,
        ConfirmChoice::No => ConfirmChoice::No,
        ConfirmChoice::Always(s) => ConfirmChoice::Always(*s),
        ConfirmChoice::AlwaysPatterns(v, s) => ConfirmChoice::AlwaysPatterns(copy_texts(v), *s),
        ConfirmChoice::AlwaysDir(d, s) => ConfirmChoice::AlwaysDir(d.as_str().to_owned(), *s),
    }
}

/// A pattern as it is shown: without what stands for everything below, and
/// without the scheme of an address.
pub open spec fn shown_pattern(p: Seq<char>) -> Seq<char> {
    let d = if text::has_suffix(p, "/*"@) {
        p.take(p.len() - "/*"@.len())
    } else {
        p
    };
    let parts = text::parts_from(d, "://"@, 0);
    if parts.len() > 1 {
        parts[1]
    } else {
        d
    }
}

/// Patterns as they are shown.
pub open spec fn shown_patterns(v: Seq<Seq<char>>) -> Seq<Seq<char>> {
    Seq::new(v.len(), |i: int| shown_pattern(v[i]))
}

/// What can be chosen for good: for the session, and for the workspace, which
/// is shown as `cwd`.
pub open spec fn lasting_choices(
    dir: Option<Seq<char>>,
    patterns: Seq<Seq<char>>,
    cwd: Seq<char>,
) -> Seq<(Seq<char>, ChoiceView)> {
    match dir {
        Some(d) => seq![
            ("allow "@ + d, ChoiceView::AlwaysDir(d, ApprovalScope::Session)),
            (
                "allow "@ + d + (" in "@ + cwd),
                ChoiceView::AlwaysDir(d, ApprovalScope::Workspace),
            ),
        ],
        None => if patterns.len() > 0 {
            let d = text::join_texts(shown_patterns(patterns), ", "@);
            seq![
                ("allow "@ + d, ChoiceView::AlwaysPatterns(patterns, ApprovalScope::Session)),
                (
                    "allow "@ + d + (" in "@ + cwd),
                    ChoiceView::AlwaysPatterns(patterns, ApprovalScope::Workspace),
                ),
            ]
        } else {
            seq![
                ("always allow"@, ChoiceView::Always(ApprovalScope::Session)),
                ("always allow in "@ + cwd, ChoiceView::Always(ApprovalScope::Workspace)),
            ]
        },
    }
}

/// What can be chosen.
pub open spec fn offered(req: ConfirmRequest, cwd: Seq<char>) -> Seq<(Seq<char>, ChoiceView)> {
    if req.tool_name@ == "exit_plan_mode"@ {
        seq![
            ("yes, and auto-apply"@, ChoiceView::YesAutoApply),
            ("yes"@, ChoiceView::Yes),
            ("no"@, ChoiceView::No),
        ]
    } else {
        seq![("yes"@, ChoiceView::Yes), ("no"@, ChoiceView::No)] + lasting_choices(
            model::opt_view(req.outside_dir),
            text::texts(req.approval_patterns@),
            cwd,
        )
    }
}

fn push_choice(v: &mut Vec<(String, ConfirmChoice)>, label: String, choice: ConfirmChoice)
    ensures
        choices_view(final(v)@) == choices_view(old(v)@).push((label@, choice_view(choice))),
{
    v.push((label, choice));
    assert(choices_view(v@) =~= choices_view(old(v)@).push((label@, choice_view(choice))));
}

fn show_pattern(p: &str) -> (r: String)
    ensures
        r@ == shown_pattern(p@),
{
    proof {
        reveal_strlit("/*");
    }
    let d: String = if ends_with(p, "/*") {
        let n: usize = char_count(p);
        let d = take_chars(p, n - 2);
        assert(d@ =~= p@.take(p@.len() - 2));
        d
    } else {
        p.to_owned()
    };
    let parts = split_text(d.as_str(), "://");
    assert(text::texts(parts@).len() == parts@.len());
    if parts.len() > 1 {
        assert(text::texts(parts@)[1] == parts@[1]@);
        parts[1].as_str().to_owned()
    } else {
        d
    }
}

fn show_patterns(v: &Vec<String>) -> (r: Vec<String>)
    ensures
        text::texts(r@) == shown_patterns(text::texts(v@)),
{
    let n: usize = v.len();
    let ghost tv = text::texts(v@);
    let mut r: Vec<String> = Vec::new();
    let mut i: usize = 0;
    assert(text::texts(r@) =~= shown_patterns(tv).take(0));
    while i < n
        invariant
            n == v@.len(),
            i <= n,
            tv == text::texts(v@),
            text::texts(r@) == shown_patterns(tv).take(i as int),
        decreases n - i,
    {
        assert(tv[i as int] == v@[i as int]@);
        let s = show_pattern(v[i].as_str());
        proof {
            text::lemma_texts_push(r@, s);
            assert(shown_patterns(tv).take(i + 1) =~= shown_patterns(tv).take(i as int).push(s@));
        }
        r.push(s);
        i = i + 1;
    }
    assert(shown_patterns(tv).take(n as int) =~= shown_patterns(tv));
    r
}

fn offer(req: &ConfirmRequest, cwd: &str) -> (r: Vec<(String, ConfirmChoice)>)
    ensures
        choices_view(r@) == offered(*req, cwd@),
{
    let mut v: Vec<(String, ConfirmChoice)> = Vec::new();
    assert(choices_view(v@) =~= Seq::<(Seq<char>, ChoiceView)>::empty());
    if same_text(req.tool_name.as_str(), "exit_plan_mode") {
        push_choice(&mut v, "yes, and auto-apply".to_owned(), ConfirmChoice::YesAutoApply);
        push_choice(&mut v, "yes".to_owned(), ConfirmChoice::Yes);
        push_choice(&mut v, "no".to_owned(), ConfirmChoice::No);
    } else {
        push_choice(&mut v, "yes".to_owned(), ConfirmChoice::Yes);
        push_choice(&mut v, "no".to_owned(), ConfirmChoice::No);
        let place = cat(" in ", cwd);
        match &req.outside_dir {
            Some(d) => {
                push_choice(
                    &mut v,
                    cat("allow ", d.as_str()),
                    ConfirmChoice::AlwaysDir(d.as_str().to_owned(), ApprovalScope::Session),
                );
                push_choice(
                    &mut v,
                    cat3("allow ", d.as_str(), place.as_str()),
                    ConfirmChoice::AlwaysDir(d.as_str().to_owned(), ApprovalScope::Workspace),
                );
            },
            None => {
                assert(text::texts(req.approval_patterns@).len() == req.approval_patterns@.len());
                if req.approval_patterns.len() > 0 {
                    let shown = show_patterns(&req.approval_patterns);
                    let d = join(&shown, ", ");
                    push_choice(
                        &mut v,
                        cat("allow ", d.as_str()),
                        ConfirmChoice::AlwaysPatterns(
                            copy_texts(&req.approval_patterns),
                            ApprovalScope::Session,
                        ),
                    );
                    push_choice(
                        &mut v,
                        cat3("allow ", d.as_str(), place.as_str()),
                        ConfirmChoice::AlwaysPatterns(
                            copy_texts(&req.approval_patterns),
                            ApprovalScope::Workspace,
                        ),
                    );
                } else {
                    push_choice(
                        &mut v,
                        "always allow".to_owned(),
                        ConfirmChoice::Always(ApprovalScope::Session),
                    );
                    push_choice(
                        &mut v,
                        cat("always allow in ", cwd),
                        ConfirmChoice::Always(ApprovalScope::Workspace),
                    );
                }
            },
        }
    }
    assert(choices_view(v@) =~= offered(*req, cwd@));
    v
}

/// Every call can be allowed once, and refused.
pub proof fn law_calls_can_be_refused(req: ConfirmRequest, cwd: Seq<char>)
    ensures
        exists|i: int| 0 <= i < offered(req, cwd).len() && (#[trigger] offered(req, cwd)[i]).1
            == ChoiceView::No,
        exists|i: int| 0 <= i < offered(req, cwd).len() && (#[trigger] offered(req, cwd)[i]).1
            == ChoiceView::Yes,
{
    let o = offered(req, cwd);
    if req.tool_name@ == "exit_plan_mode"@ {
        assert(o[2].1 == ChoiceView::No);
        assert(o[1].1 == ChoiceView::Yes);
    } else {
        assert(o[1].1 == ChoiceView::No);
        assert(o[0].1 == ChoiceView::Yes);
    }
}

/// How far a lasting choice reaches.
pub open spec fn scope_of(c: ChoiceView) -> Option<ApprovalScope> {
    match c {
        ChoiceView::Always(s) => Some(s),
        ChoiceView::AlwaysPatterns(_, s) => Some(s),
        ChoiceView::AlwaysDir(_, s) => Some(s),
        _ => None,
    }
}

/// The same choice with another reach.
pub open spec fn with_scope(c: ChoiceView, s: ApprovalScope) -> ChoiceView {
    match c {
        ChoiceView::Always(_) => ChoiceView::Always(s),
        ChoiceView::AlwaysPatterns(p, _) => ChoiceView::AlwaysPatterns(p, s),
        ChoiceView::AlwaysDir(d, _) => ChoiceView::AlwaysDir(d, s),
        _ => c,
    }
}

/// Lasting choices come in pairs: each for the session is followed by the
/// same for the workspace, whose label adds where that is, and each for the
/// workspace follows one for the session. So a choice that reaches the
/// workspace always names it.
pub proof fn law_lasting_choices_come_in_pairs(req: ConfirmRequest, cwd: Seq<char>, i: int)
    requires
        0 <= i < offered(req, cwd).len(),
    ensures
        ({
            let o = offered(req, cwd);
            &&& scope_of(o[i].1) == Some(ApprovalScope::Session) ==> {
                &&& i + 1 < o.len()
                &&& o[i + 1].1 == with_scope(o[i].1, ApprovalScope::Workspace)
                &&& o[i + 1].0 == o[i].0 + " in "@ + cwd
            }
            &&& scope_of(o[i].1) == Some(ApprovalScope::Workspace) ==> {
                &&& 0 < i
                &&& o[i - 1].1 == with_scope(o[i].1, ApprovalScope::Session)
                &&& o[i].0 == o[i - 1].0 + " in "@ + cwd
            }
        }),
{
    let o = offered(req, cwd);
    reveal_strlit("always allow");
    reveal_strlit("always allow in ");
    reveal_strlit(" in ");
    if req.tool_name@ != "exit_plan_mode"@ {
        assert(o.len() == 4);
        assert(o[3].0 =~= o[2].0 + " in "@ + cwd);
    }
}

/// What a lasting choice allows is what the call asks for: the directory
/// outside the workspace where there is one, else the patterns, else the
/// whole tool; and the label says so.
pub proof fn law_lasting_choices_allow_what_is_asked(
    req: ConfirmRequest,
    cwd: Seq<char>,
    i: int,
)
    requires
        0 <= i < offered(req, cwd).len(),
    ensures
        ({
            let o = offered(req, cwd);
            &&& o[i].1 matches ChoiceView::AlwaysDir(d, s) ==> {
                &&& req.outside_dir is Some
                &&& d == req.outside_dir->0@
                &&& text::has_prefix(o[i].0, "allow "@ + d)
                &&& s == ApprovalScope::Session ==> o[i].0 == "allow "@ + d
            }
            &&& o[i].1 matches ChoiceView::AlwaysPatterns(p, s) ==> {
                &&& req.outside_dir is None
                &&& p.len() > 0
                &&& p == text::texts(req.approval_patterns@)
                &&& text::has_prefix(o[i].0, "allow "@)
            }
            &&& o[i].1 matches ChoiceView::Always(s) ==> {
                &&& req.outside_dir is None
                &&& req.approval_patterns@.len() == 0
                &&& text::has_prefix(o[i].0, "always allow"@)
                &&& s == ApprovalScope::Session ==> o[i].0 == "always allow"@
            }
        }),
{
    let o = offered(req, cwd);
    reveal_strlit("allow ");
    reveal_strlit("always allow");
    reveal_strlit("always allow in ");
    assert(text::texts(req.approval_patterns@).len() == req.approval_patterns@.len());
    if req.tool_name@ != "exit_plan_mode"@ {
        assert(o.len() == 4);
        match req.outside_dir {
            Some(d) => {
                assert(o[2].0.take(("allow "@ + d@).len() as int) =~= "allow "@ + d@);
                assert(o[3].0.take(("allow "@ + d@).len() as int) =~= "allow "@ + d@);
            },
            None => {
                assert(o[2].0.take("allow "@.len() as int) =~= "allow "@
                    || req.approval_patterns@.len() == 0);
                assert(o[3].0.take("allow "@.len() as int) =~= "allow "@
                    || req.approval_patterns@.len() == 0);
                assert(o[2].0.take("always allow"@.len() as int) =~= "always allow"@
                    || req.approval_patterns@.len() > 0);
                assert(o[3].0.take("always allow"@.len() as int) =~= "always allow"@
                    || req.approval_patterns@.len() > 0);
            },
        }
    }
}

proof fn lemma_no_place_named(s: Seq<char>, cwd: Seq<char>)
    requires
        s == "yes, and auto-apply"@ || s == "yes"@ || s == "no"@ || s == "always allow"@,
    ensures
        !text::has_suffix(s, " in "@ + cwd),
{
    reveal_strlit("yes, and auto-apply");
    reveal_strlit("yes");
    reveal_strlit("no");
    reveal_strlit("always allow");
    reveal_strlit(" in ");
    let t = " in "@ + cwd;
    if text::has_suffix(s, t) {
        let k = s.len() - t.len();
        assert(s.skip(k)[0] == ' ' && s.skip(k)[1] == 'i');
        assert(s[k] == ' ' && s[k + 1] == 'i');
    }
}

/// A choice reaches the workspace exactly when its label ends in " in " and
/// the workspace, for directories, patterns and whole tools alike. What is
/// allowed may not itself be called so: a directory can be named `x in ~/w`.
pub proof fn law_scope_is_what_the_label_says(req: ConfirmRequest, cwd: Seq<char>, i: int)
    requires
        0 <= i < offered(req, cwd).len(),
        match req.outside_dir {
            Some(d) => !text::has_suffix("allow "@ + d@, " in "@ + cwd),
            None => !text::has_suffix(
                "allow "@ + text::join_texts(
                    shown_patterns(text::texts(req.approval_patterns@)),
                    ", "@,
                ),
                " in "@ + cwd,
            ),
        },
    ensures
        ({
            let o = offered(req, cwd);
            &&& scope_of(o[i].1) == Some(ApprovalScope::Workspace) <==> text::has_suffix(
                o[i].0,
                " in "@ + cwd,
            )
            &&& req.tool_name@ != "exit_plan_mode"@ ==> {
                &&& exists|k: int|
                    0 <= k < o.len() && scope_of((#[trigger] o[k]).1) == Some(
                        ApprovalScope::Session,
                    )
                &&& exists|k: int|
                    0 <= k < o.len() && scope_of((#[trigger] o[k]).1) == Some(
                        ApprovalScope::Workspace,
                    )
            }
        }),
{
    let o = offered(req, cwd);
    law_lasting_choices_come_in_pairs(req, cwd, i);
    if scope_of(o[i].1) == Some(ApprovalScope::Workspace) {
        let t = " in "@ + cwd;
        assert(o[i].0 =~= o[i - 1].0 + t);
        assert(o[i].0.skip(o[i].0.len() - t.len()) =~= t);
    }
    lemma_no_place_named("yes, and auto-apply"@, cwd);
    lemma_no_place_named("yes"@, cwd);
    lemma_no_place_named("no"@, cwd);
    lemma_no_place_named("always allow"@, cwd);
    if req.tool_name@ != "exit_plan_mode"@ {
        assert(scope_of(o[2].1) == Some(ApprovalScope::Session));
        assert(scope_of(o[3].1) == Some(ApprovalScope::Workspace));
    }
}

// ── State ────────────────────────────────────────────────────────────────

/// The state of a dialog that asks about a call.
pub struct ConfirmView {
    pub tool_name: Seq<char>,
    pub display_name: Seq<char>,
    pub desc: Seq<char>,
    pub summary: Option<Seq<char>>,
    pub preview: ConfirmPreview<Seq<char>>,
    pub options: Seq<(Seq<char>, ChoiceView)>,
    pub scroll: int,
    pub selected: int,
    /// A message to go with the choice.
    pub area: AreaView,
    pub kill_ring: Seq<char>,
    pub editing: bool,
    pub dirty: bool,
    pub request_id: u64,
    pub anchor: Option<u16>,
    pub options_row: u16,
    pub size: (u16, u16),
}

/// The dialog that asks about a call.
pub struct ConfirmDialog {
    pub tool_name: String,
    pub display_name: String,
    pub desc: String,
    pub summary: Option<String>,
    pub preview: ConfirmPreview<String>,
    pub options: Vec<(String, ConfirmChoice)>,
    pub preview_scroll: usize,
    pub selected: usize,
    pub textarea: TextArea,
    pub kill_ring: String,
    pub editing: bool,
    pub dirty: bool,
    pub request_id: u64,
    /// The row at which the dialog starts, once it has been drawn.
    pub anchor_row: Option<u16>,
    /// The row at which the options start.
    pub options_row: u16,
    /// The size of the terminal.
    pub term_size: (u16, u16),
}

impl View for ConfirmDialog {
    type V = ConfirmView;

    open spec fn view(&self) -> ConfirmView {
        ConfirmView {
            tool_name: self.tool_name@,
            display_name: self.display_name@,
            desc: self.desc@,
            summary: model::opt_view(self.summary),
            preview: preview::preview_view(self.preview),
            options: choices_view(self.options@),
            scroll: self.preview_scroll as int,
            selected: self.selected as int,
            area: self.textarea@,
            kill_ring: self.kill_ring@,
            editing: self.editing,
            dirty: self.dirty,
            request_id: self.request_id,
            anchor: self.anchor_row,
            options_row: self.options_row,
            size: self.term_size,
        }
    }
}

/// What the user decided: a choice, and a message to go with it.
pub struct Verdict {
    pub choice: ChoiceView,
    pub message: Option<Seq<char>>,
}

/// Rows of the parts of a dialog.
pub struct ConfirmLayout {
    pub title_rows: u16,
    pub summary_rows: u16,
    pub has_preview: bool,
    pub viewport_rows: u16,
    pub total_preview: u16,
    pub total_rows: u16,
}

/// Columns before the label of option `i`.
pub open spec fn option_indent(i: int) -> int {
    2int + text::dec((i + 1) as nat).len() + 2
}

pub(crate) fn find_indent(i: usize) -> (r: usize)
    requires
        i < usize::MAX,
    ensures
        r == option_indent(i as int),
        r <= 24,
{
    proof {
        text::lemma_dec_len((i + 1) as nat);
    }
    2 + char_count(number(i as u64 + 1).as_str()) + 2
}

/// The lines of an option's label.
pub open spec fn option_lines(label: Seq<char>, i: int, w: int) -> Seq<Seq<char>> {
    let avail = bars::at_least_zero(w - option_indent(i));
    if avail > 0 {
        wrap::wrapped(label, avail)
    } else {
        seq![label]
    }
}

/// Bytes in the last of some lines.
pub open spec fn last_bytes(ls: Seq<Seq<char>>) -> int {
    if ls.len() > 0 {
        text::byte_len(ls.last()) as int
    } else {
        0
    }
}

/// The column of the message behind option `i`.
pub open spec fn message_column(label: Seq<char>, i: int, w: int) -> u16 {
    bars::capped(
        bars::capped(option_indent(i) + last_bytes(option_lines(label, i, w))) + 2,
    ) as u16
}

impl ConfirmView {
    pub open spec fn wf(self) -> bool {
        &&& 0 <= self.selected < self.options.len() < usize::MAX
        &&& self.area.wf()
        &&& 0 <= self.scroll <= usize::MAX
    }

    /// Whether the message is shown.
    pub open spec fn shows_message(self) -> bool {
        self.editing || !self.area.empty()
    }

    /// The title, without the name of the tool.
    pub open spec fn title(self) -> Seq<char> {
        if self.preview is BashBody {
            match text::first_line(self.desc) {
                Some(l) => l,
                None => ""@,
            }
        } else {
            self.desc
        }
    }

    /// The lines of the title.
    pub open spec fn title_lines(self, w: int) -> Seq<Seq<char>> {
        wrap::wrapped(
            self.title(),
            bars::at_least_zero(w - bars::capped(3 + text::byte_len(self.display_name))),
        )
    }

    /// The lines of the summary.
    pub open spec fn summary_lines(self, w: int) -> Seq<Seq<char>> {
        match self.summary {
            Some(s) => wrap::wrapped(s, bars::at_least_zero(w - 1)),
            None => seq![],
        }
    }

    /// Rows of the first `n` options.
    pub open spec fn option_rows(self, n: int, w: int) -> u16
        decreases n,
    {
        if n <= 0 {
            0
        } else {
            out::rows_plus(
                self.option_rows(n - 1, w),
                option_lines(self.options[n - 1].0, n - 1, w).len() as u16,
            )
        }
    }

    /// Rows that the lines around the preview take.
    pub open spec fn separator_rows(self) -> u16 {
        if preview::has_line_above(self.preview) {
            2
        } else {
            1
        }
    }

    /// Rows that the message takes besides that of its option.
    pub open spec fn message_rows(self, width: u16) -> u16 {
        if self.shows_message() {
            let col = message_column(self.options[self.selected].0, self.selected, width as int);
            screen::rows_minus(
                self.area.rows(
                    self.area.lines.len() as int,
                    screen::rows_minus(width, col) as int,
                ),
                1,
            )
        } else {
            0
        }
    }

    /// Rows that are taken whatever the preview holds.
    pub open spec fn fixed_rows(self, width: u16) -> u16 {
        question::rows16(
            4 + (self.title_lines(width as int).len() as u16) + (self.summary_lines(
                width as int,
            ).len() as u16) + self.separator_rows() + self.option_rows(
                self.options.len() as int,
                width as int,
            ) + self.message_rows(width),
        )
    }

    /// Rows of the parts.
    #[verifier::opaque]
    pub open spec fn layout(self, width: u16, height: u16, env: Env) -> ConfirmLayout {
        let fixed = self.fixed_rows(width);
        let total = preview::preview_rows(self.preview, width as usize, env);
        let viewport = if preview::shows_anything(self.preview) {
            screen::lower(
                tools::at_least_one(screen::rows_minus(height, fixed) as int) as u16,
                total,
            )
        } else {
            0
        };
        ConfirmLayout {
            title_rows: self.title_lines(width as int).len() as u16,
            summary_rows: self.summary_lines(width as int).len() as u16,
            has_preview: preview::shows_anything(self.preview),
            viewport_rows: viewport,
            total_preview: total,
            total_rows: out::rows_plus(fixed, viewport),
        }
    }

    // ── Keys ─────────────────────────────────────────────────────────────

    /// The message that goes with the choice.
    pub open spec fn message(self) -> Option<Seq<char>> {
        if self.area.empty() {
            None
        } else {
            Some(self.area.text())
        }
    }

    /// The selected option is taken.
    pub open spec fn taken(self) -> Verdict {
        Verdict { choice: self.options[self.selected].1, message: self.message() }
    }

    pub open spec fn refused() -> Verdict {
        Verdict { choice: ChoiceView::No, message: None }
    }

    /// What a key does while the message is edited.
    pub open spec fn edited(
        self,
        code: KeyCode,
        mods: KeyModifiers,
        nav: Option<NavAction>,
        word_start: int,
    ) -> (ConfirmView, Option<Verdict>) {
        match nav {
            Some(NavAction::Confirm) => (self, Some(self.taken())),
            Some(NavAction::Dismiss) => if code == KeyCode::Esc {
                (ConfirmView { editing: false, ..self }, None)
            } else if self.area.empty() {
                (self, Some(ConfirmView::refused()))
            } else {
                (ConfirmView { area: AreaView::blank(), editing: false, ..self }, None)
            },
            _ => (
                match self.area.after_key(code, mods, word_start) {
                    Some(a) => ConfirmView { area: a, ..self },
                    None => self,
                },
                None,
            ),
        }
    }

    /// How far the preview scrolls at once.
    pub open spec fn scroll_step(self, env: Env) -> int {
        tools::at_least_one(self.layout(self.size.0, self.size.1, env).viewport_rows as int / 2)
    }

    /// What a key does while an option is chosen.
    pub open spec fn chose(self, nav: Option<NavAction>, env: Env) -> (
        ConfirmView,
        Option<Verdict>,
    ) {
        let n = self.options.len() as int;
        match nav {
            Some(NavAction::Confirm) => (self, Some(self.taken())),
            Some(NavAction::Dismiss) => (self, Some(ConfirmView::refused())),
            Some(NavAction::Edit) => (ConfirmView { editing: true, ..self }, None),
            Some(NavAction::Up) => (
                ConfirmView {
                    selected: if self.selected == 0 {
                        n - 1
                    } else {
                        self.selected - 1
                    },
                    ..self
                },
                None,
            ),
            Some(NavAction::Down) => (
                ConfirmView { selected: (self.selected + 1) % n, ..self },
                None,
            ),
            Some(NavAction::PageUp) => (
                ConfirmView {
                    scroll: bars::at_least_zero(self.scroll - self.scroll_step(env)),
                    ..self
                },
                None,
            ),
            Some(NavAction::PageDown) => {
                let total = preview::preview_rows(self.preview, self.size.0 as usize, env);
                (
                    if total > 0 {
                        ConfirmView {
                            scroll: table::smaller(
                                bars::capped(self.scroll + self.scroll_step(env)),
                                total as int,
                            ),
                            ..self
                        }
                    } else {
                        self
                    },
                    None,
                )
            },
            None => (self, None),
        }
    }

    /// What a key does.
    pub open spec fn after_key(
        self,
        code: KeyCode,
        mods: KeyModifiers,
        nav: Option<NavAction>,
        word_start: int,
        env: Env,
    ) -> (ConfirmView, Option<Verdict>) {
        let s = ConfirmView { dirty: true, ..self };
        if self.editing {
            s.edited(code, mods, nav, word_start)
        } else {
            s.chose(nav, env)
        }
    }
}

/// Every key keeps the dialog in a state that can be shown.
pub proof fn law_keys_keep_confirm(
    s: ConfirmView,
    code: KeyCode,
    mods: KeyModifiers,
    nav: Option<NavAction>,
    word_start: int,
    env: Env,
)
    requires
        s.wf(),
        word_start >= 0,
    ensures
        s.after_key(code, mods, nav, word_start, env).0.wf(),
        s.after_key(code, mods, nav, word_start, env).0.options == s.options,
{
    text_area::law_keys_keep_cursor(s.area, code, mods, word_start);
    let n = s.options.len() as int;
    assert(0 <= (s.selected + 1) % n < n) by (nonlinear_arith)
        requires
            n > 0,
    ;
}

/// The selection comes back where it was by going down and up.
pub proof fn law_selection_comes_back(s: ConfirmView, env: Env)
    requires
        s.wf(),
    ensures
        s.chose(Some(NavAction::Down), env).0.chose(Some(NavAction::Up), env).0.selected
            == s.selected,
{
    let n = s.options.len() as int;
    if s.selected + 1 < n {
        assert((s.selected + 1) % n == s.selected + 1) by (nonlinear_arith)
            requires
                0 <= s.selected + 1 < n,
        ;
    } else {
        assert((s.selected + 1) % n == 0) by (nonlinear_arith)
            requires
                s.selected + 1 == n,
                n > 0,
        ;
    }
}

/// A call is allowed only by the option that is selected: a dialog that is
/// dismissed refuses it, and any other key decides nothing.
pub proof fn law_only_confirm_allows(
    s: ConfirmView,
    code: KeyCode,
    mods: KeyModifiers,
    nav: Option<NavAction>,
    word_start: int,
    env: Env,
)
    requires
        s.wf(),
    ensures
        match s.after_key(code, mods, nav, word_start, env).1 {
            Some(v) => nav == Some(NavAction::Confirm) && v.choice == s.options[s.selected].1
                || nav == Some(NavAction::Dismiss) && v.choice == ChoiceView::No,
            None => nav != Some(NavAction::Confirm),
        },
{
}

/// A choice takes along what the user wrote beside it, and only that; a call
/// that is dismissed is refused without a word.
pub proof fn law_choice_takes_the_message_along(
    s: ConfirmView,
    code: KeyCode,
    mods: KeyModifiers,
    nav: Option<NavAction>,
    word_start: int,
    env: Env,
)
    requires
        s.wf(),
    ensures
        match s.after_key(code, mods, nav, word_start, env).1 {
            Some(v) => if nav == Some(NavAction::Confirm) {
                v.message == if s.area.empty() {
                    None
                } else {
                    Some(s.area.text())
                }
            } else {
                v.message is None
            },
            None => true,
        },
{
}

/// A workspace in the home directory is shown by what follows it, behind a
/// tilde; any other is shown as it is, and nothing when it is not known.
pub proof fn law_workspace_is_shown_below_home(home: Seq<char>, rest: Seq<char>, path: Seq<char>)
    requires
        home.len() > 0,
        home.last() != '/',
    ensures
        workspace_shown(Some(home + "/"@ + rest), home) == "~/"@ + rest,
        !text::has_prefix(path, home) ==> workspace_shown(Some(path), home) == path,
        workspace_shown(None, home).len() == 0,
{
    let p = home + "/"@ + rest;
    reveal_strlit("/");
    assert(text::drop_back(home, |c: char| c == '/') == home);
    assert(p.take(home.len() as int + 1) =~= home + "/"@);
    assert(p.skip(home.len() as int + 1) =~= rest);
    assert(p.len() > home.len());
    if !text::has_prefix(path, home) {
        assert(home.take(home.len() as int) =~= home);
        if text::has_prefix(path, home + "/"@) {
            assert(path.take(home.len() as int) =~= (home + "/"@).take(home.len() as int));
            assert((home + "/"@).take(home.len() as int) =~= home);
        }
    }
}

impl ConfirmDialog {
    /// Whether the selected choice is one that there is, and the cursor is in
    /// the message.
    pub fn is_wf(&self) -> (r: bool)
        ensures
            r == self@.wf(),
    {
        let n: usize = self.options.len();
        assert(self@.options.len() == n);
        self.selected < n && n < usize::MAX && self.textarea.is_wf()
    }

    /// A dialog on a terminal of the size `term_size`; the workspace is shown
    /// as `cwd_label` (see [`workspace_label`]), and `edit` is the change of a notebook, under its
    /// title.
    pub fn new(
        req: &ConfirmRequest,
        edit: Option<(NotebookEdit<String>, String)>,
        cwd_label: &str,
        term_size: (u16, u16),
    ) -> (r: ConfirmDialog)
        ensures
            r@ == (ConfirmView {
                tool_name: req.tool_name@,
                display_name: if req.tool_name@ == "exit_plan_mode"@ {
                    "plan"@
                } else {
                    req.tool_name@
                },
                desc: req.desc@,
                summary: model::opt_view(req.summary),
                preview: preview::preview_of(
                    req.tool_name@,
                    req.desc@,
                    req.args@,
                    preview::titled_view(edit),
                ),
                options: offered(*req, cwd_label@),
                scroll: 0,
                selected: 0,
                area: AreaView::blank(),
                kill_ring: seq![],
                editing: false,
                dirty: true,
                request_id: req.request_id,
                anchor: None,
                options_row: 0,
                size: term_size,
            }),
            r@.wf(),
    {
        let options = offer(req, cwd_label);
        assert(choices_view(options@).len() == options@.len());
        let plan = same_text(req.tool_name.as_str(), "exit_plan_mode");
        let kill_ring = String::new();
        assert(kill_ring@ =~= Seq::<char>::empty());
        let display_name: String = if plan {
            "plan".to_owned()
        } else {
            req.tool_name.as_str().to_owned()
        };
        let summary: Option<String> = match &req.summary {
            Some(s) => Some(s.as_str().to_owned()),
            None => None,
        };
        ConfirmDialog {
            tool_name: req.tool_name.as_str().to_owned(),
            display_name,
            desc: req.desc.as_str().to_owned(),
            summary,
            preview: ConfirmPreview::from_tool(
                req.tool_name.as_str(),
                req.desc.as_str(),
                &req.args,
                edit,
            ),
            options,
            preview_scroll: 0,
            selected: 0,
            textarea: TextArea::new(),
            kill_ring,
            editing: false,
            dirty: true,
            request_id: req.request_id,
            anchor_row: None,
            options_row: 0,
            term_size,
        }
    }

    /// Takes up the size of the terminal.
    pub fn set_term_size(&mut self, width: u16, height: u16)
        ensures
            *final(self) == (ConfirmDialog { term_size: (width, height), ..*old(self) }),
    {
        self.term_size = (width, height);
    }

    pub fn blocks_agent(&self) -> (r: bool)
        ensures
            r,
    {
        true
    }

    pub fn mark_dirty(&mut self)
        ensures
            *final(self) == (ConfirmDialog { dirty: true, ..*old(self) }),
    {
        self.dirty = true;
    }

    pub fn handle_resize(&mut self)
        ensures
            *final(self) == (ConfirmDialog { anchor_row: None, dirty: true, ..*old(self) }),
    {
        self.anchor_row = None;
        self.dirty = true;
    }

    pub fn anchor_row(&self) -> (r: Option<u16>)
        ensures
            r == self.anchor_row,
    {
        self.anchor_row
    }

    pub fn set_kill_ring(&mut self, contents: String)
        ensures
            *final(self) == (ConfirmDialog { kill_ring: contents, ..*old(self) }),
    {
        self.kill_ring = contents;
    }

    pub fn kill_ring(&self) -> (r: &str)
        ensures
            r@ == self.kill_ring@,
    {
        self.kill_ring.as_str()
    }

    fn preview_total_rows(&self, assets: &Assets, env: &Env) -> (r: usize)
        ensures
            r == preview::preview_rows(self@.preview, self@.size.0 as usize, *env),
    {
        self.preview.total_rows(self.term_size.0 as usize, assets, env) as usize
    }

    pub(crate) fn find_title(&self) -> (r: String)
        ensures
            r@ == self@.title(),
    {
        match self.preview {
            ConfirmPreview::BashBody { .. } => first_line_or(self.desc.as_str(), ""),
            _ => self.desc.as_str().to_owned(),
        }
    }

    pub(crate) fn find_title_lines(&self, w: usize) -> (r: Vec<String>)
        ensures
            text::texts(r@) == self@.title_lines(w as int),
    {
        let t = self.find_title();
        let used: usize = self.display_name.as_str().len().saturating_add(3);
        wrap_line(t.as_str(), w.saturating_sub(used))
    }

    pub(crate) fn find_summary_lines(&self, w: usize) -> (r: Vec<String>)
        ensures
            text::texts(r@) == self@.summary_lines(w as int),
    {
        match &self.summary {
            Some(s) => wrap_line(s.as_str(), w.saturating_sub(1)),
            None => {
                let v: Vec<String> = Vec::new();
                assert(text::texts(v@) =~= Seq::<Seq<char>>::empty());
                v
            },
        }
    }

    fn count_option_rows(&self, w: usize) -> (r: u16)
        requires
            self@.wf(),
        ensures
            r == self@.option_rows(self@.options.len() as int, w as int),
    {
        let n: usize = self.options.len();
        assert(choices_view(self.options@).len() == n);
        let mut rows: u16 = 0;
        let mut i: usize = 0;
        while i < n
            invariant
                self@.wf(),
                n == self.options@.len(),
                self@.options.len() == n,
                i <= n,
                rows == self@.option_rows(i as int, w as int),
            decreases n - i,
        {
            assert(choices_view(self.options@)[i as int].0 == self.options@[i as int].0@);
            let ls = find_option_lines(self.options[i].0.as_str(), i, w);
            let k: usize = ls.len();
            assert(text::texts(ls@).len() == k);
            #[verifier::truncate]
            let more: u16 = k as u16;
            rows = rows.saturating_add(more);
            i = i + 1;
        }
        rows
    }

    /// Rows that the message takes besides that of its option.
    fn count_message_rows(&self, width: u16) -> (r: u16)
        requires
            self@.wf(),
        ensures
            r == self@.message_rows(width),
    {
        if self.editing || !self.textarea.is_empty() {
            assert(choices_view(self.options@)[self.selected as int].0
                == self.options@[self.selected as int].0@);
            let ls = find_option_lines(
                self.options[self.selected].0.as_str(),
                self.selected,
                width as usize,
            );
            let col: u16 = find_message_column(&ls, self.selected);
            let w: u16 = width.saturating_sub(col);
            self.textarea.visual_row_count(w as usize).saturating_sub(1)
        } else {
            0
        }
    }

    /// Rows of the parts.
    pub(crate) fn find_layout(&self, width: u16, height: u16, assets: &Assets, env: &Env) -> (r:
        ConfirmLayout)
        requires
            self@.wf(),
        ensures
            r == self@.layout(width, height, *env),
    {
        proof {
            reveal(ConfirmView::layout);
        }
        let w: usize = width as usize;
        let tl = self.find_title_lines(w);
        let tn: usize = tl.len();
        assert(text::texts(tl@).len() == tn);
        #[verifier::truncate]
        let title_rows: u16 = tn as u16;
        let sl = self.find_summary_lines(w);
        let sn: usize = sl.len();
        assert(text::texts(sl@).len() == sn);
        #[verifier::truncate]
        let summary_rows: u16 = sn as u16;
        let has_preview = self.preview.is_some();
        let separators: u16 = if self.preview.has_top_separator() {
            2
        } else {
            1
        };
        let fixed: u16 = cap_rows(
            4 + title_rows as usize + summary_rows as usize + separators as usize
                + self.count_option_rows(w) as usize + self.count_message_rows(width) as usize,
        );
        let total: u16 = self.preview.total_rows(w, assets, env);
        let viewport: u16 = if has_preview {
            let space: u16 = height.saturating_sub(fixed);
            let space: u16 = if space < 1 {
                1
            } else {
                space
            };
            if space < total {
                space
            } else {
                total
            }
        } else {
            0
        };
        ConfirmLayout {
            title_rows,
            summary_rows,
            has_preview,
            viewport_rows: viewport,
            total_preview: total,
            total_rows: fixed.saturating_add(viewport),
        }
    }

    pub fn height(&self, assets: &Assets, env: &Env) -> (r: u16)
        requires
            self@.wf(),
        ensures
            r == self@.layout(self@.size.0, self@.size.1, *env).total_rows,
    {
        let (w, h) = self.term_size;
        self.find_layout(w, h, assets, env).total_rows
    }

    fn find_message(&self) -> (r: Option<String>)
        ensures
            model::opt_view(r) == self@.message(),
    {
        if self.textarea.is_empty() {
            None
        } else {
            Some(self.textarea.text())
        }
    }

    /// Whether a result is the verdict on the call.
    pub open spec fn tells(self, r: Option<DialogResult>, v: Option<Verdict>) -> bool {
        match v {
            Some(x) => match r {
                Some(DialogResult::Confirm { choice, message, tool_name, request_id }) => {
                    &&& choice_view(choice) == x.choice
                    &&& model::opt_view(message) == x.message
                    &&& tool_name@ == self.tool_name@
                    &&& request_id == self.request_id
                },
                _ => false,
            },
            None => r is None,
        }
    }

    fn accept(&self) -> (r: Option<DialogResult>)
        requires
            self@.wf(),
        ensures
            self.tells(r, Some(self@.taken())),
    {
        assert(choices_view(self.options@)[self.selected as int].1 == choice_view(
            self.options@[self.selected as int].1,
        ));
        Some(
            DialogResult::Confirm {
                choice: copy_choice(&self.options[self.selected].1),
                message: self.find_message(),
                tool_name: self.tool_name.as_str().to_owned(),
                request_id: self.request_id,
            },
        )
    }

    fn refuse(&self) -> (r: Option<DialogResult>)
        ensures
            self.tells(r, Some(ConfirmView::refused())),
    {
        Some(
            DialogResult::Confirm {
                choice: ConfirmChoice::No,
                message: None,
                tool_name: self.tool_name.as_str().to_owned(),
                request_id: self.request_id,
            },
        )
    }

    fn edit_key(
        &mut self,
        code: KeyCode,
        modifiers: KeyModifiers,
        nav: Option<NavAction>,
        word_start: usize,
    ) -> (r: Option<DialogResult>)
        requires
            old(self)@.wf(),
        ensures
            final(self)@ == old(self)@.edited(code, modifiers, nav, word_start as int).0,
            final(self).tells(
                r,
                old(self)@.edited(code, modifiers, nav, word_start as int).1,
            ),
    {
        match nav {
            Some(NavAction::Confirm) => self.accept(),
            Some(NavAction::Dismiss) => {
                if code == KeyCode::Esc {
                    self.editing = false;
                    None
                } else if self.textarea.is_empty() {
                    self.refuse()
                } else {
                    self.textarea.clear();
                    self.editing = false;
                    None
                }
            },
            _ => {
                let _ = self.textarea.handle_key(code, modifiers, word_start);
                None
            },
        }
    }

    fn choose_key(&mut self, nav: Option<NavAction>, assets: &Assets, env: &Env) -> (r: Option<
        DialogResult,
    >)
        requires
            old(self)@.wf(),
        ensures
            final(self)@ == old(self)@.chose(nav, *env).0,
            final(self).tells(r, old(self)@.chose(nav, *env).1),
    {
        let (w, h) = self.term_size;
        let n: usize = self.options.len();
        assert(self@.options.len() == n);
        let view: usize = self.find_layout(w, h, assets, env).viewport_rows as usize;
        let half: usize = view / 2;
        let step: usize = if half < 1 {
            1
        } else {
            half
        };
        assert(step == self@.scroll_step(*env));
        match nav {
            Some(NavAction::Confirm) => self.accept(),
            Some(NavAction::Dismiss) => self.refuse(),
            Some(NavAction::Edit) => {
                self.editing = true;
                None
            },
            Some(NavAction::Up) => {
                self.selected = if self.selected == 0 {
                    n - 1
                } else {
                    self.selected - 1
                };
                None
            },
            Some(NavAction::Down) => {
                self.selected = (self.selected + 1) % n;
                None
            },
            Some(NavAction::PageUp) => {
                self.preview_scroll = self.preview_scroll.saturating_sub(step);
                None
            },
            Some(NavAction::PageDown) => {
                let total: usize = self.preview_total_rows(assets, env);
                if total > 0 {
                    let to: usize = self.preview_scroll.saturating_add(step);
                    self.preview_scroll = if to < total {
                        to
                    } else {
                        total
                    };
                }
                None
            },
            None => None,
        }
    }

    /// Takes a key, which stands for `nav`; the result is there once the user
    /// has decided.  The word before the cursor of the message starts at
    /// `word_start`.
    pub fn handle_key(
        &mut self,
        code: KeyCode,
        modifiers: KeyModifiers,
        nav: Option<NavAction>,
        word_start: usize,
        assets: &Assets,
        env: &Env,
    ) -> (r: Option<DialogResult>)
        requires
            old(self)@.wf(),
        ensures
            ({
                let s = old(self)@.after_key(code, modifiers, nav, word_start as int, *env);
                final(self)@ == s.0 && final(self).tells(r, s.1)
            }),
            final(self)@.wf(),
    {
        proof {
            law_keys_keep_confirm(self@, code, modifiers, nav, word_start as int, *env);
        }
        self.dirty = true;
        if self.editing {
            self.edit_key(code, modifiers, nav, word_start)
        } else {
            self.choose_key(nav, assets, env)
        }
    }
}

pub(crate) fn find_option_lines(label: &str, i: usize, w: usize) -> (r: Vec<String>)
    requires
        i < usize::MAX,
    ensures
        text::texts(r@) == option_lines(label@, i as int, w as int),
        r@.len() >= 1,
{
    let avail: usize = w.saturating_sub(find_indent(i));
    if avail > 0 {
        wrap_line(label, avail)
    } else {
        let mut v: Vec<String> = Vec::new();
        let s = label.to_owned();
        v.push(s);
        assert(text::texts(v@) =~= seq![label@]);
        v
    }
}

/// The column of the message behind option `i` with the lines `ls`.
pub(crate) fn find_message_column(ls: &Vec<String>, i: usize) -> (r: u16)
    requires
        i < usize::MAX,
    ensures
        forall|label: Seq<char>, w: int|
            text::texts(ls@) == #[trigger] option_lines(label, i as int, w) ==> r
                == message_column(label, i as int, w),
{
    let n: usize = ls.len();
    let last: usize = if n > 0 {
        ls[n - 1].as_str().len()
    } else {
        0
    };
    let all: usize = find_indent(i).saturating_add(last).saturating_add(2);
    #[verifier::truncate]
    let col: u16 = all as u16;
    proof {
        assert(text::texts(ls@).len() == n);
        if n > 0 {
            assert(text::texts(ls@).last() == ls@[n - 1]@);
        }
        assert(last == last_bytes(text::texts(ls@)));
    }
    col
}

} // verus!
