//! The dialog that shows and takes back permissions.

use vstd::prelude::*;

use crate::dialogs::keys::{KeyCode, KeyModifiers, NavAction};
use crate::dialogs::list;
use crate::dialogs::list::{end_dialog_draw, ListState};
use crate::dialogs::ps::row_count;
use crate::dialogs::result::{DialogResult, PermissionEntry, Rule};
use crate::hints;
use crate::hints::Hints;
use crate::render::bars;
use crate::render::bars::draw_bar;
use crate::render::out::{crlf, Canvas, Color, RenderOut};
use crate::text;
use crate::text::{cat, cat3, truncate_str};
use crate::theme;
use crate::theme::Theme;

verus! {

/// A row that can be selected: a permission of the session, or a pattern of a
/// rule of the workspace.
#[derive(Clone, Copy, Debug, PartialEq, Eq, Structural)]
pub enum Item {
    Session(usize),
    Workspace(usize, usize),
}

/// Rows that show no permission.
pub const OVERHEAD: u16 = 3;

/// The permissions of the session, in characters.
pub open spec fn entries_view(v: Seq<PermissionEntry>) -> Seq<(Seq<char>, Seq<char>)> {
    Seq::new(v.len(), |i: int| (v[i].tool@, v[i].pattern@))
}

/// The rules of the workspace, in characters.
pub open spec fn rules_view(v: Seq<Rule>) -> Seq<(Seq<char>, Seq<Seq<char>>)> {
    Seq::new(v.len(), |i: int| (v[i].tool@, text::texts(v[i].patterns@)))
}

/// The first `n` permissions of the session.
pub open spec fn session_items(n: int) -> Seq<Item> {
    Seq::new(n as nat, |i: int| Item::Session(i as usize))
}

/// The first `k` patterns of rule `r`.
pub open spec fn pattern_items(r: int, k: int) -> Seq<Item> {
    Seq::new(k as nat, |i: int| Item::Workspace(r as usize, i as usize))
}

/// How many rows a rule takes.
pub open spec fn rule_rows(patterns: Seq<Seq<char>>) -> int {
    if patterns.len() == 0 {
        1
    } else {
        patterns.len() as int
    }
}

/// The rows of the first `n` rules.
pub open spec fn rule_items(rules: Seq<(Seq<char>, Seq<Seq<char>>)>, n: int) -> Seq<Item>
    decreases n,
{
    if n <= 0 {
        seq![]
    } else {
        rule_items(rules, n - 1) + pattern_items(n - 1, rule_rows(rules[n - 1].1))
    }
}

/// The state of the dialog.
#[verifier::ext_equal]
pub struct PermissionsView {
    pub session: Seq<(Seq<char>, Seq<char>)>,
    pub rules: Seq<(Seq<char>, Seq<Seq<char>>)>,
    pub list: ListState,
    /// The first of two keys that delete has been pressed.
    pub pending_d: bool,
}

impl PermissionsView {
    /// All rows.
    pub open spec fn items(self) -> Seq<Item> {
        session_items(self.session.len() as int) + rule_items(
            self.rules,
            self.rules.len() as int,
        )
    }

    /// The permission in a row: whether it is of the session, its tool, and its
    /// pattern, if it has one.
    pub open spec fn shown(self, item: Item) -> (bool, Seq<char>, Option<Seq<char>>) {
        match item {
            Item::Session(i) => (
                true,
                self.session[i as int].0,
                Some(self.session[i as int].1),
            ),
            Item::Workspace(r, p) => {
                let rule = self.rules[r as int];
                (
                    false,
                    rule.0,
                    if rule.1.len() == 0 {
                        None
                    } else {
                        Some(rule.1[p as int])
                    },
                )
            },
        }
    }

    /// The permissions in all rows.
    pub open spec fn permissions(self) -> Seq<(bool, Seq<char>, Option<Seq<char>>)> {
        self.items().map_values(|i: Item| self.shown(i))
    }

    /// Rows with the headings.
    pub open spec fn display_rows(self) -> int {
        let a: int = if self.session.len() > 0 {
            1
        } else {
            0
        };
        let b: int = if self.rules.len() > 0 {
            1
        } else {
            0
        };
        self.items().len() + a + b + a * b
    }

    /// Rows of the list: one when there is no permission.
    pub open spec fn list_rows(self) -> int {
        if self.display_rows() < 1 {
            1
        } else {
            self.display_rows()
        }
    }

    /// Without the row `item`: a rule goes with its last pattern.
    pub open spec fn without(self, item: Item) -> PermissionsView {
        match item {
            Item::Session(i) => PermissionsView { session: self.session.remove(i as int), ..self },
            Item::Workspace(r, p) => {
                let rule = self.rules[r as int];
                if rule.1.len() <= 1 {
                    PermissionsView { rules: self.rules.remove(r as int), ..self }
                } else {
                    PermissionsView {
                        rules: self.rules.update(
                            r as int,
                            (rule.0, rule.1.remove(p as int)),
                        ),
                        ..self
                    }
                }
            },
        }
    }

    /// Without the selected row.
    pub open spec fn deleted(self) -> PermissionsView {
        if self.list.selected < self.items().len() {
            let s = self.without(self.items()[self.list.selected as int]);
            PermissionsView { list: s.list.with_items(s.list_rows()), ..s }
        } else {
            self
        }
    }

    pub open spec fn wf(self) -> bool {
        self.list_rows() <= usize::MAX
    }

    /// What a key does: the dialog, and whether it is closed.
    pub open spec fn after_key(
        self,
        code: KeyCode,
        mods: KeyModifiers,
        nav: Option<NavAction>,
    ) -> (PermissionsView, bool) {
        let s = PermissionsView { pending_d: false, ..self };
        let plain = mods.nothing();
        if self.pending_d && code == KeyCode::Char('d') && plain {
            (s.deleted(), false)
        } else if code == KeyCode::Char('q') && plain {
            (s, true)
        } else if code == KeyCode::Char('d') && plain {
            (
                PermissionsView {
                    pending_d: true,
                    list: ListState { dirty: true, ..s.list },
                    ..s
                },
                false,
            )
        } else if code == KeyCode::Backspace {
            (s.deleted(), false)
        } else {
            match nav {
                Some(NavAction::Dismiss) => (s, true),
                Some(a) => (
                    PermissionsView { list: s.list.after_nav(a, s.items().len() as int), ..s },
                    false,
                ),
                None => (s, false),
            }
        }
    }
}

// ── Laws ─────────────────────────────────────────────────────────────────

/// The permissions in the rows of a rule.
spec fn rule_permissions(rule: (Seq<char>, Seq<Seq<char>>)) -> Seq<
    (bool, Seq<char>, Option<Seq<char>>),
> {
    Seq::new(
        rule_rows(rule.1) as nat,
        |p: int|
            (
                false,
                rule.0,
                if rule.1.len() == 0 {
                    None
                } else {
                    Some(rule.1[p])
                },
            ),
    )
}

/// The permissions in the rows of the first `n` rules.
spec fn rules_permissions(rules: Seq<(Seq<char>, Seq<Seq<char>>)>, n: int) -> Seq<
    (bool, Seq<char>, Option<Seq<char>>),
>
    decreases n,
{
    if n <= 0 {
        seq![]
    } else {
        rules_permissions(rules, n - 1) + rule_permissions(rules[n - 1])
    }
}

/// No rule, and no list of them, is longer than memory allows.
pub open spec fn rules_fit(rules: Seq<(Seq<char>, Seq<Seq<char>>)>) -> bool {
    rules.len() <= usize::MAX && forall|i: int|
        0 <= i < rules.len() ==> (#[trigger] rules[i]).1.len() <= usize::MAX
}

/// The rows of the first `n` rules show their permissions.
proof fn lemma_rules_shown(s: PermissionsView, n: int)
    requires
        0 <= n <= s.rules.len(),
        rules_fit(s.rules),
    ensures
        rule_items(s.rules, n).map_values(|i: Item| s.shown(i)) == rules_permissions(s.rules, n),
    decreases n,
{
    if n > 0 {
        lemma_rules_shown(s, n - 1);
        let shows = |i: Item| s.shown(i);
        let rows = pattern_items(n - 1, rule_rows(s.rules[n - 1].1));
        assert(rows.map_values(shows) =~= rule_permissions(s.rules[n - 1]));
        assert((rule_items(s.rules, n - 1) + rows).map_values(shows) =~= rule_items(
            s.rules,
            n - 1,
        ).map_values(shows) + rows.map_values(shows));
    } else {
        assert(rule_items(s.rules, n).map_values(|i: Item| s.shown(i)) =~= seq![]);
    }
}

/// The rows show the permissions of the session, and those of the rules.
proof fn lemma_all_shown(s: PermissionsView)
    requires
        s.session.len() <= usize::MAX,
        rules_fit(s.rules),
    ensures
        s.permissions() == Seq::new(
            s.session.len(),
            |i: int| (true, s.session[i].0, Some(s.session[i].1)),
        ) + rules_permissions(s.rules, s.rules.len() as int),
{
    lemma_rules_shown(s, s.rules.len() as int);
    let shows = |i: Item| s.shown(i);
    let first = session_items(s.session.len() as int);
    let rest = rule_items(s.rules, s.rules.len() as int);
    assert(first.map_values(shows) =~= Seq::new(
        s.session.len(),
        |i: int| (true, s.session[i].0, Some(s.session[i].1)),
    ));
    assert((first + rest).map_values(shows) =~= first.map_values(shows) + rest.map_values(shows));
}

/// Where a row of the rules stands, and what it names.
proof fn lemma_rule_items(rules: Seq<(Seq<char>, Seq<Seq<char>>)>, n: int, k: int)
    requires
        0 <= n <= rules.len(),
        0 <= k < rule_items(rules, n).len(),
        rules_fit(rules),
    ensures
        match rule_items(rules, n)[k] {
            Item::Workspace(r, p) => r < n && p < rule_rows(rules[r as int].1) && k == rule_items(
                rules,
                r as int,
            ).len() + p,
            Item::Session(_) => false,
        },
    decreases n,
{
    if n > 0 {
        let before = rule_items(rules, n - 1);
        if k < before.len() {
            lemma_rule_items(rules, n - 1, k);
        } else {
            let j = k - before.len();
            assert(rule_items(rules, n)[k] == pattern_items(n - 1, rule_rows(rules[n - 1].1))[j]);
            assert(rules[n - 1].1.len() <= usize::MAX);
        }
    }
}

proof fn lemma_same_rules(
    a: Seq<(Seq<char>, Seq<Seq<char>>)>,
    b: Seq<(Seq<char>, Seq<Seq<char>>)>,
    n: int,
)
    requires
        n <= a.len(),
        n <= b.len(),
        forall|i: int| 0 <= i < n ==> a[i] == b[i],
    ensures
        rules_permissions(a, n) == rules_permissions(b, n),
    decreases n,
{
    if n > 0 {
        lemma_same_rules(a, b, n - 1);
    }
}

/// What is left of the rules when a pattern, or a rule with its last one, goes.
proof fn lemma_pattern_goes(
    a: Seq<(Seq<char>, Seq<Seq<char>>)>,
    b: Seq<(Seq<char>, Seq<Seq<char>>)>,
    r: int,
    p: int,
    n: int,
)
    requires
        0 <= r < n <= a.len(),
        0 <= p < rule_rows(a[r].1),
        b == (if a[r].1.len() <= 1 {
            a.remove(r)
        } else {
            a.update(r, (a[r].0, a[r].1.remove(p)))
        }),
    ensures
        rules_permissions(a, r).len() + p < rules_permissions(a, n).len(),
        rules_permissions(
            b,
            if a[r].1.len() <= 1 {
                n - 1
            } else {
                n
            },
        ) == rules_permissions(a, n).remove(rules_permissions(a, r).len() + p),
    decreases n,
{
    let k = rules_permissions(a, r).len() + p;
    let before = rules_permissions(a, n - 1);
    let last = rule_permissions(a[n - 1]);
    if n == r + 1 {
        lemma_same_rules(a, b, r);
        assert((before + last).remove(k) =~= before + last.remove(p));
        if a[r].1.len() <= 1 {
            assert(last.remove(p) =~= seq![]);
            assert(before + last.remove(p) =~= before);
        } else {
            assert(last.remove(p) =~= rule_permissions(b[r]));
        }
    } else {
        lemma_pattern_goes(a, b, r, p, n - 1);
        assert((before + last).remove(k) =~= before.remove(k) + last);
        if a[r].1.len() <= 1 {
            assert(b[n - 2] == a[n - 1]);
        } else {
            assert(b[n - 1] == a[n - 1]);
        }
    }
}

/// Deleting takes away the selected row, and leaves the permissions in all
/// others as they are, in order.
pub proof fn law_deleting_takes_one_row(s: PermissionsView)
    requires
        s.session.len() <= usize::MAX,
        rules_fit(s.rules),
        s.list.selected < s.items().len(),
    ensures
        s.deleted().permissions() == s.permissions().remove(s.list.selected as int),
        s.deleted().items().len() == s.items().len() - 1,
        s.deleted().pending_d == s.pending_d,
{
    let k = s.list.selected as int;
    let n = s.session.len() as int;
    let item = s.items()[k];
    let d = s.without(item);
    let first = Seq::new(s.session.len(), |i: int| (true, s.session[i].0, Some(s.session[i].1)));
    let rest = rules_permissions(s.rules, s.rules.len() as int);
    lemma_all_shown(s);
    if k < n {
        assert(item == session_items(n)[k]);
        assert(item == Item::Session(k as usize));
        lemma_all_shown(d);
        assert((first + rest).remove(k) =~= first.remove(k) + rest);
        assert(first.remove(k) =~= Seq::new(
            d.session.len(),
            |i: int| (true, d.session[i].0, Some(d.session[i].1)),
        ));
    } else {
        let all = rule_items(s.rules, s.rules.len() as int);
        assert(item == all[k - n]);
        lemma_rule_items(s.rules, s.rules.len() as int, k - n);
        if let Item::Workspace(r, p) = item {
            lemma_rules_shown(s, r as int);
            assert(rules_permissions(s.rules, r as int).len() == rule_items(
                s.rules,
                r as int,
            ).len());
            lemma_pattern_goes(s.rules, d.rules, r as int, p as int, s.rules.len() as int);
            assert(rules_fit(d.rules)) by {
                assert forall|i: int| 0 <= i < d.rules.len() implies (#[trigger] d.rules[i]).1.len()
                    <= usize::MAX by {
                    assert(s.rules[i].1.len() <= usize::MAX);
                    if i + 1 < s.rules.len() {
                        assert(s.rules[i + 1].1.len() <= usize::MAX);
                    }
                }
            }
            lemma_all_shown(d);
            assert((first + rest).remove(k) =~= first + rest.remove(k - n));
        }
    }
    assert(s.deleted().items() == d.items());
    assert(s.deleted().permissions() =~= d.permissions());
    assert(s.permissions().len() == s.items().len());
    assert(d.permissions().len() == d.items().len());
}

/// A single press of the key that deletes takes nothing away.
pub proof fn law_one_press_deletes_nothing(s: PermissionsView, nav: Option<NavAction>, mods: KeyModifiers)
    requires
        !s.pending_d,
        mods.nothing(),
    ensures
        s.after_key(KeyCode::Char('d'), mods, nav).0.session == s.session,
        s.after_key(KeyCode::Char('d'), mods, nav).0.rules == s.rules,
        s.after_key(KeyCode::Char('d'), mods, nav).0.pending_d,
{
}

// ── The dialog ───────────────────────────────────────────────────────────

/// The dialog that shows and takes back permissions.
pub struct PermissionsDialog {
    pub session_entries: Vec<PermissionEntry>,
    pub workspace_rules: Vec<Rule>,
    pub items: Vec<Item>,
    pub list: ListState,
    pub pending_d: bool,
}

impl View for PermissionsDialog {
    type V = PermissionsView;

    open spec fn view(&self) -> PermissionsView {
        PermissionsView {
            session: entries_view(self.session_entries@),
            rules: rules_view(self.workspace_rules@),
            list: self.list,
            pending_d: self.pending_d,
        }
    }
}

/// The rows of the permissions.
fn build_items(session_entries: &Vec<PermissionEntry>, workspace_rules: &Vec<Rule>) -> (r: Vec<
    Item,
>)
    ensures
        r@ == session_items(session_entries@.len() as int) + rule_items(
            rules_view(workspace_rules@),
            workspace_rules@.len() as int,
        ),
{
    let mut v: Vec<Item> = Vec::new();
    let n: usize = session_entries.len();
    let ghost rules = rules_view(workspace_rules@);
    let mut i: usize = 0;
    assert(v@ =~= session_items(0));
    while i < n
        invariant
            i <= n,
            v@ == session_items(i as int),
        decreases n - i,
    {
        v.push(Item::Session(i));
        assert(v@ =~= session_items(i + 1));
        i = i + 1;
    }
    let total: usize = workspace_rules.len();
    let ghost head = v@;
    let mut r: usize = 0;
    assert(v@ =~= head + rule_items(rules, 0));
    while r < total
        invariant
            total == workspace_rules@.len(),
            r <= total,
            rules == rules_view(workspace_rules@),
            v@ == head + rule_items(rules, r as int),
        decreases total - r,
    {
        assert(rules[r as int].1 == text::texts(workspace_rules@[r as int].patterns@));
        let len: usize = workspace_rules[r].patterns.len();
        assert(rules[r as int].1.len() == len);
        let k: usize = row_count(len);
        let ghost before = v@;
        let mut p: usize = 0;
        assert(before + pattern_items(r as int, 0) =~= before);
        while p < k
            invariant
                p <= k,
                v@ == before + pattern_items(r as int, p as int),
            decreases k - p,
        {
            v.push(Item::Workspace(r, p));
            assert(v@ =~= before + pattern_items(r as int, p + 1));
            p = p + 1;
        }
        assert(v@ =~= head + rule_items(rules, r + 1));
        r = r + 1;
    }
    v
}

/// What a permission of the session says.
pub open spec fn entry_label(e: (Seq<char>, Seq<char>)) -> Seq<char> {
    e.0 + ": "@ + e.1
}

/// What pattern `p` of a rule says.
pub open spec fn rule_label(r: (Seq<char>, Seq<Seq<char>>), p: int) -> Seq<char> {
    if r.1.len() == 0 {
        r.0 + ": *"@
    } else {
        r.0 + ": "@ + r.1[p]
    }
}

/// Draws a row.
pub open spec fn row_drawn(m: Canvas, label: Seq<char>, selected: bool, w: int, accent: Color) -> Canvas {
    let t = text::clipped(label, bars::at_least_zero(w - 4));
    let m = m.print("  "@);
    (if selected {
        m.push_fg(accent).print(t).pop_style()
    } else {
        m.print(t)
    }).crlf()
}

fn render_entry_row(out: &mut RenderOut, label: &str, selected: bool, width: usize, accent: Color)
    ensures
        final(out)@ == row_drawn(old(out)@, label@, selected, width as int, accent),
{
    let t = truncate_str(label, width.saturating_sub(4));
    out.print("  ");
    if selected {
        out.push_fg(accent);
        out.print(t.as_str());
        out.pop_style();
    } else {
        out.print(t.as_str());
    }
    crlf(out);
}

/// Draws a heading.
pub open spec fn header_drawn(m: Canvas, label: Seq<char>) -> Canvas {
    m.push_dim().print(label).pop_style().crlf()
}

fn print_header(out: &mut RenderOut, label: &str)
    ensures
        final(out)@ == header_drawn(old(out)@, label@),
{
    out.push_dim();
    out.print(label);
    out.pop_style();
    crlf(out);
}

impl PermissionsView {
    /// What row `i` says.
    pub open spec fn label(self, i: int) -> Seq<char> {
        match self.items()[i] {
            Item::Session(k) => entry_label(self.session[k as int]),
            Item::Workspace(r, p) => rule_label(self.rules[r as int], p as int),
        }
    }

    /// Draws the first `n` rows, with the headings.
    pub open spec fn rows_drawn(self, m: Canvas, n: int, w: int, accent: Color) -> Canvas
        decreases n,
    {
        if n <= 0 {
            m
        } else {
            let i = n - 1;
            let m = self.rows_drawn(m, i, w, accent);
            let m = if i == 0 && self.items()[i] is Session {
                header_drawn(m, " Session"@)
            } else {
                m
            };
            let m = if i == self.session.len() {
                header_drawn(
                    if i > 0 {
                        m.crlf()
                    } else {
                        m
                    },
                    " Workspace"@,
                )
            } else {
                m
            };
            row_drawn(m, self.label(i), i == self.list.selected, w, accent)
        }
    }

    /// Draws the dialog.
    pub open spec fn drawn(
        self,
        m: Canvas,
        start: u16,
        width: u16,
        height: u16,
        h: Hints,
        theme: Theme,
    ) -> Canvas {
        let n = self.list_rows() as usize;
        let s = PermissionsView { list: self.list.begun(start, n, height), ..self };
        let accent = theme.accent_color();
        let m = bars::bar_drawn(
            self.list.begun_on(m, start, n, height),
            width as int,
            seq![],
            seq![],
            accent,
        ).crlf();
        let m = if self.items().len() == 0 {
            header_drawn(m, " No permissions"@)
        } else {
            s.rows_drawn(m, self.items().len() as int, width as int, accent)
        };
        list::dialog_ended(
            m.crlf().push_dim().print(
                if self.pending_d {
                    hints::hint_line(seq![h.dd_pending@, h.close@])
                } else {
                    hints::hint_line(seq![h.dd_delete@, h.close@])
                },
            ).pop_style(),
        )
    }
}

pub proof fn lemma_items(s: PermissionsView, i: int)
    requires
        s.session.len() <= usize::MAX,
        s.rules.len() <= usize::MAX,
        forall|i: int| 0 <= i < s.rules.len() ==> (#[trigger] s.rules[i]).1.len() <= usize::MAX,
        0 <= i < s.items().len(),
    ensures
        match s.items()[i] {
            Item::Session(k) => i < s.session.len() && k == i,
            Item::Workspace(r, p) => {
                &&& i >= s.session.len()
                &&& r < s.rules.len()
                &&& p < rule_rows(s.rules[r as int].1)
            },
        },
{
    let n = s.session.len() as int;
    if i < n {
        assert(s.items()[i] == session_items(n)[i]);
    } else {
        assert(s.items()[i] == rule_items(s.rules, s.rules.len() as int)[i - n]);
        lemma_rule_items(s.rules, s.rules.len() as int, i - n);
    }
}

impl PermissionsDialog {
    /// The rows are those of the permissions, and can be counted.
    pub open spec fn ready(self) -> bool {
        &&& self.items@ == self@.items()
        &&& self@.wf()
    }

    /// Whether the rows are those of the permissions, and can be counted.
    pub fn is_ready(&self) -> (r: bool)
        ensures
            r == self.ready(),
    {
        let items = build_items(&self.session_entries, &self.workspace_rules);
        let n: usize = items.len();
        assert(items@ == self@.items());
        if self.items.len() != n {
            return false;
        }
        let mut i: usize = 0;
        while i < n
            invariant
                n == items@.len(),
                n == self.items@.len(),
                items@ == self@.items(),
                i <= n,
                self.items@.take(i as int) == items@.take(i as int),
            decreases n - i,
        {
            if self.items[i] != items[i] {
                return false;
            }
            i = i + 1;
            assert(self.items@.take(i as int) =~= self.items@.take(i - 1).push(self.items@[i - 1]));
            assert(items@.take(i as int) =~= items@.take(i - 1).push(items@[i - 1]));
        }
        assert(self.items@.take(n as int) =~= self.items@);
        assert(items@.take(n as int) =~= items@);
        let a: usize = if self.session_entries.len() > 0 {
            1
        } else {
            0
        };
        let b: usize = if self.workspace_rules.len() > 0 {
            1
        } else {
            0
        };
        let both: usize = if a > 0 && b > 0 {
            1
        } else {
            0
        };
        assert(self@.display_rows() == n + a + b + both);
        n <= usize::MAX - (a + b + both)
    }

    proof fn sizes(&self)
        ensures
            self@.session.len() <= usize::MAX,
            self@.rules.len() <= usize::MAX,
            forall|i: int|
                0 <= i < self@.rules.len() ==> (#[trigger] self@.rules[i]).1.len() <= usize::MAX,
    {
        let a = self.session_entries.len();
        let b = self.workspace_rules.len();
        assert(self.session_entries@.len() == a);
        assert(self.workspace_rules@.len() == b);
        assert forall|i: int| 0 <= i < self@.rules.len() implies (#[trigger] self@.rules[i]).1.len()
            <= usize::MAX by {
            let v = self.workspace_rules@[i].patterns;
            assert(v@.len() == v.len());
            assert(self@.rules[i].1 == text::texts(v@));
        }
    }

    fn display_row_count(&self) -> (r: usize)
        requires
            self.ready(),
        ensures
            r == self@.display_rows(),
    {
        let a: usize = if self.session_entries.len() > 0 {
            1
        } else {
            0
        };
        let b: usize = if self.workspace_rules.len() > 0 {
            1
        } else {
            0
        };
        let both: usize = if a > 0 && b > 0 {
            1
        } else {
            0
        };
        let n: usize = self.items.len();
        assert(self@.display_rows() == n + a + b + both);
        assert(self@.display_rows() <= usize::MAX);
        n + a + b + both
    }

    pub fn new(
        session_entries: Vec<PermissionEntry>,
        workspace_rules: Vec<Rule>,
        max_height: Option<u16>,
    ) -> (r: PermissionsDialog)
        requires
            session_items(session_entries@.len() as int).len() + rule_items(
                rules_view(workspace_rules@),
                workspace_rules@.len() as int,
            ).len() + 3 <= usize::MAX,
        ensures
            r.session_entries == session_entries,
            r.workspace_rules == workspace_rules,
            !r.pending_d,
            r.list == ListState::fresh(r@.list_rows() as usize, max_height, OVERHEAD),
            r.ready(),
    {
        let items = build_items(&session_entries, &workspace_rules);
        let list = ListState::new(1, max_height, OVERHEAD);
        let mut r = PermissionsDialog {
            session_entries,
            workspace_rules,
            items,
            list,
            pending_d: false,
        };
        assert(r@.session.len() == session_entries@.len());
        assert(r@.rules.len() == workspace_rules@.len());
        assert(r@.wf());
        let total: usize = row_count(r.display_row_count());
        r.list = ListState::new(total, max_height, OVERHEAD);
        assert(r@.items() == items@);
        r
    }

    pub fn height(&self) -> (r: u16)
        requires
            self.ready(),
        ensures
            r == self.list.rows(self@.list_rows() as usize),
    {
        self.list.height(row_count(self.display_row_count()))
    }

    pub fn mark_dirty(&mut self)
        ensures
            *final(self) == (PermissionsDialog {
                list: ListState { dirty: true, ..old(self).list },
                ..*old(self)
            }),
    {
        self.list.dirty = true;
    }

    pub fn anchor_row(&self) -> (r: Option<u16>)
        ensures
            r == self.list.anchor_row,
    {
        self.list.anchor_row
    }

    pub fn handle_resize(&mut self)
        ensures
            *final(self) == (PermissionsDialog {
                list: ListState { anchor_row: None, dirty: true, ..old(self).list },
                ..*old(self)
            }),
    {
        self.list.handle_resize();
    }

    /// Takes away the selected row.
    fn delete_selected(&mut self)
        requires
            old(self).ready(),
        ensures
            final(self)@ == old(self)@.deleted(),
            final(self).ready(),
    {
        let ghost s0 = self@;
        if self.list.selected >= self.items.len() {
            return;
        }
        let item: Item = self.items[self.list.selected];
        proof {
            self.sizes();
            lemma_items(s0, self.list.selected as int);
            law_deleting_takes_one_row(s0);
        }
        match item {
            Item::Session(i) => {
                let ghost v = self.session_entries@;
                let _ = self.session_entries.remove(i);
                assert(entries_view(self.session_entries@) =~= entries_view(v).remove(i as int));
            },
            Item::Workspace(r, p) => {
                let ghost v = self.workspace_rules@;
                assert(rules_view(v)[r as int].1 == text::texts(v[r as int].patterns@));
                let mut rule = self.workspace_rules.remove(r);
                if rule.patterns.len() <= 1 {
                    assert(rules_view(self.workspace_rules@) =~= rules_view(v).remove(r as int));
                } else {
                    let ghost ps = rule.patterns@;
                    let _ = rule.patterns.remove(p);
                    assert(text::texts(rule.patterns@) =~= text::texts(ps).remove(p as int));
                    self.workspace_rules.insert(r, rule);
                    assert(rules_view(self.workspace_rules@) =~= rules_view(v).update(
                        r as int,
                        (v[r as int].tool@, text::texts(ps).remove(p as int)),
                    ));
                }
            },
        }
        assert(self@ == s0.without(item));
        self.rebuild_items();
    }

    fn rebuild_items(&mut self)
        requires
            old(self)@.wf(),
        ensures
            final(self)@ == (PermissionsView {
                list: old(self)@.list.with_items(old(self)@.list_rows()),
                ..old(self)@
            }),
            final(self).ready(),
    {
        self.items = build_items(&self.session_entries, &self.workspace_rules);
        assert(self@.session.len() == self.session_entries@.len());
        assert(self@.rules.len() == self.workspace_rules@.len());
        let total: usize = row_count(self.display_row_count());
        self.list.set_items(total);
    }

    /// The permissions that are left.
    fn close_result(&self) -> (r: DialogResult)
        ensures
            match r {
                DialogResult::PermissionsClosed { session_remaining, workspace_remaining } => {
                    &&& entries_view(session_remaining@) == self@.session
                    &&& rules_view(workspace_remaining@) == self@.rules
                },
                _ => false,
            },
    {
        DialogResult::PermissionsClosed {
            session_remaining: copy_entries(&self.session_entries),
            workspace_remaining: copy_rules(&self.workspace_rules),
        }
    }

    /// Takes a key that stands for `nav`; the result is there once the dialog
    /// is closed.
    pub fn handle_key(&mut self, code: KeyCode, mods: KeyModifiers, nav: Option<NavAction>) -> (r:
        Option<DialogResult>)
        requires
            old(self).ready(),
        ensures
            ({
                let s = old(self)@.after_key(code, mods, nav);
                &&& final(self)@ == s.0
                &&& if s.1 {
                    match r {
                        Some(
                            DialogResult::PermissionsClosed {
                                session_remaining,
                                workspace_remaining,
                            },
                        ) => {
                            &&& entries_view(session_remaining@) == s.0.session
                            &&& rules_view(workspace_remaining@) == s.0.rules
                        },
                        _ => false,
                    }
                } else {
                    r is None
                }
            }),
            final(self).ready(),
    {
        let plain = mods.is_empty();
        let pending = self.pending_d;
        self.pending_d = false;
        if pending && code == KeyCode::Char('d') && plain {
            self.delete_selected();
            return None;
        }
        if code == KeyCode::Char('q') && plain {
            return Some(self.close_result());
        }
        if code == KeyCode::Char('d') && plain {
            self.pending_d = true;
            self.list.dirty = true;
            return None;
        }
        if code == KeyCode::Backspace {
            self.delete_selected();
            return None;
        }
        match nav {
            Some(NavAction::Dismiss) => Some(self.close_result()),
            Some(a) => {
                self.list.navigate(a, self.items.len());
                None
            },
            None => None,
        }
    }

    fn find_label(&self, i: usize) -> (r: String)
        requires
            self.ready(),
            i < self.items@.len(),
        ensures
            r@ == self@.label(i as int),
    {
        proof {
            self.sizes();
            lemma_items(self@, i as int);
        }
        match self.items[i] {
            Item::Session(k) => {
                assert(self@.session[k as int] == (
                    self.session_entries@[k as int].tool@,
                    self.session_entries@[k as int].pattern@,
                ));
                let e = &self.session_entries[k];
                cat3(e.tool.as_str(), ": ", e.pattern.as_str())
            },
            Item::Workspace(r, p) => {
                let ghost v = self.workspace_rules@;
                assert(rules_view(v)[r as int] == (
                    v[r as int].tool@,
                    text::texts(v[r as int].patterns@),
                ));
                let rule = &self.workspace_rules[r];
                assert(text::texts(rule.patterns@).len() == rule.patterns@.len());
                if rule.patterns.len() == 0 {
                    cat(rule.tool.as_str(), ": *")
                } else {
                    assert(text::texts(rule.patterns@)[p as int] == rule.patterns@[p as int]@);
                    cat3(rule.tool.as_str(), ": ", rule.patterns[p].as_str())
                }
            },
        }
    }

    fn draw_rows(&self, out: &mut RenderOut, w: usize, accent: Color)
        requires
            self.ready(),
        ensures
            final(out)@ == self@.rows_drawn(
                old(out)@,
                self@.items().len() as int,
                w as int,
                accent,
            ),
    {
        let n: usize = self.items.len();
        let mut printed = false;
        let mut i: usize = 0;
        while i < n
            invariant
                self.ready(),
                n == self.items@.len(),
                i <= n,
                printed == (i > self@.session.len()),
                out@ == self@.rows_drawn(old(out)@, i as int, w as int, accent),
            decreases n - i,
        {
            proof {
                self.sizes();
                lemma_items(self@, i as int);
            }
            let session = match self.items[i] {
                Item::Session(_) => true,
                Item::Workspace(_, _) => false,
            };
            if session && i == 0 {
                print_header(out, " Session");
            }
            if !session && !printed {
                printed = true;
                if i > 0 {
                    crlf(out);
                }
                print_header(out, " Workspace");
            }
            let label = self.find_label(i);
            render_entry_row(out, label.as_str(), i == self.list.selected, w, accent);
            i = i + 1;
        }
    }

    /// Draws the dialog where it has to be drawn.
    pub fn draw(
        &mut self,
        out: &mut RenderOut,
        start_row: u16,
        width: u16,
        height: u16,
        h: &Hints,
        theme: &Theme,
    )
        requires
            old(self).ready(),
        ensures
            if old(self).list.dirty {
                &&& final(out)@ == old(self)@.drawn(
                    old(out)@,
                    start_row,
                    width,
                    height,
                    *h,
                    *theme,
                )
                &&& *final(self) == (PermissionsDialog {
                    list: old(self).list.begun(
                        start_row,
                        old(self)@.list_rows() as usize,
                        height,
                    ),
                    ..*old(self)
                })
            } else {
                *final(self) == *old(self) && final(out)@ == old(out)@
            },
            final(self).ready(),
    {
        let total: usize = row_count(self.display_row_count());
        let w: usize = match self.list.begin_draw(out, start_row, total, width, height) {
            Some((w, _)) => w,
            None => return,
        };
        let accent = theme::accent(theme);
        draw_bar(out, w, None, None, accent);
        crlf(out);
        if self.items.len() == 0 {
            print_header(out, " No permissions");
        } else {
            self.draw_rows(out, w, accent);
        }
        crlf(out);
        out.push_dim();
        let hint = if self.pending_d {
            hints::two(h.dd_pending.as_str(), h.close.as_str())
        } else {
            hints::two(h.dd_delete.as_str(), h.close.as_str())
        };
        out.print(hint.as_str());
        out.pop_style();
        end_dialog_draw(out);
    }
}

fn copy_entries(v: &Vec<PermissionEntry>) -> (r: Vec<PermissionEntry>)
    ensures
        entries_view(r@) == entries_view(v@),
{
    let n: usize = v.len();
    let mut r: Vec<PermissionEntry> = Vec::new();
    let mut i: usize = 0;
    while i < n
        invariant
            n == v@.len(),
            i <= n,
            entries_view(r@) == entries_view(v@).take(i as int),
        decreases n - i,
    {
        let ghost r0 = r@;
        r.push(
            PermissionEntry {
                tool: v[i].tool.as_str().to_owned(),
                pattern: v[i].pattern.as_str().to_owned(),
            },
        );
        assert(entries_view(r@) =~= entries_view(r0).push(entries_view(v@)[i as int]));
        assert(entries_view(v@).take(i + 1) =~= entries_view(v@).take(i as int).push(
            entries_view(v@)[i as int],
        ));
        i = i + 1;
    }
    assert(entries_view(v@).take(n as int) =~= entries_view(v@));
    r
}

fn copy_rules(v: &Vec<Rule>) -> (r: Vec<Rule>)
    ensures
        rules_view(r@) == rules_view(v@),
{
    let n: usize = v.len();
    let mut r: Vec<Rule> = Vec::new();
    let mut i: usize = 0;
    while i < n
        invariant
            n == v@.len(),
            i <= n,
            rules_view(r@) == rules_view(v@).take(i as int),
        decreases n - i,
    {
        let ghost r0 = r@;
        let len: usize = v[i].patterns.len();
        let patterns = text::part_of(&v[i].patterns, 0, len);
        assert(text::texts(v@[i as int].patterns@).subrange(0, len as int) =~= text::texts(
            v@[i as int].patterns@,
        ));
        r.push(Rule { tool: v[i].tool.as_str().to_owned(), patterns });
        assert(rules_view(r@) =~= rules_view(r0).push(rules_view(v@)[i as int]));
        assert(rules_view(v@).take(i + 1) =~= rules_view(v@).take(i as int).push(
            rules_view(v@)[i as int],
        ));
        i = i + 1;
    }
    assert(rules_view(v@).take(n as int) =~= rules_view(v@));
    r
}

} // verus!
