//! The dialog that takes up an earlier session.

use vstd::prelude::*;

use crate::dialogs::keys::{KeyCode, KeyModifiers, NavAction};
use crate::dialogs::list;
use crate::dialogs::list::{end_dialog_draw, ListState};
use crate::dialogs::ps;
use crate::dialogs::ps::row_count;
use crate::dialogs::result::DialogResult;
use crate::hints;
use crate::hints::Hints;
use crate::render::bars;
use crate::render::bars::draw_bar;
use crate::render::model;
use crate::render::model::ResumeEntry;
use crate::render::out::{crlf, Canvas, Color, RenderOut};
use crate::session;
use crate::session::time_ago;
use crate::text;
use crate::text::{
    cat3, char_count, chars_of, first_line_or, repeat_char, same_text, take_chars, trim,
    truncate_str,
};
use crate::theme;
use crate::theme::Theme;

verus! {

// ── Titles ───────────────────────────────────────────────────────────────

/// Whether a text says "untitled", in letters of either case.
pub open spec fn says_untitled(t: Seq<char>) -> bool {
    &&& t.len() == 8
    &&& forall|i: int|
        0 <= i < 8 ==> #[trigger] t[i] == "untitled"@[i] || t[i] == "UNTITLED"@[i]
}

fn is_untitled(t: &Vec<char>) -> (r: bool)
    ensures
        r == says_untitled(t@),
{
    proof {
        reveal_strlit("untitled");
        reveal_strlit("UNTITLED");
    }
    let lower = chars_of("untitled");
    let upper = chars_of("UNTITLED");
    if t.len() != 8 {
        return false;
    }
    let mut i: usize = 0;
    while i < 8
        invariant
            t@.len() == 8,
            lower@ == "untitled"@,
            upper@ == "UNTITLED"@,
            lower@.len() == 8,
            upper@.len() == 8,
            i <= 8,
            forall|j: int|
                0 <= j < i ==> #[trigger] t@[j] == "untitled"@[j] || t@[j] == "UNTITLED"@[j],
        decreases 8 - i,
    {
        if t[i] != lower[i] && t[i] != upper[i] {
            return false;
        }
        i = i + 1;
    }
    true
}

/// Whether a title tells nothing about its session.
pub open spec fn is_junk(s: Seq<char>) -> bool {
    let t = text::trimmed(s);
    t.len() == 0 || says_untitled(t) || t[0] == '/' || t[0] == '\x00'
}

fn is_junk_title(s: &str) -> (r: bool)
    ensures
        r == is_junk(s@),
{
    let t = chars_of(trim(s).as_str());
    t.len() == 0 || is_untitled(&t) || t[0] == '/' || t[0] == '\x00'
}

/// The text from which the title of a session is taken.
pub open spec fn title_source(title: Seq<char>, subtitle: Option<Seq<char>>) -> Option<Seq<char>> {
    if !is_junk(title) {
        Some(title)
    } else {
        match subtitle {
            Some(s) => if is_junk(s) {
                None
            } else {
                Some(s)
            },
            None => None,
        }
    }
}

/// The title under which a session is shown.
pub open spec fn shown_title(title: Seq<char>, subtitle: Option<Seq<char>>) -> Seq<char> {
    match title_source(title, subtitle) {
        Some(s) => text::trimmed(
            match text::first_line(s) {
                Some(l) => l,
                None => "Untitled"@,
            },
        ),
        None => "Untitled"@,
    }
}

/// The title under which a session is shown.
pub fn resume_title(entry: &ResumeEntry) -> (r: String)
    ensures
        r@ == shown_title(entry.title@, model::opt_view(entry.subtitle)),
{
    if !is_junk_title(entry.title.as_str()) {
        let line = first_line_or(entry.title.as_str(), "Untitled");
        return trim(line.as_str());
    }
    match &entry.subtitle {
        Some(s) => {
            if is_junk_title(s.as_str()) {
                "Untitled".to_owned()
            } else {
                let line = first_line_or(s.as_str(), "Untitled");
                trim(line.as_str())
            }
        },
        None => "Untitled".to_owned(),
    }
}

/// When a session was last changed.
pub open spec fn last_change(e: ResumeEntry) -> u64 {
    if e.updated_at_ms > 0 {
        e.updated_at_ms
    } else {
        e.created_at_ms
    }
}

/// When a session was last changed.
pub fn resume_ts(entry: &ResumeEntry) -> (r: u64)
    ensures
        r == last_change(*entry),
{
    if entry.updated_at_ms > 0 {
        entry.updated_at_ms
    } else {
        entry.created_at_ms
    }
}

// ── Filtering ────────────────────────────────────────────────────────────

/// The text in lower case in the sense of `str::to_lowercase`.
pub uninterp spec fn lowered(s: Seq<char>) -> Seq<char>;

/// Whether a text holds ASCII alone.
pub open spec fn is_ascii_text(s: Seq<char>) -> bool {
    forall|i: int| 0 <= i < s.len() ==> #[trigger] s[i] < '\u{80}'
}

/// An ASCII text in lower case.
pub open spec fn ascii_lowered(s: Seq<char>) -> Seq<char> {
    Seq::new(
        s.len(),
        |i: int|
            if 'A' <= s[i] <= 'Z' {
                (s[i] as u32 + 32) as char
            } else {
                s[i]
            },
    )
}

/// `str::to_lowercase`.  The claim is that the result depends on the text
/// alone, and that of an ASCII text only the letters from A to Z change, to
/// those from a to z.
#[verifier::external_body]
fn to_lower(s: &str) -> (r: String)
    ensures
        r@ == lowered(s@),
        is_ascii_text(s@) ==> r@ == ascii_lowered(s@),
{
    s.to_lowercase()
}

/// A text in lower case.
pub open spec fn lower_case(s: Seq<char>) -> Seq<char> {
    if is_ascii_text(s) {
        ascii_lowered(s)
    } else {
        lowered(s)
    }
}

fn lower(s: &str) -> (r: String)
    ensures
        r@ == lower_case(s@),
{
    to_lower(s)
}

/// What is searched for a session.
pub open spec fn searched_text(title: Seq<char>, subtitle: Option<Seq<char>>) -> Seq<char> {
    match subtitle {
        Some(s) => shown_title(title, subtitle) + " "@ + s,
        None => shown_title(title, subtitle),
    }
}

/// What is searched for a session.
pub fn haystack(entry: &ResumeEntry) -> (r: String)
    ensures
        r@ == searched_text(entry.title@, model::opt_view(entry.subtitle)),
{
    let title = resume_title(entry);
    match &entry.subtitle {
        Some(s) => cat3(title.as_str(), " ", s.as_str()),
        None => title,
    }
}

/// Whether session `i` is shown; `hits` tells which ones the query finds.
pub open spec fn is_shown(
    entries: Seq<ResumeEntry>,
    i: int,
    query: Seq<char>,
    workspace_only: bool,
    cwd: Seq<char>,
    hits: Seq<bool>,
) -> bool {
    &&& workspace_only ==> model::opt_view(entries[i].cwd) == Some(cwd)
    &&& query.len() == 0 || i < hits.len() && hits[i]
}

/// The sessions among the first `n` that are shown.
pub open spec fn matching(
    entries: Seq<ResumeEntry>,
    n: int,
    query: Seq<char>,
    workspace_only: bool,
    cwd: Seq<char>,
    hits: Seq<bool>,
) -> Seq<usize>
    decreases n,
{
    if n <= 0 {
        seq![]
    } else {
        let v = matching(entries, n - 1, query, workspace_only, cwd, hits);
        if is_shown(entries, n - 1, query, workspace_only, cwd, hits) {
            v.push((n - 1) as usize)
        } else {
            v
        }
    }
}

/// The sessions that are shown; `hits` tells which ones the query finds.
pub fn filter_resume_entries(
    entries: &Vec<ResumeEntry>,
    query: &str,
    workspace_only: bool,
    current_cwd: &str,
    hits: &Vec<bool>,
) -> (r: Vec<usize>)
    ensures
        r@ == matching(
            entries@,
            entries@.len() as int,
            query@,
            workspace_only,
            current_cwd@,
            hits@,
        ),
{
    let mut v: Vec<usize> = Vec::new();
    let total: usize = entries.len();
    let all: bool = char_count(query) == 0;
    let mut i: usize = 0;
    while i < total
        invariant
            total == entries@.len(),
            i <= total,
            all == (query@.len() == 0),
            v@ == matching(entries@, i as int, query@, workspace_only, current_cwd@, hits@),
        decreases total - i,
    {
        let here: bool = if workspace_only {
            match &entries[i].cwd {
                Some(d) => same_text(d.as_str(), current_cwd),
                None => false,
            }
        } else {
            true
        };
        let found: bool = all || i < hits.len() && hits[i];
        if here && found {
            v.push(i);
        }
        i = i + 1;
    }
    v
}

/// A session is shown exactly if it passes the filter, and each at most once,
/// in the order in which they come.
pub proof fn law_filter_shows_matches(
    entries: Seq<ResumeEntry>,
    n: int,
    query: Seq<char>,
    workspace_only: bool,
    cwd: Seq<char>,
    hits: Seq<bool>,
)
    requires
        0 <= n <= entries.len(),
        entries.len() <= usize::MAX,
    ensures
        ({
            let v = matching(entries, n, query, workspace_only, cwd, hits);
            &&& forall|i: int|
                0 <= i < n ==> (is_shown(entries, i, query, workspace_only, cwd, hits)
                    <==> #[trigger] v.contains(i as usize))
            &&& forall|k: int|
                0 <= k < v.len() ==> (#[trigger] v[k]) < n && is_shown(
                    entries,
                    v[k] as int,
                    query,
                    workspace_only,
                    cwd,
                    hits,
                )
            &&& forall|j: int, k: int| 0 <= j < k < v.len() ==> v[j] < v[k]
        }),
    decreases n,
{
    if n > 0 {
        law_filter_shows_matches(entries, n - 1, query, workspace_only, cwd, hits);
        let u = matching(entries, n - 1, query, workspace_only, cwd, hits);
        let v = matching(entries, n, query, workspace_only, cwd, hits);
        assert forall|i: int| 0 <= i < n implies (is_shown(
            entries,
            i,
            query,
            workspace_only,
            cwd,
            hits,
        ) <==> #[trigger] v.contains(i as usize)) by {
            if i < n - 1 {
                assert(is_shown(entries, i, query, workspace_only, cwd, hits) <==> u.contains(
                    i as usize,
                ));
                if u.contains(i as usize) {
                    let k = choose|k: int| 0 <= k < u.len() && u[k] == i as usize;
                    assert(v[k] == u[k]);
                }
                if v.contains(i as usize) {
                    let k = choose|k: int| 0 <= k < v.len() && v[k] == i as usize;
                    assert(k < u.len());
                    assert(u[k] == v[k]);
                }
            } else if is_shown(entries, i, query, workspace_only, cwd, hits) {
                assert(v[v.len() - 1] == i as usize);
            } else {
                assert(v == u);
            }
        }
    }
}

/// The sessions among the first `n` that do not have the id.
pub open spec fn others(entries: Seq<ResumeEntry>, n: int, id: Seq<char>) -> Seq<ResumeEntry>
    decreases n,
{
    if n <= 0 {
        seq![]
    } else if entries[n - 1].id@ == id {
        others(entries, n - 1, id)
    } else {
        others(entries, n - 1, id).push(entries[n - 1])
    }
}

fn remove_session(entries: &mut Vec<ResumeEntry>, id: &str)
    ensures
        final(entries)@ == others(old(entries)@, old(entries)@.len() as int, id@),
{
    let ghost all = entries@;
    let total: usize = entries.len();
    let mut kept: Vec<ResumeEntry> = Vec::new();
    let mut i: usize = 0;
    assert(all.skip(0) =~= all);
    while i < total
        invariant
            total == all.len(),
            i <= total,
            entries@ == all.skip(i as int),
            kept@ == others(all, i as int, id@),
        decreases total - i,
    {
        let e = entries.remove(0);
        assert(e == all[i as int]);
        assert(entries@ =~= all.skip(i + 1));
        if !same_text(e.id.as_str(), id) {
            kept.push(e);
        }
        i = i + 1;
    }
    *entries = kept;
}

/// No session that is left has the id of the one that was deleted.
pub proof fn law_deleted_session_is_gone(entries: Seq<ResumeEntry>, n: int, id: Seq<char>, i: int)
    requires
        0 <= n <= entries.len(),
        0 <= i < others(entries, n, id).len(),
    ensures
        others(entries, n, id)[i].id@ != id,
    decreases n,
{
    if n > 0 && i < others(entries, n - 1, id).len() {
        law_deleted_session_is_gone(entries, n - 1, id, i);
    }
}

// ── The dialog ───────────────────────────────────────────────────────────

/// The dialog that takes up an earlier session.
pub struct ResumeDialog {
    pub entries: Vec<ResumeEntry>,
    pub current_cwd: String,
    pub query: String,
    pub workspace_only: bool,
    /// Which of the sessions are shown.
    pub filtered: Vec<usize>,
    pub list: ListState,
    /// Whether the first of two keys that delete a session was pressed.
    pub pending_d: bool,
    /// When the dialog was last drawn, in milliseconds of a steady clock.
    pub last_drawn_ms: u64,
}

/// The dialog, in characters.
pub struct ResumeView {
    pub entries: Seq<ResumeEntry>,
    pub cwd: Seq<char>,
    pub query: Seq<char>,
    pub workspace_only: bool,
    pub filtered: Seq<usize>,
    pub list: ListState,
    pub pending_d: bool,
    pub last_drawn_ms: u64,
}

/// What has to be done after a key.
pub enum ResumeStep<T> {
    /// Nothing.
    Stay,
    /// The sessions have to be filtered anew.
    Filter,
    /// A session has to be deleted, and the others filtered anew.
    Delete(T),
    /// The user has chosen a session, or none.
    Done(Option<T>),
}

pub open spec fn step_view(s: ResumeStep<String>) -> ResumeStep<Seq<char>> {
    match s {
        ResumeStep::Stay => ResumeStep::Stay,
        ResumeStep::Filter => ResumeStep::Filter,
        ResumeStep::Delete(t) => ResumeStep::Delete(t@),
        ResumeStep::Done(t) => ResumeStep::Done(model::opt_view(t)),
    }
}

impl ResumeView {
    /// The selected session is one that there is.
    pub open spec fn wf(self) -> bool {
        forall|k: int|
            0 <= k < self.filtered.len() ==> (#[trigger] self.filtered[k]) < self.entries.len()
    }

    /// Filtered anew; `hits` tells which sessions the query finds.
    pub open spec fn refiltered(self, hits: Seq<bool>) -> ResumeView {
        let filtered = matching(
            self.entries,
            self.entries.len() as int,
            self.query,
            self.workspace_only,
            self.cwd,
            hits,
        );
        ResumeView {
            filtered,
            list: self.list.with_items(ps::rows_for(filtered.len()) as int),
            ..self
        }
    }

    /// The selected session.
    pub open spec fn selected(self) -> Option<Seq<char>> {
        if self.list.selected < self.filtered.len() {
            Some(self.entries[self.filtered[self.list.selected as int] as int].id@)
        } else {
            None
        }
    }

    /// With another query, and not filtered yet.
    pub open spec fn asking(self, query: Seq<char>) -> (ResumeView, ResumeStep<Seq<char>>) {
        (ResumeView { query, filtered: seq![], ..self }, ResumeStep::Filter)
    }

    /// Without the selected session, and not filtered yet.
    pub open spec fn deleted(self) -> (ResumeView, ResumeStep<Seq<char>>) {
        match self.selected() {
            Some(id) => (
                ResumeView {
                    entries: others(self.entries, self.entries.len() as int, id),
                    filtered: seq![],
                    ..self
                },
                ResumeStep::Delete(id),
            ),
            None => (self, ResumeStep::Stay),
        }
    }

    /// Moved in the list.
    pub open spec fn moved(self, nav: NavAction) -> ResumeView {
        let n = self.filtered.len() as int;
        match nav {
            NavAction::Up | NavAction::Down => ResumeView {
                list: self.list.after_nav(nav, n),
                ..self
            },
            NavAction::PageUp | NavAction::PageDown => if n > 0 {
                ResumeView { list: self.list.after_nav(nav, n), ..self }
            } else {
                self
            },
            _ => self,
        }
    }

    /// What a key does that is not the second of two.  The last word of the
    /// query starts at `word_start`.
    pub open spec fn after_plain(
        self,
        code: KeyCode,
        mods: KeyModifiers,
        nav: Option<NavAction>,
        word_start: int,
    ) -> (ResumeView, ResumeStep<Seq<char>>) {
        if code == KeyCode::Char('w') && mods.control {
            (
                ResumeView { workspace_only: !self.workspace_only, filtered: seq![], ..self },
                ResumeStep::Filter,
            )
        } else if code == KeyCode::Backspace {
            if self.query.len() == 0 {
                self.deleted()
            } else if mods.alt || mods.control {
                self.asking(text::first_chars(self.query, word_start))
            } else {
                self.asking(self.query.drop_last())
            }
        } else if code == KeyCode::Char('d') && mods.nothing() && self.query.len() == 0 {
            (
                ResumeView {
                    pending_d: true,
                    list: ListState { dirty: true, ..self.list },
                    ..self
                },
                ResumeStep::Stay,
            )
        } else {
            match nav {
                Some(NavAction::Confirm) => (self, ResumeStep::Done(self.selected())),
                Some(NavAction::Dismiss) => (self, ResumeStep::Done(None)),
                Some(NavAction::Up) => (self.moved(NavAction::Up), ResumeStep::Stay),
                Some(NavAction::Down) => (self.moved(NavAction::Down), ResumeStep::Stay),
                Some(NavAction::PageUp) => (self.moved(NavAction::PageUp), ResumeStep::Stay),
                Some(NavAction::PageDown) => (self.moved(NavAction::PageDown), ResumeStep::Stay),
                _ => match code {
                    KeyCode::Char(c) => if mods.typing() {
                        self.asking(self.query.push(c))
                    } else {
                        (self, ResumeStep::Stay)
                    },
                    _ => (self, ResumeStep::Stay),
                },
            }
        }
    }

    /// What a key does.
    pub open spec fn after_key(
        self,
        code: KeyCode,
        mods: KeyModifiers,
        nav: Option<NavAction>,
        word_start: int,
    ) -> (ResumeView, ResumeStep<Seq<char>>) {
        if self.pending_d {
            if code == KeyCode::Char('d') && mods.nothing() {
                ResumeView { pending_d: false, ..self }.deleted()
            } else {
                ResumeView {
                    pending_d: false,
                    query: self.query.push('d'),
                    ..self
                }.after_plain(code, mods, nav, word_start)
            }
        } else {
            self.after_plain(code, mods, nav, word_start)
        }
    }

    /// When the latest of the first `n` sessions shown was changed.
    pub open spec fn freshest(self, n: int) -> u64
        decreases n,
    {
        if n <= 0 {
            0
        } else {
            let f = self.freshest(n - 1);
            let t = last_change(self.entries[self.filtered[n - 1] as int]);
            if t > f {
                t
            } else {
                f
            }
        }
    }

    /// Seconds after which the ages that are shown have changed.
    pub open spec fn interval(self, now_ms: u64) -> u64 {
        let age = model::since(now_ms, self.freshest(self.filtered.len() as int)) / 1000;
        if age < 60 {
            1
        } else if age < 3600 {
            30
        } else {
            60
        }
    }

    /// Whether the dialog has to be drawn.
    pub open spec fn due(self, now_ms: u64, clock_ms: u64) -> bool {
        self.list.dirty || model::since(clock_ms, self.last_drawn_ms) / 1000 >= self.interval(
            now_ms,
        )
    }

    /// Draws the sessions from `from` up to `to`.
    pub open spec fn rows_drawn(
        self,
        m: Canvas,
        from: int,
        to: int,
        w: int,
        now_ms: u64,
        accent: Color,
    ) -> Canvas
        decreases to - from,
    {
        if to <= from {
            m
        } else {
            let m = self.rows_drawn(m, from, to - 1, w, now_ms, accent);
            let e = self.entries[self.filtered[to - 1] as int];
            let ago = session::ago_text(last_change(e), now_ms);
            let indent = bars::capped(2 + e.depth * 2);
            let label = text::clipped(
                shown_title(e.title@, model::opt_view(e.subtitle)),
                bars::at_least_zero(w - bars::capped(ago.len() + 3 + indent)),
            );
            let m = m.print(text::fill(' ', indent as nat));
            let m = if to - 1 == self.list.selected {
                m.push_fg(accent).print(label).pop_style()
            } else {
                m.print(label)
            };
            m.print(" "@).push_dim().print(ago).pop_style().crlf()
        }
    }

    /// The dialog once it was begun to be drawn.
    pub open spec fn begun(self, start: u16, height: u16, clock_ms: u64) -> ResumeView {
        ResumeView {
            list: ListState { dirty: true, ..self.list }.begun(
                start,
                ps::rows_for(self.filtered.len()),
                height,
            ),
            last_drawn_ms: clock_ms,
            ..self
        }
    }

    /// Draws the dialog.
    pub open spec fn drawn(
        self,
        m: Canvas,
        start: u16,
        width: u16,
        height: u16,
        now_ms: u64,
        clock_ms: u64,
        h: Hints,
        theme: Theme,
    ) -> Canvas {
        let n = ps::rows_for(self.filtered.len());
        let b = self.begun(start, height, clock_ms);
        let accent = theme.accent_color();
        let m = bars::bar_drawn(
            (ListState { dirty: true, ..self.list }).begun_on(m, start, n, height),
            width as int,
            seq![],
            seq![],
            accent,
        ).crlf().push_dim();
        let m = if self.workspace_only {
            m.print(" Resume (workspace):"@)
        } else {
            m.print(" Resume (all):"@)
        };
        let m = m.pop_style().print(" "@).print(self.query).crlf();
        let m = if self.filtered.len() == 0 {
            m.push_dim().print("  No matches"@).pop_style().crlf()
        } else {
            b.rows_drawn(
                m,
                b.list.shown(self.filtered.len() as int).0,
                b.list.shown(self.filtered.len() as int).1,
                width as int,
                now_ms,
                accent,
            )
        };
        let toggle = if self.workspace_only {
            "ctrl+w: all sessions"@
        } else {
            "ctrl+w: this workspace"@
        };
        list::dialog_ended(
            m.crlf().push_dim().print(
                hints::hint_line(seq![h.select@, h.dd_delete@, h.cancel@, toggle]),
            ).pop_style(),
        )
    }
}

impl View for ResumeDialog {
    type V = ResumeView;

    open spec fn view(&self) -> ResumeView {
        ResumeView {
            entries: self.entries@,
            cwd: self.current_cwd@,
            query: self.query@,
            workspace_only: self.workspace_only,
            filtered: self.filtered@,
            list: self.list,
            pending_d: self.pending_d,
            last_drawn_ms: self.last_drawn_ms,
        }
    }
}

impl ResumeDialog {
    /// Whether the sessions that are shown are ones that there are.
    pub fn is_wf(&self) -> (r: bool)
        ensures
            r == self@.wf(),
    {
        let n: usize = self.filtered.len();
        let mut k: usize = 0;
        while k < n
            invariant
                n == self.filtered@.len(),
                k <= n,
                forall|j: int|
                    0 <= j < k ==> (#[trigger] self@.filtered[j]) < self@.entries.len(),
            decreases n - k,
        {
            if self.filtered[k] >= self.entries.len() {
                assert(self@.filtered[k as int] >= self@.entries.len());
                return false;
            }
            k = k + 1;
        }
        true
    }

    /// A dialog that shows the sessions of the workspace.
    pub fn new(
        entries: Vec<ResumeEntry>,
        current_cwd: String,
        max_height: Option<u16>,
        clock_ms: u64,
    ) -> (r: ResumeDialog)
        ensures
            ({
                let filtered = matching(
                    entries@,
                    entries@.len() as int,
                    seq![],
                    true,
                    current_cwd@,
                    seq![],
                );
                r@ == (ResumeView {
                    entries: entries@,
                    cwd: current_cwd@,
                    query: seq![],
                    workspace_only: true,
                    filtered,
                    list: ListState::fresh(ps::rows_for(filtered.len()), max_height, 4),
                    pending_d: false,
                    last_drawn_ms: clock_ms,
                })
            }),
            r@.wf(),
    {
        let query = String::new();
        assert(query@ =~= Seq::<char>::empty());
        let hits: Vec<bool> = Vec::new();
        assert(hits@ =~= Seq::<bool>::empty());
        let filtered = filter_resume_entries(
            &entries,
            query.as_str(),
            true,
            current_cwd.as_str(),
            &hits,
        );
        proof {
            vstd::std_specs::vec::axiom_spec_len(&entries);
            law_filter_shows_matches(
                entries@,
                entries@.len() as int,
                seq![],
                true,
                current_cwd@,
                seq![],
            );
        }
        let list = ListState::new(row_count(filtered.len()), max_height, 4);
        ResumeDialog {
            entries,
            current_cwd,
            query,
            workspace_only: true,
            filtered,
            list,
            pending_d: false,
            last_drawn_ms: clock_ms,
        }
    }

    /// The query, as it is compared.
    pub fn needle(&self) -> (r: String)
        ensures
            r@ == lower_case(self.query@),
    {
        lower(self.query.as_str())
    }

    /// Filters the sessions; `hits` tells which ones the query finds.
    pub fn refilter(&mut self, hits: &Vec<bool>)
        ensures
            final(self)@ == old(self)@.refiltered(hits@),
            final(self)@.wf(),
    {
        self.filtered = filter_resume_entries(
            &self.entries,
            self.query.as_str(),
            self.workspace_only,
            self.current_cwd.as_str(),
            hits,
        );
        proof {
            vstd::std_specs::vec::axiom_spec_len(&self.entries);
            law_filter_shows_matches(
                self.entries@,
                self.entries@.len() as int,
                self.query@,
                self.workspace_only,
                self.current_cwd@,
                hits@,
            );
        }
        self.list.set_items(row_count(self.filtered.len()));
    }

    fn selected_id(&self) -> (r: Option<String>)
        requires
            self@.wf(),
        ensures
            model::opt_view(r) == self@.selected(),
    {
        if self.list.selected < self.filtered.len() {
            assert(self@.filtered[self.list.selected as int] < self@.entries.len());
            Some(self.entries[self.filtered[self.list.selected]].id.as_str().to_owned())
        } else {
            None
        }
    }

    fn delete_selected(&mut self) -> (r: ResumeStep<String>)
        requires
            old(self)@.wf(),
        ensures
            (final(self)@, step_view(r)) == old(self)@.deleted(),
    {
        match self.selected_id() {
            Some(id) => {
                remove_session(&mut self.entries, id.as_str());
                self.filtered = Vec::new();
                assert(self.filtered@ =~= Seq::<usize>::empty());
                ResumeStep::Delete(id)
            },
            None => ResumeStep::Stay,
        }
    }

    fn ask(&mut self, query: String) -> (r: ResumeStep<String>)
        ensures
            (final(self)@, step_view(r)) == old(self)@.asking(query@),
    {
        self.query = query;
        self.filtered = Vec::new();
        assert(self.filtered@ =~= Seq::<usize>::empty());
        ResumeStep::Filter
    }

    pub fn height(&self) -> (r: u16)
        ensures
            r == self.list.rows(ps::rows_for(self.filtered@.len())),
    {
        self.list.height(row_count(self.filtered.len()))
    }

    pub fn mark_dirty(&mut self)
        ensures
            *final(self) == (ResumeDialog {
                list: ListState { dirty: true, ..old(self).list },
                ..*old(self)
            }),
    {
        self.list.dirty = true;
    }

    pub fn anchor_row(&self) -> (r: Option<u16>)
        ensures
            r == self.list.anchor_row,
    {
        self.list.anchor_row
    }

    /// The size of the terminal has changed.
    pub fn handle_resize(&mut self, hits: &Vec<bool>)
        ensures
            final(self)@ == (ResumeView {
                list: ListState { anchor_row: None, dirty: true, ..old(self).list },
                ..old(self)@
            }).refiltered(hits@),
            final(self)@.wf(),
    {
        self.list.handle_resize();
        self.refilter(hits);
    }

    fn move_by(&mut self, nav: NavAction)
        ensures
            final(self)@ == old(self)@.moved(nav),
            final(self).filtered == old(self).filtered,
            final(self).entries == old(self).entries,
    {
        let n: usize = self.filtered.len();
        match nav {
            NavAction::Up | NavAction::Down => self.list.navigate(nav, n),
            NavAction::PageUp | NavAction::PageDown => {
                if n > 0 {
                    self.list.navigate(nav, n);
                }
            },
            _ => {},
        }
    }

    fn handle_plain(
        &mut self,
        code: KeyCode,
        mods: KeyModifiers,
        nav: Option<NavAction>,
        word_start: usize,
    ) -> (r: ResumeStep<String>)
        requires
            old(self)@.wf(),
        ensures
            (final(self)@, step_view(r)) == old(self)@.after_plain(
                code,
                mods,
                nav,
                word_start as int,
            ),
    {
        let len: usize = char_count(self.query.as_str());
        if code == KeyCode::Char('w') && mods.control {
            self.workspace_only = !self.workspace_only;
            self.filtered = Vec::new();
            assert(self.filtered@ =~= Seq::<usize>::empty());
            return ResumeStep::Filter;
        }
        if code == KeyCode::Backspace {
            if len == 0 {
                return self.delete_selected();
            }
            if mods.alt || mods.control {
                let q = take_chars(self.query.as_str(), word_start);
                return self.ask(q);
            }
            let q = take_chars(self.query.as_str(), len - 1);
            assert(q@ =~= self.query@.drop_last());
            return self.ask(q);
        }
        if code == KeyCode::Char('d') && mods.is_empty() && len == 0 {
            self.pending_d = true;
            self.list.dirty = true;
            return ResumeStep::Stay;
        }
        match nav {
            Some(NavAction::Confirm) => ResumeStep::Done(self.selected_id()),
            Some(NavAction::Dismiss) => ResumeStep::Done(None),
            Some(NavAction::Up) => {
                self.move_by(NavAction::Up);
                ResumeStep::Stay
            },
            Some(NavAction::Down) => {
                self.move_by(NavAction::Down);
                ResumeStep::Stay
            },
            Some(NavAction::PageUp) => {
                self.move_by(NavAction::PageUp);
                ResumeStep::Stay
            },
            Some(NavAction::PageDown) => {
                self.move_by(NavAction::PageDown);
                ResumeStep::Stay
            },
            _ => match code {
                KeyCode::Char(c) => {
                    if mods.is_typing() {
                        let mut q: String = self.query.as_str().to_owned();
                        q.push(c);
                        self.ask(q)
                    } else {
                        ResumeStep::Stay
                    }
                },
                _ => ResumeStep::Stay,
            },
        }
    }

    /// Takes a key that stands for `nav`.  The last word of the query starts
    /// at `word_start`.
    pub fn handle_key(
        &mut self,
        code: KeyCode,
        mods: KeyModifiers,
        nav: Option<NavAction>,
        word_start: usize,
    ) -> (r: ResumeStep<String>)
        requires
            old(self)@.wf(),
        ensures
            (final(self)@, step_view(r)) == old(self)@.after_key(
                code,
                mods,
                nav,
                word_start as int,
            ),
            final(self)@.wf(),
    {
        proof {
            law_keys_keep_sessions(self@, code, mods, nav, word_start as int);
        }
        if self.pending_d {
            self.pending_d = false;
            if code == KeyCode::Char('d') && mods.is_empty() {
                return self.delete_selected();
            }
            self.query.push('d');
        }
        self.handle_plain(code, mods, nav, word_start)
    }

    /// What the dialog comes to after the last step.
    pub fn result(step: ResumeStep<String>) -> (r: Option<DialogResult>)
        ensures
            r == (match step {
                ResumeStep::Done(id) => Some(DialogResult::Resume { session_id: id }),
                _ => None,
            }),
    {
        match step {
            ResumeStep::Done(id) => Some(DialogResult::Resume { session_id: id }),
            _ => None,
        }
    }

    fn freshest_shown(&self) -> (r: u64)
        requires
            self@.wf(),
        ensures
            r == self@.freshest(self.filtered@.len() as int),
    {
        let mut f: u64 = 0;
        let n: usize = self.filtered.len();
        let mut i: usize = 0;
        while i < n
            invariant
                n == self.filtered@.len(),
                self@.wf(),
                i <= n,
                f == self@.freshest(i as int),
            decreases n - i,
        {
            assert(self@.filtered[i as int] < self@.entries.len());
            let t: u64 = resume_ts(&self.entries[self.filtered[i]]);
            if t > f {
                f = t;
            }
            i = i + 1;
        }
        f
    }

    fn is_due(&self, now_ms: u64, clock_ms: u64) -> (r: bool)
        requires
            self@.wf(),
        ensures
            r == self@.due(now_ms, clock_ms),
    {
        if self.list.dirty {
            return true;
        }
        let age: u64 = now_ms.saturating_sub(self.freshest_shown()) / 1000;
        let interval: u64 = if age < 60 {
            1
        } else if age < 3600 {
            30
        } else {
            60
        };
        clock_ms.saturating_sub(self.last_drawn_ms) / 1000 >= interval
    }

    fn draw_rows(&self, out: &mut RenderOut, w: usize, now_ms: u64, accent: Color)
        requires
            self@.wf(),
        ensures
            final(out)@ == self@.rows_drawn(
                old(out)@,
                self.list.shown(self.filtered@.len() as int).0,
                self.list.shown(self.filtered@.len() as int).1,
                w as int,
                now_ms,
                accent,
            ),
    {
        let n: usize = self.filtered.len();
        let (from, to) = self.list.visible_range(n);
        let mut i: usize = from;
        while i < to
            invariant
                n == self.filtered@.len(),
                self@.wf(),
                to <= n,
                from <= i,
                i <= to || i == from,
                out@ == self@.rows_drawn(
                    old(out)@,
                    from as int,
                    i as int,
                    w as int,
                    now_ms,
                    accent,
                ),
            decreases to - i,
        {
            assert(self@.filtered[i as int] < self@.entries.len());
            let e = &self.entries[self.filtered[i]];
            let title = resume_title(e);
            let ago = time_ago(resume_ts(e), now_ms);
            let indent: usize = e.depth.saturating_add(e.depth).saturating_add(2);
            let len: usize = char_count(ago.as_str());
            let label = truncate_str(
                title.as_str(),
                w.saturating_sub(len.saturating_add(3).saturating_add(indent)),
            );
            let space = repeat_char(' ', indent);
            out.print(space.as_str());
            if i == self.list.selected {
                out.push_fg(accent);
                out.print(label.as_str());
                out.pop_style();
            } else {
                out.print(label.as_str());
            }
            out.print(" ");
            out.push_dim();
            out.print(ago.as_str());
            out.pop_style();
            crlf(out);
            i = i + 1;
        }
    }

    /// Draws the dialog where it has to be drawn.
    pub fn draw(
        &mut self,
        out: &mut RenderOut,
        start_row: u16,
        width: u16,
        height: u16,
        now_ms: u64,
        clock_ms: u64,
        h: &Hints,
        theme: &Theme,
    )
        requires
            old(self)@.wf(),
        ensures
            if old(self)@.due(now_ms, clock_ms) {
                &&& final(self)@ == old(self)@.begun(start_row, height, clock_ms)
                &&& final(out)@ == old(self)@.drawn(
                    old(out)@,
                    start_row,
                    width,
                    height,
                    now_ms,
                    clock_ms,
                    *h,
                    *theme,
                )
            } else {
                *final(self) == *old(self) && final(out)@ == old(out)@
            },
            final(self)@.wf(),
    {
        if !self.is_due(now_ms, clock_ms) {
            return;
        }
        self.list.dirty = true;
        self.last_drawn_ms = clock_ms;
        let n: usize = row_count(self.filtered.len());
        let w: usize = match self.list.begin_draw(out, start_row, n, width, height) {
            Some((w, _)) => w,
            None => return,
        };
        let accent = theme::accent(theme);
        draw_bar(out, w, None, None, accent);
        crlf(out);
        out.push_dim();
        if self.workspace_only {
            out.print(" Resume (workspace):");
        } else {
            out.print(" Resume (all):");
        }
        out.pop_style();
        out.print(" ");
        out.print(self.query.as_str());
        crlf(out);
        assert(self@ == old(self)@.begun(start_row, height, clock_ms));
        if self.filtered.len() == 0 {
            out.push_dim();
            out.print("  No matches");
            out.pop_style();
            crlf(out);
        } else {
            self.draw_rows(out, w, now_ms, accent);
        }
        crlf(out);
        out.push_dim();
        let toggle = if self.workspace_only {
            "ctrl+w: all sessions"
        } else {
            "ctrl+w: this workspace"
        };
        let hint = hints::four(
            h.select.as_str(),
            h.dd_delete.as_str(),
            h.cancel.as_str(),
            toggle,
        );
        out.print(hint.as_str());
        out.pop_style();
        end_dialog_draw(out);
    }
}

/// The sessions that are shown are sessions that there are, whatever key is
/// pressed.
pub proof fn law_keys_keep_sessions(
    v: ResumeView,
    code: KeyCode,
    mods: KeyModifiers,
    nav: Option<NavAction>,
    word_start: int,
)
    requires
        v.wf(),
    ensures
        v.after_key(code, mods, nav, word_start).0.wf(),
{
}

/// One press of the key that deletes keeps every session.
pub proof fn law_one_press_keeps_sessions(v: ResumeView, nav: Option<NavAction>, word_start: int)
    requires
        !v.pending_d,
        v.query.len() == 0,
    ensures
        ({
            let mods = KeyModifiers { shift: false, control: false, alt: false, other: false };
            let w = v.after_key(KeyCode::Char('d'), mods, nav, word_start).0;
            &&& w.entries == v.entries
            &&& w.filtered == v.filtered
            &&& w.pending_d
        }),
{
}

} // verus!
