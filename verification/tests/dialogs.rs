//! Lists, text areas and the dialogs made of them.

use tui::dialogs::agents::{AgentSnapshot, AgentStatus, AgentsDialog, AgentsStep, Page, RegistryEntry};
use tui::dialogs::confirm::{workspace_label, ConfirmDialog, ConfirmRequest};
use tui::dialogs::help::{HelpDialog, HelpSection};
use tui::dialogs::keys::{KeyCode, KeyModifiers, NavAction};
use tui::dialogs::list::{begin_dialog_draw, ListState};
use tui::dialogs::notebook::{
    build_notebook_preview, join_string_or_array, notebook_preview, NotebookEdit,
};
use tui::dialogs::permissions::PermissionsDialog;
use tui::dialogs::preview::ConfirmPreview;
use tui::dialogs::ps::{ProcessInfo, PsDialog};
use tui::dialogs::question::QuestionDialog;
use tui::dialogs::questions::{answer_text, parse_questions, Answer, Question, QuestionOption};
use tui::dialogs::result::{DialogResult, PermissionEntry, Rule};
use tui::dialogs::resume::{filter_resume_entries, haystack, resume_title, resume_ts, ResumeDialog, ResumeStep};
use tui::dialogs::rewind::RewindDialog;
use tui::dialogs::text_area::{chunk_line, TextArea};
use tui::hints::Hints;
use tui::json::{from_value, get_i64, get_u64, parse, Amount, Json};
use tui::render::highlight::Assets;
use tui::render::model::{AgentToolEntry, ApprovalScope, ConfirmChoice, ResumeEntry, ToolStatus};
use tui::render::out::{Command, RenderOut};
use tui::render::styled::Env;
use tui::render::tools::render_answers;
use tui::theme::Theme;

fn t(s: &str) -> String {
    s.to_string()
}

fn env() -> Env {
    Env {
        theme: Theme::default(),
        term_width: 80,
        now_ms: 0,
        paths: Vec::new(),
        commands: Vec::new(),
        files: Vec::new(),
    }
}

fn hints() -> Hints {
    Hints {
        nav: t("ctrl+j/k: navigate"),
        scroll: t("ctrl+u/d: scroll"),
        picker_nav: t("ctrl+j/k: navigate"),
        dd_delete: t("dd: delete"),
        dd_pending: t("d: confirm"),
        select: t("enter: select"),
        cancel: t("esc: cancel"),
        close: t("esc: close"),
        send: t("enter: send"),
        confirm: t("enter: confirm"),
        confirm_with_msg: t("tab: message"),
        edit_msg: t("e: edit"),
        add_msg: t("tab: add"),
        back: t("esc: back"),
        kill_proc: t("backspace: kill"),
    }
}

fn plain() -> KeyModifiers {
    KeyModifiers {
        shift: false,
        control: false,
        alt: false,
        other: false,
    }
}

fn printed(out: RenderOut) -> String {
    let mut s = String::new();
    for c in out.into_commands() {
        if let Command::Print(p) = c {
            s.push_str(&p);
        }
    }
    s
}

// ── Lists ────────────────────────────────────────────────────────────────

#[test]
fn selection_stays_in_view() {
    let mut l = ListState::new(10, Some(8), 4);
    assert_eq!((l.max_visible, l.height(10)), (4, 8));
    for i in 1..10 {
        l.select_next(10);
        assert_eq!(l.selected, i);
        assert!(l.scroll_offset <= l.selected && l.selected < l.scroll_offset + l.max_visible);
    }
    assert_eq!(l.scroll_offset, 6);
    assert_eq!(l.visible_range(10), (6, 10));
    l.select_next(10);
    assert_eq!(l.selected, 9);
    l.page_up();
    assert_eq!((l.selected, l.scroll_offset), (7, 6));
    l.navigate(NavAction::PageUp, 10);
    assert_eq!((l.selected, l.scroll_offset), (5, 5));
    l.page_down(10);
    assert_eq!((l.selected, l.scroll_offset), (7, 5));
    l.set_items(2);
    assert_eq!((l.selected, l.scroll_offset, l.max_visible), (1, 0, 2));
    l.set_items(0);
    assert_eq!((l.selected, l.scroll_offset), (0, 0));
}

#[test]
fn up_undoes_down() {
    let mut l = ListState::new(5, None, 4);
    l.dirty = true;
    let was = l;
    l.select_next(5);
    assert_ne!(l, was);
    l.select_prev();
    assert_eq!(l, was);
    l.select_prev();
    assert_eq!(l.selected, 0);
}

#[test]
fn dialogs_make_room_for_themselves() {
    let mut out = RenderOut::buffer();
    let mut anchor = None;
    let got = begin_dialog_draw(&mut out, 20, 10, 24, None, &mut anchor);
    assert_eq!(got, (14, 10));
    assert_eq!(anchor, Some(14));
    assert!(out.commands().contains(&Command::ScrollUp(6)));
    let mut out = RenderOut::buffer();
    assert_eq!(begin_dialog_draw(&mut out, 3, 40, 24, Some(12), &mut anchor), (14, 12));
    assert!(!out.commands().iter().any(|c| matches!(c, Command::ScrollUp(_))));
}

// ── Text areas ───────────────────────────────────────────────────────────

fn typed(s: &str) -> TextArea {
    let mut a = TextArea::new();
    for c in s.chars() {
        if c == '\n' {
            a.insert_newline();
        } else {
            a.insert_char(c);
        }
    }
    a
}

#[test]
fn text_areas_are_edited() {
    let mut a = typed("ab\ncd");
    assert_eq!(a.text(), "ab\ncd");
    a.move_home();
    a.backspace();
    assert_eq!((a.text().as_str(), a.row, a.col), ("abcd", 0, 2));
    a.insert_newline();
    a.move_up();
    assert_eq!((a.row, a.col), (0, 0));
    a.move_left();
    assert_eq!((a.row, a.col), (0, 0));
    a.move_end();
    a.move_right();
    assert_eq!((a.row, a.col), (1, 0));
    a.move_left();
    assert_eq!((a.row, a.col), (0, 2));
    a.clear();
    assert!(a.is_empty());
}

#[test]
fn backspace_undoes_a_key() {
    let mut a = typed("one\ntwo");
    a.move_up();
    let was = (a.text(), a.row, a.col);
    a.insert_char('x');
    a.backspace();
    assert_eq!((a.text(), a.row, a.col), was);
    a.insert_newline();
    a.backspace();
    assert_eq!((a.text(), a.row, a.col), was);
}

#[test]
fn keys_edit_the_area() {
    let mut a = TextArea::new();
    let shift = KeyModifiers {
        shift: true,
        ..plain()
    };
    assert!(a.handle_key(KeyCode::Char('h'), plain(), 0));
    assert!(a.handle_key(KeyCode::Char('I'), shift, 0));
    assert!(!a.handle_key(KeyCode::Other, plain(), 0));
    assert_eq!(a.text(), "hI");
    a.delete_word_backward(0);
    assert!(a.is_empty());
}

#[test]
fn other_modifiers_do_not_type() {
    let held = KeyModifiers {
        other: true,
        ..plain()
    };
    assert!(!held.is_empty() && !held.is_typing());
    let mut a = TextArea::new();
    assert!(!a.handle_key(KeyCode::Char('x'), held, 0));
    assert!(a.is_empty());
    assert!(a.handle_key(KeyCode::Enter, held, 0));
    assert_eq!(a.text(), "\n");
    let mut d = permissions();
    assert!(d.handle_key(KeyCode::Char('q'), held, None).is_none());
    d.handle_key(KeyCode::Char('d'), held, None);
    assert!(!d.pending_d);
    d.handle_key(KeyCode::Char('d'), plain(), None);
    d.handle_key(KeyCode::Char('d'), held, None);
    assert_eq!(d.items.len(), 3);
    assert!(d.handle_key(KeyCode::Char('q'), plain(), None).is_some());
    let mut r = ResumeDialog::new(sessions(), t("/w"), Some(20), 0);
    r.handle_key(KeyCode::Char('x'), held, None, 0);
    assert_eq!(r.needle(), "");
    let control = KeyModifiers {
        control: true,
        ..plain()
    };
    let both = KeyModifiers {
        other: true,
        ..control
    };
    let mut q = QuestionDialog::new(vec![question("One?", false)], 9);
    assert!(q.handle_key(KeyCode::Char('c'), both, 0).is_none());
    assert!(q.handle_key(KeyCode::Char('c'), control, 0).is_some());
}

#[test]
fn lines_are_chunked() {
    assert_eq!(chunk_line("abcdef", 4), vec!["abcd", "ef"]);
    assert_eq!(chunk_line("", 4), vec![""]);
    assert_eq!(chunk_line("abc", 0), vec!["abc"]);
    let a = typed("abcdef\n\nx");
    assert_eq!(a.visual_row_count(4), 4);
    let (rows, cursor) = a.wrap(4);
    assert_eq!(rows, vec!["abcd", "ef", "", "x"]);
    assert_eq!(cursor, (3, 1));
}

#[test]
fn rows_are_counted_as_they_are_wrapped() {
    for text in ["", "a", "abcdef\n\nx", "\n", "abcd\nabcdefghi"] {
        let a = typed(text);
        for w in 0..6 {
            assert_eq!(a.visual_row_count(w) as usize, a.wrap(w).0.len());
        }
        assert_eq!(a.is_empty(), a.text().is_empty());
        assert_eq!(a.text(), text);
    }
}

#[test]
fn broken_states_are_told() {
    let mut a = typed("ab");
    assert!(a.is_wf());
    a.col = 3;
    assert!(!a.is_wf());
    a.row = 1;
    assert!(!a.is_wf());
    let mut r = RewindDialog::new(vec![(0, t("first"))], false, Some(20));
    assert!(r.is_wf());
    r.list.selected = 2;
    assert!(!r.is_wf());
    let mut s = ResumeDialog::new(sessions(), t("/w"), Some(20), 0);
    assert!(s.is_wf());
    s.filtered.push(9);
    assert!(!s.is_wf());
    let mut p = permissions();
    assert!(p.is_ready());
    p.items.swap(0, 1);
    assert!(!p.is_ready());
    p.items.pop();
    assert!(!p.is_ready());
    let mut q = QuestionDialog::new(vec![question("One?", false)], 9);
    assert!(q.is_ready());
    q.multi_toggles[0].pop();
    assert!(!q.is_ready());
    assert!(!QuestionDialog::new(vec![], 9).is_ready());
    let mut c = ConfirmDialog::new(&request("bash", &[], None), None, "~/w", (80, 24));
    assert!(c.is_wf());
    c.selected = 99;
    assert!(!c.is_wf());
}

#[test]
fn the_other_permissions_stay_in_order() {
    let mut d = PermissionsDialog::new(
        vec![
            PermissionEntry {
                tool: t("bash"),
                pattern: t("ls *"),
            },
            PermissionEntry {
                tool: t("bash"),
                pattern: t("cat *"),
            },
        ],
        vec![
            Rule {
                tool: t("edit_file"),
                patterns: vec![t("*.rs"), t("*.md"), t("*.txt")],
            },
            Rule {
                tool: t("grep"),
                patterns: vec![],
            },
        ],
        Some(20),
    );
    assert_eq!(d.items.len(), 6);
    d.list.selected = 3;
    d.handle_key(KeyCode::Backspace, plain(), None);
    assert_eq!(d.items.len(), 5);
    assert_eq!(d.workspace_rules[0].patterns, vec!["*.rs", "*.txt"]);
    d.list.selected = 0;
    d.handle_key(KeyCode::Backspace, plain(), None);
    assert_eq!(d.session_entries.len(), 1);
    assert_eq!(d.session_entries[0].pattern, "cat *");
    d.list.selected = 3;
    d.handle_key(KeyCode::Backspace, plain(), None);
    assert_eq!(d.workspace_rules.len(), 1);
    assert!(d.is_ready());
}

// ── Rewind, help ─────────────────────────────────────────────────────────

#[test]
fn rewind_gives_a_block() {
    let turns = || vec![(0, t("first")), (4, t("second")), (9, t("third"))];
    let mut d = RewindDialog::new(turns(), true, Some(20));
    let start = d.list.selected;
    d.handle_key(Some(NavAction::Up));
    let want = if d.list.selected < 3 {
        Some(turns()[d.list.selected].0)
    } else {
        None
    };
    assert_ne!(d.list.selected, start);
    match d.handle_key(Some(NavAction::Confirm)) {
        Some(DialogResult::Rewind {
            block_idx,
            restore_vim_insert,
        }) => {
            assert_eq!(block_idx, want);
            assert!(restore_vim_insert);
        }
        _ => panic!("no answer"),
    }
    assert!(matches!(
        d.handle_key(Some(NavAction::Dismiss)),
        Some(DialogResult::Rewind { block_idx: None, .. })
    ));
    assert!(d.handle_key(None).is_none());
}

#[test]
fn help_shows_its_sections() {
    let mut d = HelpDialog::new(vec![HelpSection {
        title: t("Keys"),
        entries: vec![(t("enter"), t("send")), (t("esc"), t("leave"))],
    }]);
    let mut out = RenderOut::buffer();
    d.draw(&mut out, 0, 80, 24, &hints(), &Theme::default());
    let s = printed(out);
    assert!(s.contains("help") && s.contains("enter") && s.contains("leave"), "{s}");
    assert!(matches!(
        d.handle_key(KeyCode::Esc, Some(NavAction::Dismiss)),
        Some(DialogResult::Dismissed)
    ));
}

// ── Processes ────────────────────────────────────────────────────────────

fn procs() -> Vec<ProcessInfo> {
    vec![
        ProcessInfo {
            id: t("1"),
            command: t("sleep 10"),
            started_ms: 0,
        },
        ProcessInfo {
            id: t("2"),
            command: t("make"),
            started_ms: 0,
        },
    ]
}

#[test]
fn ended_processes_are_gone() {
    let mut d = PsDialog::new(procs(), Some(20));
    assert!(d.handle_key(KeyCode::Backspace, None, procs()).is_none());
    assert_eq!(d.killed, vec!["1"]);
    let left: Vec<String> = d.procs.iter().map(|p| p.id.clone()).collect();
    assert_eq!(left, vec!["2"]);
    let again = PsDialog::fetch_procs(procs(), &d.killed);
    assert_eq!(again.len(), 1);
    let mut out = RenderOut::buffer();
    d.draw(&mut out, 0, 80, 24, procs(), 90_000, &hints(), &Theme::default());
    let s = printed(out);
    assert!(s.contains("make") && !s.contains("sleep"));
    assert!(matches!(
        d.handle_key(KeyCode::Esc, Some(NavAction::Dismiss), procs()),
        Some(DialogResult::PsClosed)
    ));
}

// ── Permissions ──────────────────────────────────────────────────────────

fn permissions() -> PermissionsDialog {
    PermissionsDialog::new(
        vec![PermissionEntry {
            tool: t("bash"),
            pattern: t("ls *"),
        }],
        vec![Rule {
            tool: t("edit_file"),
            patterns: vec![t("*.rs"), t("*.md")],
        }],
        Some(20),
    )
}

#[test]
fn two_presses_delete_a_permission() {
    let mut d = permissions();
    assert_eq!(d.items.len(), 3);
    assert!(d.handle_key(KeyCode::Char('d'), plain(), None).is_none());
    assert!(d.pending_d);
    assert_eq!(d.items.len(), 3);
    d.handle_key(KeyCode::Char('d'), plain(), None);
    assert_eq!(d.items.len(), 2);
    assert!(d.session_entries.is_empty());
    d.handle_key(KeyCode::Char('d'), plain(), None);
    d.handle_key(KeyCode::Char('d'), plain(), None);
    match d.handle_key(KeyCode::Esc, plain(), Some(NavAction::Dismiss)) {
        Some(DialogResult::PermissionsClosed {
            session_remaining,
            workspace_remaining,
        }) => {
            assert!(session_remaining.is_empty());
            assert_eq!(workspace_remaining.len(), 1);
            assert_eq!(workspace_remaining[0].patterns, vec!["*.md"]);
        }
        _ => panic!("not closed"),
    }
}

// ── Resume ───────────────────────────────────────────────────────────────

fn entry(id: &str, title: &str, cwd: &str) -> ResumeEntry {
    ResumeEntry {
        id: t(id),
        title: t(title),
        subtitle: None,
        updated_at_ms: 0,
        created_at_ms: 5,
        cwd: Some(t(cwd)),
        parent_id: None,
        depth: 0,
    }
}

fn sessions() -> Vec<ResumeEntry> {
    vec![
        entry("a", "Alpha", "/w"),
        entry("b", "Beta", "/x"),
        entry("c", "Gamma", "/w"),
    ]
}

#[test]
fn sessions_are_filtered() {
    let all = vec![true, true, true];
    assert_eq!(filter_resume_entries(&sessions(), "", true, "/w", &all), vec![0, 2]);
    assert_eq!(filter_resume_entries(&sessions(), "", false, "/w", &all), vec![0, 1, 2]);
    let hits = vec![false, true, true];
    assert_eq!(filter_resume_entries(&sessions(), "q", false, "/w", &hits), vec![1, 2]);
    let e = entry("a", "Alpha", "/w");
    assert_eq!(resume_ts(&e), 5);
    assert_eq!(resume_title(&e), "Alpha");
    assert_eq!(haystack(&e), "Alpha");
    let mut e = e;
    e.subtitle = Some(t("first"));
    assert_eq!(haystack(&e), "Alpha first");
    let mut d = ResumeDialog::new(sessions(), t("/w"), Some(20), 0);
    for c in ['Ä', 'B'] {
        let key = KeyModifiers {
            shift: true,
            ..plain()
        };
        d.handle_key(KeyCode::Char(c), key, None, 0);
    }
    assert_eq!(d.needle(), "äb");
}

#[test]
fn two_presses_delete_a_session() {
    let mut d = ResumeDialog::new(sessions(), t("/w"), Some(20), 0);
    assert_eq!(d.filtered, vec![0, 2]);
    assert!(matches!(
        d.handle_key(KeyCode::Char('d'), plain(), None, 0),
        ResumeStep::Stay
    ));
    match d.handle_key(KeyCode::Char('d'), plain(), None, 0) {
        ResumeStep::Delete(id) => assert_eq!(id, "a"),
        _ => panic!("nothing deleted"),
    }
    assert_eq!(d.entries.len(), 2);
    d.refilter(&vec![true, true]);
    assert_eq!(d.filtered, vec![1]);
    let step = d.handle_key(KeyCode::Enter, plain(), Some(NavAction::Confirm), 0);
    match ResumeDialog::result(step) {
        Some(DialogResult::Resume { session_id }) => assert_eq!(session_id, Some(t("c"))),
        _ => panic!("nothing chosen"),
    }
    let mut out = RenderOut::buffer();
    d.draw(&mut out, 0, 80, 24, 10_005, 0, &hints(), &Theme::default());
    let s = printed(out);
    assert!(s.contains("Gamma") && s.contains("10s ago"), "{s}");
}

// ── Agents ───────────────────────────────────────────────────────────────

fn agents() -> Vec<RegistryEntry> {
    vec![RegistryEntry {
        pid: 42,
        agent_id: t("cedar"),
        status: AgentStatus::Working,
        task_slug: Some(t("tidy")),
    }]
}

fn snapshots() -> Vec<AgentSnapshot> {
    let mut tool_calls = Vec::new();
    for i in 0..40 {
        tool_calls.push(AgentToolEntry {
            call_id: format!("c{i}"),
            tool_name: t("bash"),
            summary: format!("step {i}"),
            status: ToolStatus::Success,
            elapsed_ms: Some(1000),
        });
    }
    vec![AgentSnapshot {
        agent_id: t("cedar"),
        prompt: t("tidy up"),
        tool_calls,
    }]
}

#[test]
fn agents_are_shown_and_ended() {
    let mut d = AgentsDialog::new(agents(), Some(12), (80, 24));
    assert_eq!(
        d.handle_key(KeyCode::Backspace, None, &snapshots()),
        AgentsStep::Kill(42)
    );
    assert_eq!(
        d.handle_key(KeyCode::Enter, Some(NavAction::Confirm), &snapshots()),
        AgentsStep::Stay
    );
    assert!(matches!(d.page, Page::Detail { follow: true, .. }));
    let mut out = RenderOut::buffer();
    d.draw(&mut out, 0, 80, 24, agents(), &snapshots(), &hints());
    let s = printed(out);
    assert!(s.contains("step 39") && !s.contains("step 0 "), "{s}");
    d.handle_key(KeyCode::Esc, Some(NavAction::Dismiss), &snapshots());
    assert!(matches!(d.page, Page::List));
    let step = d.handle_key(KeyCode::Esc, Some(NavAction::Dismiss), &snapshots());
    assert!(matches!(
        AgentsDialog::result(step),
        Some(DialogResult::AgentsClosed)
    ));
}

// ── Questions ────────────────────────────────────────────────────────────

fn question(q: &str, multi: bool) -> Question {
    Question {
        question: t(q),
        header: t("Head"),
        options: vec![
            QuestionOption {
                label: t("red"),
                description: t("a colour"),
            },
            QuestionOption {
                label: t("blue"),
                description: t(""),
            },
        ],
        multi_select: multi,
    }
}

#[test]
fn questions_are_answered() {
    let mut d = QuestionDialog::new(vec![question("Which?", false)], 9);
    assert!(d.handle_key(KeyCode::Down, plain(), 0).is_none());
    match d.handle_key(KeyCode::Enter, plain(), 0) {
        Some(DialogResult::Question { answer, request_id }) => {
            assert_eq!(request_id, 9);
            assert_eq!(answer.unwrap(), "{\"Which?\":\"blue\"}");
        }
        _ => panic!("no answer"),
    }
    let mut d = QuestionDialog::new(vec![question("Which?", false)], 9);
    assert!(matches!(
        d.handle_key(KeyCode::Esc, plain(), 0),
        Some(DialogResult::Question { answer: None, request_id: 9 })
    ));
}

#[test]
fn several_can_be_chosen() {
    let mut d = QuestionDialog::new(vec![question("Which?", true), question("Why?", false)], 1);
    assert!(d.has_tabs);
    d.handle_key(KeyCode::Char(' '), plain(), 0);
    d.handle_key(KeyCode::Down, plain(), 0);
    d.handle_key(KeyCode::Char(' '), plain(), 0);
    assert!(d.handle_key(KeyCode::Enter, plain(), 0).is_none());
    assert_eq!(d.active_tab, 1);
    assert_eq!(d.answered, vec![true, false]);
    match d.handle_key(KeyCode::Enter, plain(), 0) {
        Some(DialogResult::Question { answer: Some(a), .. }) => {
            assert!(a.contains("[\"red\",\"blue\"]"), "{a}");
            assert!(a.contains("\"Why?\":\"red\""), "{a}");
        }
        _ => panic!("no answer"),
    }
    let mut out = RenderOut::buffer();
    d.draw(&mut out, 0, 80, 30, &Theme::default());
    assert!(printed(out).contains("a colour"));
}

#[test]
fn answers_read_back() {
    let text = answer_text(&vec![
        (t("One?"), Answer::One(t("x \"y\""))),
        (t("Two?"), Answer::Many(vec![t("a"), t("b")])),
    ]);
    assert_eq!(text, "{\"One?\":\"x \\\"y\\\"\",\"Two?\":[\"a\",\"b\"]}");
    let shown = Some(vec![
        (t("One?"), false, vec![Some(t("x"))]),
        (t("Two?"), true, vec![Some(t("a")), Some(t("b"))]),
    ]);
    let mut out = RenderOut::buffer();
    render_answers(&mut out, &text, &shown, 80);
    let s = printed(out);
    assert!(s.contains("One?") && s.contains("a, b"), "{s}");
}

#[test]
fn questions_are_parsed() {
    let option = Json::Obj(vec![
        (t("label"), Json::Str(t("red"))),
        (t("description"), Json::Str(t("a colour"))),
    ]);
    let args = vec![(
        t("questions"),
        Json::Arr(vec![
            Json::Obj(vec![
                (t("question"), Json::Str(t("Which?"))),
                (t("header"), Json::Str(t("Head"))),
                (t("options"), Json::Arr(vec![option])),
                (t("multiSelect"), Json::Bool(true)),
            ]),
            Json::Num(t("1"), Amount::Natural(1)),
        ]),
    )];
    let qs = parse_questions(&args);
    assert_eq!(qs[0].question, "Which?");
    assert_eq!(qs[0].options[0].label, "red");
    assert!(qs[0].multi_select);
    assert!(parse_questions(&Vec::new()).is_empty());
}

// ── Confirmation ─────────────────────────────────────────────────────────

fn request(tool: &str, patterns: &[&str], outside: Option<&str>) -> ConfirmRequest {
    ConfirmRequest {
        call_id: t("c"),
        tool_name: t(tool),
        desc: t("ls -la"),
        args: Vec::new(),
        approval_patterns: patterns.iter().map(|p| t(p)).collect(),
        outside_dir: outside.map(t),
        summary: None,
        request_id: 3,
    }
}

fn choices(d: &ConfirmDialog) -> Vec<ConfirmChoice> {
    d.options.iter().map(|o| o.1.clone()).collect()
}

#[test]
fn calls_are_allowed_or_refused() {
    let assets = Assets::load();
    let mut d = ConfirmDialog::new(&request("bash", &["ls *"], None), None, "~/w", (80, 24));
    assert_eq!(choices(&d)[0], ConfirmChoice::Yes);
    assert!(choices(&d).contains(&ConfirmChoice::No));
    assert!(choices(&d).contains(&ConfirmChoice::AlwaysPatterns(
        vec![t("ls *")],
        ApprovalScope::Session
    )));
    assert!(d.blocks_agent());
    let nav = Some(NavAction::Down);
    assert!(d
        .handle_key(KeyCode::Down, plain(), nav, 0, &assets, &env())
        .is_none());
    assert_eq!(d.selected, 1);
    match d.handle_key(KeyCode::Enter, plain(), Some(NavAction::Confirm), 0, &assets, &env()) {
        Some(DialogResult::Confirm {
            choice,
            message,
            tool_name,
            request_id,
        }) => {
            assert_eq!(choice, ConfirmChoice::No);
            assert_eq!(message, None);
            assert_eq!(tool_name, "bash");
            assert_eq!(request_id, 3);
        }
        _ => panic!("no verdict"),
    }
    let mut out = RenderOut::buffer();
    d.draw(&mut out, 0, 80, 24, &hints(), &assets, &env());
    assert!(printed(out).contains("ls -la"));
}

#[test]
fn a_message_goes_with_the_choice() {
    let assets = Assets::load();
    let mut d = ConfirmDialog::new(&request("bash", &[], Some("/etc")), None, "~/w", (80, 24));
    assert!(choices(&d).contains(&ConfirmChoice::AlwaysDir(
        t("/etc"),
        ApprovalScope::Session
    )));
    d.handle_key(KeyCode::Tab, plain(), Some(NavAction::Edit), 0, &assets, &env());
    assert!(d.editing);
    for c in "why".chars() {
        d.handle_key(KeyCode::Char(c), plain(), None, 0, &assets, &env());
    }
    match d.handle_key(KeyCode::Enter, plain(), Some(NavAction::Confirm), 0, &assets, &env()) {
        Some(DialogResult::Confirm { choice, message, .. }) => {
            assert_eq!(choice, ConfirmChoice::Yes);
            assert_eq!(message, Some(t("why")));
        }
        _ => panic!("no verdict"),
    }
}

#[test]
fn leaving_refuses() {
    let assets = Assets::load();
    for tool in ["bash", "edit_file", "exit_plan_mode"] {
        let mut d = ConfirmDialog::new(&request(tool, &[], None), None, "~/w", (80, 24));
        match d.handle_key(KeyCode::Esc, plain(), Some(NavAction::Dismiss), 0, &assets, &env()) {
            Some(DialogResult::Confirm { choice, .. }) => assert_eq!(choice, ConfirmChoice::No),
            _ => panic!("no verdict"),
        }
    }
}

// ── Notebooks ────────────────────────────────────────────────────────────

fn fields(pairs: &[(&str, Json)]) -> Vec<(String, Json)> {
    pairs
        .iter()
        .map(|(k, v)| {
            let v = match v {
                Json::Num(s, a) => Json::Num(s.clone(), *a),
                Json::Str(s) => Json::Str(s.clone()),
                _ => Json::Null,
            };
            (t(k), v)
        })
        .collect()
}

fn word(s: &str) -> Json {
    Json::Str(t(s))
}

fn natural(n: u64) -> Json {
    Json::Num(n.to_string(), Amount::Natural(n))
}

const NOTEBOOK: &str = r#"{
    "nbformat": 4,
    "cells": [
        {"cell_type": "markdown", "id": "top", "source": ["Title\n", "text"]},
        {"cell_type": "code", "id": "body", "source": "print(1)"}
    ]
}"#;

#[test]
fn notebooks_are_read_from_text() {
    let args = fields(&[
        ("notebook_path", word("a.ipynb")),
        ("cell_id", word("body")),
        ("new_source", word("print(2)")),
    ]);
    let e = notebook_preview(&args, NOTEBOOK).unwrap();
    assert_eq!(e.edit_mode, "replace");
    assert_eq!(e.path, "a.ipynb");
    assert_eq!(e.index, 1);
    assert_eq!(e.old_type.as_deref(), Some("code"));
    assert_eq!(e.new_type.as_deref(), Some("code"));
    assert_eq!(e.cell_id.as_deref(), Some("body"));
    assert_eq!(e.old_source, "print(1)");
    assert_eq!(e.new_source, "print(2)");

    let args = fields(&[
        ("edit_mode", word("delete")),
        ("cell_number", natural(0)),
        ("new_source", word("unused")),
    ]);
    let e = notebook_preview(&args, NOTEBOOK).unwrap();
    assert_eq!(e.edit_mode, "delete");
    assert_eq!(e.index, 0);
    assert_eq!(e.old_source, "Title\ntext");
    assert_eq!(e.new_type, None);
    assert_eq!(e.new_source, "");

    let args = fields(&[
        ("edit_mode", word("insert")),
        ("cell_id", word("top")),
        ("cell_type", word("code")),
    ]);
    let e = notebook_preview(&args, NOTEBOOK).unwrap();
    assert_eq!(e.edit_mode, "insert");
    assert_eq!(e.index, 1);
    assert_eq!(e.new_type.as_deref(), Some("code"));
    assert_eq!(e.old_type, None);
    let first = fields(&[("edit_mode", word("insert"))]);
    assert_eq!(notebook_preview(&first, NOTEBOOK).unwrap().index, 0);
}

#[test]
fn no_cell_gives_no_preview() {
    let body = fields(&[("cell_id", word("body"))]);
    assert!(notebook_preview(&body, "").is_none());
    assert!(notebook_preview(&body, "{\"cells\": [").is_none());
    assert!(notebook_preview(&body, "{}").is_none());
    assert!(notebook_preview(&body, "{\"cells\": {}}").is_none());
    assert!(build_notebook_preview(&body, None).is_none());
    let gone = fields(&[("cell_id", word("gone"))]);
    assert!(notebook_preview(&gone, NOTEBOOK).is_none());
    let far = fields(&[("edit_mode", word("insert")), ("cell_number", natural(2))]);
    assert!(notebook_preview(&far, NOTEBOOK).is_none());
    let below = fields(&[("cell_number", Json::Num(t("-1"), Amount::Negative(-1)))]);
    assert!(notebook_preview(&below, NOTEBOOK).is_none());
}

#[test]
fn values_are_read_from_text() {
    let Some(Json::Obj(f)) =
        parse("{\"a\": 7, \"b\": -3, \"c\": 1.5, \"d\": [null, true, \"x\"], \"e\": 18446744073709551615}")
    else {
        panic!("no object");
    };
    assert_eq!(get_u64(&f, "a"), Some(7));
    assert_eq!(get_i64(&f, "a"), Some(7));
    assert_eq!(get_u64(&f, "b"), None);
    assert_eq!(get_i64(&f, "b"), Some(-3));
    assert_eq!(get_i64(&f, "c"), None);
    assert!(matches!(&f[2].1, Json::Num(s, Amount::Other) if s == "1.5"));
    match &f[3].1 {
        Json::Arr(a) => {
            assert!(matches!(a[0], Json::Null) && matches!(a[1], Json::Bool(true)));
            assert_eq!(join_string_or_array(&a[2]), Some(t("x")));
        }
        _ => panic!("no list"),
    }
    assert_eq!(join_string_or_array(&f[3].1), Some(t("x")));
    assert_eq!(join_string_or_array(&f[0].1), None);
    assert_eq!(get_u64(&f, "e"), Some(u64::MAX));
    assert_eq!(get_i64(&f, "e"), None);
    assert!(parse("{").is_none());
    let list = serde_json::Value::from(vec!["x", "y"]);
    assert_eq!(join_string_or_array(&from_value(&list)), Some(t("xy")));
    assert!(matches!(
        from_value(&serde_json::Value::from(-4)),
        Json::Num(s, Amount::Negative(-4)) if s == "-4"
    ));
}

// ── Previews ─────────────────────────────────────────────────────────────

fn change(mode: &str) -> ConfirmPreview<String> {
    ConfirmPreview::Notebook {
        edit: NotebookEdit {
            edit_mode: t(mode),
            path: t("a.py"),
            index: 0,
            old_type: None,
            new_type: None,
            cell_id: None,
            old_source: t("one\ntwo\nthree\n"),
            new_source: t("four\nfive\nsix\n"),
        },
        title: t("cell title"),
    }
}

#[test]
fn previews_stay_in_their_viewport() {
    let previews = [
        change("replace"),
        change("delete"),
        change("insert"),
        ConfirmPreview::Diff {
            old: t("one\ntwo\n"),
            new: t("three\nfour\n"),
            path: t("a.py"),
        },
        ConfirmPreview::FileContent {
            content: t("one\ntwo\nthree\nfour\n"),
            path: t("a.py"),
        },
        ConfirmPreview::BashBody {
            full_command: t("ls\npwd\ntrue\nfalse"),
        },
        ConfirmPreview::PlanContent {
            summary: t("one\n\ntwo\n\nthree"),
        },
    ];
    let assets = Assets::load();
    for p in &previews {
        for viewport in 1..5u16 {
            for skip in 0..3u16 {
                let mut out = RenderOut::scroll();
                out.set_row(Some(5));
                p.render(&mut out, skip, viewport, 80, &assets, &env());
                let row = out.row().unwrap();
                assert!(5 <= row && row <= 5 + viewport);
            }
        }
    }
    for p in &previews[..3] {
        let mut out = RenderOut::buffer();
        p.render(&mut out, 0, 1, 80, &assets, &env());
        let s = printed(out);
        assert_eq!(s.matches("\r\n").count(), 1, "{s}");
        assert!(s.contains("cell title"), "{s}");
        let mut out = RenderOut::buffer();
        p.render(&mut out, 0, 2, 80, &assets, &env());
        assert_eq!(printed(out).matches("\r\n").count(), 2);
        let mut out = RenderOut::buffer();
        p.render(&mut out, 0, 0, 80, &assets, &env());
        assert!(printed(out).matches("\r\n").count() > 2);
    }
}

#[test]
fn workspaces_are_shown_short() {
    let label = |cwd: &str, home: &str| workspace_label(Some(cwd), home);
    assert_eq!(label("/home/u/src/x", "/home/u"), "~/src/x");
    assert_eq!(label("/home/u/src", "/home/u/"), "~/src");
    assert_eq!(label("/home/u", "/home/u"), "~/");
    assert_eq!(label("/home/user", "/home/u"), "/home/user");
    assert_eq!(label("/srv/x", "/home/u"), "/srv/x");
    assert_eq!(label("/srv/x", "/"), "~/srv/x");
    assert_eq!(label("/", "/"), "~/");
    assert_eq!(label("/srv/x", ""), "~//srv/x");
    assert_eq!(workspace_label(None, "/home/u"), "");
}
