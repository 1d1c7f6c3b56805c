//! The screen as a whole, and laws that need it.

use tui::dialogs::confirm::{ConfirmDialog, ConfirmRequest};
use tui::dialogs::keys::{KeyCode, KeyModifiers, NavAction};
use tui::dialogs::question::QuestionDialog;
use tui::dialogs::questions::{Question, QuestionOption};
use tui::hints::Hints;
use tui::render::highlight::Assets;
use tui::render::history::BlockHistory;
use tui::render::input::{PromptInput, ScrollBar, ViMode};
use tui::render::model::{AgentBlockStatus, AgentToolEntry, Block, Throbber, ToolStatus};
use tui::render::out::{ClearType, Color, Command, RenderOut};
use tui::render::screen::{Mode, Screen, Term};
use tui::render::sections::FramePrompt;
use tui::render::styled::Env;
use tui::theme::Theme;

fn t(s: &str) -> String {
    s.to_string()
}

fn env_at(now_ms: u64) -> Env {
    Env {
        theme: Theme::default(),
        term_width: 40,
        now_ms,
        paths: Vec::new(),
        commands: Vec::new(),
        files: Vec::new(),
    }
}

const TERM: Term = Term {
    width: 40,
    height: 20,
    cursor_y: 0,
};

fn hints() -> Hints {
    Hints {
        nav: t("nav"),
        scroll: t("scroll"),
        picker_nav: t("pick"),
        dd_delete: t("dd"),
        dd_pending: t("d"),
        select: t("select"),
        cancel: t("cancel"),
        close: t("close"),
        send: t("send"),
        confirm: t("confirm"),
        confirm_with_msg: t("message"),
        edit_msg: t("edit"),
        add_msg: t("add"),
        back: t("back"),
        kill_proc: t("kill"),
    }
}

fn input(buf: &str) -> PromptInput {
    PromptInput {
        buf: t(buf),
        labels: vec![],
        cursor: buf.len(),
        selection: None,
        vim_enabled: false,
        vim_mode: None,
        stashed: false,
        command_hint: None,
        menu: None,
        menu_rows: 0,
        completions: None,
    }
}

const THUMB: Color = Color::AnsiValue(201);
const TRACK: Color = Color::AnsiValue(202);

fn drawn(screen: &mut Screen, state: &PromptInput) -> Vec<Command<String>> {
    let hints = hints();
    let queued = vec![];
    let p = FramePrompt {
        state,
        mode: Mode::Plan,
        queued: &queued,
        prediction: None,
        tokens: "12k",
        percent: 6,
        cost: Some("$1.20"),
        hints: &hints,
        bar: ScrollBar {
            thumb: THUMB,
            track: TRACK,
        },
    };
    let mut out = RenderOut::scroll();
    screen.draw_frame(&mut out, &Assets::load(), 40, Some(&p), &TERM, &env_at(0));
    out.into_commands()
}

#[test]
fn the_prompt_alone_shows_nothing_that_waits() {
    let hints = hints();
    let queued = vec![t("later")];
    let state = input("now");
    let p = FramePrompt {
        state: &state,
        mode: Mode::Normal,
        queued: &queued,
        prediction: Some("perhaps"),
        tokens: "12k",
        percent: 6,
        cost: None,
        hints: &hints,
        bar: ScrollBar {
            thumb: THUMB,
            track: TRACK,
        },
    };
    let mut screen = Screen::new();
    assert!(screen.is_wf());
    let mut out = RenderOut::scroll();
    screen.draw_prompt(&mut out, &Assets::load(), 40, &p, &TERM, &env_at(0));
    let cmds = out.into_commands();
    assert_eq!(cmds[0], Command::BeginSynchronizedUpdate);
    let s = words(&cmds);
    assert!(s.contains("now") && !s.contains("later") && !s.contains("perhaps"), "{s}");
    let mut screen = Screen::new();
    let mut out = RenderOut::scroll();
    screen.draw_frame(&mut out, &Assets::load(), 40, Some(&p), &TERM, &env_at(0));
    assert!(words(&out.into_commands()).contains("later"));
    screen.history.flushed = 1;
    assert!(!screen.is_wf());
}

fn words(cmds: &[Command<String>]) -> String {
    let mut s = String::new();
    for c in cmds {
        if let Command::Print(p) = c {
            s.push_str(p);
        }
    }
    s
}

#[test]
fn the_frame_shows_modes_and_numbers() {
    let mut screen = Screen::new();
    screen.set_context_tokens(12_000);
    screen.set_context_window(200_000);
    let s = words(&drawn(&mut screen, &input("hi")));
    assert!(s.contains("plan") && s.contains("12k (6%)") && s.contains("$1.20"), "{s}");
    assert_eq!(screen.context_tokens(), Some(12_000));
    screen.clear_context_tokens();
    let s = words(&drawn(&mut screen, &input("hi")));
    assert!(!s.contains("12k"), "{s}");
    // Nothing has changed, so nothing is drawn.
    assert!(drawn(&mut screen, &input("hi")).is_empty());
}

#[test]
fn the_prompt_does_not_depend_on_the_history() {
    let mut a = Screen::new();
    let mut b = Screen::new();
    a.push(Block::Text { content: t("one") });
    b.push(Block::Text { content: t("two") });
    let x = words(&drawn(&mut a, &input("same")));
    let y = words(&drawn(&mut b, &input("same")));
    assert_eq!(x.replace("one", "two"), y);
}

#[test]
fn the_next_frame_starts_behind_the_blocks() {
    let mut screen = Screen::new();
    screen.push(Block::Text {
        content: t("one\ntwo"),
    });
    drawn(&mut screen, &input("x"));
    assert_eq!(screen.prompt.anchor_row, Some(2));
    screen.push(Block::Hint { content: t("three") });
    let cmds = drawn(&mut screen, &input("x"));
    assert!(cmds.contains(&Command::MoveTo(0, 2)));
    assert!(!words(&cmds).contains("one"));
    let rows = screen.prompt.anchor_row.unwrap();
    assert!(rows > 2 && screen.prompt.prev_dialog_row.unwrap() > rows);
}

#[test]
fn long_input_scrolls_with_a_bar() {
    let mut screen = Screen::new();
    let long: Vec<String> = (0..40).map(|i| format!("line {i}")).collect();
    let cmds = drawn(&mut screen, &input(&long.join("\n")));
    let s = words(&cmds);
    assert!(s.contains("line 39") && !s.contains("line 0\r"), "{s}");
    let count = |c: Color| {
        cmds.iter()
            .filter(|x| **x == Command::SetBackgroundColor(c) || **x == Command::SetForegroundColor(c))
            .count()
    };
    assert!(count(THUMB) > 0);
    assert!(count(TRACK) > 0);
}

#[test]
fn the_selection_is_marked() {
    let mut screen = Screen::new();
    let mut state = input("select me");
    state.selection = Some((0, 6));
    let bg = tui::theme::selection_bg(&Theme::default());
    let marked = drawn(&mut screen, &state);
    assert!(marked.contains(&Command::SetBackgroundColor(bg)));
    let mut screen = Screen::new();
    state.selection = None;
    assert!(!drawn(&mut screen, &state).contains(&Command::SetBackgroundColor(bg)));
}

#[test]
fn the_status_line_reads_only_its_fields() {
    let mut a = Screen::new();
    let mut b = Screen::new();
    b.push(Block::Text { content: t("x") });
    b.notify(t("note"));
    b.set_model_label(t("model"));
    for s in [&mut a, &mut b] {
        s.set_throbber(Throbber::Compacting, 0);
        s.set_agent_count(1);
        s.last_vim_enabled = true;
        s.last_vim_mode = Some(ViMode::Insert);
    }
    let line = |s: &Screen| {
        let mut out = RenderOut::buffer();
        let wide = Term { width: 80, ..TERM };
        s.queue_status_line(&mut out, &wide, &Theme::default(), 3_000);
        out.into_commands()
    };
    assert_eq!(line(&a), line(&b));
    let s = words(&line(&a));
    assert!(s.contains("compacting") && s.contains("INSERT") && s.contains("1 agent"), "{s}");
    assert_eq!(line(&a)[..2], [Command::SavePosition, Command::MoveTo(0, 19)]);
    assert_eq!(line(&a).last(), Some(&Command::RestorePosition));
}

#[test]
fn kept_blocks_repeat() {
    let assets = Assets::load();
    let agent = |elapsed| Block::Agent {
        agent_id: t("cedar"),
        slug: None,
        blocking: true,
        tool_calls: vec![],
        status: AgentBlockStatus::Done,
        elapsed: Some(elapsed),
    };
    let mut h = BlockHistory::new();
    h.push(agent(1_000));
    let mut first = RenderOut::buffer();
    let rows = h.render(&mut first, &assets, 40, true, &env_at(0));
    h.blocks[0] = agent(9_000);
    h.flushed = 0;
    let mut again = RenderOut::buffer();
    assert_eq!(h.render(&mut again, &assets, 40, true, &env_at(5_000)), rows);
    assert_eq!(first.into_commands(), again.into_commands());
    h.invalidate_caches();
    h.flushed = 0;
    let mut anew = RenderOut::buffer();
    h.render(&mut anew, &assets, 40, true, &env_at(5_000));
    assert!(words(anew.commands()).contains("9s"), "{}", words(anew.commands()));
}

#[test]
fn fewer_blocks_take_fewer_rows() {
    let assets = Assets::load();
    let mut h = BlockHistory::new();
    for i in 0..6 {
        h.push(Block::Text {
            content: format!("block {i}\nsecond"),
        });
    }
    let mut out = RenderOut::buffer();
    h.render(&mut out, &assets, 40, true, &env_at(0));
    let mut last = 6;
    for max in 0..30u16 {
        let from = h.redraw_start(max, true);
        assert!(from <= last);
        last = from;
    }
    assert_eq!(last, 0);
}

#[test]
fn redrawing_and_going_back() {
    let assets = Assets::load();
    let mut screen = Screen::new();
    for i in 0..3 {
        screen.push(Block::User {
            text: format!("turn {i}"),
            image_labels: vec![],
        });
    }
    drawn(&mut screen, &input(""));
    let mut out = RenderOut::scroll();
    screen.redraw(&mut out, &assets, true, &TERM, &env_at(0));
    let s = words(out.commands());
    assert!(s.contains("turn 0") && s.contains("turn 2"), "{s}");
    assert!(out.commands().contains(&Command::Clear(ClearType::Purge)));
    let mut out = RenderOut::scroll();
    screen.truncate_to(&mut out, &assets, 1, &TERM, &env_at(0));
    assert_eq!(screen.user_turns(), vec![(0, t("turn 0"))]);
    let mut out = RenderOut::scroll();
    screen.clear(&mut out);
    assert_eq!(screen.block_count(), 0);
    assert!(!screen.has_history());
}

#[test]
fn agents_run_and_end() {
    let mut screen = Screen::new();
    screen.start_active_agent(t("cedar"), 0);
    let call = AgentToolEntry {
        call_id: t("c"),
        tool_name: t("bash"),
        summary: t("make all"),
        status: ToolStatus::Pending,
        elapsed_ms: None,
    };
    screen.update_active_agent(
        "cedar",
        Some(t("build")),
        vec![call],
        AgentBlockStatus::Running,
        1_000,
    );
    let s = words(&drawn(&mut screen, &input("")));
    assert!(s.contains("cedar") && s.contains("make all"), "{s}");
    screen.cancel_active_agents(2_000);
    screen.finish_all_active_agents(3_000);
    assert!(screen.active_agents.is_empty());
    match &screen.blocks()[0] {
        Block::Agent { status, elapsed, .. } => {
            assert_eq!(*status, AgentBlockStatus::Error);
            assert_eq!(*elapsed, Some(2_000));
        }
        _ => panic!("no agent"),
    }
}

#[test]
fn commands_run_and_end() {
    let mut screen = Screen::new();
    screen.start_exec(t("make"), 0);
    screen.append_exec_output("one\n");
    screen.append_exec_output("two\n");
    let s = words(&drawn(&mut screen, &input("")));
    assert!(s.contains("make") && s.contains("two"), "{s}");
    assert!(screen.has_active_exec());
    screen.finish_exec(Some(2));
    screen.commit_exec();
    assert!(!screen.has_active_exec());
    match &screen.blocks()[0] {
        Block::Exec { command, output } => {
            assert_eq!(command, "make");
            assert_eq!(output, "one\ntwo");
        }
        _ => panic!("no command"),
    }
}

#[test]
fn notes_and_questions_on_the_side() {
    let mut screen = Screen::new();
    screen.notify_error(t("it failed"));
    assert!(words(&drawn(&mut screen, &input(""))).contains("it failed"));
    screen.dismiss_notification();
    assert!(!screen.has_notification());
    screen.set_btw(t("why?"), vec![]);
    screen.set_btw_response(t("because"));
    let s = words(&drawn(&mut screen, &input("")));
    assert!(s.contains("why?") && s.contains("because"), "{s}");
    assert!(screen.has_btw());
    screen.dismiss_btw();
    assert!(!screen.has_btw());
}

fn plain() -> KeyModifiers {
    KeyModifiers {
        shift: false,
        control: false,
        alt: false,
        other: false,
    }
}

#[test]
fn tabs_go_back() {
    let q = |s: &str| Question {
        question: t(s),
        header: t(s),
        options: vec![QuestionOption {
            label: t("yes"),
            description: t(""),
        }],
        multi_select: false,
    };
    let mut d = QuestionDialog::new(vec![q("a"), q("b"), q("c")], 1);
    for want in [1, 2, 0] {
        assert!(d.handle_key(KeyCode::Right, plain(), 0).is_none());
        assert_eq!(d.active_tab, want);
    }
    for want in [2, 1, 0] {
        assert!(d.handle_key(KeyCode::Left, plain(), 0).is_none());
        assert_eq!(d.active_tab, want);
    }
    assert_eq!(d.questions.len(), 3);
}

#[test]
fn the_selection_comes_back() {
    let assets = Assets::load();
    let req = ConfirmRequest {
        call_id: t("c"),
        tool_name: t("bash"),
        desc: t("ls"),
        args: vec![],
        approval_patterns: vec![t("ls *")],
        outside_dir: None,
        summary: Some(t("lists files")),
        request_id: 1,
    };
    let mut d = ConfirmDialog::new(&req, None, "~/w", (40, 20));
    let n = d.options.len();
    for i in 0..n {
        assert_eq!(d.selected, i);
        let env = env_at(0);
        d.handle_key(KeyCode::Down, plain(), Some(NavAction::Down), 0, &assets, &env);
        d.handle_key(KeyCode::Up, plain(), Some(NavAction::Up), 0, &assets, &env);
        assert_eq!(d.selected, i);
        d.handle_key(KeyCode::Down, plain(), Some(NavAction::Down), 0, &assets, &env);
    }
    assert_eq!(d.selected, 0);
    assert_eq!(d.options.len(), n);
}
