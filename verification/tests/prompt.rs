//! Lines of the prompt, completions, and the history above them.

use tui::hints::Hints;
use tui::render::completions::{
    completion_reserved_rows, draw_completions, CompleterKind, CompletionItem, Completions,
};
use tui::render::highlight::Assets;
use tui::render::history::BlockHistory;
use tui::render::model::Block;
use tui::render::out::{ClearType, Command, RenderOut};
use tui::render::screen::Screen;
use tui::render::styled::Env;
use tui::render::wrap::{compute_visual_line_offsets, wrap_and_locate_cursor, SpanKind};
use tui::theme::Theme;

fn env() -> Env {
    Env {
        theme: Theme::default(),
        term_width: 80,
        now_ms: 0,
        paths: Vec::new(),
        commands: Vec::new(),
        files: Vec::new(),
    }
}

/// What a terminal is sent, as far as the tests look at it.
fn sent(cmds: &Vec<Command<String>>) -> String {
    let mut s = String::new();
    for c in cmds {
        match c {
            Command::Print(t) => s.push_str(t),
            Command::Clear(ClearType::UntilNewLine) => s.push_str("\u{1b}[K"),
            _ => {}
        }
    }
    s
}

fn hints() -> Hints {
    let t = |s: &str| s.to_string();
    Hints {
        nav: t("ctrl+j/k: navigate"),
        scroll: t("ctrl+u/d: scroll"),
        picker_nav: t("ctrl+j/k: navigate"),
        dd_delete: t("dd: delete"),
        dd_pending: t("d: confirm"),
        select: t("enter: select"),
        cancel: t("esc: cancel"),
        close: t("esc: close"),
        send: t("enter: send"),
        confirm: t("enter: confirm"),
        confirm_with_msg: t("tab: message"),
        edit_msg: t("e: edit"),
        add_msg: t("tab: add"),
        back: t("esc: back"),
        kill_proc: t("backspace: kill"),
    }
}

fn vlines(strs: &[&str]) -> Vec<(String, Vec<SpanKind>)> {
    strs.iter()
        .map(|s| (s.to_string(), vec![SpanKind::Plain; s.chars().count()]))
        .collect()
}

#[test]
fn offsets_single_line() {
    let offsets = compute_visual_line_offsets("hello", &vlines(&["hello"]));
    assert_eq!(offsets, vec![0]);
}

#[test]
fn offsets_two_logical_lines() {
    let offsets = compute_visual_line_offsets("aaa\nbbb", &vlines(&["aaa", "bbb"]));
    assert_eq!(offsets, vec![0, 4]);
}

#[test]
fn offsets_three_logical_lines() {
    let offsets = compute_visual_line_offsets("aaa\nbbb\nccc", &vlines(&["aaa", "bbb", "ccc"]));
    assert_eq!(offsets, vec![0, 4, 8]);
}

#[test]
fn offsets_empty_line() {
    let offsets = compute_visual_line_offsets("aaa\n\nccc", &vlines(&["aaa", "", "ccc"]));
    assert_eq!(offsets, vec![0, 4, 5]);
}

#[test]
fn offsets_wrapped_line() {
    let offsets = compute_visual_line_offsets("abcdef", &vlines(&["abc", "def"]));
    assert_eq!(offsets, vec![0, 3]);
}

#[test]
fn offsets_wrapped_multiline() {
    let offsets = compute_visual_line_offsets("abcdef\nxy", &vlines(&["abc", "def", "xy"]));
    assert_eq!(offsets, vec![0, 3, 7]);
}

#[test]
fn offsets_selection_across_wrapped() {
    let offsets = compute_visual_line_offsets("abcdef", &vlines(&["abc", "def"]));
    let sel = (1usize, 5usize);
    let l0_s = sel.0.saturating_sub(offsets[0]);
    let l0_e = sel.1.min(offsets[0] + 3) - offsets[0];
    assert_eq!((l0_s, l0_e), (1, 3));
    let l1_s = sel.0.saturating_sub(offsets[1]);
    let l1_e = sel.1.min(offsets[1] + 3) - offsets[1];
    assert_eq!((l1_s, l1_e), (0, 2));
}

#[test]
fn prompt_cursor_uses_tab_display_width() {
    let kinds = vec![SpanKind::Plain; "a\tb".chars().count()];
    let (_, cursor_line, cursor_col) = wrap_and_locate_cursor("a\tb", &kinds, 3, 80);
    assert_eq!(cursor_line, 0);
    assert_eq!(cursor_col, 8);
}

#[test]
fn prompt_cursor_tracks_multiple_tabs_from_prompt_column() {
    let kinds = vec![SpanKind::Plain; "\t\tb".chars().count()];
    let (_, cursor_line, cursor_col) = wrap_and_locate_cursor("\t\tb", &kinds, 3, 80);
    assert_eq!(cursor_line, 0);
    assert_eq!(cursor_col, 16);
}

#[test]
fn prompt_cursor_uses_wide_char_display_width() {
    let kinds = vec![SpanKind::Plain; "a界b".chars().count()];
    let (_, cursor_line, cursor_col) = wrap_and_locate_cursor("a界b", &kinds, 3, 80);
    assert_eq!(cursor_line, 0);
    assert_eq!(cursor_col, 4);
}

#[test]
fn prompt_tabs_respect_prompt_column_without_forced_wrap() {
    let kinds = vec![SpanKind::Plain; "a\tb".chars().count()];
    let (lines, cursor_line, cursor_col) = wrap_and_locate_cursor("a\tb", &kinds, 3, 8);
    assert_eq!(
        lines.iter().map(|(s, _)| s.as_str()).collect::<Vec<_>>(),
        vec!["a\tb"]
    );
    assert_eq!(cursor_line, 0);
    assert_eq!(cursor_col, 8);
}

const SETTINGS: [&str; 9] = [
    "vim mode",
    "auto compact",
    "show tps",
    "show tokens",
    "show cost",
    "show prediction",
    "show slug",
    "show thinking",
    "restrict to workspace",
];

/// The settings that a query finds.
fn settings(query: &str) -> Completions {
    Completions {
        kind: CompleterKind::Settings,
        results: SETTINGS
            .iter()
            .filter(|s| s.contains(query))
            .map(|s| CompletionItem {
                label: s.to_string(),
                description: Some("off".to_string()),
                ansi_color: None,
            })
            .collect(),
        selected: 0,
        max_visible_rows: SETTINGS.len(),
        is_picker: true,
    }
}

#[test]
fn settings_empty_results_leave_blank_line_before_hints() {
    let comp = Some(settings("zzzzzz"));
    let mut out = RenderOut::buffer();
    let rows = draw_completions(
        &mut out,
        &comp,
        completion_reserved_rows(&comp),
        &hints(),
        80,
        &Theme::default(),
    );
    let rendered = sent(&out.into_commands());
    assert!(rows >= 4);
    assert!(
        rendered.contains("no results")
            && rendered.contains("\r\n\u{1b}[K\r\n")
            && rendered.contains("ctrl+j/k: navigate"),
        "rendered: {rendered:?}"
    );
}

#[test]
fn completion_reserved_rows_is_stable_for_settings_filtering() {
    let rows_before = completion_reserved_rows(&Some(settings("")));
    let rows_after = completion_reserved_rows(&Some(settings("thi")));
    assert_eq!(rows_before, rows_after);
}

#[test]
fn hidden_thinking_keeps_gap_above_summary() {
    let mut history = BlockHistory::new();
    history.push(Block::Text {
        content: "hello".to_string(),
    });
    history.push(Block::Thinking {
        content: "alpha\nbeta".to_string(),
    });

    let mut out = RenderOut::buffer();
    history.render(&mut out, &Assets::load(), 80, false, &env());
    let rendered = sent(&out.into_commands());
    assert!(rendered.contains("hello"));
    assert!(rendered.contains("thinking (2 lines)"));
    assert!(
        rendered.contains("\r\n\u{1b}[K\r\n") || rendered.contains("\n\n"),
        "rendered: {rendered:?}"
    );
}

#[test]
fn export_render_cache_is_empty() {
    let mut screen = Screen::new();
    screen.push(Block::Thinking {
        content: "alpha\nbeta".to_string(),
    });
    screen
        .history
        .render(&mut RenderOut::buffer(), &Assets::load(), 80, true, &env());
    assert!(screen.export_render_cache().is_none());
}
