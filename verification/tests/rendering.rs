//! What is drawn: differences, tables, tools, streams, bars, frames.

use tui::hints::Hints;
use tui::json::Json;
use tui::render::bars::{draw_bar, render_status_spans, BarSpan, StatusSpan};
use tui::render::blocks::render_block;
use tui::render::cache::{build_tool_output_render_cache, session_render_hash, RenderCache};
use tui::render::diff::{
    compute_change_visibility, count_change_rows, count_inline_diff_rows, print_changes,
    print_inline_diff, ChangeTag,
};
use tui::render::highlight::{
    print_pieces, print_split_regions, Assets, BashHighlighter, Highlighter, Piece,
};
use tui::render::history::BlockHistory;
use tui::render::input::{fit_rows, scroll_offset, PromptInput, ScrollBar};
use tui::render::markdown::{render_markdown_inner, MdLook};
use tui::render::model::{
    Block, CachedInlineDiff, ConfirmChoice, Throbber, ToolOutput, ToolOutputRenderCache, ToolStatus,
};
use tui::render::out::{Color, Command, RenderOut, StyleState};
use tui::render::paths::{asked_paths, btw_paths, message_paths, queued_paths};
use tui::render::prompt::{split_rendered, BtwBlock};
use tui::render::screen::{Mode, ReasoningEffort, Screen, Settings, Term};
use tui::render::sections::FramePrompt;
use tui::render::spans::{
    build_char_kinds, build_display_spans, map_cursor, spans_to_string, try_at_ref,
};
use tui::render::stream::{ActiveText, ActiveThinking};
use tui::render::styled::{is_table_separator, pluralize, Env};
use tui::render::table::{render_markdown_table, TableLook};
use tui::render::tools::{
    elapsed_suffix, print_tool_output, render_tool, result_preview, tool_line_rows,
};
use tui::render::working::{Speed, WorkingState};
use tui::render::wrap::SpanKind;
use tui::session::{Message, ToolCall, TurnMeta};
use tui::theme::Theme;

fn t(s: &str) -> String {
    s.to_string()
}

fn env_of(width: usize) -> Env {
    Env {
        theme: Theme::default(),
        term_width: width,
        now_ms: 0,
        paths: vec![t("src/lib.rs")],
        commands: vec![t("/help")],
        files: Vec::new(),
    }
}

fn env() -> Env {
    env_of(80)
}

fn printed(out: &RenderOut) -> String {
    let mut s = String::new();
    for c in out.commands() {
        if let Command::Print(p) = c {
            s.push_str(p);
        }
    }
    s
}

fn lines_of(out: &RenderOut) -> Vec<String> {
    printed(out).split("\r\n").map(t).collect()
}

// ── Differences ──────────────────────────────────────────────────────────

#[test]
fn changes_are_visible_with_their_context() {
    let mut v = vec![(ChangeTag::Equal, t("x\n")); 5];
    v.push((ChangeTag::Insert, t("new\n")));
    v.push((ChangeTag::Equal, t("y\n")));
    assert_eq!(
        compute_change_visibility(&v, 2),
        vec![false, false, false, true, true, true, true]
    );
    assert_eq!(compute_change_visibility(&vec![], 2), Vec::<bool>::new());
}

#[test]
fn differences_take_the_rows_that_are_counted() {
    let assets = Assets::load();
    let old = "fn a() {\n    let long = \"aaaaaaaaaaaaaaaaaaaaaaaaaaaaaaaaaaaaaaaaaa\";\n}\n";
    let new = "fn a() {\n    let long = \"bbbbbbbbbbbbbbbbbbbbbbbbbbbbbbbbbbbbbbbbbb界\";\n    more();\n}\n";
    for width in [20, 40, 80] {
        let e = env_of(width);
        let mut out = RenderOut::buffer();
        let rows = print_inline_diff(&mut out, &assets, &e, old, new, "a.rs", "", 0, 1000);
        assert_eq!(rows, count_inline_diff_rows(&e, old, new, "a.rs", ""));
        assert_eq!(rows as usize, lines_of(&out).len() - 1);
        let all = lines_of(&out);
        for skip in 0..rows {
            for max in 1..=rows {
                let mut out = RenderOut::buffer();
                let got =
                    print_inline_diff(&mut out, &assets, &e, old, new, "a.rs", "", skip, max);
                assert_eq!(got, max.min(rows - skip));
                let part = lines_of(&out);
                assert_eq!(part[..got as usize], all[skip as usize..(skip + got) as usize]);
            }
        }
    }
}

#[test]
fn differences_show_both_sides() {
    let mut out = RenderOut::buffer();
    print_inline_diff(&mut out, &Assets::load(), &env(), "one\n", "two\n", "a.txt", "", 0, 0);
    let s = printed(&out);
    assert!(s.contains("one") && s.contains("two"), "{s}");
    let red = out
        .commands()
        .iter()
        .any(|c| matches!(c, Command::SetBackgroundColor(_)));
    assert!(red);
}

#[test]
fn given_changes_are_printed_and_counted() {
    let changes = vec![
        (ChangeTag::Equal, t("a\n")),
        (ChangeTag::Delete, t("b\n")),
        (ChangeTag::Insert, t("cccccccccccc\n")),
    ];
    let file = "a\ncccccccccccc\n";
    for (width, want) in [(80, 3), (21, 4)] {
        assert_eq!(count_change_rows(file, &changes, "a", file, width), want);
        let mut out = RenderOut::buffer();
        let rows = print_changes(
            &mut out,
            &Assets::load(),
            file,
            &changes,
            "a",
            "txt",
            file,
            0,
            0,
            width,
        );
        assert_eq!(rows, want);
        let s = printed(&out);
        assert!(s.contains("- ") && s.contains("+ "), "{s}");
    }
}

#[test]
fn pieces_are_printed_in_their_colours() {
    let rgb = |r: u8, g: u8, b: u8| Color::Rgb { r, g, b };
    let mut out = RenderOut::buffer();
    print_pieces(
        &mut out,
        &vec![(1, 2, 3, t("let")), (4, 5, 6, t(" x\n")), (7, 8, 9, t("\n"))],
    );
    assert_eq!(
        out.into_commands(),
        vec![
            Command::SetForegroundColor(rgb(1, 2, 3)),
            Command::Print(t("let")),
            Command::SetForegroundColor(rgb(4, 5, 6)),
            Command::Print(t(" x")),
            Command::ResetColor,
        ]
    );
    let mut out = RenderOut::buffer();
    let row = vec![Piece {
        color: Color::Red,
        text: t("a界"),
    }];
    assert_eq!(print_split_regions(&mut out, &row, Some(Color::Black)), 3);
    assert_eq!(
        out.into_commands(),
        vec![
            Command::SetBackgroundColor(Color::Black),
            Command::SetForegroundColor(Color::Red),
            Command::Print(t("a界")),
            Command::ResetColor,
        ]
    );
    let assets = Assets::load();
    let mut h = BashHighlighter::new(&assets);
    h.advance("cat <<EOF");
    let mut out = RenderOut::buffer();
    h.print_line(&mut out, "if true");
    assert_eq!(printed(&out), "if true");
}

#[test]
fn code_is_coloured() {
    let assets = Assets::load();
    let mut h = Highlighter::new(&assets, "rs", None);
    let ps = h.feed("let x = 1; // one");
    let text: Vec<String> = ps.iter().map(|p| p.3.clone()).collect();
    assert_eq!(text.concat(), "let x = 1; // one\n");
    assert!(ps.len() > 2);
    assert!(ps.iter().any(|p| (p.0, p.1, p.2) != (ps[0].0, ps[0].1, ps[0].2)));
    let mut plain = Highlighter::new(&assets, "no such extension", None);
    let ps = plain.feed("let x = 1;");
    assert_eq!(ps.len(), 1);
}

// ── Tables ───────────────────────────────────────────────────────────────

#[test]
fn tables_fit() {
    let row = |a: &str, b: &str| vec![t(a), t(b)];
    let rows = vec![
        row("Name", "What it does"),
        row("wrap", "breaks **lines** so that they fit the terminal"),
        row("界", "x"),
    ];
    let look = TableLook {
        dim: false,
        boxed: None,
        indent: " ",
        bar: Color::DarkGrey,
        accent: Color::Green,
    };
    for width in [30usize, 40, 80] {
        let mut out = RenderOut::buffer();
        let n = render_markdown_table(&mut out, &rows, width, &look);
        let ls = lines_of(&out);
        assert_eq!(n as usize, ls.len() - 1);
        for l in &ls {
            let cols: usize = l.chars().map(|c| if c == '界' { 2 } else { 1 }).sum();
            assert!(cols <= width, "{l:?} at {width}");
        }
    }
    let mut out = RenderOut::buffer();
    assert_eq!(render_markdown_table(&mut out, &vec![], 80, &look), 0);
    assert!(is_table_separator("|---|:--:|"));
    assert!(!is_table_separator("| a | b |"));
}

#[test]
fn markdown_is_rendered() {
    let look = MdLook {
        width: 40,
        term_width: 40,
        indent: "",
        dim: false,
        boxed: None,
        theme: Theme::default(),
    };
    let mut out = RenderOut::buffer();
    let n = render_markdown_inner(
        &mut out,
        &Assets::load(),
        "# Head\n\n| a | b |\n|---|---|\n| 1 | 2 |\n\n```rs\nlet x = 1;\n```\n\n---\n**bold** text",
        &look,
    );
    let s = printed(&out);
    assert_eq!(n as usize, s.matches("\r\n").count());
    assert!(s.contains("bold text") && s.contains("let x") && !s.contains("```"), "{s}");
}

#[test]
fn headings_and_lists_have_no_gap() {
    let shown = |content: &str| {
        let look = MdLook {
            width: 40,
            term_width: 40,
            indent: "",
            dim: false,
            boxed: None,
            theme: Theme::default(),
        };
        let mut out = RenderOut::buffer();
        let n = render_markdown_inner(&mut out, &Assets::load(), content, &look);
        (n, out.into_commands())
    };
    assert_eq!(shown("# Head\n\n\ntext"), shown("# Head\ntext"));
    assert_eq!(shown("# Head\n\n```\nx\n```"), shown("# Head\n```\nx\n```"));
    assert_eq!(shown("text\n\n- item"), shown("text\n- item"));
    assert_ne!(shown("text\n\nmore"), shown("text\nmore"));
}

// ── Tools ────────────────────────────────────────────────────────────────

#[test]
fn tool_lines_have_their_height() {
    let assets = Assets::load();
    let summary = "a rather long summary of what the tool is about to do, which goes on and on";
    for width in [20, 40, 80, 120] {
        let mut out = RenderOut::buffer();
        let n = render_tool(
            &mut out,
            &assets,
            "read_file",
            summary,
            &vec![],
            ToolStatus::Success,
            None,
            &None,
            &None,
            width,
            &env_of(width),
        );
        assert_eq!(n, tool_line_rows("read_file", summary, width));
        assert_eq!(n as usize, printed(&out).matches("\r\n").count());
    }
}

fn output(content: &str, is_error: bool) -> ToolOutput {
    ToolOutput {
        content: t(content),
        is_error,
        notebook: None,
        render_cache: None,
    }
}

#[test]
fn outputs_are_shown() {
    let show = |name: &str, o: &ToolOutput, args: &Vec<(String, Json)>| {
        let mut out = RenderOut::buffer();
        let n = print_tool_output(&mut out, &Assets::load(), name, o, args, 80, &env());
        assert_eq!(n as usize, printed(&out).matches("\r\n").count());
        printed(&out)
    };
    let many: Vec<String> = (0..30).map(|i| format!("line {i}")).collect();
    let s = show("bash", &output(&many.join("\n"), false), &vec![]);
    assert!(s.contains("line 29") && s.contains("above"), "{s}");
    let edit = vec![
        (t("old_string"), Json::Str(t("one"))),
        (t("new_string"), Json::Str(t("two"))),
        (t("file_path"), Json::Str(t("a.txt"))),
    ];
    let s = show("edit_file", &output("ok", false), &edit);
    assert!(s.contains("one") && s.contains("two"), "{s}");
    let s = show("edit_file", &output("no such file", true), &edit);
    assert!(s.contains("no such file"), "{s}");
    let s = show("ask_user_question", &output("{\"Why?\":[\"a\",\"b\"]}", false), &vec![]);
    assert!(s.contains("Why?") && s.contains("a, b"), "{s}");
    let content = "{\"A?\":\"yes\",\"B?\":5,\"C?\":{\"x\":[1]},\"D?\":[\"a\",2,\"c\"],\"E?\":null}";
    let s = show("ask_user_question", &output(content, false), &vec![]);
    for line in ["A? yes", "B? 5", "C? {\"x\":[1]}", "D? a, c", "E? null"] {
        assert!(s.contains(line), "{s}");
    }
    let s = show("ask_user_question", &output("[\"no object\"]", false), &vec![]);
    assert!(s.contains("[\"no object\"]"), "{s}");
}

#[test]
fn small_texts() {
    assert_eq!(elapsed_suffix(None), "");
    assert_eq!(elapsed_suffix(Some(0)), "");
    assert_eq!(elapsed_suffix(Some(61_000)), "  1m 1s");
    assert_eq!(result_preview("a\nb\nc", 2), "a | b ... (3 lines)");
    assert_eq!(result_preview("a\nb", 2), "a | b");
    assert_eq!(pluralize(1, "line", "lines"), "1 line");
    assert_eq!(pluralize(2, "line", "lines"), "2 lines");
}

// ── Caches ───────────────────────────────────────────────────────────────

#[test]
fn caches_are_packed_and_unpacked() {
    let payload: Vec<u8> = (0..2000u32).map(|i| (i % 7) as u8).collect();
    let packed = RenderCache::serialize(&payload);
    assert_eq!(packed[..4], *b"RCi1");
    assert!(packed.len() < payload.len());
    assert_eq!(RenderCache::deserialize(&packed), Some(payload));
    assert_eq!(RenderCache::deserialize(&vec![]), None);
    assert_eq!(RenderCache::deserialize(&b"XXXX1234".to_vec()), None);
    assert_eq!(RenderCache::deserialize(&b"RCi1\xff\xff\xff".to_vec()), None);
}

fn answered(id: &str) -> Message {
    Message {
        role: t("assistant"),
        content: None,
        tool_calls: Some(vec![ToolCall {
            id: t(id),
            name: t("bash"),
            arguments: t("{}"),
        }]),
        tool_call_id: None,
    }
}

fn small_diff() -> ToolOutputRenderCache {
    ToolOutputRenderCache::InlineDiff(CachedInlineDiff {
        commands: vec![Command::Print(t("kept"))],
        rows: 1,
    })
}

#[test]
fn caches_keep_what_is_in_the_history() {
    let mut c = RenderCache::new(t("hash"));
    assert!(c.is_compatible("hash"));
    assert!(!c.is_compatible("other"));
    c.insert_tool_output(t("a"), small_diff());
    c.insert_tool_output(t("b"), small_diff());
    c.insert_tool_output(t("a"), small_diff());
    assert_eq!(c.tool_outputs.len(), 2);
    assert!(c.is_wf());
    assert!(c.get_tool_output("a").is_some());
    assert!(c.get_tool_output("z").is_none());
    c.retain_history(&vec![answered("b")]);
    assert!(c.get_tool_output("a").is_none());
    assert!(c.get_tool_output("b").is_some());
    c.tool_outputs.push((t("b"), small_diff()));
    assert!(!c.is_wf());
    let a: Vec<u8> = vec![1];
    let b: Vec<u8> = vec![2];
    assert_ne!(
        session_render_hash(Some(&a), Some(&b)),
        session_render_hash(Some(&b), Some(&a))
    );
    assert_eq!(
        session_render_hash(Some(&a), None),
        session_render_hash(Some(&a), None)
    );
}

#[test]
fn edits_are_cached_and_replayed() {
    let assets = Assets::load();
    let edit = vec![
        (t("old_string"), Json::Str(t("one"))),
        (t("new_string"), Json::Str(t("two"))),
        (t("file_path"), Json::Str(t("a.txt"))),
    ];
    assert!(build_tool_output_render_cache("bash", &edit, false, None, &assets, &env()).is_none());
    assert!(
        build_tool_output_render_cache("edit_file", &edit, true, None, &assets, &env()).is_none()
    );
    let cache = build_tool_output_render_cache("edit_file", &edit, false, None, &assets, &env());
    assert!(cache.is_some());
    let mut fresh = RenderOut::buffer();
    let n = print_tool_output(&mut fresh, &assets, "edit_file", &output("ok", false), &edit, 80, &env());
    let mut o = output("ok", false);
    o.render_cache = cache;
    let mut replayed = RenderOut::buffer();
    let m = print_tool_output(&mut replayed, &assets, "edit_file", &o, &edit, 80, &env());
    assert_eq!(n, m);
    assert_eq!(printed(&fresh), printed(&replayed));
    let mut out = RenderOut::buffer();
    o.render_cache = Some(small_diff());
    print_tool_output(&mut out, &assets, "edit_file", &o, &edit, 80, &env());
    assert!(printed(&out).contains("kept"));
}

// ── Streams ──────────────────────────────────────────────────────────────

fn words(b: &Block) -> String {
    match b {
        Block::Text { content } => format!("text:{content}"),
        Block::CodeLine { content, lang } => format!("code[{lang}]:{content}"),
        Block::Thinking { content } => format!("thinking:{content}"),
        _ => t("other"),
    }
}

fn streamed(pieces: &[&str]) -> Vec<String> {
    let mut h = BlockHistory::new();
    let mut a = ActiveText::new();
    for p in pieces {
        a.feed(&mut h, p);
    }
    a.finish(&mut h);
    h.blocks.iter().map(words).collect()
}

#[test]
fn pieces_of_a_stream_do_not_matter() {
    let whole = "First *line*\r\nsecond\n\n```rs\nlet x;\n```\n| a | b |\n|--|--|\n| 1 | 2 |\nend";
    let at_once = streamed(&[whole]);
    let each: Vec<String> = whole.chars().map(|c| c.to_string()).collect();
    let one_by_one: Vec<&str> = each.iter().map(|s| s.as_str()).collect();
    assert_eq!(streamed(&one_by_one), at_once);
    assert_eq!(
        at_once,
        vec![
            "text:First *line*\nsecond",
            "code[rs]:let x;",
            "text:| a | b |\n|--|--|\n| 1 | 2 |",
            "text:end",
        ]
    );
    let without: String = whole.replace('\r', "");
    assert_eq!(streamed(&[&without]), at_once);
}

#[test]
fn thoughts_are_kept_in_paragraphs() {
    let think = |pieces: &[&str]| {
        let mut h = BlockHistory::new();
        let mut a = ActiveThinking::new();
        for p in pieces {
            a.feed(&mut h, p);
        }
        a.finish(&mut h);
        h.blocks.iter().map(words).collect::<Vec<_>>()
    };
    let a = think(&["one\ntwo\n\nthree"]);
    assert_eq!(a, think(&["o", "ne\nt", "wo\n", "\nthr", "ee"]));
    assert_eq!(a.concat().replace("thinking:", "").replace('\n', ""), "onetwothree");
}

// ── History ──────────────────────────────────────────────────────────────

fn text(s: &str) -> Block {
    Block::Text { content: t(s) }
}

#[test]
fn frames_do_not_matter() {
    let assets = Assets::load();
    let mut one = BlockHistory::new();
    one.push(text("first"));
    one.push(Block::Hint { content: t("hint") });
    let mut a = RenderOut::scroll();
    let whole = one.render(&mut a, &assets, 80, true, &env());
    let mut two = BlockHistory::new();
    let mut b = RenderOut::scroll();
    two.push(text("first"));
    let first = two.render(&mut b, &assets, 80, true, &env());
    two.push(Block::Hint { content: t("hint") });
    let second = two.render(&mut b, &assets, 80, true, &env());
    assert_eq!(whole, first + second);
    assert_eq!(a.into_commands(), b.into_commands());
}

#[test]
fn redraw_starts_where_the_rest_fits() {
    let assets = Assets::load();
    let mut h = BlockHistory::new();
    for i in 0..10 {
        h.push(text(&format!("block {i}")));
    }
    let mut out = RenderOut::scroll();
    let rows = h.render(&mut out, &assets, 80, true, &env());
    assert_eq!(h.redraw_start(rows, true), 0);
    let from = h.redraw_start(6, true);
    assert!(from > 0 && from < 10);
    h.truncate(4);
    assert_eq!(h.blocks.len(), 4);
    assert!(!h.has_unflushed());
    h.push(text("new"));
    assert!(h.has_unflushed());
    h.clear();
    assert_eq!(h.blocks.len(), 0);
}

#[test]
fn rows_of_blocks_are_counted() {
    let blocks = vec![
        text("one two three four five six seven eight nine ten eleven twelve"),
        Block::User {
            text: t("look at @src/lib.rs\nand go"),
            image_labels: vec![],
        },
        Block::Confirm {
            tool: t("bash"),
            desc: t("ls"),
            choice: Some(ConfirmChoice::No),
        },
        Block::Exec {
            command: t("ls"),
            output: t("a\nb"),
        },
        Block::Compacted {
            summary: t("short"),
        },
        Block::AgentMessage {
            from_id: t("cedar"),
            from_slug: t("tidy"),
            content: t("done"),
        },
        Block::CodeLine {
            content: t("let x;"),
            lang: t("rs"),
        },
    ];
    let assets = Assets::load();
    for b in &blocks {
        for width in [20, 40, 80] {
            let mut out = RenderOut::buffer();
            let n = render_block(&mut out, &assets, b, width, true, &env_of(width));
            assert_eq!(n as usize, printed(&out).matches("\r\n").count(), "{}", words(b));
        }
    }
}

// ── The working line ─────────────────────────────────────────────────────

fn turn(elapsed_ms: u64, tps: Option<f64>, interrupted: bool) -> TurnMeta {
    TurnMeta {
        elapsed_ms,
        avg_tps: tps.map(f64::to_bits),
        interrupted,
        tool_elapsed: vec![],
        agent_blocks: vec![],
    }
}

fn numbers(w: &WorkingState, now: u64) -> Option<(u64, Option<f64>, bool)> {
    w.turn_meta(now)
        .map(|m| (m.elapsed_ms, m.avg_tps.map(f64::from_bits), m.interrupted))
}

#[test]
fn pauses_do_not_count() {
    let mut w = WorkingState::new();
    w.set_throbber(Throbber::Working, 1_000);
    assert_eq!(w.elapsed(3_000), Some(2_000));
    w.pause(3_000);
    assert!(w.is_paused());
    assert_eq!(w.elapsed(9_000), Some(2_000));
    w.resume(10_000);
    assert_eq!(w.elapsed(11_000), Some(3_000));
    w.set_throbber(Throbber::Done, 12_000);
    assert_eq!(numbers(&w, 99_000), Some((4_000, None, false)));
    w.clear();
    assert!(w.turn_meta(0).is_none());
}

#[test]
fn turns_are_restored() {
    let mut w = WorkingState::new();
    assert!(w.turn_meta(0).is_none());
    w.set_tps(Some(Speed {
        bits: 3.5f64.to_bits(),
        words: t("3.5 tok/s"),
    }));
    w.restore_from_turn_meta(&turn(65_000, Some(12.0), true), t("12.0 tok/s"));
    assert_eq!(numbers(&w, 0), Some((65_000, Some(12.0), true)));
    let spans = w.throbber_spans(true, 0);
    let s: Vec<String> = spans.iter().map(|s| s.text.clone()).collect();
    assert_eq!(s, vec![" interrupted"]);
    w.restore_from_turn_meta(&turn(1, None, false), t("unused"));
    assert_eq!(numbers(&w, 0), Some((1, None, false)));
    w.restore_from_turn_meta(&turn(65_000, Some(12.0), false), t("12.0 tok/s"));
    assert_eq!(numbers(&w, 0), Some((65_000, Some(12.0), false)));
    let s: Vec<String> = w.throbber_spans(true, 0).iter().map(|s| s.text.clone()).collect();
    assert_eq!(s.concat(), " done 1m 5s · 12.0 tok/s");
    let mut w = WorkingState::new();
    w.set_throbber(
        Throbber::Retrying {
            delay: 5_000,
            attempt: 2,
        },
        0,
    );
    let s: Vec<String> = w.throbber_spans(false, 0).iter().map(|s| s.text.clone()).collect();
    assert!(s.concat().contains("5s") && s.concat().contains('2'), "{s:?}");
    assert!(w.advance_spinner(1_000));
    assert!(!w.advance_spinner(1_000));
    assert!(w.spinner_char(0).is_some());
}

// ── Bars ─────────────────────────────────────────────────────────────────

fn span(text: &str, priority: u8) -> BarSpan<String> {
    BarSpan {
        text: t(text),
        color: Color::Red,
        bg: None,
        bold: false,
        dim: false,
        priority,
    }
}

#[test]
fn bars_fit() {
    let left = || vec![span(" name ", 0), span("of the model ", 2)];
    let right = || vec![span(" 12k ", 1)];
    for width in [10usize, 20, 31, 60] {
        let mut out = RenderOut::buffer();
        draw_bar(&mut out, width, Some(&left()), Some(&right()), Color::DarkGrey);
        let s = printed(&out);
        assert_eq!(s.chars().count(), width, "{s:?}");
        assert!(s.contains("name"));
        if width >= 31 {
            assert!(s.contains("of the model") && s.contains("12k"));
        }
    }
    let mut out = RenderOut::buffer();
    draw_bar(&mut out, 5, None, None, Color::DarkGrey);
    assert_eq!(printed(&out), "─────");
}

#[test]
fn status_spans_fit() {
    let make = || {
        let s = |text: &str, priority: u8, truncatable: bool| StatusSpan {
            text: t(text),
            style: StyleState::default(),
            priority,
            group: true,
            truncatable,
        };
        vec![
            s("normal", 0, false),
            s("a long label of the task", 1, true),
            s("3 procs", 2, false),
        ]
    };
    for width in [8usize, 20, 30, 80] {
        let mut out = RenderOut::buffer();
        render_status_spans(&mut out, &mut make(), width, Color::Black);
        let s = printed(&out);
        assert!(s.chars().count() <= width, "{s:?}");
        assert!(s.contains("normal"));
        assert_eq!(width >= 80, s.contains("3 procs"), "{s:?}");
    }
}

#[test]
fn the_highest_priority_is_dropped_first() {
    let left = vec![span("zero ", 0), span("two ", 2), span("one ", 1)];
    let shown = |width: usize| {
        let mut out = RenderOut::buffer();
        draw_bar(&mut out, width, Some(&left), None, Color::DarkGrey);
        let s = printed(&out);
        (s.contains("zero"), s.contains("one"), s.contains("two"))
    };
    assert_eq!(shown(40), (true, true, true));
    assert_eq!(shown(17), (true, true, false));
    assert_eq!(shown(11), (true, false, false));
    assert_eq!(shown(1), (true, false, false));
}

// ── The prompt ───────────────────────────────────────────────────────────

#[test]
fn paths_are_found() {
    let env = env();
    let chars: Vec<char> = "see @src/lib.rs, now".chars().collect();
    assert_eq!(
        try_at_ref(&chars, 4, &env.paths),
        Some((t("@src/lib.rs"), 15))
    );
    assert_eq!(try_at_ref(&chars, 0, &env.paths), None);
    let spans = build_display_spans("see @src/lib.rs", &vec![], &env.paths);
    assert_eq!(spans_to_string(&spans), "see @src/lib.rs");
    let kinds = build_char_kinds(&spans);
    assert_eq!(kinds.len(), 15);
    assert_eq!(kinds[3], SpanKind::Plain);
    assert_eq!(kinds[4], SpanKind::AtRef);
    assert_eq!(map_cursor(7, &spans), 7);
}

#[test]
fn paths_are_asked_for() {
    assert_eq!(asked_paths("see @a/b.rs, (@c) x@d @\"e f\" @"), vec![
        "a/b.rs,", "a/b.rs", "c)", "c", "e f"
    ]);
    assert!(asked_paths("").is_empty());
    assert_eq!(message_paths("  \n@abcdef gh\n\n@x", 6), vec!["abc", "x"]);
    assert_eq!(queued_paths("@abc", 80), vec!["abc"]);
    assert_eq!(btw_paths("@abc", 9), vec!["ab"]);
}

#[test]
fn only_paths_that_are_asked_for_matter() {
    let msg = Block::User {
        text: t("see @src/lib.rs, and @none"),
        image_labels: vec![],
    };
    let shown = |paths: Vec<String>| {
        let e = Env { paths, ..env_of(80) };
        let mut out = RenderOut::buffer();
        render_block(&mut out, &Assets::load(), &msg, 80, true, &e);
        out.into_commands()
    };
    let asked = message_paths("see @src/lib.rs, and @none", 80);
    assert!(asked.contains(&t("src/lib.rs")));
    assert_eq!(shown(vec![t("other")]), shown(vec![]));
    assert_ne!(shown(vec![t("src/lib.rs")]), shown(vec![]));
}

#[test]
fn attachments_are_shown_by_their_label() {
    let spans = build_display_spans("a\u{FFFC}b", &vec![t("[image.png]")], &vec![]);
    assert_eq!(spans_to_string(&spans), "a[image.png]b");
    let kinds = build_char_kinds(&spans);
    assert_eq!(kinds[1], SpanKind::Attachment);
    assert_eq!(map_cursor(0, &spans), 0);
    assert_eq!(map_cursor(2, &spans), 12);
}

#[test]
fn the_view_follows_the_cursor() {
    assert_eq!(fit_rows(24, 4, 6), (6, 14));
    assert_eq!(fit_rows(5, 4, 6), (0, 1));
    assert_eq!(scroll_offset(0, 9, 4, 10), 6);
    assert_eq!(scroll_offset(6, 7, 4, 10), 6);
    assert_eq!(scroll_offset(6, 2, 4, 10), 2);
}

fn hints() -> Hints {
    let t = |s: &str| s.to_string();
    Hints {
        nav: t("nav"),
        scroll: t("scroll"),
        picker_nav: t("pick"),
        dd_delete: t("dd: delete"),
        dd_pending: t("d: confirm"),
        select: t("select"),
        cancel: t("cancel"),
        close: t("close"),
        send: t("send"),
        confirm: t("confirm"),
        confirm_with_msg: t("message"),
        edit_msg: t("edit"),
        add_msg: t("add"),
        back: t("back"),
        kill_proc: t("kill"),
    }
}

fn input(buf: &str) -> PromptInput {
    PromptInput {
        buf: t(buf),
        labels: vec![],
        cursor: buf.len(),
        selection: None,
        vim_enabled: false,
        vim_mode: None,
        stashed: false,
        command_hint: None,
        menu: None,
        menu_rows: 0,
        completions: None,
    }
}

/// A terminal that shows what it was sent.
struct Grid {
    rows: Vec<Vec<char>>,
    x: usize,
    y: usize,
}

impl Grid {
    fn new(height: usize) -> Grid {
        Grid {
            rows: vec![vec![]; height],
            x: 0,
            y: 0,
        }
    }

    fn scroll(&mut self) {
        self.rows.remove(0);
        self.rows.push(vec![]);
    }

    fn put(&mut self, c: char) {
        match c {
            '\r' => self.x = 0,
            '\n' => {
                if self.y + 1 == self.rows.len() {
                    self.scroll();
                } else {
                    self.y += 1;
                }
            }
            _ => {
                let row = &mut self.rows[self.y];
                while row.len() <= self.x {
                    row.push(' ');
                }
                row[self.x] = c;
                self.x += 1;
            }
        }
    }

    fn run(&mut self, cmds: &Vec<Command<String>>) {
        for c in cmds {
            match c {
                Command::Print(s) => {
                    for ch in s.chars() {
                        self.put(ch);
                    }
                }
                Command::MoveTo(x, y) => {
                    self.x = *x as usize;
                    self.y = *y as usize;
                }
                Command::MoveToColumn(x) => self.x = *x as usize,
                Command::ScrollUp(n) => {
                    for _ in 0..*n {
                        self.scroll();
                    }
                }
                Command::Clear(k) => match format!("{k:?}").as_str() {
                    "UntilNewLine" => {
                        let x = self.x;
                        self.rows[self.y].truncate(x)
                    }
                    "CurrentLine" => self.rows[self.y].clear(),
                    "FromCursorDown" => {
                        let x = self.x;
                        self.rows[self.y].truncate(x);
                        for y in self.y + 1..self.rows.len() {
                            self.rows[y].clear();
                        }
                    }
                    _ => {
                        for r in &mut self.rows {
                            r.clear();
                        }
                    }
                },
                _ => {}
            }
        }
    }

    fn text(&self) -> Vec<String> {
        self.rows
            .iter()
            .map(|r| r.iter().collect::<String>().trim_end().to_string())
            .collect()
    }
}

fn draw(screen: &mut Screen, grid: &mut Grid, buf: &str) {
    let mut out = RenderOut::scroll();
    let state = input(buf);
    let queued = vec![];
    let hints = hints();
    let prompt = FramePrompt {
        state: &state,
        mode: Mode::Normal,
        queued: &queued,
        prediction: None,
        tokens: "12k",
        percent: 6,
        cost: None,
        hints: &hints,
        bar: ScrollBar {
            thumb: Color::White,
            track: Color::Black,
        },
    };
    let term = Term {
        width: 40,
        height: grid.rows.len() as u16,
        cursor_y: grid.y as u16,
    };
    screen.draw_frame(&mut out, &Assets::load(), 40, Some(&prompt), &term, &env_of(40));
    grid.run(out.commands());
}

#[test]
fn frames_show_blocks_and_prompt() {
    let mut screen = Screen::new();
    let mut grid = Grid::new(14);
    screen.apply_settings(Settings {
        show_tps: true,
        show_tokens: true,
        show_cost: true,
        show_slug: true,
        show_thinking: true,
    });
    screen.set_model_label(t("model-x"));
    screen.set_reasoning_effort(ReasoningEffort::High);
    screen.push(Block::User {
        text: t("hello"),
        image_labels: vec![],
    });
    screen.push(text("an answer"));
    draw(&mut screen, &mut grid, "typing here");
    let s = grid.text().join("\n");
    assert!(s.contains("hello") && s.contains("an answer") && s.contains("typing here"), "{s}");
    assert!(s.contains("model-x"), "{s}");
    assert!(!screen.is_dirty());
    assert_eq!(screen.user_turns(), vec![(0, t("hello"))]);
    for i in 0..8 {
        screen.push(text(&format!("more {i}")));
        draw(&mut screen, &mut grid, "typing on");
        let s = grid.text().join("\n");
        assert_eq!(s.matches("typing on").count(), 1, "{s}");
        assert!(s.contains(&format!("more {i}")), "{s}");
        assert!(grid.text()[grid.y].contains("typing on"), "{s}");
    }
}

#[test]
fn streams_are_shown_while_they_run() {
    let mut screen = Screen::new();
    let mut grid = Grid::new(20);
    screen.append_streaming_text("Some **text** that");
    draw(&mut screen, &mut grid, "x");
    assert!(grid.text().join("\n").contains("Some text that"));
    screen.append_streaming_text(" goes on\n");
    screen.flush_streaming_text();
    draw(&mut screen, &mut grid, "x");
    let s = grid.text().join("\n");
    assert_eq!(s.matches("Some text that goes on").count(), 1, "{s}");
    assert_eq!(screen.block_count(), 1);
}

#[test]
fn tools_run_and_end() {
    let mut screen = Screen::new();
    let mut grid = Grid::new(20);
    screen.start_tool(t("c1"), t("bash"), t("ls"), vec![], 0);
    screen.append_active_output("c1", "out 1\nout 2\n");
    draw(&mut screen, &mut grid, "x");
    let s = grid.text().join("\n");
    assert!(s.contains("ls") && s.contains("out 2"), "{s}");
    let term = Term {
        width: 40,
        height: 20,
        cursor_y: 0,
    };
    let assets = Assets::load();
    let rows = screen.active_tool_rows(&assets, &term, &env_of(40));
    assert_eq!(rows, 3);
    assert!(screen.tool_overlay_fits_with_dialog(10, &assets, &term, &env_of(40)));
    assert!(!screen.tool_overlay_fits_with_dialog(18, &assets, &term, &env_of(40)));
    screen.finish_tool("c1", ToolStatus::Success, Some(output("done", false)), Some(2_000), 5_000);
    assert_eq!(screen.block_count(), 1);
    match &screen.blocks()[0] {
        Block::ToolCall { elapsed, status, .. } => {
            assert_eq!(*elapsed, Some(2_000));
            assert_eq!(*status, ToolStatus::Success);
        }
        _ => panic!("no tool call"),
    }
}

#[test]
fn status_line_shows_the_turn() {
    let mut screen = Screen::new();
    screen.set_throbber(Throbber::Working, 0);
    screen.set_task_label(t("tidy"));
    screen.set_running_procs(2);
    let mut out = RenderOut::buffer();
    screen.render_status_line(&mut out, 80, &Theme::default(), 5_000);
    let s = printed(&out);
    assert!(s.contains("tidy") && s.contains("5s") && s.contains("2 procs"), "{s}");
    screen.clear_task_label();
    let mut out = RenderOut::buffer();
    screen.render_status_line(&mut out, 80, &Theme::default(), 5_000);
    let s = printed(&out);
    assert!(s.contains("working") && !s.contains("tidy"), "{s}");
}

#[test]
fn rendered_lines_are_split() {
    let mut out = RenderOut::buffer();
    out.print("a");
    tui::render::out::crlf(&mut out);
    out.print("b");
    tui::render::out::crlf(&mut out);
    let ls = split_rendered(out.commands());
    assert_eq!(ls.len(), 2);
    assert_eq!(
        ls[0],
        vec![
            Command::Print(t("a")),
            Command::Clear(tui::render::out::ClearType::UntilNewLine)
        ]
    );
    assert_eq!(ls[1][0], Command::Print(t("b")));
    let mut b = BtwBlock::new(t("why?"), vec![]);
    assert!(!b.scroll(1, 24));
    b.answer(t("because"));
    assert_eq!(b.response, Some(t("because")));
}
