//! Rows of blocks, and the gaps between them.

use tui::render::blocks::{gap_between, render_block, Element};
use tui::render::highlight::Assets;
use tui::render::model::{Block, ToolStatus};
use tui::render::out::RenderOut;
use tui::render::styled::{is_horizontal_rule, Env};
use tui::theme::Theme;

const W: usize = 80;

fn env() -> Env {
    Env {
        theme: Theme::default(),
        term_width: 80,
        now_ms: 0,
        paths: Vec::new(),
        commands: Vec::new(),
        files: Vec::new(),
    }
}

fn text(s: &str) -> Block {
    Block::Text {
        content: s.to_string(),
    }
}

fn user(s: &str) -> Block {
    Block::User {
        text: s.to_string(),
        image_labels: vec![],
    }
}

fn thinking(s: &str) -> Block {
    Block::Thinking {
        content: s.to_string(),
    }
}

fn tool_call() -> Block {
    Block::ToolCall {
        call_id: "call-1".to_string(),
        name: "bash".to_string(),
        summary: "ls".to_string(),
        args: Vec::new(),
        status: ToolStatus::Pending,
        elapsed: None,
        output: None,
        user_message: None,
    }
}

fn rendered_rows(out: &mut RenderOut, block: &Block) -> u16 {
    render_block(out, &Assets::load(), block, W, true, &env())
}

fn block_rows(block: &Block) -> u16 {
    let mut out = RenderOut::buffer();
    rendered_rows(&mut out, block)
}

/// Rows between the last block and a tool that runs.
fn tool_gap_for(blocks: &[Block]) -> u16 {
    blocks
        .last()
        .map(|b| gap_between(&Element::Block(b), &Element::ActiveTool))
        .unwrap_or(0)
}

fn rows_of_all(blocks: &[Block]) -> u16 {
    let mut out = RenderOut::buffer();
    let mut total = 0u16;
    for i in 0..blocks.len() {
        let gap = if i > 0 {
            gap_between(&Element::Block(&blocks[i - 1]), &Element::Block(&blocks[i]))
        } else {
            0
        };
        total += gap + rendered_rows(&mut out, &blocks[i]);
    }
    total
}

/// All blocks are put out in one pass, and the tool comes behind them.
fn render_all_at_once(blocks: &[Block]) -> (u16, u16, u16) {
    let total = rows_of_all(blocks);
    let tg = tool_gap_for(blocks);
    (total, tg, total + tg)
}

/// The blocks are put out first, and the tool in a frame of its own.
fn render_split(blocks: &[Block]) -> (u16, u16, u16) {
    let total = rows_of_all(blocks);
    let tg = tool_gap_for(blocks);
    (total, tg, total + tg)
}

/// Each block is put out in a frame of its own.
fn render_incremental(blocks: &[Block]) -> (u16, u16, u16) {
    let mut cumulative = 0u16;
    for i in 0..blocks.len() {
        let gap = if i > 0 {
            gap_between(&Element::Block(&blocks[i - 1]), &Element::Block(&blocks[i]))
        } else {
            0
        };
        let mut out = RenderOut::buffer();
        cumulative += gap + rendered_rows(&mut out, &blocks[i]);
    }
    let tg = tool_gap_for(blocks);
    (cumulative, tg, cumulative + tg)
}

#[test]
fn text_then_tool_all_at_once() {
    let blocks = vec![user("hello"), text("I'll check that.")];
    let (_, tg, _) = render_all_at_once(&blocks);
    assert_eq!(tg, 1, "exactly 1 gap row between Text and ActiveTool");
}

#[test]
fn text_then_tool_split() {
    let blocks = vec![user("hello"), text("I'll check that.")];
    let (_, tg, _) = render_split(&blocks);
    assert_eq!(
        tg, 1,
        "exactly 1 gap row between Text and ActiveTool (split)"
    );
}

#[test]
fn all_paths_produce_same_total() {
    let blocks = vec![user("hello"), text("I'll check that.")];
    let a = render_all_at_once(&blocks);
    let b = render_split(&blocks);
    let c = render_incremental(&blocks);
    assert_eq!(a.2, b.2, "all-at-once vs split total must match");
    assert_eq!(b.2, c.2, "split vs incremental total must match");
}

#[test]
fn thinking_text_tool_all_paths_match() {
    let blocks = vec![
        user("fix the bug"),
        thinking("Let me analyze..."),
        text("I'll fix it now."),
    ];
    let a = render_all_at_once(&blocks);
    let b = render_split(&blocks);
    let c = render_incremental(&blocks);
    assert_eq!(a.2, b.2, "all-at-once vs split");
    assert_eq!(b.2, c.2, "split vs incremental");
    assert_eq!(a.1, 1, "tool gap = 1");
}

#[test]
fn empty_thinking_text_tool() {
    let blocks = vec![user("fix it"), thinking(""), text("Here's the fix.")];
    let a = render_all_at_once(&blocks);
    let b = render_split(&blocks);

    let thinking_rows = block_rows(&thinking(""));
    assert_eq!(thinking_rows, 0);

    let user_thinking_gap = gap_between(
        &Element::Block(&user("fix it")),
        &Element::Block(&thinking("")),
    );
    let thinking_text_gap = gap_between(
        &Element::Block(&thinking("")),
        &Element::Block(&text("Here's the fix.")),
    );
    assert_eq!(user_thinking_gap, 1);
    assert_eq!(thinking_text_gap, 1);

    assert_eq!(a.1, 1, "tool gap after text = 1");
    assert_eq!(a.2, b.2, "paths match with empty thinking");
}

#[test]
fn text_with_internal_blank_line() {
    let blocks = vec![user("hello"), text("para1\n\npara2")];
    let rows = block_rows(&text("para1\n\npara2"));
    assert_eq!(rows, 3, "3 rows: para1, blank, para2");

    let a = render_all_at_once(&blocks);
    let b = render_split(&blocks);
    assert_eq!(a.1, 1, "tool gap still 1");
    assert_eq!(a.2, b.2);
}

#[test]
fn tool_call_then_text_then_tool() {
    let blocks = vec![
        user("do two things"),
        text("First task:"),
        tool_call(),
        text("Second task:"),
    ];
    let a = render_all_at_once(&blocks);
    let b = render_split(&blocks);
    assert_eq!(a.1, 1);
    assert_eq!(a.2, b.2);
}

#[test]
fn empty_text_before_tool() {
    let blocks = vec![user("hello"), text("")];
    let rows = block_rows(&text(""));
    assert_eq!(rows, 0, "empty text renders 0 rows");

    let gap = gap_between(&Element::Block(&text("")), &Element::ActiveTool);
    assert_eq!(gap, 1, "gap is still 1 for empty text block");

    let a = render_all_at_once(&blocks);
    let b = render_split(&blocks);
    assert_eq!(a.2, b.2, "both paths match");

    let blocks_no_empty = vec![user("hello")];
    let c = render_all_at_once(&blocks_no_empty);
    let gap_user_tool = gap_between(&Element::Block(&user("hello")), &Element::ActiveTool);
    assert_eq!(gap_user_tool, 1, "User to ActiveTool = 1");

    let user_text_gap = gap_between(&Element::Block(&user("hello")), &Element::Block(&text("")));
    assert_eq!(user_text_gap, 1, "User to Text = 1");

    let diff = a.2 as i32 - c.2 as i32;
    assert_eq!(diff, 1, "empty text block adds 1 extra gap row");
}

#[test]
fn adjacent_text_blocks_gap() {
    let gap = gap_between(&Element::Block(&text("a")), &Element::Block(&text("b")));
    assert_eq!(gap, 1, "Text to Text gap = 1");
}

/// The row at which the tool starts, when the blocks are put out in frames
/// that end at `flushed_at`.
fn tool_start_row(blocks: &[Block], flushed_at: &[usize]) -> u16 {
    let mut anchor: u16 = 0;
    let mut flushed: usize = 0;

    for &end in flushed_at {
        let mut frame_block_rows = 0u16;
        let mut out = RenderOut::buffer();
        for i in flushed..end {
            let gap = if i > 0 {
                gap_between(&Element::Block(&blocks[i - 1]), &Element::Block(&blocks[i]))
            } else {
                0
            };
            frame_block_rows += gap + rendered_rows(&mut out, &blocks[i]);
        }
        anchor += frame_block_rows;
        flushed = end;
    }

    anchor + tool_gap_for(blocks)
}

#[test]
fn anchor_tracking_single_frame() {
    let blocks = vec![user("hello"), text("response")];
    let row = tool_start_row(&blocks, &[2]);

    let user_rows = block_rows(&user("hello"));
    let text_rows = block_rows(&text("response"));
    let expected = user_rows + 1 + text_rows + 1;
    assert_eq!(row, expected);
}

#[test]
fn anchor_tracking_split_frames() {
    let blocks = vec![user("hello"), text("response")];
    let row = tool_start_row(&blocks, &[1, 2]);

    let user_rows = block_rows(&user("hello"));
    let text_rows = block_rows(&text("response"));
    let expected = user_rows + 1 + text_rows + 1;
    assert_eq!(row, expected);
}

#[test]
fn anchor_tracking_each_block_separate() {
    let blocks = vec![user("hello"), text("response")];
    let row = tool_start_row(&blocks, &[1, 2]);

    let single = tool_start_row(&blocks, &[2]);
    assert_eq!(row, single, "split and single-frame anchors must match");
}

#[test]
fn anchor_tracking_with_empty_thinking() {
    let blocks = vec![user("hi"), thinking(""), text("fix")];

    let single = tool_start_row(&blocks, &[3]);
    let split = tool_start_row(&blocks, &[1, 2, 3]);
    assert_eq!(single, split, "empty thinking: single vs split must match");

    let blocks_no_thinking = vec![user("hi"), text("fix")];
    let no_thinking = tool_start_row(&blocks_no_thinking, &[2]);

    assert_eq!(
        single - no_thinking,
        1,
        "empty thinking adds exactly 1 extra row"
    );
}

#[test]
fn anchor_tracking_with_thinking() {
    let blocks = vec![user("hi"), thinking("let me think"), text("fix")];

    let single = tool_start_row(&blocks, &[3]);
    let split_2 = tool_start_row(&blocks, &[1, 3]);
    let split_3 = tool_start_row(&blocks, &[1, 2, 3]);
    assert_eq!(single, split_2, "single vs 2-split");
    assert_eq!(single, split_3, "single vs 3-split");
}

#[test]
fn empty_thinking_adds_extra_gap() {
    let with_empty_thinking = vec![user("hi"), thinking(""), text("response")];
    let without_thinking = vec![user("hi"), text("response")];

    let a = render_all_at_once(&with_empty_thinking);
    let b = render_all_at_once(&without_thinking);

    let diff = a.2 as i32 - b.2 as i32;
    assert_eq!(
        diff, 1,
        "empty thinking adds 1 extra gap row before text content"
    );
}

#[test]
fn horizontal_rule_detection() {
    assert!(is_horizontal_rule("---"), "basic dashes");
    assert!(is_horizontal_rule("___"), "basic underscores");
    assert!(is_horizontal_rule("***"), "basic asterisks");
    assert!(is_horizontal_rule("------"), "longer dashes");
    assert!(is_horizontal_rule("-----"), "odd length");
    assert!(is_horizontal_rule(" - - - "), "spaced dashes");
    assert!(is_horizontal_rule(" * * * "), "spaced asterisks");
    assert!(is_horizontal_rule(" _ _ _ "), "spaced underscores");
    assert!(is_horizontal_rule("  ---  "), "padded dashes");

    assert!(!is_horizontal_rule("--"), "too short");
    assert!(!is_horizontal_rule("-"), "single char");
    assert!(!is_horizontal_rule(""), "empty");
    assert!(!is_horizontal_rule("text"), "regular text");
    assert!(!is_horizontal_rule("- -"), "too short with spaces");
    assert!(!is_horizontal_rule("-*-*-*"), "mixed characters");
    assert!(!is_horizontal_rule("---a"), "contains other chars");
    assert!(!is_horizontal_rule("123"), "numbers");
}
