//! Breaking text into lines and rows.

use tui::render::blocks::thinking_summary;
use tui::render::highlight::split_regions_into_rows;
use tui::render::inline_md::{
    min_visual_width, strip_markdown_markers, visible_width, wrap_cell_words,
};
use tui::render::styled::print_styled_line;
use tui::render::out::{Color, RenderOut};
use tui::render::wrap::{
    compute_visual_line_offsets, display_char_width, display_width, wrap_and_locate_cursor,
    wrap_line, SpanKind, PROMPT_COL,
};
use tui::text::{expand_tabs, number, split, trim, truncate_str};

fn wrapped(s: &str, w: usize) -> Vec<String> {
    wrap_line(s, w)
}

#[test]
fn words_are_kept_together() {
    assert_eq!(wrapped("aaa bbb ccc", 7), vec!["aaa ", "bbb ccc"]);
    assert_eq!(wrapped("aaa bbb", 8), vec!["aaa bbb"]);
    assert_eq!(wrapped("", 8), vec![""]);
    assert_eq!(wrapped("a\n\nb", 8), vec!["a", "", "b"]);
    assert_eq!(wrapped("abc", 0), vec!["abc"]);
}

#[test]
fn long_words_are_broken_between_characters() {
    assert_eq!(wrapped("abcdefgh", 3), vec!["abc", "def", "gh"]);
    assert_eq!(wrapped("ab cdefgh", 4), vec!["ab ", "cdef", "gh"]);
}

#[test]
fn wide_characters_count_two_columns() {
    assert_eq!(wrapped("界界界", 4), vec!["界界", "界"]);
    assert_eq!(wrapped("a界b", 2), vec!["a", "界", "b"]);
    assert_eq!(wrapped("界界", 1), vec!["界", "界"]);
}

#[test]
fn wrapping_keeps_characters_and_width() {
    for text in ["the quick brown fox", "界a界 bb 界界界", "x\ty zz"] {
        for w in 1..12 {
            let ls = wrapped(text, w);
            assert_eq!(ls.concat(), text);
            for l in &ls {
                let mut col = 0;
                for c in l.chars() {
                    col += display_char_width(c, col);
                }
                assert!(col <= w || l.chars().count() == 1, "{l:?} at {w}");
            }
        }
    }
}

#[test]
fn characters_take_their_columns() {
    assert_eq!(display_char_width('a', 0), 1);
    assert_eq!(display_char_width('界', 0), 2);
    assert_eq!(display_char_width('\t', 0), 8);
    assert_eq!(display_char_width('\t', 3), 5);
    assert_eq!(display_char_width('\u{7}', 0), 0);
}

#[test]
fn prompt_lines_break_behind_spaces() {
    let kinds = vec![SpanKind::Plain; 11];
    let (lines, line, col) = wrap_and_locate_cursor("aaaa bbb cc", &kinds, 11, 8);
    let texts: Vec<&str> = lines.iter().map(|l| l.0.as_str()).collect();
    assert_eq!(texts.concat(), "aaaa bbb cc");
    assert_eq!(line, lines.len() - 1);
    assert_eq!(col, texts[texts.len() - 1].len());
    let offsets = compute_visual_line_offsets("aaaa bbb cc", &lines);
    let mut at = 0;
    for (i, t) in texts.iter().enumerate() {
        assert_eq!(offsets[i], at);
        at += t.len();
    }
}

#[test]
fn regions_fit_on_their_rows() {
    let piece = |s: &str| (1u8, 2u8, 3u8, s.to_string());
    let rows = split_regions_into_rows(&vec![piece("abc"), piece("defg\n")], 4);
    let texts: Vec<String> = rows
        .iter()
        .map(|r| r.iter().map(|p| p.text.as_str()).collect::<Vec<_>>().concat())
        .collect();
    assert_eq!(texts, vec!["abcd", "efg"]);
    assert_eq!(rows[0].len(), 2);
    assert_eq!(rows[0][0].color, Color::Rgb { r: 1, g: 2, b: 3 });
    let rows = split_regions_into_rows(&vec![piece("界界a")], 3);
    assert_eq!(rows.len(), 2);
    assert_eq!(rows[0][0].text, "界");
    assert_eq!(rows[1][0].text, "界a");
    assert_eq!(split_regions_into_rows(&vec![], 4).len(), 1);
    assert_eq!(split_regions_into_rows(&vec![piece("ab")], 0).len(), 2);
}

#[test]
fn cells_break_outside_spans() {
    assert_eq!(wrap_cell_words("one two three", 7), vec!["one two", "three"]);
    assert_eq!(wrap_cell_words("a **bold text** b", 9), vec!["a", "**bold text**", "b"]);
    assert_eq!(wrap_cell_words("", 5), vec![""]);
    assert_eq!(wrap_cell_words("x y", 0), vec!["x y"]);
    assert_eq!(wrap_cell_words("one two three", 7).join(" "), "one two three");
    assert_eq!(min_visual_width("a **bold text** b"), 9);
    assert_eq!(min_visual_width("界界 a"), 4);
}

#[test]
fn the_least_width_of_a_cell_is_enough() {
    for cell in ["one two three", "a **bold text** b", "界界 a", " x  yy ", "`a b` c*d e*"] {
        for more in 0..4 {
            let w = min_visual_width(cell) + more;
            for line in wrap_cell_words(cell, w) {
                assert!(visible_width(&line) <= w, "{cell:?} {w} {line:?}");
            }
        }
    }
}

#[test]
fn offsets_of_lines_increase() {
    for buf in ["", "a", "\n\n", "aaaa bbb cc\n\nd", "界界界界 x\ty\n"] {
        for usable in 0..6 {
            let kinds = vec![SpanKind::Plain; buf.chars().count()];
            let (lines, _, _) = wrap_and_locate_cursor(buf, &kinds, 0, usable);
            let offsets = compute_visual_line_offsets(buf, &lines);
            assert_eq!(offsets.len(), lines.len());
            assert!(offsets.windows(2).all(|w| w[0] < w[1]), "{buf:?} {usable} {offsets:?}");
        }
    }
}

#[test]
fn lines_of_the_prompt_fit_with_tabs_too() {
    let width = |s: &str| {
        let chars: Vec<char> = s.chars().collect();
        display_width(&chars, chars.len(), PROMPT_COL)
    };
    for buf in ["a\tb c", "aaaaa \tbcd e", "aa \tx\n\ty zz\tq", "\t\t\t", "aaaaaa bb\tcc dd"] {
        for usable in 0..20usize {
            let kinds = vec![SpanKind::Plain; buf.chars().count()];
            let (lines, _, _) = wrap_and_locate_cursor(buf, &kinds, 0, usable);
            for (text, _) in &lines {
                assert!(
                    text.chars().count() <= 1 || width(text) <= usable,
                    "{buf:?} {usable} {text:?}"
                );
            }
        }
    }
}

#[test]
fn marks_are_stripped() {
    assert_eq!(strip_markdown_markers("a **b** *c* `d`"), "a b c d");
    assert_eq!(strip_markdown_markers("2 * 3"), "2 * 3");
}

#[test]
fn styled_lines_tell_their_columns() {
    let cols = |s: &str| {
        let mut out = RenderOut::buffer();
        print_styled_line(&mut out, s, false, Color::Red)
    };
    assert_eq!(cols("# ab"), 4);
    assert_eq!(cols("# 界"), 4);
    assert_eq!(cols("> quote"), 5);
    assert_eq!(cols("- **b**"), 3);
    assert_eq!(cols("  plain"), 7);
}

#[test]
fn thoughts_are_titled_by_their_first_line() {
    assert_eq!(
        thinking_summary("\n**Plan** \nstep\n\nstep"),
        ("Plan".to_string(), 3)
    );
    assert_eq!(
        thinking_summary("step\n**Plan**"),
        ("thinking".to_string(), 2)
    );
    assert_eq!(thinking_summary(""), ("thinking".to_string(), 0));
    assert_eq!(thinking_summary("****"), ("thinking".to_string(), 1));
}

#[test]
fn texts_are_cut_and_trimmed() {
    assert_eq!(truncate_str("abcdef", 4), "abc…");
    assert_eq!(truncate_str("abcd", 4), "abcd");
    assert_eq!(truncate_str("ab", 0), "…");
    assert_eq!(trim(" \u{3000}a b\n"), "a b");
    assert_eq!(expand_tabs("a\tb"), "a    b");
    assert_eq!(number(18446744073709551615), "18446744073709551615");
    assert_eq!(split("a,b,,c", ','), vec!["a", "b", "", "c"]);
    assert_eq!(split("a,b,,c", ',').join(","), "a,b,,c");
}
