use oatmeal::bubble::bubble_lines;
use oatmeal::bubble_list::BubbleList;
use oatmeal::line::{highlight_line, SpanKind, StyledLine, StyledSpan};
use oatmeal::model::{Author, Message};

fn text_of(line: &StyledLine) -> String {
    line.spans.iter().map(|s| s.content.as_str()).collect::<Vec<_>>().join("")
}

fn rows(list: &BubbleList) -> Vec<String> {
    list.render(u16::MAX, 0).iter().map(text_of).collect()
}

fn conversation() -> Vec<Message> {
    vec![
        Message::new(Author::User, "Say hi"),
        Message::new(Author::Model, "Hello World"),
        Message::new(Author::Oatmeal, "hello world\nsecond line"),
    ]
}

#[test]
fn left_bubble_has_frame_label_and_text() {
    let (lines, last) = bubble_lines("hi", "Oatmeal", false, 80, 0);
    assert_eq!(last, 0);
    assert_eq!(lines.len(), 4);
    let inner = 67;
    assert_eq!(text_of(&lines[0]), format!("╭{}╮", "─".repeat(inner + 2)));
    assert_eq!(text_of(&lines[1]), format!("│ Oatmeal{} │", " ".repeat(inner - 7)));
    assert_eq!(text_of(&lines[2]), format!("│ hi{} │", " ".repeat(inner - 2)));
    assert_eq!(text_of(&lines[3]), format!("╰{}╯", "─".repeat(inner + 2)));
    assert_eq!(lines[1].spans[1].kind, SpanKind::Label);
    assert_eq!(lines[2].spans[1].kind, SpanKind::Text);
}

#[test]
fn right_bubble_is_padded_to_the_right_edge() {
    let (lines, _) = bubble_lines("hi", "me", true, 80, 0);
    let inner = 67;
    let pad = 80 - inner - 4;
    assert_eq!(text_of(&lines[1]), format!("{}│ {}me │", " ".repeat(pad), " ".repeat(inner - 2)));
    for line in &lines {
        assert_eq!(text_of(line).chars().count(), 80);
    }
}

#[test]
fn wide_characters_wrap_by_display_width() {
    // width 20 leaves 10 columns inside; each of these characters takes two
    let (lines, _) = bubble_lines("日本語日本語", "Oatmeal", false, 20, 0);
    assert_eq!(lines.len(), 5);
    assert_eq!(lines[2].spans[1].content, "日本語日本");
    assert_eq!(lines[3].spans[1].content, "語");
    assert_eq!(lines[3].spans[2].content, " ".repeat(8));
}

#[test]
fn code_blocks_are_numbered_across_messages() {
    let messages = vec![
        Message::new(Author::Model, "look:\n```rust\nfn main() {}\n```\ndone"),
        Message::new(Author::Model, "```\nx\n```"),
    ];
    let mut list = BubbleList::new("user", "gpt");
    list.set_messages(&messages, 80);
    let all = rows(&list);
    assert!(all[3].starts_with("│ [1] ```rust"));
    assert!(all[4].starts_with("│ fn main() {}"));
    assert!(all.iter().any(|r| r.starts_with("│ [2] ```")));
    assert_eq!(list.cache[0].codeblocks_count, 1);
    assert_eq!(list.cache[1].codeblocks_count, 1);
}

#[test]
fn lines_len_is_the_sum_of_entry_lines() {
    let mut list = BubbleList::new("user", "gpt");
    let mut messages = Vec::new();
    for m in conversation() {
        messages.push(m);
        list.set_messages(&messages, 80);
        let sum: usize = list.cache.iter().map(|e| e.lines.len()).sum();
        assert_eq!(list.len(), sum);
        assert_eq!(rows(&list).len(), sum);
    }
    assert_eq!(list.len(), 4 + 4 + 5);
}

#[test]
fn set_messages_twice_changes_nothing() {
    let messages = conversation();
    let mut list = BubbleList::new("user", "gpt");
    list.set_messages(&messages, 80);
    let first = rows(&list);
    list.set_messages(&messages, 80);
    assert_eq!(rows(&list), first);
}

#[test]
fn last_width_decides_the_layout() {
    let messages = conversation();
    let mut list = BubbleList::new("user", "gpt");
    list.set_messages(&messages, 80);
    list.set_messages(&messages, 40);
    let mut fresh = BubbleList::new("user", "gpt");
    fresh.set_messages(&messages, 40);
    assert_eq!(rows(&list), rows(&fresh));
}

#[test]
fn width_change_relays_every_entry() {
    let messages = conversation();
    let mut list = BubbleList::new("user", "gpt");
    list.set_messages(&messages, 80);
    let wide: Vec<Vec<String>> = list.cache.iter().map(|e| e.lines.iter().map(text_of).collect()).collect();
    list.set_messages(&messages, 40);
    let narrow: Vec<Vec<String>> = list.cache.iter().map(|e| e.lines.iter().map(text_of).collect()).collect();
    assert_eq!(wide.len(), 3);
    assert_eq!(narrow.len(), 3);
    for (a, b) in wide.iter().zip(narrow.iter()) {
        assert_ne!(a, b);
    }
    assert_eq!(list.line_width, 40);
}

#[test]
fn growing_tail_is_laid_out_again() {
    let mut messages = conversation();
    let mut list = BubbleList::new("user", "gpt");
    list.set_messages(&messages, 80);
    messages[2].text.push_str("\nthird line");
    list.set_messages(&messages, 80);
    assert_eq!(list.cache[2].lines.len(), 6);
    assert_eq!(list.len(), 4 + 4 + 6);
}

#[test]
fn render_skips_scrolled_rows_and_stops_at_height() {
    let messages = conversation();
    let mut list = BubbleList::new("user", "gpt");
    list.set_messages(&messages, 80);
    let all = rows(&list);
    let shown: Vec<String> = list.render(3, 2).iter().map(text_of).collect();
    assert_eq!(shown, all[2..5].to_vec());
    assert!(list.render(5, 100).is_empty());
    assert_eq!(list.render(100, 10).len(), 3);
}

#[test]
fn selection_yanks_inner_text_without_borders() {
    let messages = vec![Message::new(Author::Oatmeal, "hello world\nsecond line")];
    let mut list = BubbleList::new("user", "gpt");
    list.set_messages(&messages, 80);
    let start = oatmeal::point::Point::new(4, 1);
    let end = oatmeal::point::Point::new(20, 2);
    let text = list.yank_selected_lines(&start, &end);
    assert_eq!(text, "Oatmeal\nhello world");
    assert!(list.cache[0].lines.iter().all(|l| l.spans.iter().all(|s| !s.selected)));
    list.reset_highlight();
    assert!(list.cache[0].lines.iter().all(|l| l.spans.iter().all(|s| !s.selected)));
    assert_eq!(list.selection_text(), "");
}

#[test]
fn selection_on_one_row_stops_at_end_column() {
    let mut line = StyledLine {
        spans: vec![
            StyledSpan { content: "│ ".to_string(), kind: SpanKind::Border, selected: false },
            StyledSpan { content: "ab".to_string(), kind: SpanKind::Text, selected: false },
            StyledSpan { content: "cd".to_string(), kind: SpanKind::Text, selected: false },
            StyledSpan { content: "ef".to_string(), kind: SpanKind::Text, selected: false },
            StyledSpan { content: " │".to_string(), kind: SpanKind::Border, selected: false },
        ],
    };
    highlight_line(&mut line, 5, Some(6));
    let marks: Vec<bool> = line.spans.iter().map(|s| s.selected).collect();
    assert_eq!(marks, vec![false, false, true, false, false]);
}

#[test]
fn highlight_counts_display_columns() {
    let mut line = StyledLine {
        spans: vec![
            StyledSpan { content: "│ ".to_string(), kind: SpanKind::Border, selected: false },
            StyledSpan { content: "日本".to_string(), kind: SpanKind::Text, selected: false },
            StyledSpan { content: "x".to_string(), kind: SpanKind::Text, selected: false },
            StyledSpan { content: " │".to_string(), kind: SpanKind::Border, selected: false },
        ],
    };
    // "日本" ends at column 6; counted in characters it would end at 4
    highlight_line(&mut line, 5, None);
    let marks: Vec<bool> = line.spans.iter().map(|s| s.selected).collect();
    assert_eq!(marks, vec![false, true, true, false]);
}

#[test]
fn drag_direction_does_not_change_the_yank() {
    let messages = conversation();
    let mut list = BubbleList::new("user", "gpt");
    list.set_messages(&messages, 80);
    let a = oatmeal::point::Point::new(30, 9);
    let b = oatmeal::point::Point::new(3, 5);
    let forward = list.yank_selected_lines(
        &oatmeal::point::Point::lesser(a, b),
        &oatmeal::point::Point::greater(a, b),
    );
    let backward = list.yank_selected_lines(
        &oatmeal::point::Point::lesser(b, a),
        &oatmeal::point::Point::greater(b, a),
    );
    assert_eq!(forward, backward);
    assert_eq!(forward, "gpt\nHello World\nOatmeal");
}

fn bar_line(middle: Vec<(&str, SpanKind)>) -> StyledLine {
    let mut spans = vec![StyledSpan { content: "│ ".to_string(), kind: SpanKind::Border, selected: false }];
    for (c, k) in middle {
        spans.push(StyledSpan { content: c.to_string(), kind: k, selected: false });
    }
    spans.push(StyledSpan { content: " │".to_string(), kind: SpanKind::Border, selected: false });
    StyledLine { spans }
}

#[test]
fn nothing_from_the_end_column_on_is_selected() {
    for (end, marked) in [(0, false), (2, false), (3, true)] {
        let mut line = bar_line(vec![("a", SpanKind::Text)]);
        highlight_line(&mut line, 0, Some(end));
        assert_eq!(line.spans[1].selected, marked, "end column {end}");
    }
}

#[test]
fn padding_and_frame_are_never_selected() {
    let mut line = bar_line(vec![("x", SpanKind::Text), ("   ", SpanKind::Padding)]);
    highlight_line(&mut line, 0, None);
    let marks: Vec<bool> = line.spans.iter().map(|s| s.selected).collect();
    assert_eq!(marks, vec![false, true, false, false]);
}

#[test]
fn yank_copies_what_the_highlight_shows_and_changes_nothing() {
    let messages = conversation();
    let mut list = BubbleList::new("user", "gpt");
    list.set_messages(&messages, 80);
    let start = oatmeal::point::Point::new(10, 6);
    let end = oatmeal::point::Point::new(5, 10);
    list.reset_highlight();
    list.highlight_selected_lines(&start, &end);
    let shown: Vec<Vec<bool>> = list
        .cache
        .iter()
        .flat_map(|e| e.lines.iter().map(|l| l.spans.iter().map(|s| s.selected).collect()))
        .collect();
    let yanked = list.yank_selected_lines(&start, &end);
    let after: Vec<Vec<bool>> = list
        .cache
        .iter()
        .flat_map(|e| e.lines.iter().map(|l| l.spans.iter().map(|s| s.selected).collect()))
        .collect();
    assert_eq!(shown, after);
    assert_eq!(yanked, list.selection_text());
    assert_eq!(yanked, "Hello World\nOatmeal\nhello world");
}

#[test]
fn text_holding_frame_glyphs_is_selected_and_yanked() {
    let mut line = bar_line(vec![("a─b", SpanKind::Text), ("│x│", SpanKind::Text), ("─", SpanKind::Text)]);
    highlight_line(&mut line, 0, Some(100));
    let marks: Vec<bool> = line.spans.iter().map(|s| s.selected).collect();
    assert_eq!(marks, vec![false, true, true, false, false]);

    let messages = vec![Message::new(Author::Oatmeal, "a─b\n│ x │")];
    let mut list = BubbleList::new("user", "gpt");
    list.set_messages(&messages, 80);
    let text = list.yank_selected_lines(&oatmeal::point::Point::new(0, 2), &oatmeal::point::Point::new(100, 3));
    assert_eq!(text, "a─b\n│ x │");
}
