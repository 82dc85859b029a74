use mdless::code_block::TokenStyle;
use mdless::events::{CellAlignment, MdEvent, MdTag, MdTagEnd};
use mdless::markdown::MarkdownRenderer;
use mdless::style::{Color, TextStyle};

fn text_of(line: &mdless::style::Line) -> String {
    line.spans.iter().map(|s| s.content.as_str()).collect()
}

#[test]
fn text_style_rules() {
    let r = MarkdownRenderer::new();
    let s = r.get_text_style(true, 4, false, true, false);
    assert_eq!(s, TextStyle { fg: Some(Color::Cyan), bg: None, bold: true, italic: true, underlined: false });
    let s = r.get_text_style(false, 0, true, false, true);
    assert_eq!(s, TextStyle { fg: Some(Color::Green), bg: Some(Color::DarkGray), bold: true, italic: false, underlined: false });
    let s = r.get_text_style(false, 0, false, false, false);
    assert_eq!(s, TextStyle::default());
}

#[test]
fn syntect_style_bits() {
    let r = MarkdownRenderer::new();
    let s = r.syntect_style_to_ratatui(TokenStyle { red: 1, green: 2, blue: 3, font_style: 1 | 4 });
    assert_eq!(s, TextStyle { fg: Some(Color::Rgb(1, 2, 3)), bg: None, bold: true, italic: true, underlined: false });
    let s = r.syntect_style_to_ratatui(TokenStyle { red: 0, green: 0, blue: 0, font_style: 2 });
    assert!(s.underlined && !s.bold && !s.italic);
}

#[test]
fn table_border_line_exact() {
    let line = MarkdownRenderer::table_border_line(&[1, 3], '┌', '┬', '┐', '─', TextStyle::default());
    assert_eq!(text_of(&line), "┌───┬─────┐");
}

#[test]
fn table_data_line_alignment_padding() {
    let cells = vec!["ab".to_string()];
    let line = MarkdownRenderer::table_data_line(&cells, &[6, 2], &[CellAlignment::Center], TextStyle::default(), TextStyle::default());
    assert_eq!(text_of(&line), "│   ab   │    │");
    let line = MarkdownRenderer::table_data_line(&cells, &[5], &[CellAlignment::Right], TextStyle::default(), TextStyle::default());
    assert_eq!(text_of(&line), "│    ab │");
}

#[test]
fn render_table_with_no_columns_is_empty() {
    let r = MarkdownRenderer::new();
    assert!(r.render_table(&[], &[], &[]).is_empty());
}

#[test]
fn render_events_by_hand() {
    let r = MarkdownRenderer::new();
    let events = vec![
        MdEvent::Start(MdTag::Paragraph),
        MdEvent::Text("one".to_string()),
        MdEvent::SoftBreak,
        MdEvent::Text("two".to_string()),
        MdEvent::End(MdTagEnd::Paragraph),
        MdEvent::Start(MdTag::Heading(2)),
        MdEvent::Text("H".to_string()),
        MdEvent::End(MdTagEnd::Heading),
    ];
    let text = r.render_events(&events);
    let lines: Vec<String> = text.lines.iter().map(text_of).collect();
    assert_eq!(lines, vec!["one", "two", "", "H", ""]);
    assert_eq!(text.lines[3].spans[0].style.fg, Some(Color::Yellow));
}

#[test]
fn unfinished_line_is_kept() {
    let r = MarkdownRenderer::new();
    let events = vec![MdEvent::Text("tail".to_string())];
    let text = r.render_events(&events);
    assert_eq!(text.lines.len(), 1);
    assert_eq!(text_of(&text.lines[0]), "tail");
}

#[test]
fn highlight_code_block_unknown_language_is_plain() {
    let r = MarkdownRenderer::new();
    let lines = r.highlight_code_block("a\nb\n", "no-such-language");
    assert_eq!(lines.len(), 2);
    for l in &lines {
        assert_eq!(l.spans.iter().map(|s| s.content.chars().count()).sum::<usize>(), 79);
    }
    assert_eq!(text_of(&lines[0]), format!("│ a{}│", " ".repeat(75)));
}

#[test]
fn highlight_code_block_empty_code() {
    let r = MarkdownRenderer::new();
    let lines = r.highlight_code_block("", "");
    assert_eq!(lines.len(), 1);
    assert_eq!(text_of(&lines[0]), format!("│{}│", " ".repeat(77)));
}
