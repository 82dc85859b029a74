use mdless::events::CellAlignment;
use mdless::markdown::MarkdownRenderer;
use mdless::style::{Color, Line, Text, TextStyle};

fn render(content: &str) -> Text {
    let mut renderer = MarkdownRenderer::new();
    renderer.content = content.to_string();
    renderer.render_to_text()
}

fn line_text(line: &Line) -> String {
    line.spans.iter().map(|span| span.content.as_str()).collect::<String>()
}

fn width(line: &Line) -> usize {
    line.spans.iter().map(|s| s.content.chars().count()).sum()
}

#[test]
fn test_new_renderer() {
    let renderer = MarkdownRenderer::new();
    assert!(renderer.content.is_empty());
}

#[test]
fn test_render_simple_text() {
    let mut renderer = MarkdownRenderer::new();
    renderer.content = "Hello, world!".to_string();

    let text = renderer.render_to_text();
    assert!(!text.lines.is_empty());
}

#[test]
fn test_render_heading() {
    let mut renderer = MarkdownRenderer::new();
    renderer.content = "# Main Title\n\nSome content".to_string();

    let text = renderer.render_to_text();
    assert!(text.lines.len() >= 2);
}

#[test]
fn test_header_spacing_fix() {
    let mut renderer = MarkdownRenderer::new();
    renderer.content =
        "Some paragraph text.\n### Header without spacing\nMore content.".to_string();

    let text = renderer.render_to_text();

    assert!(
        text.lines.len() >= 5,
        "Should have at least 5 lines with proper spacing"
    );

    let lines_text: Vec<String> = text.lines.iter().map(line_text).collect();

    let header_index = lines_text
        .iter()
        .position(|line| line.contains("Header without spacing"));
    assert!(header_index.is_some(), "Header should be found");

    let header_idx = header_index.unwrap();
    if header_idx > 0 {
        assert!(
            lines_text[header_idx - 1].trim().is_empty(),
            "There should be an empty line before the header"
        );
    }
}

#[test]
fn test_multiple_headers_without_spacing() {
    let mut renderer = MarkdownRenderer::new();
    renderer.content =
        "Paragraph.\n### First Header\nContent.\n### Second Header\nMore content.".to_string();

    let text = renderer.render_to_text();

    let lines_text: Vec<String> = text.lines.iter().map(line_text).collect();

    let first_header_idx = lines_text
        .iter()
        .position(|line| line.contains("First Header"));
    let second_header_idx = lines_text
        .iter()
        .position(|line| line.contains("Second Header"));

    assert!(
        first_header_idx.is_some() && second_header_idx.is_some(),
        "Both headers should be found"
    );

    if let Some(idx) = first_header_idx {
        if idx > 0 {
            assert!(
                lines_text[idx - 1].trim().is_empty(),
                "First header should have empty line before it"
            );
        }
    }

    if let Some(idx) = second_header_idx {
        if idx > 0 {
            assert!(
                lines_text[idx - 1].trim().is_empty(),
                "Second header should have empty line before it"
            );
        }
    }
}

#[test]
fn test_code_block_border_alignment() {
    let mut renderer = MarkdownRenderer::new();
    renderer.content = "```rust\nfn main() {}\n```".to_string();

    let text = renderer.render_to_text();

    let language_line_idx = text
        .lines
        .iter()
        .position(|line| line.spans.iter().any(|span| span.content.contains("rust")))
        .expect("Should find language header line");

    let language_line = &text.lines[language_line_idx];

    let display_width: usize = language_line
        .spans
        .iter()
        .map(|s| s.content.chars().count())
        .sum();

    assert_eq!(
        display_width, 79,
        "Language line should be exactly 79 display characters wide"
    );

    assert!(
        language_line.spans.len() >= 3,
        "Should have at least 3 spans"
    );
    assert_eq!(
        language_line.spans[0].content.chars().count(),
        2,
        "First span should be '│ ' (2 chars)"
    );
    assert_eq!(
        language_line.spans.last().unwrap().content.chars().count(),
        1,
        "Last span should be '│' (1 char)"
    );
}

#[test]
fn test_code_block_content_line_alignment() {
    let mut renderer = MarkdownRenderer::new();
    renderer.content =
        "```rust\nfn main() {\n    println!(\"Hello, world!\");\n}\n```".to_string();

    let text = renderer.render_to_text();

    let code_content_lines: Vec<&Line> = text
        .lines
        .iter()
        .filter(|line| {
            line.spans.len() >= 2
                && line.spans[0].content == "│ "
                && line.spans.last().unwrap().content == "│"
                && !line.spans.iter().any(|span| span.content.contains("─"))
                && !line.spans.iter().any(|span| span.content.contains("rust"))
        })
        .collect();

    for line in code_content_lines {
        let display_width: usize = line.spans.iter().map(|s| s.content.chars().count()).sum();

        assert_eq!(
            display_width, 79,
            "Code content line should be exactly 79 display characters wide"
        );
    }
}

#[test]
fn test_table_renders() {
    let mut renderer = MarkdownRenderer::new();
    renderer.content =
        "| Key | Action |\n| --- | --- |\n| `q` | Quit |\n| `j` | Down |".to_string();

    let text = renderer.render_to_text();
    let lines_text: Vec<String> = text.lines.iter().map(line_text).collect();

    assert!(
        lines_text.iter().any(|l| l.starts_with('┌')),
        "missing top border"
    );
    assert!(
        lines_text.iter().any(|l| l.starts_with('├')),
        "missing header separator"
    );
    assert!(
        lines_text.iter().any(|l| l.starts_with('└')),
        "missing bottom border"
    );
    assert!(
        lines_text.iter().any(|l| l.contains("Key")),
        "missing header cell"
    );
    assert!(
        lines_text.iter().any(|l| l.contains("Quit")),
        "missing body cell"
    );
}

#[test]
fn test_table_column_widths() {
    let mut renderer = MarkdownRenderer::new();
    renderer.content = "| A | B |\n| --- | --- |\n| x | very long cell |".to_string();

    let text = renderer.render_to_text();
    let lines_text: Vec<String> = text.lines.iter().map(line_text).collect();

    let border_lines: Vec<&String> = lines_text
        .iter()
        .filter(|l| l.starts_with('┌') || l.starts_with('├') || l.starts_with('└'))
        .collect();

    assert!(!border_lines.is_empty());
    let width = border_lines[0].chars().count();
    for line in &border_lines {
        assert_eq!(
            line.chars().count(),
            width,
            "border lines should all be equal width"
        );
    }
}

#[test]
fn test_long_code_line_truncated() {
    let mut renderer = MarkdownRenderer::new();
    renderer.content =
        "```bash\nwget https://github.com/raykrueger/mdless/releases/latest/download/mdless-macos-aarch64\n```"
            .to_string();

    let text = renderer.render_to_text();

    for line in text
        .lines
        .iter()
        .filter(|l| l.spans.first().map(|s| s.content == "│ ").unwrap_or(false))
    {
        let width: usize = line.spans.iter().map(|s| s.content.chars().count()).sum();
        assert_eq!(
            width, 79,
            "code line must be exactly 79 chars wide, got {width}"
        );
    }
}

// Further scenarios.

#[test]
fn paragraph_is_followed_by_empty_line() {
    let text = render("Hello, world!");
    let lines: Vec<String> = text.lines.iter().map(line_text).collect();
    assert_eq!(lines, vec!["Hello, world!".to_string(), String::new()]);
    assert!(text.lines[1].spans.is_empty());
}

#[test]
fn heading_has_level_color_and_bold() {
    let text = render("# Title");
    let span = &text.lines[0].spans[0];
    assert_eq!(span.content, "Title");
    assert_eq!(span.style, TextStyle { fg: Some(Color::Red), bg: None, bold: true, italic: false, underlined: false });
    let text = render("## Sub");
    assert_eq!(text.lines[0].spans[0].style.fg, Some(Color::Yellow));
    let text = render("###### Deep");
    assert_eq!(text.lines[0].spans[0].style.fg, Some(Color::Magenta));
}

#[test]
fn emphasis_and_strong_styles() {
    let text = render("*a* **b**");
    let spans = &text.lines[0].spans;
    let a = spans.iter().find(|s| s.content == "a").unwrap();
    let b = spans.iter().find(|s| s.content == "b").unwrap();
    assert!(a.style.italic && !a.style.bold);
    assert!(b.style.bold && !b.style.italic);
}

#[test]
fn inline_code_is_padded_with_spaces() {
    let text = render("run `ls` now");
    let code = text.lines[0].spans.iter().find(|s| s.content.contains("ls")).unwrap();
    assert_eq!(code.content, " ls ");
    assert_eq!(code.style.fg, Some(Color::Yellow));
    assert_eq!(code.style.bg, Some(Color::Rgb(40, 40, 40)));
    assert!(code.style.bold);
}

#[test]
fn list_items_get_bullets() {
    let text = render("- one\n- two");
    let lines: Vec<String> = text.lines.iter().map(line_text).collect();
    assert!(lines.contains(&"• one".to_string()));
    assert!(lines.contains(&"• two".to_string()));
}

#[test]
fn code_block_box_exact_lines() {
    let text = render("```\nabc\n```");
    let lines: Vec<String> = text.lines.iter().map(line_text).collect();
    assert_eq!(lines[0], format!("┌{}┐", "─".repeat(77)));
    assert_eq!(lines[1], format!("│ abc{}│", " ".repeat(73)));
    assert_eq!(lines[2], format!("└{}┘", "─".repeat(77)));
    assert_eq!(lines[3], "");
    assert_eq!(lines.len(), 4);
}

#[test]
fn empty_code_block_line_is_79_wide() {
    let text = render("```\n```");
    let inner: Vec<&Line> = text.lines.iter().filter(|l| l.spans.first().map(|s| s.content == "│ ").unwrap_or(false)).collect();
    assert_eq!(inner.len(), 1);
    assert_eq!(width(inner[0]), 79);
}

#[test]
fn code_block_with_language_has_label_and_separator() {
    let text = render("```python\nx = 1\n```");
    let lines: Vec<String> = text.lines.iter().map(line_text).collect();
    assert_eq!(lines[1], format!("│ python{}│", " ".repeat(70)));
    assert_eq!(lines[2], format!("├{}┤", "─".repeat(77)));
    for line in &text.lines[..text.lines.len() - 1] {
        assert_eq!(width(line), 79);
    }
}

#[test]
fn known_language_is_highlighted_in_color() {
    let text = render("```rust\nfn main() {}\n```");
    let code_line = &text.lines[3];
    assert!(code_line.spans.len() > 3);
    let content = &code_line.spans[1..code_line.spans.len() - 2];
    assert!(content.iter().all(|s| matches!(s.style.fg, Some(Color::Rgb(_, _, _)))));
    let colors: std::collections::HashSet<_> = content.iter().map(|s| s.style.fg).collect();
    assert!(colors.len() >= 2, "rust code should get more than one color");
}

#[test]
fn truncated_code_line_ends_with_ellipsis() {
    let long = "x".repeat(100);
    let text = render(&format!("```\n{long}\n```"));
    let line = &text.lines[1];
    let t = line_text(line);
    assert_eq!(width(line), 79);
    assert_eq!(t, format!("│ {}…│", "x".repeat(75)));
}

#[test]
fn code_line_of_76_chars_is_not_truncated() {
    let exact = "y".repeat(76);
    let text = render(&format!("```\n{exact}\n```"));
    assert_eq!(line_text(&text.lines[1]), format!("│ {exact}│"));
}

#[test]
fn table_lines_all_equal_width_with_alignments() {
    let text = render("| L | C | R |\n| :-- | :-: | --: |\n| a | bbbbb | c |\n| dddd | e | ffffff |");
    let lines: Vec<String> = text.lines.iter().map(line_text).collect();
    let table: Vec<&String> = lines.iter().filter(|l| !l.is_empty()).collect();
    assert_eq!(table.len(), 6);
    let w = table[0].chars().count();
    for l in &table {
        assert_eq!(l.chars().count(), w);
    }
    assert_eq!(w, 1 + (4 + 3) + (5 + 3) + (6 + 3));
    assert_eq!(*table[0], "┌──────┬───────┬────────┐");
    assert_eq!(*table[1], "│ L    │   C   │      R │");
    assert_eq!(*table[3], "│ a    │ bbbbb │      c │");
}

#[test]
fn table_header_style_is_cyan_bold() {
    let text = render("| H |\n| - |\n| b |");
    let header = text.lines.iter().find(|l| l.spans.iter().any(|s| s.content == "H")).unwrap();
    let cell = header.spans.iter().find(|s| s.content == "H").unwrap();
    assert_eq!(cell.style.fg, Some(Color::Cyan));
    assert!(cell.style.bold);
}

#[test]
fn plain_text_code_is_one_span_per_line() {
    let text = render("```\nfn main() {}\n```");
    let code_line = &text.lines[1];
    assert_eq!(code_line.spans.len(), 4);
    assert_eq!(code_line.spans[1].content, "fn main() {}");
}

#[test]
fn table_after_paragraph_is_empty_line_table_empty_line() {
    let text = render("Intro\n\n| A | B |\n| :-- | --: |\n| x | yy |\n| zzz | w |");
    let lines: Vec<String> = text.lines.iter().map(line_text).collect();
    let renderer = MarkdownRenderer::new();
    let header = vec!["A".to_string(), "B".to_string()];
    let rows = vec![
        vec!["x".to_string(), "yy".to_string()],
        vec!["zzz".to_string(), "w".to_string()],
    ];
    let table: Vec<String> = renderer
        .render_table(&header, &rows, &[CellAlignment::Left, CellAlignment::Right])
        .iter()
        .map(line_text)
        .collect();
    let mut expected = vec!["Intro".to_string(), String::new()];
    expected.extend(table);
    expected.push(String::new());
    assert_eq!(lines, expected);
}
