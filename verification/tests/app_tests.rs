use mdless::app::{App, AppMode, Key, KeyOutcome, WatchEvent};
use mdless::markdown::MarkdownRenderer;

fn create_test_app() -> App {
    let mut renderer = MarkdownRenderer::new();
    renderer.content = "# Test\n\nLine 1\nLine 2\nLine 3\nLine 4\nLine 5\nLine 6\nLine 7\nLine 8\nLine 9\nLine 10\nLine 11\nLine 12\nLine 13\nLine 14\nLine 15\nLine 16\nLine 17\nLine 18\nLine 19\nLine 20".to_string();
    App::new("test.md".to_string(), renderer, false)
}

fn app_with(content: &str) -> App {
    let mut renderer = MarkdownRenderer::new();
    renderer.content = content.to_string();
    App::new("doc.md".to_string(), renderer, true)
}

#[test]
fn test_scroll_to_top() {
    let mut app = create_test_app();
    app.scroll_offset = 10;
    app.scroll_to_top();
    assert_eq!(app.scroll_offset, 0);
}

#[test]
fn test_scroll_to_bottom() {
    let mut app = create_test_app();
    app.scroll_to_bottom();
    assert_eq!(app.scroll_offset, app.content_length.saturating_sub(1));
}

#[test]
fn test_scroll_to_middle() {
    let mut app = create_test_app();
    app.scroll_to_middle();
    assert_eq!(app.scroll_offset, app.content_length / 2);
}

#[test]
fn test_scroll_half_page_up() {
    let mut app = create_test_app();
    let half_page = (app.viewport_height / 2).max(1);
    app.scroll_offset = half_page + 3;
    app.scroll_half_page_up();
    assert_eq!(app.scroll_offset, 3);
}

#[test]
fn test_scroll_half_page_down() {
    let mut app = create_test_app();
    let half_page = (app.viewport_height / 2).max(1);
    app.scroll_offset = 3;
    app.scroll_half_page_down();
    assert_eq!(app.scroll_offset, 3 + half_page);
}

#[test]
fn test_scroll_bounds() {
    let mut app = create_test_app();

    app.scroll_offset = 0;
    app.scroll_up();
    assert_eq!(app.scroll_offset, 0);

    app.scroll_offset = app.content_length.saturating_sub(1);
    app.scroll_down();
    assert_eq!(app.scroll_offset, app.content_length.saturating_sub(1));
}

#[test]
fn test_search_functionality() {
    let mut app = create_test_app();

    app.start_search();
    assert_eq!(app.mode, AppMode::Search);
    assert!(app.search_state.query.is_empty());
    assert!(app.search_state.results.is_empty());

    app.search_state.query = "Line".to_string();
    app.perform_search();
    assert!(!app.search_state.results.is_empty());
    assert_eq!(app.search_state.current_result_index, Some(0));
}

#[test]
fn test_search_navigation() {
    let mut app = create_test_app();

    app.search_state.query = "Line".to_string();
    app.perform_search();
    let result_count = app.search_state.results.len();

    let initial_index = app.search_state.current_result_index.unwrap();
    app.next_search_result();
    assert_eq!(
        app.search_state.current_result_index,
        Some((initial_index + 1) % result_count)
    );

    app.previous_search_result();
    assert_eq!(app.search_state.current_result_index, Some(initial_index));
}

#[test]
fn test_search_clear() {
    let mut app = create_test_app();

    app.start_search();
    app.search_state.query = "test".to_string();
    app.perform_search();

    app.clear_search();
    assert!(!app.search_state.is_active);
    assert!(app.search_state.query.is_empty());
    assert!(app.search_state.results.is_empty());
    assert_eq!(app.search_state.current_result_index, None);
}

// Further scenarios.

#[test]
fn new_app_starts_at_top_in_normal_mode() {
    let app = create_test_app();
    assert_eq!(app.get_scroll_offset(), 0);
    assert_eq!(app.get_mode(), &AppMode::Normal);
    assert_eq!(app.viewport_height, 24);
    assert_eq!(app.get_content_length(), app.get_rendered_content().lines.len());
    assert_eq!(app.get_file_name(), "test.md");
    assert!(!app.is_watching());
    assert_eq!(app.get_status_message(), None);
}

#[test]
fn search_is_case_insensitive_and_finds_every_occurrence() {
    let mut app = app_with("Abc abc\n\nxABCx");
    app.search_state.query = "aBc".to_string();
    app.perform_search();
    let found: Vec<(usize, usize, usize)> = app
        .search_state
        .results
        .iter()
        .map(|r| (r.line_index, r.char_start, r.char_end))
        .collect();
    assert_eq!(found, vec![(0, 0, 3), (0, 4, 7), (2, 1, 4)]);
}

#[test]
fn search_finds_overlapping_occurrences() {
    let mut app = app_with("aaa");
    app.search_state.query = "aa".to_string();
    app.perform_search();
    assert_eq!(app.search_state.results.len(), 2);
    assert_eq!(app.search_state.results[1].char_start, 1);
}

#[test]
fn search_without_match_has_no_current_result() {
    let mut app = app_with("hello");
    app.search_state.query = "zzz".to_string();
    app.perform_search();
    assert!(app.search_state.results.is_empty());
    assert_eq!(app.search_state.current_result_index, None);
}

#[test]
fn next_wraps_and_previous_wraps() {
    let mut app = app_with("x\n\nx\n\nx");
    app.search_state.query = "x".to_string();
    app.perform_search();
    assert_eq!(app.search_state.results.len(), 3);
    app.previous_search_result();
    assert_eq!(app.search_state.current_result_index, Some(2));
    app.next_search_result();
    assert_eq!(app.search_state.current_result_index, Some(0));
    app.next_search_result();
    app.next_search_result();
    app.next_search_result();
    assert_eq!(app.search_state.current_result_index, Some(0));
}

#[test]
fn search_scrolls_result_into_middle_of_view() {
    let content: String = (0..100).map(|i| format!("para {i}\n\n")).collect();
    let mut app = app_with(&content);
    app.set_viewport_height(12);
    assert_eq!(app.viewport_height, 10);
    app.search_state.query = "para 40".to_string();
    app.perform_search();
    let line = app.search_state.results[0].line_index;
    assert_eq!(line, 80);
    assert_eq!(app.scroll_offset, 80 - 5);
}

#[test]
fn keys_move_the_view_within_bounds() {
    let mut app = create_test_app();
    let last = app.content_length - 1;
    assert_eq!(app.handle_key_event(Key::Char('J')), KeyOutcome::Done);
    assert_eq!(app.scroll_offset, 5);
    app.handle_key_event(Key::Char('D'));
    assert_eq!(app.scroll_offset, 15.min(last));
    app.handle_key_event(Key::Char('K'));
    assert_eq!(app.scroll_offset, 15.min(last) - 5);
    app.handle_key_event(Key::Char('G'));
    assert_eq!(app.scroll_offset, last);
    app.handle_key_event(Key::Down);
    assert_eq!(app.scroll_offset, last);
    app.handle_key_event(Key::Char('g'));
    assert_eq!(app.scroll_offset, 0);
    app.handle_key_event(Key::Up);
    assert_eq!(app.scroll_offset, 0);
    app.handle_key_event(Key::PageDown);
    assert_eq!(app.scroll_offset, 24.min(last));
    app.handle_key_event(Key::Char('U'));
    assert_eq!(app.scroll_offset, 24.min(last).saturating_sub(10));
}

#[test]
fn r_asks_for_reload_and_q_quits() {
    let mut app = create_test_app();
    app.set_status_message("old".to_string());
    assert_eq!(app.handle_key_event(Key::Char('r')), KeyOutcome::ReloadRequested);
    assert_eq!(app.get_status_message(), None);
    assert!(!app.should_quit);
    app.handle_key_event(Key::Char('q'));
    assert!(app.should_quit);
}

#[test]
fn typing_in_search_mode_searches_and_enter_keeps_results() {
    let mut app = create_test_app();
    app.handle_key_event(Key::Char('/'));
    assert_eq!(app.mode, AppMode::Search);
    app.handle_key_event(Key::Char('l'));
    app.handle_key_event(Key::Char('i'));
    assert_eq!(app.search_state.query, "li");
    assert_eq!(app.search_state.results.len(), 20);
    app.handle_key_event(Key::Enter);
    assert_eq!(app.mode, AppMode::Normal);
    assert_eq!(app.search_state.results.len(), 20);
    app.handle_key_event(Key::Char('n'));
    assert_eq!(app.search_state.current_result_index, Some(1));
    app.handle_key_event(Key::Char('N'));
    assert_eq!(app.search_state.current_result_index, Some(0));
}

#[test]
fn backspace_to_empty_query_clears_and_esc_cancels() {
    let mut app = create_test_app();
    app.handle_key_event(Key::Char('/'));
    app.handle_key_event(Key::Char('x'));
    app.handle_key_event(Key::Backspace);
    assert!(app.search_state.query.is_empty());
    assert!(!app.search_state.is_active);
    assert_eq!(app.mode, AppMode::Search);
    app.handle_key_event(Key::Char('T'));
    assert_eq!(app.search_state.results.len(), 2);
    app.handle_key_event(Key::Esc);
    assert_eq!(app.mode, AppMode::Normal);
    assert!(app.search_state.results.is_empty());
    assert_eq!(app.search_state.current_result_index, None);
}

#[test]
fn reload_keeps_offset_when_it_fits_and_clamps_otherwise() {
    let mut app = create_test_app();
    app.scroll_offset = 10;
    app.search_state.query = "Line".to_string();
    app.perform_search();
    app.scroll_offset = 10;
    app.reload_content("# Test\n\nLine 1\nLine 2\nLine 3\nLine 4\nLine 5\nLine 6\nLine 7\nLine 8\nLine 9\nLine 10\nLine 11\nLine 12\nLine 13".to_string());
    assert_eq!(app.scroll_offset, 10);
    assert!(app.search_state.results.is_empty());
    app.reload_content("short".to_string());
    assert_eq!(app.content_length, 2);
    assert_eq!(app.scroll_offset, 1);
}

#[test]
fn viewport_height_saturates() {
    let mut app = create_test_app();
    app.set_viewport_height(1);
    assert_eq!(app.viewport_height, 0);
    app.scroll_offset = 3;
    app.scroll_page_up();
    assert_eq!(app.scroll_offset, 2);
}

#[test]
fn search_offsets_are_utf8_byte_offsets() {
    let mut app = app_with("\u{e9} ABC \u{e9}abc");
    app.search_state.query = "abc".to_string();
    app.perform_search();
    let found: Vec<(usize, usize, usize)> = app
        .search_state
        .results
        .iter()
        .map(|r| (r.line_index, r.char_start, r.char_end))
        .collect();
    assert_eq!(found, vec![(0, 3, 6), (0, 9, 12)]);
}

fn results_of(app: &App) -> Vec<(usize, usize, usize)> {
    app.search_state.results.iter().map(|r| (r.line_index, r.char_start, r.char_end)).collect()
}

#[test]
fn queries_equal_up_to_case_search_alike() {
    let mut upper = create_test_app();
    let mut lower = create_test_app();
    upper.search_state.query = "LINE 1".to_string();
    lower.search_state.query = "line 1".to_string();
    upper.perform_search();
    lower.perform_search();
    assert!(!upper.search_state.results.is_empty());
    assert_eq!(results_of(&upper), results_of(&lower));
    assert_eq!(upper.search_state.current_result_index, lower.search_state.current_result_index);
    assert_eq!(upper.scroll_offset, lower.scroll_offset);
}

#[test]
fn normal_keys_match_their_methods() {
    let keys: Vec<(Key, fn(&mut App))> = vec![
        (Key::Char('j'), App::scroll_down),
        (Key::Down, App::scroll_down),
        (Key::Char('k'), App::scroll_up),
        (Key::Char('d'), App::scroll_half_page_down),
        (Key::Char('u'), App::scroll_half_page_up),
        (Key::Char('f'), App::scroll_page_down),
        (Key::Char('b'), App::scroll_page_up),
        (Key::Char('g'), App::scroll_to_top),
        (Key::Char('G'), App::scroll_to_bottom),
        (Key::Char('M'), App::scroll_to_middle),
    ];
    for (key, method) in keys {
        let mut by_key = create_test_app();
        by_key.set_viewport_height(10);
        by_key.scroll_offset = 7;
        let mut by_call = create_test_app();
        by_call.set_viewport_height(10);
        by_call.scroll_offset = 7;
        assert_eq!(by_key.handle_normal_mode_key(key), KeyOutcome::Done);
        method(&mut by_call);
        assert_eq!(by_key.scroll_offset, by_call.scroll_offset);
    }
}

#[test]
fn watch_change_asks_for_reload_and_failure_is_shown() {
    let mut app = create_test_app();
    app.scroll_offset = 3;
    assert_eq!(app.handle_watch_event(WatchEvent::Changed), KeyOutcome::ReloadRequested);
    assert_eq!(app.scroll_offset, 3);
    assert_eq!(app.status_message, None);
    assert_eq!(app.handle_watch_event(WatchEvent::Failed("no such file".to_string())), KeyOutcome::Done);
    assert_eq!(app.status_message.as_deref(), Some("Watch error: no such file"));
    assert_eq!(app.scroll_offset, 3);
}
