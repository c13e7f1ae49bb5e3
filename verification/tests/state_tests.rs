use rreader::entry::{Category, Entry};
use rreader::marquee::MarqueeDirection;
use rreader::state::{App, InputMode};

fn category(key: &str, title: &str) -> Category {
    Category {
        key: key.to_string(),
        title: title.to_string(),
        feeds: vec![("src".to_string(), "http://feed".to_string())],
        show_author: false,
    }
}

fn entry(id: i64, title: &str) -> Entry {
    Entry {
        id,
        source_name: "s".to_string(),
        pub_date: "10:00".to_string(),
        timestamp: id,
        url: format!("http://e/{}", id),
        title: title.to_string(),
        title_original: None,
    }
}

fn app_with_entries(n: i64) -> App {
    let mut app = App::new(vec![category("tech", "Tech"), category("news", "News")]);
    app.set_terminal_size(80, 24);
    let entries: Vec<Entry> = (0..n).map(|i| entry(i, &format!("t{}", i))).collect();
    app.set_current_entries(entries);
    app
}

#[test]
fn cursor_wraps_at_both_ends() {
    let mut app = app_with_entries(3);
    app.move_down();
    assert_eq!(app.selected, Some(0));
    app.move_down();
    app.move_down();
    assert_eq!(app.selected, Some(2));
    app.move_down();
    assert_eq!(app.selected, Some(0));
    app.move_up();
    assert_eq!(app.selected, Some(2));
}

#[test]
fn free_cursor_lands_on_last_row_moving_up() {
    let mut app = app_with_entries(4);
    app.move_up();
    assert_eq!(app.selected, Some(3));
}

#[test]
fn page_jumps_wrap_on_overrun() {
    let mut app = app_with_entries(15);
    app.page_down();
    assert_eq!(app.selected, Some(0));
    app.page_down();
    assert_eq!(app.selected, Some(10));
    app.page_down();
    assert_eq!(app.selected, Some(0));
    app.page_up();
    assert_eq!(app.selected, Some(14));
    app.page_up();
    assert_eq!(app.selected, Some(4));
    app.page_up();
    assert_eq!(app.selected, Some(14));
}

#[test]
fn top_and_bottom_jumps() {
    let mut app = app_with_entries(5);
    app.go_bottom();
    assert_eq!(app.selected, Some(4));
    app.go_top();
    assert_eq!(app.selected, Some(0));
}

#[test]
fn empty_list_keeps_cursor_clear() {
    let mut app = app_with_entries(0);
    app.move_down();
    assert_eq!(app.selected, None);
    app.go_bottom();
    assert_eq!(app.selected, None);
}

#[test]
fn row_limit_respects_terminal_and_cap() {
    let mut app = app_with_entries(100);
    app.set_terminal_size(80, 12);
    assert_eq!(app.row_limit(), 10);
    app.set_terminal_size(80, 2000);
    assert_eq!(app.row_limit(), 100);
}

#[test]
fn selection_change_resets_the_marquee() {
    let mut app = app_with_entries(3);
    app.move_down();
    app.marquee_tick(1);
    app.marquee_tick(2);
    assert!(app.marquee.shift > 0);
    app.move_down();
    assert_eq!(app.marquee.shift, 0);
    assert_eq!(app.marquee.direction, MarqueeDirection::Left);
}

#[test]
fn marquee_holds_still_without_selection_or_in_number_mode() {
    let mut app = app_with_entries(3);
    app.marquee_tick(1);
    assert_eq!(app.marquee.shift, 0);
    app.move_down();
    app.enter_number_mode();
    app.marquee_tick(2);
    assert_eq!(app.marquee.shift, 0);
}

#[test]
fn category_cycle_wraps_and_clears_cursor() {
    let mut app = app_with_entries(3);
    app.move_down();
    app.next_category();
    assert_eq!(app.current_category, 1);
    assert_eq!(app.selected, None);
    app.next_category();
    assert_eq!(app.current_category, 0);
    app.prev_category();
    assert_eq!(app.current_category, 1);
    assert!(app.select_category(0));
    assert_eq!(app.current_category, 0);
    assert!(!app.select_category(9));
    assert_eq!(app.current_category, 0);
}

#[test]
fn number_jump_commits_an_in_range_number() {
    let mut app = app_with_entries(12);
    app.move_down();
    app.enter_number_mode();
    assert_eq!(app.input_mode, InputMode::NumberJump);
    assert_eq!(app.selected, None);
    app.push_digit('7');
    app.exit_number_mode(true);
    assert_eq!(app.input_mode, InputMode::Normal);
    assert_eq!(app.selected, Some(6));
}

#[test]
fn number_jump_out_of_range_restores_the_cursor() {
    let mut app = app_with_entries(5);
    app.move_down();
    app.move_down();
    app.enter_number_mode();
    app.push_digit('9');
    app.push_digit('9');
    app.exit_number_mode(true);
    assert_eq!(app.selected, Some(1));
}

#[test]
fn number_jump_cancel_restores_the_cursor() {
    let mut app = app_with_entries(5);
    app.move_down();
    app.enter_number_mode();
    app.push_digit('3');
    app.exit_number_mode(false);
    assert_eq!(app.selected, Some(0));
}

#[test]
fn typed_number_caps_at_three_digits() {
    let mut app = app_with_entries(5);
    app.enter_number_mode();
    app.push_digit('1');
    app.push_digit('2');
    app.push_digit('3');
    app.push_digit('4');
    assert_eq!(app.input_number, vec!['1', '2', '3']);
    assert!(app.pop_digit());
    assert_eq!(app.input_number, vec!['1', '2']);
}

#[test]
fn open_with_backend_key_starts_summarization() {
    let mut app = app_with_entries(3);
    app.move_down();
    let r = app.open_selected(true);
    assert_eq!(r, None);
    assert!(app.summarizing);
    assert_eq!(app.summarize_url, "http://e/0");
}

#[test]
fn open_without_backend_key_hands_back_the_link() {
    let mut app = app_with_entries(3);
    app.move_down();
    app.move_down();
    let r = app.open_selected(false);
    assert_eq!(r, Some("http://e/1".to_string()));
    assert!(!app.summarizing);
}

#[test]
fn open_without_cursor_does_nothing() {
    let mut app = app_with_entries(3);
    let r = app.open_selected(true);
    assert_eq!(r, None);
    assert!(!app.summarizing);
}

#[test]
fn summary_opens_the_modal_at_the_top() {
    let mut app = app_with_entries(1);
    app.summarizing = true;
    app.set_summary("line one\nline two".to_string());
    assert!(app.show_modal);
    assert!(!app.summarizing);
    assert_eq!(app.modal_scroll, 0);
    assert_eq!(app.modal_text, vec!["line one".to_string(), "line two".to_string()]);
    assert_eq!(app.modal_wrapped_width, 80);
}

#[test]
fn modal_scroll_clamps_to_content() {
    let mut app = app_with_entries(1);
    app.set_terminal_size(80, 10);
    let many: Vec<String> = (0..20).map(|i| format!("l{}", i)).collect();
    app.set_summary(many.join("\n"));
    // page = 10*8/10 - 3 = 5, so the scroll tops out at 15.
    for _ in 0..40 {
        app.modal_scroll_down();
    }
    assert_eq!(app.modal_scroll, 15);
    app.modal_page_up();
    assert_eq!(app.modal_scroll, 10);
    app.modal_page_down();
    assert_eq!(app.modal_scroll, 15);
    app.modal_scroll_up();
    assert_eq!(app.modal_scroll, 14);
}

#[test]
fn closing_the_modal_clears_it() {
    let mut app = app_with_entries(1);
    app.set_summary("text".to_string());
    app.modal_scroll_down();
    app.close_modal();
    assert!(!app.show_modal);
    assert!(app.modal_text.is_empty());
    assert_eq!(app.modal_scroll, 0);
    assert_eq!(app.modal_wrapped_width, 0);
}

#[test]
fn rewrap_clamps_scroll_after_resize() {
    let mut app = app_with_entries(1);
    app.set_terminal_size(80, 10);
    let many: Vec<String> = (0..20).map(|i| format!("l{}", i)).collect();
    app.set_summary(many.join("\n"));
    for _ in 0..40 {
        app.modal_scroll_down();
    }
    assert_eq!(app.modal_scroll, 15);
    app.set_terminal_size(40, 10);
    app.rewrap_modal();
    assert_eq!(app.modal_wrapped_width, 40);
    assert!(app.modal_scroll <= 15);
}

#[test]
fn number_jump_ignores_leading_zeroes() {
    let mut app = app_with_entries(15);
    app.enter_number_mode();
    app.push_digit('0');
    app.push_digit('1');
    app.push_digit('2');
    app.exit_number_mode(true);
    assert_eq!(app.selected, Some(11));
}
