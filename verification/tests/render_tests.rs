use rreader::entry::{Category, Entry, LoadingState};
use rreader::render::{render_frame, ColorScheme, Frame, TermColor};
use rreader::state::App;

fn category(key: &str, title: &str) -> Category {
    Category {
        key: key.to_string(),
        title: title.to_string(),
        feeds: vec![("src".to_string(), "http://feed".to_string())],
        show_author: false,
    }
}

fn entry(id: i64, title: &str) -> Entry {
    Entry {
        id,
        source_name: "srcname".to_string(),
        pub_date: "10:00".to_string(),
        timestamp: id,
        url: format!("http://e/{}", id),
        title: title.to_string(),
        title_original: None,
    }
}

fn row_text(frame: &Frame, y: usize) -> String {
    frame.cells[y].iter().map(|c| c.ch).collect()
}

#[test]
fn palettes_differ_as_documented() {
    let c16 = ColorScheme::new_16();
    assert_eq!(c16.source, TermColor::Yellow);
    assert_eq!(c16.alertbg, TermColor::Blue);
    let c256 = ColorScheme::new_256();
    assert_eq!(c256.categoryfg, TermColor::Indexed(223));
    assert_eq!(c256.categorybg_s, TermColor::Indexed(223));
}

#[test]
fn frame_matches_terminal_extent() {
    let mut app = App::new(vec![category("tech", "Tech")]);
    app.set_terminal_size(40, 12);
    let colors = ColorScheme::new_16();
    let frame = render_frame(&mut app, &colors, &LoadingState::idle(), false);
    assert_eq!(frame.width, 40);
    assert_eq!(frame.height, 12);
    assert_eq!(frame.cells.len(), 12);
    for row in &frame.cells {
        assert_eq!(row.len(), 40);
    }
}

#[test]
fn category_bar_shows_the_titles() {
    let mut app = App::new(vec![category("tech", "Tech"), category("news", "News")]);
    app.set_terminal_size(40, 12);
    let colors = ColorScheme::new_16();
    let frame = render_frame(&mut app, &colors, &LoadingState::idle(), false);
    let bar = row_text(&frame, 0);
    assert!(bar.contains(" Tech "));
    assert!(bar.contains(" News "));
}

#[test]
fn entry_rows_show_source_title_and_date() {
    let mut app = App::new(vec![category("tech", "Tech")]);
    app.set_terminal_size(60, 12);
    app.set_current_entries(vec![entry(5, "headline")]);
    let colors = ColorScheme::new_16();
    let frame = render_frame(&mut app, &colors, &LoadingState::idle(), false);
    let row = row_text(&frame, 1);
    assert!(row.contains("srcname"));
    assert!(row.contains("headline"));
    assert!(row.trim_end().ends_with("10:00"));
}

#[test]
fn loading_alert_sits_top_right() {
    let mut app = App::new(vec![category("tech", "Tech")]);
    app.set_terminal_size(40, 12);
    let colors = ColorScheme::new_16();
    let mut loading = LoadingState::idle();
    loading.start(2);
    let frame = render_frame(&mut app, &colors, &loading, false);
    let bar = row_text(&frame, 0);
    // Three blanks of padding on each side, flush with the right edge.
    assert!(bar.ends_with("   LOADING   "));
}

#[test]
fn wide_glyph_occupies_two_cells_with_a_blank_tail() {
    let mut app = App::new(vec![category("tech", "Tech")]);
    app.set_terminal_size(60, 12);
    app.set_current_entries(vec![entry(1, "안녕")]);
    let colors = ColorScheme::new_16();
    let frame = render_frame(&mut app, &colors, &LoadingState::idle(), false);
    let row = row_text(&frame, 1);
    // Each double-width glyph blanks the cell after it.
    assert!(row.contains("안 녕 "));
}

#[test]
fn help_overlay_replaces_everything() {
    let mut app = App::new(vec![category("tech", "Tech")]);
    app.set_terminal_size(100, 24);
    app.show_help = true;
    let colors = ColorScheme::new_16();
    let frame = render_frame(&mut app, &colors, &LoadingState::idle(), false);
    let all: Vec<String> = (0..24).map(|y| row_text(&frame, y)).collect();
    assert!(all.iter().any(|l| l.contains("Quit")));
    assert!(!all.iter().any(|l| l.contains("Tech")));
}

#[test]
fn modal_draws_borders_and_close_hint() {
    let mut app = App::new(vec![category("tech", "Tech")]);
    app.set_terminal_size(40, 20);
    app.set_summary("summary body".to_string());
    let colors = ColorScheme::new_16();
    let frame = render_frame(&mut app, &colors, &LoadingState::idle(), false);
    let all: Vec<String> = (0..20).map(|y| row_text(&frame, y)).collect();
    assert!(all.iter().any(|l| l.contains("----")));
    assert!(all.iter().any(|l| l.contains("summary body")));
    assert!(all.iter().any(|l| l.contains("[ESC] Close")));
}

#[test]
fn number_mode_shows_the_gutter() {
    let mut app = App::new(vec![category("tech", "Tech")]);
    app.set_terminal_size(60, 12);
    app.set_current_entries(vec![entry(1, "first"), entry(2, "second")]);
    app.enter_number_mode();
    let colors = ColorScheme::new_16();
    let frame = render_frame(&mut app, &colors, &LoadingState::idle(), false);
    let row1 = row_text(&frame, 1);
    let row2 = row_text(&frame, 2);
    assert!(row1.starts_with("   1"));
    assert!(row2.starts_with("   2"));
}

#[test]
fn selected_overflowing_title_scrolls() {
    let mut app = App::new(vec![category("tech", "Tech")]);
    app.set_terminal_size(40, 12);
    let long = "A very long headline that cannot fit the narrow viewport at all";
    app.set_current_entries(vec![entry(1, long)]);
    app.move_down();
    // Enough ticks to pass the hold margin and move one column.
    for t in 1..=41u64 {
        app.marquee_tick(t);
    }
    let colors = ColorScheme::new_16();
    let frame = render_frame(&mut app, &colors, &LoadingState::idle(), false);
    let row = row_text(&frame, 1);
    // The shifted window no longer starts with the first character.
    assert!(row.contains("very long"));
    assert!(!row.contains("A very"));
}
