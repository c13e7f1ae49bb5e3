use rreader::text::{display_width, truncate_to_width, wrap_text_for_display};

#[test]
fn ascii_width_is_char_count() {
    assert_eq!(display_width("hello"), 5);
    assert_eq!(display_width(""), 0);
}

#[test]
fn wide_glyphs_take_two_columns() {
    assert_eq!(display_width("안녕"), 4);
    assert_eq!(display_width("a안b"), 4);
}

#[test]
fn truncate_pads_to_exact_width() {
    let r = truncate_to_width("hi", 5);
    assert_eq!(r, "hi   ");
    assert_eq!(display_width(&r), 5);
}

#[test]
fn truncate_cuts_at_width() {
    assert_eq!(truncate_to_width("hello world", 5), "hello");
}

#[test]
fn truncate_never_splits_a_wide_glyph() {
    // 안(2) 녕(2) = 4 columns; the third glyph would need columns 5 and 6.
    let r = truncate_to_width("안녕하세요", 5);
    assert_eq!(r, "안녕 ");
    assert_eq!(display_width(&r), 5);
}

#[test]
fn truncate_to_zero_is_empty() {
    assert_eq!(truncate_to_width("abc", 0), "");
}

#[test]
fn wrap_empty_text_has_no_rows() {
    let rows = wrap_text_for_display("", 10);
    assert!(rows.is_empty());
}

#[test]
fn wrap_keeps_empty_lines() {
    let rows = wrap_text_for_display("a\n\nb", 10);
    assert_eq!(rows, vec!["a".to_string(), "".to_string(), "b".to_string()]);
}

#[test]
fn wrap_cuts_greedily() {
    let rows = wrap_text_for_display("abcdef", 3);
    assert_eq!(rows, vec!["abc".to_string(), "def".to_string()]);
}

#[test]
fn wrap_respects_display_columns() {
    // Each glyph is two columns wide, so only two fit in five columns.
    let rows = wrap_text_for_display("안녕하세요", 5);
    assert_eq!(rows, vec!["안녕".to_string(), "하세".to_string(), "요".to_string()]);
}

#[test]
fn wrap_strips_carriage_returns() {
    let rows = wrap_text_for_display("a\r\nb", 10);
    assert_eq!(rows, vec!["a".to_string(), "b".to_string()]);
}

#[test]
fn truncate_too_narrow_for_first_glyph_is_all_blank() {
    let r = truncate_to_width("안", 1);
    assert_eq!(r, " ");
    assert_eq!(display_width(&r), 1);
}
