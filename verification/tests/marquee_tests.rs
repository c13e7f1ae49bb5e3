use rreader::marquee::{slice_text_marquee, MarqueeDirection, MarqueeState};
use rreader::text::display_width;

#[test]
fn fitting_text_is_padded_not_scrolled() {
    let (s, d) = slice_text_marquee("hello", 10, 0, MarqueeDirection::Left);
    assert_eq!(s, "hello     ");
    assert_eq!(d, MarqueeDirection::Left);
}

#[test]
fn shift_holds_during_initial_delay() {
    let text = "ABCDEFGHIJKLMNOPQRST";
    let (s, d) = slice_text_marquee(text, 8, 10, MarqueeDirection::Left);
    // Below the hold margin the window stays at the origin.
    assert_eq!(s, "ABCDEFGH");
    assert_eq!(d, MarqueeDirection::Left);
}

#[test]
fn shift_advances_after_delay() {
    let text = "ABCDEFGHIJKLMNOPQRST";
    let (s, d) = slice_text_marquee(text, 8, 41, MarqueeDirection::Left);
    assert_eq!(s, "BCDEFGHI");
    assert_eq!(d, MarqueeDirection::Left);
}

#[test]
fn clamp_never_exposes_more_than_quarter_viewport() {
    // 20 columns of text, 8 of viewport: the clamp is 20 - 8 + 2 = 14,
    // so at most two blank columns ever show past the end of the text.
    let text = "ABCDEFGHIJKLMNOPQRST";
    let (s, d) = slice_text_marquee(text, 8, 100, MarqueeDirection::Left);
    assert_eq!(s, "OPQRST  ");
    assert_eq!(display_width(&s), 8);
    assert_eq!(d, MarqueeDirection::Left);
}

#[test]
fn direction_flips_near_the_tail() {
    // The remaining unscrolled text plus the hold margin fits: flip.
    let text = "ABCDEFGHIJKLMNOPQRST";
    let (_, d) = slice_text_marquee(text, 8, 140, MarqueeDirection::Left);
    assert_eq!(d, MarqueeDirection::Right);
}

#[test]
fn wide_glyph_cut_in_half_leaves_one_blank() {
    // Four two-column glyphs; a clamp landing inside a glyph leaves a
    // blank column in its place.
    let text = "가나다라마바사아자차";
    let (s, _) = slice_text_marquee(text, 6, 41, MarqueeDirection::Left);
    assert_eq!(s, " 가나 ");
}

#[test]
fn selection_change_resets_marquee() {
    let mut m = MarqueeState::origin();
    m.tick(1);
    m.tick(2);
    assert!(m.shift > 0);
    m.reset();
    assert_eq!(m.shift, 0);
    assert_eq!(m.direction, MarqueeDirection::Left);
}

#[test]
fn tick_moves_once_per_wall_clock_tick() {
    let mut m = MarqueeState::origin();
    m.tick(5);
    assert_eq!(m.shift, 1);
    m.tick(5);
    assert_eq!(m.shift, 1);
    m.tick(6);
    assert_eq!(m.shift, 2);
}

#[test]
fn rightward_tick_snaps_back_and_turns() {
    let mut m = MarqueeState { shift: 1, direction: MarqueeDirection::Right, tick_count: 0 };
    m.tick(1);
    assert_eq!(m.shift, 0);
    assert_eq!(m.direction, MarqueeDirection::Left);
}

#[test]
fn rightward_slice_applies_the_shift_directly() {
    let text = "ABCDEFGHIJKLMNOPQRST";
    let (s, d) = slice_text_marquee(text, 8, 5, MarqueeDirection::Right);
    // No hold margin on the way back: the window sits at the raw shift.
    assert_eq!(s, "FGHIJKLM");
    assert_eq!(d, MarqueeDirection::Right);
}
