use beetle::labels::{clear_lamp_color, level_color, truncate_str};
use beetle::score::ClearType;
use beetle::skin::ColorRgba;

#[test]
fn level_colors_by_band() {
    assert_eq!(level_color(1), ColorRgba::new(80, 220, 130, 255));
    assert_eq!(level_color(8), ColorRgba::new(60, 180, 255, 255));
    assert_eq!(level_color(10), ColorRgba::new(255, 200, 50, 255));
    assert_eq!(level_color(11), ColorRgba::new(255, 70, 70, 255));
    assert_eq!(level_color(0), ColorRgba::new(210, 90, 255, 255));
    assert_eq!(level_color(13), ColorRgba::new(210, 90, 255, 255));
}

#[test]
fn lamp_labels_and_colors() {
    assert_eq!(clear_lamp_color(Some(ClearType::Perfect)), ("PERFECT", ColorRgba::new(255, 230, 80, 255)));
    assert_eq!(clear_lamp_color(Some(ClearType::FullCombo)).0, "FULL COMBO");
    assert_eq!(clear_lamp_color(Some(ClearType::Clear)).0, "CLEARED");
    assert_eq!(clear_lamp_color(Some(ClearType::Failed)).1, ColorRgba::new(240, 60, 60, 255));
    assert_eq!(clear_lamp_color(None), ("NO PLAY", ColorRgba::new(70, 75, 95, 255)));
}

#[test]
fn truncation_keeps_short_text_and_marks_cuts() {
    assert_eq!(truncate_str("Spica", 5), "Spica");
    assert_eq!(truncate_str("Spica (Original Mix)", 10), "Spica (...");
    assert_eq!(truncate_str("가나다라마바", 5), "가나...");
    assert_eq!(truncate_str("abcdef", 2), "...");
    assert_eq!(truncate_str("", 0), "");
}
