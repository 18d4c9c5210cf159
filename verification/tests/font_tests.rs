use beetle::font::BitmapFont;

#[test]
fn test_ascii_and_multilingual_text_width() {
    assert_eq!(BitmapFont::text_width("1234", 1), 23);
    assert_eq!(BitmapFont::text_width("1234", 2), 46);
    assert_eq!(BitmapFont::text_width("", 1), 0);
    assert_eq!(BitmapFont::text_width("가나다", 1), 34);
    assert_eq!(BitmapFont::text_width("さくら", 1), 34);
    let mixed_w = BitmapFont::text_width("Lv.12 곡", 1);
    assert!(mixed_w > 0);
}

#[test]
fn mixed_text_width_exact() {
    assert_eq!(BitmapFont::text_width("Lv.12 곡", 1), 46);
    assert_eq!(BitmapFont::text_width("A", 0), 5);
    assert_eq!(BitmapFont::text_width("★", 1), 10);
}

#[test]
fn bold_width() {
    assert_eq!(BitmapFont::bold_text_width("99.8%", 1), 5 * 8 + 4 * 2);
    assert_eq!(BitmapFont::bold_text_width("", 3), 0);
    assert_eq!(BitmapFont::bold_text_width("1", 2), 16);
}

#[test]
fn glyph_classes() {
    assert!(BitmapFont::is_fullwidth('가'));
    assert!(BitmapFont::is_fullwidth('※'));
    assert!(!BitmapFont::is_fullwidth('A'));
    assert_eq!(BitmapFont::char_advance('가', 2), 24);
    assert_eq!(BitmapFont::char_width('A', 3), 15);
}
