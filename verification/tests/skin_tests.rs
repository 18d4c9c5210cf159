use beetle::bms::{Lane, PlayMode};
use beetle::skin::{ColorRgba, SkinColors};

#[test]
fn active_lanes_by_mode() {
    let mut skin = SkinColors::default();
    assert_eq!(skin.active_lanes().len(), 8);
    skin.set_play_mode(PlayMode::Keys5);
    assert_eq!(
        skin.active_lanes(),
        vec![Lane::Scratch, Lane::Key1, Lane::Key2, Lane::Key3, Lane::Key4, Lane::Key5]
    );
    skin.set_play_mode(PlayMode::Keys14);
    assert_eq!(skin.active_lanes().last(), Some(&Lane::Key7));
}

#[test]
fn lane_and_beam_colors() {
    let skin = SkinColors::default();
    assert_eq!(skin.lane_color(Lane::Scratch), ColorRgba::new(255, 70, 70, 255));
    assert_eq!(skin.lane_color(Lane::Key3), ColorRgba::new(245, 245, 250, 255));
    assert_eq!(skin.lane_color(Lane::Key6), ColorRgba::new(60, 140, 255, 255));
    assert_eq!(skin.key_beam_color(Lane::Key7), ColorRgba::new(200, 200, 255, 60));
    assert_eq!(skin.key_beam_color(Lane::Key2), ColorRgba::new(60, 140, 255, 80));
    assert_eq!(skin.key_beam_color(Lane::Scratch), ColorRgba::new(255, 70, 70, 80));
}

#[test]
fn color_packing() {
    assert_eq!(ColorRgba::new(0x12, 0x34, 0x56, 0x78).to_u32(), 0x78123456);
    assert_eq!(ColorRgba::new(1, 2, 3, 4).with_alpha(9), ColorRgba::new(1, 2, 3, 9));
    assert_eq!(ColorRgba::transparent().to_u32(), 0);
}
