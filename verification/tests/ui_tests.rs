use beetle::bms::Lane;
use beetle::ui::{lane_to_name, name_to_lane, DisplayMode, KeyPreset, SongCategory};

#[test]
fn test_song_category_transitions() {
    assert_eq!(SongCategory::All.next(), SongCategory::Keys5);
    assert_eq!(SongCategory::Keys5.next(), SongCategory::Keys7);
    assert_eq!(SongCategory::Keys7.next(), SongCategory::Keys9);
    assert_eq!(SongCategory::Keys9.next(), SongCategory::Keys10);
    assert_eq!(SongCategory::Keys10.next(), SongCategory::Keys14);
    assert_eq!(SongCategory::Keys14.next(), SongCategory::Level);
    assert_eq!(SongCategory::Level.next(), SongCategory::ClearStatus);
    assert_eq!(SongCategory::ClearStatus.next(), SongCategory::All);
}

#[test]
fn category_prev_undoes_next() {
    let mut c = SongCategory::All;
    for _ in 0..8 {
        assert_eq!(c.next().prev(), c);
        c = c.next();
    }
    assert_eq!(c, SongCategory::All);
    assert_eq!(SongCategory::All.prev(), SongCategory::ClearStatus);
    assert_eq!(SongCategory::ClearStatus.as_str(), "BY CLEAR STATUS");
}

#[test]
fn display_mode_cycle() {
    let m = DisplayMode::default();
    assert_eq!(m, DisplayMode::Windowed);
    assert_eq!(m.next(), DisplayMode::Borderless);
    assert_eq!(m.next().next().next(), m);
    assert_eq!(m.prev(), DisplayMode::ExclusiveFullscreen);
    assert_eq!(DisplayMode::ExclusiveFullscreen.as_str(), "FULLSCREEN");
}

#[test]
fn lane_names_roundtrip() {
    for lane in [
        Lane::Scratch,
        Lane::Key1,
        Lane::Key2,
        Lane::Key3,
        Lane::Key4,
        Lane::Key5,
        Lane::Key6,
        Lane::Key7,
    ] {
        assert_eq!(name_to_lane(lane_to_name(lane)), Some(lane));
    }
    assert_eq!(name_to_lane("Key8"), None);
    assert_eq!(name_to_lane("key1"), None);
    assert_eq!(lane_to_name(Lane::Scratch), "Scratch");
}

#[test]
fn preset_names() {
    assert_eq!(KeyPreset::HomeRow.as_str(), "HomeRow (S D F Space J K L)");
    assert_eq!(KeyPreset::Custom.as_str(), "Custom Layout");
}

use beetle::ui::{available_resolutions, current_resolution_label, cycle_resolution};

fn presets() -> Vec<(u32, u32, &'static str)> {
    vec![
        (1280, 720, "1280x720 (16:9 HD)"),
        (1600, 900, "1600x900 (16:9)"),
        (1920, 1080, "1920x1080 (16:9 FHD)"),
        (1920, 1200, "1920x1200 (16:10)"),
        (2560, 1440, "2560x1440 (16:9 QHD)"),
    ]
}

#[test]
fn resolutions_fit_monitor_and_aspect() {
    let win = available_resolutions(&presets(), 1920, 1200, DisplayMode::Windowed);
    assert_eq!(win.iter().map(|r| (r.0, r.1)).collect::<Vec<_>>(), vec![(1280, 720), (1600, 900), (1920, 1080)]);
    let full = available_resolutions(&presets(), 1920, 1200, DisplayMode::Borderless);
    assert_eq!(full.len(), 4);
    let tiny = available_resolutions(&presets(), 800, 600, DisplayMode::Windowed);
    assert_eq!(tiny, vec![(1280, 720, "1280x720 (16:9 HD)")]);
}

#[test]
fn resolution_label_and_cycle() {
    let avail = available_resolutions(&presets(), 1920, 1080, DisplayMode::Windowed);
    assert_eq!(current_resolution_label(&avail, 1600, 900), "1600x900 (16:9)");
    assert_eq!(current_resolution_label(&avail, 1000, 700), "CUSTOM");
    assert_eq!(cycle_resolution(&avail, 1920, 1080, true), Some((1280, 720)));
    assert_eq!(cycle_resolution(&avail, 1280, 720, false), Some((1920, 1080)));
    assert_eq!(cycle_resolution(&avail, 1280, 720, true), Some((1600, 900)));
    assert_eq!(cycle_resolution(&avail, 999, 999, false), Some((1280, 720)));
    assert_eq!(cycle_resolution(&Vec::new(), 1280, 720, true), None);
}
