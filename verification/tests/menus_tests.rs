use beetle::bms::Lane;
use beetle::input::{InputConfig, KeyCode, PhysicalKey};
use beetle::judge::GaugeType;
use beetle::menus::{handle_pause_key, KeyConfigAction, KeyConfigScreen, OptionAction, OptionModal, PauseAction};
use beetle::modifier::LaneModifier;
use beetle::ui::{DisplayMode, KeyPreset};

fn modal() -> OptionModal {
    OptionModal::open_with(LaneModifier::Regular, GaugeType::Groove, DisplayMode::Windowed, 240, false, 0)
}

#[test]
fn option_rows_move_and_clamp() {
    let mut m = modal();
    let mut keys = InputConfig::new(KeyPreset::HomeRow);
    assert_eq!(m.handle_key(&mut keys, KeyCode::ArrowUp), OptionAction::Nothing);
    assert_eq!(m.row, 0);
    for _ in 0..20 {
        m.handle_key(&mut keys, KeyCode::KeyJ);
    }
    assert_eq!(m.row, 11);
    m.handle_key(&mut keys, KeyCode::KeyK);
    assert_eq!(m.row, 10);
}

#[test]
fn option_cycles_modifier_and_gauge() {
    let mut m = modal();
    let mut keys = InputConfig::new(KeyPreset::HomeRow);
    m.handle_key(&mut keys, KeyCode::ArrowDown);
    assert_eq!(m.handle_key(&mut keys, KeyCode::ArrowLeft), OptionAction::Save);
    assert_eq!(m.lane_modifier, LaneModifier::SRandom);
    m.handle_key(&mut keys, KeyCode::ArrowRight);
    m.handle_key(&mut keys, KeyCode::Enter);
    assert_eq!(m.lane_modifier, LaneModifier::Mirror);
    m.handle_key(&mut keys, KeyCode::ArrowDown);
    m.handle_key(&mut keys, KeyCode::ArrowLeft);
    assert_eq!(m.gauge_type, GaugeType::Easy);
    m.handle_key(&mut keys, KeyCode::ArrowLeft);
    assert_eq!(m.gauge_type, GaugeType::Hazard);
}

#[test]
fn option_float_rows_ask_the_caller() {
    let mut m = modal();
    let mut keys = InputConfig::new(KeyPreset::HomeRow);
    assert_eq!(m.handle_key(&mut keys, KeyCode::ArrowRight), OptionAction::HiSpeed(true));
    m.row = 3;
    assert_eq!(m.handle_key(&mut keys, KeyCode::ArrowLeft), OptionAction::JudgeOffset(false));
    m.row = 4;
    assert_eq!(m.handle_key(&mut keys, KeyCode::Space), OptionAction::MasterVolume(true));
    m.row = 5;
    assert_eq!(m.handle_key(&mut keys, KeyCode::ArrowRight), OptionAction::ApplyDisplayMode);
    assert_eq!(m.display_mode, DisplayMode::Borderless);
    m.row = 6;
    assert_eq!(m.handle_key(&mut keys, KeyCode::ArrowLeft), OptionAction::Resolution(false));
    m.row = 7;
    assert_eq!(m.handle_key(&mut keys, KeyCode::ArrowRight), OptionAction::GpuBackend(true));
}

#[test]
fn option_fps_presets_wrap() {
    let mut m = modal();
    let mut keys = InputConfig::new(KeyPreset::HomeRow);
    m.row = 8;
    m.handle_key(&mut keys, KeyCode::ArrowRight);
    assert_eq!(m.target_fps, 360);
    m.handle_key(&mut keys, KeyCode::ArrowRight);
    assert_eq!(m.target_fps, 0);
    m.handle_key(&mut keys, KeyCode::ArrowRight);
    assert_eq!(m.target_fps, 60);
    m.handle_key(&mut keys, KeyCode::ArrowLeft);
    assert_eq!(m.target_fps, 0);
    m.target_fps = 75;
    m.handle_key(&mut keys, KeyCode::ArrowLeft);
    assert_eq!(m.target_fps, 144);
}

#[test]
fn option_key_layout_row() {
    let mut m = modal();
    let mut keys = InputConfig::new(KeyPreset::HomeRow);
    m.row = 9;
    assert_eq!(m.handle_key(&mut keys, KeyCode::ArrowRight), OptionAction::Save);
    assert_eq!(keys.preset, KeyPreset::ArcadeZx);
    assert_eq!(m.handle_key(&mut keys, KeyCode::Enter), OptionAction::OpenKeyConfig);
    assert!(!m.open);
    assert_eq!(keys.preset, KeyPreset::ArcadeZx);
}

#[test]
fn option_auto_play_start_measure_and_close() {
    let mut m = modal();
    let mut keys = InputConfig::new(KeyPreset::HomeRow);
    m.row = 10;
    m.handle_key(&mut keys, KeyCode::ArrowLeft);
    assert!(m.auto_play);
    m.row = 11;
    m.handle_key(&mut keys, KeyCode::ArrowLeft);
    assert_eq!(m.start_measure, 0);
    m.start_measure = 200;
    m.handle_key(&mut keys, KeyCode::ArrowRight);
    assert_eq!(m.start_measure, 200);
    assert_eq!(m.handle_key(&mut keys, KeyCode::KeyQ), OptionAction::Nothing);
    assert_eq!(m.handle_key(&mut keys, KeyCode::Tab), OptionAction::Close);
    assert!(!m.open);
}

#[test]
fn option_right_then_left_restores() {
    let mut keys = InputConfig::new(KeyPreset::HomeRow);
    for row in [0usize, 1, 2, 5, 8, 10, 11] {
        let mut m = modal();
        m.row = row;
        let before = m;
        m.handle_key(&mut keys, KeyCode::ArrowRight);
        m.handle_key(&mut keys, KeyCode::ArrowLeft);
        assert_eq!(m, before);
    }
}

#[test]
fn key_config_rebinds_highlighted_lane() {
    let mut screen = KeyConfigScreen::enter();
    let mut keys = InputConfig::new(KeyPreset::HomeRow);
    assert_eq!(screen.handle_key(&mut keys, false, KeyCode::Enter), KeyConfigAction::Nothing);
    assert!(!screen.rebinding);
    screen.handle_key(&mut keys, true, KeyCode::ArrowDown);
    screen.handle_key(&mut keys, true, KeyCode::ArrowDown);
    assert_eq!(screen.selected, 2);
    screen.handle_key(&mut keys, true, KeyCode::Space);
    assert!(screen.rebinding);
    assert_eq!(screen.handle_key(&mut keys, true, KeyCode::KeyQ), KeyConfigAction::Save);
    assert!(!screen.rebinding);
    assert_eq!(keys.preset, KeyPreset::Custom);
    assert_eq!(keys.map_key(PhysicalKey::Code(KeyCode::KeyQ)), Some(Lane::Key2));
    assert_eq!(keys.map_key(PhysicalKey::Code(KeyCode::KeyD)), None);
}

#[test]
fn key_config_escape_cancels_then_leaves() {
    let mut screen = KeyConfigScreen::enter();
    let mut keys = InputConfig::new(KeyPreset::ArcadeZx);
    screen.handle_key(&mut keys, true, KeyCode::Enter);
    assert_eq!(screen.handle_key(&mut keys, true, KeyCode::Escape), KeyConfigAction::Nothing);
    assert!(!screen.rebinding);
    assert_eq!(keys.preset, KeyPreset::ArcadeZx);
    assert_eq!(screen.handle_key(&mut keys, true, KeyCode::F1), KeyConfigAction::Save);
    assert_eq!(keys.preset, KeyPreset::HomeRow);
    keys.bind_key(KeyCode::KeyA, Lane::Scratch);
    assert_eq!(screen.handle_key(&mut keys, true, KeyCode::Delete), KeyConfigAction::Save);
    assert_eq!(keys.preset, KeyPreset::HomeRow);
    assert!(keys.custom_bindings.is_empty());
    for _ in 0..10 {
        screen.handle_key(&mut keys, true, KeyCode::KeyJ);
    }
    assert_eq!(screen.selected, 7);
    assert_eq!(screen.handle_key(&mut keys, true, KeyCode::Escape), KeyConfigAction::Leave);
}

#[test]
fn pause_overlay_choices() {
    let mut sel: u8 = 0;
    assert_eq!(handle_pause_key(&mut sel, KeyCode::Enter), PauseAction::Resume);
    handle_pause_key(&mut sel, KeyCode::ArrowDown);
    assert_eq!(handle_pause_key(&mut sel, KeyCode::Space), PauseAction::Restart);
    handle_pause_key(&mut sel, KeyCode::KeyJ);
    handle_pause_key(&mut sel, KeyCode::KeyJ);
    assert_eq!(sel, 2);
    assert_eq!(handle_pause_key(&mut sel, KeyCode::Enter), PauseAction::Quit);
    assert_eq!(handle_pause_key(&mut sel, KeyCode::Escape), PauseAction::Resume);
    assert_eq!(handle_pause_key(&mut sel, KeyCode::KeyR), PauseAction::Restart);
    handle_pause_key(&mut sel, KeyCode::KeyK);
    assert_eq!(sel, 1);
    let mut odd: u8 = 9;
    handle_pause_key(&mut odd, KeyCode::ArrowDown);
    assert_eq!(odd, 2);
}

use beetle::library::SortMode;
use beetle::menus::{SongSelect, SongSelectAction};
use beetle::ui::SongCategory;

fn song_select() -> SongSelect {
    SongSelect {
        search_active: false,
        query: String::new(),
        category: SongCategory::All,
        auto_play: false,
        sort_mode: SortMode::Title,
        selected: 0,
    }
}

#[test]
fn song_select_navigation_wraps() {
    let mut s = song_select();
    assert_eq!(s.handle_key(true, KeyCode::ArrowUp, None, 5), SongSelectAction::Nothing);
    assert_eq!(s.selected, 4);
    s.handle_key(true, KeyCode::KeyJ, None, 5);
    assert_eq!(s.selected, 0);
    s.handle_key(true, KeyCode::KeyJ, None, 5);
    assert_eq!(s.selected, 1);
    s.handle_key(true, KeyCode::ArrowUp, None, 0);
    assert_eq!(s.selected, 0);
    s.handle_key(true, KeyCode::ArrowUp, None, 0);
    assert_eq!(s.selected, 0);
    s.handle_key(true, KeyCode::ArrowDown, None, 0);
    assert_eq!(s.selected, 0);
    assert_eq!(s.handle_key(false, KeyCode::ArrowDown, None, 5), SongSelectAction::Nothing);
    assert_eq!(s.selected, 0);
}

#[test]
fn song_select_hotkeys() {
    let mut s = song_select();
    assert_eq!(s.handle_key(true, KeyCode::F1, None, 3), SongSelectAction::Refilter);
    assert_eq!(s.category, SongCategory::ClearStatus);
    s.handle_key(true, KeyCode::F1, None, 3);
    assert_eq!(s.category, SongCategory::Level);
    assert_eq!(s.handle_key(true, KeyCode::F3, None, 3), SongSelectAction::HiSpeed(true));
    assert_eq!(s.handle_key(true, KeyCode::F4, None, 3), SongSelectAction::HiSpeed(false));
    assert_eq!(s.handle_key(true, KeyCode::F2, None, 3), SongSelectAction::Resort);
    assert_eq!(s.sort_mode, SortMode::Level);
    assert_eq!(s.handle_key(true, KeyCode::KeyO, None, 3), SongSelectAction::OpenOptions);
    assert_eq!(s.handle_key(true, KeyCode::KeyR, None, 3), SongSelectAction::PlayReplay);
    assert_eq!(s.handle_key(true, KeyCode::F12, None, 3), SongSelectAction::OpenKeyConfig);
    assert_eq!(s.handle_key(true, KeyCode::Space, None, 3), SongSelectAction::StartSong);
    assert_eq!(s.handle_key(true, KeyCode::F5, None, 3), SongSelectAction::Rescan);
    s.handle_key(true, KeyCode::KeyA, None, 3);
    assert!(s.auto_play);
}

#[test]
fn song_select_search_editing() {
    let mut s = song_select();
    s.handle_key(true, KeyCode::Other(191), Some("/"), 3);
    assert!(s.search_active);
    assert_eq!(s.handle_key(true, KeyCode::KeyD, Some("d"), 3), SongSelectAction::Refilter);
    s.handle_key(true, KeyCode::KeyJ, Some("j\u{7}"), 3);
    s.handle_key(true, KeyCode::Space, Some(" 곡"), 3);
    assert_eq!(s.query, "dj 곡");
    assert_eq!(s.handle_key(true, KeyCode::Backspace, None, 3), SongSelectAction::Refilter);
    assert_eq!(s.query, "dj ");
    assert_eq!(s.handle_key(true, KeyCode::Escape, None, 3), SongSelectAction::Refilter);
    assert_eq!(s.query, "");
    assert!(s.search_active);
    assert_eq!(s.handle_key(true, KeyCode::Backspace, None, 3), SongSelectAction::Refilter);
    assert_eq!(s.handle_key(true, KeyCode::Escape, None, 3), SongSelectAction::Nothing);
    assert!(!s.search_active);
    s.handle_key(true, KeyCode::Slash, None, 3);
    assert!(s.search_active);
    s.handle_key(true, KeyCode::Enter, None, 3);
    assert!(!s.search_active);
}

use beetle::menus::{gameplay_hotkey, lane_for_event, GameplayHotkey};

#[test]
fn gameplay_hotkeys_and_lane_blocking() {
    assert_eq!(gameplay_hotkey(KeyCode::Escape, false), GameplayHotkey::Pause);
    assert_eq!(gameplay_hotkey(KeyCode::Escape, true), GameplayHotkey::Quit);
    assert_eq!(gameplay_hotkey(KeyCode::PageUp, false), GameplayHotkey::HiSpeed(true));
    assert_eq!(gameplay_hotkey(KeyCode::Digit2, false), GameplayHotkey::HiSpeed(false));
    assert_eq!(gameplay_hotkey(KeyCode::F10, true), GameplayHotkey::LaneCover(true));
    assert_eq!(gameplay_hotkey(KeyCode::F11, false), GameplayHotkey::LaneCover(false));
    assert_eq!(gameplay_hotkey(KeyCode::KeyS, false), GameplayHotkey::NotHotkey);
    let keys = InputConfig::new(KeyPreset::HomeRow);
    assert_eq!(lane_for_event(&keys, false, false, PhysicalKey::Code(KeyCode::KeyS)), Some(Lane::Key1));
    assert_eq!(lane_for_event(&keys, true, false, PhysicalKey::Code(KeyCode::KeyS)), None);
    assert_eq!(lane_for_event(&keys, false, true, PhysicalKey::Code(KeyCode::KeyS)), None);
}

use beetle::menus::{result_key, ResultAction};

#[test]
fn result_screen_keys() {
    assert_eq!(result_key(true, KeyCode::Escape), ResultAction::Back);
    assert_eq!(result_key(true, KeyCode::Enter), ResultAction::Back);
    assert_eq!(result_key(true, KeyCode::KeyR), ResultAction::Retry);
    assert_eq!(result_key(true, KeyCode::KeyP), ResultAction::Screenshot);
    assert_eq!(result_key(false, KeyCode::KeyR), ResultAction::Nothing);
    assert_eq!(result_key(true, KeyCode::KeyQ), ResultAction::Nothing);
}

#[test]
fn song_select_page_and_ends() {
    let mut s = song_select();
    s.handle_key(true, KeyCode::PageDown, None, 25);
    assert_eq!(s.selected, 10);
    s.handle_key(true, KeyCode::PageDown, None, 25);
    s.handle_key(true, KeyCode::PageDown, None, 25);
    assert_eq!(s.selected, 24);
    s.handle_key(true, KeyCode::PageUp, None, 25);
    assert_eq!(s.selected, 14);
    s.handle_key(true, KeyCode::PageUp, None, 25);
    s.handle_key(true, KeyCode::PageUp, None, 25);
    assert_eq!(s.selected, 0);
    s.handle_key(true, KeyCode::End, None, 25);
    assert_eq!(s.selected, 24);
    s.handle_key(true, KeyCode::Home, None, 25);
    assert_eq!(s.selected, 0);
    s.handle_key(true, KeyCode::End, None, 0);
    assert_eq!(s.selected, 0);
}

#[test]
fn option_modal_closes_on_o_and_escape() {
    let mut keys = InputConfig::new(KeyPreset::HomeRow);
    let mut m = modal();
    assert_eq!(m.handle_key(&mut keys, KeyCode::KeyO), OptionAction::Close);
    assert!(!m.open);
    let mut m = modal();
    assert_eq!(m.handle_key(&mut keys, KeyCode::Escape), OptionAction::Close);
    assert!(!m.open);
}

use beetle::menus::{handle_global_key, GlobalHotkey};

#[test]
fn global_hotkeys_cycle_settings() {
    let mut g = GaugeType::Groove;
    let mut m = LaneModifier::SRandom;
    assert_eq!(handle_global_key(&mut g, &mut m, true, false, KeyCode::F6), GlobalHotkey::Save);
    assert_eq!(g, GaugeType::Hard);
    assert_eq!(handle_global_key(&mut g, &mut m, true, false, KeyCode::F7), GlobalHotkey::Save);
    assert_eq!(m, LaneModifier::Regular);
    assert_eq!(handle_global_key(&mut g, &mut m, true, false, KeyCode::F8), GlobalHotkey::JudgeOffset(false));
    assert_eq!(handle_global_key(&mut g, &mut m, true, false, KeyCode::F9), GlobalHotkey::JudgeOffset(true));
    assert_eq!(handle_global_key(&mut g, &mut m, true, true, KeyCode::F6), GlobalHotkey::NotHotkey);
    assert_eq!(handle_global_key(&mut g, &mut m, false, false, KeyCode::F6), GlobalHotkey::NotHotkey);
    assert_eq!(handle_global_key(&mut g, &mut m, true, false, KeyCode::KeyS), GlobalHotkey::NotHotkey);
    assert_eq!(g, GaugeType::Hard);
}
