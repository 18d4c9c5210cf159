use beetle::bms::Lane;
use beetle::input::{identifier_to_key_code, key_code_to_identifier, key_code_to_str, InputConfig, KeyCode, PhysicalKey};
use beetle::ui::KeyPreset;

#[test]
fn test_input_presets() {
    let mut config = InputConfig::new(KeyPreset::HomeRow);
    assert_eq!(config.map_key(PhysicalKey::Code(KeyCode::KeyS)), Some(Lane::Key1));
    assert_eq!(config.map_key(PhysicalKey::Code(KeyCode::Space)), Some(Lane::Key4));
    assert_eq!(config.map_key(PhysicalKey::Code(KeyCode::KeyL)), Some(Lane::Key7));

    config.toggle_preset();
    assert_eq!(config.preset, KeyPreset::ArcadeZx);
    assert_eq!(config.map_key(PhysicalKey::Code(KeyCode::KeyZ)), Some(Lane::Key1));
    assert_eq!(config.map_key(PhysicalKey::Code(KeyCode::KeyS)), Some(Lane::Key2));
    assert_eq!(config.map_key(PhysicalKey::Code(KeyCode::KeyV)), Some(Lane::Key7));
}

#[test]
fn test_custom_key_binding() {
    let mut config = InputConfig::new(KeyPreset::HomeRow);
    config.bind_key(KeyCode::KeyA, Lane::Scratch);
    assert_eq!(config.preset, KeyPreset::Custom);
    assert_eq!(config.map_key(PhysicalKey::Code(KeyCode::KeyA)), Some(Lane::Scratch));
    assert_eq!(config.get_key_name_for_lane(Lane::Scratch), "A");
}

#[test]
fn test_binding_serialization_roundtrip() {
    let mut config = InputConfig::new(KeyPreset::HomeRow);
    config.bind_key(KeyCode::KeyA, Lane::Scratch);
    config.bind_key(KeyCode::KeyZ, Lane::Key1);
    config.bind_key(KeyCode::KeyX, Lane::Key2);
    config.bind_key(KeyCode::KeyC, Lane::Key3);
    config.bind_key(KeyCode::Space, Lane::Key4);
    config.bind_key(KeyCode::KeyM, Lane::Key5);
    config.bind_key(KeyCode::Comma, Lane::Key6);
    config.bind_key(KeyCode::Period, Lane::Key7);

    let s = config.serialize_bindings();
    let mut restored = InputConfig::new(KeyPreset::HomeRow);
    restored.deserialize_bindings(&s);

    assert_eq!(restored.preset, KeyPreset::Custom);
    assert_eq!(restored.map_key(PhysicalKey::Code(KeyCode::KeyA)), Some(Lane::Scratch));
    assert_eq!(restored.map_key(PhysicalKey::Code(KeyCode::Comma)), Some(Lane::Key6));
}

#[test]
fn preset_control_key_is_scratch_and_unknown_keys_unmapped() {
    let config = InputConfig::new(KeyPreset::ArcadeZx);
    assert_eq!(config.map_key(PhysicalKey::Code(KeyCode::ControlLeft)), Some(Lane::Scratch));
    assert_eq!(config.map_key(PhysicalKey::Code(KeyCode::ShiftLeft)), Some(Lane::Scratch));
    assert_eq!(config.map_key(PhysicalKey::Code(KeyCode::KeyQ)), None);
    assert_eq!(config.map_key(PhysicalKey::Unidentified), None);
}

#[test]
fn toggle_cycles_through_custom_only_when_bound() {
    let mut config = InputConfig::new(KeyPreset::ArcadeZx);
    config.toggle_preset();
    assert_eq!(config.preset, KeyPreset::HomeRow);
    config.bind_key(KeyCode::KeyQ, Lane::Key3);
    config.reset_to_preset(KeyPreset::ArcadeZx);
    assert!(config.custom_bindings.is_empty());
    config.bind_key(KeyCode::KeyQ, Lane::Key3);
    config.toggle_preset();
    assert_eq!(config.preset, KeyPreset::HomeRow);
    config.toggle_preset();
    config.toggle_preset();
    assert_eq!(config.preset, KeyPreset::Custom);
}

#[test]
fn bind_key_starts_from_layout_and_moves_keys() {
    let mut config = InputConfig::new(KeyPreset::HomeRow);
    config.bind_key(KeyCode::KeyQ, Lane::Key1);
    // The layout's other keys carry over; S no longer plays Key1.
    assert_eq!(config.map_key(PhysicalKey::Code(KeyCode::KeyD)), Some(Lane::Key2));
    assert_eq!(config.map_key(PhysicalKey::Code(KeyCode::KeyS)), None);
    assert_eq!(config.map_key(PhysicalKey::Code(KeyCode::KeyQ)), Some(Lane::Key1));
    // Moving D to Key1 unbinds Q and frees Key2.
    config.bind_key(KeyCode::KeyD, Lane::Key1);
    assert_eq!(config.map_key(PhysicalKey::Code(KeyCode::KeyQ)), None);
    assert_eq!(config.get_key_name_for_lane(Lane::Key2), "None");
    assert_eq!(config.get_key_name_for_lane(Lane::Key1), "D");
    assert_eq!(config.custom_bindings.len(), 7);
}

#[test]
fn key_names_for_layouts() {
    let home = InputConfig::new(KeyPreset::HomeRow);
    assert_eq!(home.get_key_name_for_lane(Lane::Scratch), "LShift");
    assert_eq!(home.get_key_name_for_lane(Lane::Key4), "Space");
    let arcade = InputConfig::new(KeyPreset::ArcadeZx);
    assert_eq!(arcade.get_key_name_for_lane(Lane::Key3), "X");
    let custom = InputConfig::new(KeyPreset::Custom);
    assert_eq!(custom.get_key_name_for_lane(Lane::Key3), "None");
}

#[test]
fn serialize_exact_text_and_blank_input() {
    let mut config = InputConfig::new(KeyPreset::Custom);
    config.bind_key(KeyCode::KeyA, Lane::Scratch);
    config.bind_key(KeyCode::KeyZ, Lane::Key1);
    assert_eq!(config.serialize_bindings(), "Scratch:KeyA,Key1:KeyZ");
    let empty = InputConfig::new(KeyPreset::Custom);
    assert_eq!(empty.serialize_bindings(), "");

    let mut restored = InputConfig::new(KeyPreset::ArcadeZx);
    restored.deserialize_bindings("   ");
    assert_eq!(restored.preset, KeyPreset::ArcadeZx);
    restored.deserialize_bindings("Key9:KeyA,Scratch:Nope,Key2");
    assert!(restored.custom_bindings.is_empty());
    assert_eq!(restored.preset, KeyPreset::ArcadeZx);
    restored.deserialize_bindings("Key2:KeyQ,Key3:KeyQ");
    assert_eq!(restored.preset, KeyPreset::Custom);
    assert_eq!(restored.map_key(PhysicalKey::Code(KeyCode::KeyQ)), Some(Lane::Key3));
}

#[test]
fn key_labels_and_identifiers() {
    assert_eq!(key_code_to_str(KeyCode::ShiftLeft), "LShift");
    assert_eq!(key_code_to_identifier(KeyCode::ShiftLeft), "ShiftLeft");
    assert_eq!(identifier_to_key_code("Comma"), Some(KeyCode::Comma));
    assert_eq!(identifier_to_key_code("NumpadDecimal"), Some(KeyCode::NumpadDecimal));
    assert_eq!(identifier_to_key_code("Unknown"), None);
    assert_eq!(identifier_to_key_code("keya"), None);
}

#[test]
fn default_config_is_home_row() {
    let config = InputConfig::default();
    assert_eq!(config.preset, KeyPreset::HomeRow);
    assert_eq!(config.map_key(PhysicalKey::Code(KeyCode::KeyJ)), Some(Lane::Key5));
}

#[test]
fn text_roundtrip_keeps_every_lane() {
    let mut config = InputConfig::new(KeyPreset::ArcadeZx);
    config.bind_key(KeyCode::Semicolon, Lane::Key7);
    config.bind_key(KeyCode::NumpadDecimal, Lane::Key3);
    let text = config.serialize_bindings();
    assert_eq!(
        text,
        "Scratch:ShiftLeft,Key1:KeyZ,Key2:KeyS,Key3:NumpadDecimal,Key4:KeyD,Key5:KeyC,Key6:KeyF,Key7:Semicolon"
    );
    let mut restored = InputConfig::new(KeyPreset::HomeRow);
    restored.deserialize_bindings(&text);
    for lane in [Lane::Scratch, Lane::Key1, Lane::Key2, Lane::Key3, Lane::Key4, Lane::Key5, Lane::Key6, Lane::Key7] {
        assert_eq!(restored.get_key_name_for_lane(lane), config.get_key_name_for_lane(lane));
    }
    assert_eq!(restored.map_key(PhysicalKey::Code(KeyCode::KeyX)), None);
}

#[test]
fn every_identifier_reads_back() {
    for code in [KeyCode::KeyA, KeyCode::Digit9, KeyCode::Tab, KeyCode::Backquote, KeyCode::NumpadEnter, KeyCode::ArrowUp, KeyCode::AltRight] {
        assert_eq!(identifier_to_key_code(key_code_to_identifier(code)), Some(code));
    }
    assert_eq!(identifier_to_key_code(key_code_to_identifier(KeyCode::F1)), None);
}
