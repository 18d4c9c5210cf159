use beetle::bms::{Lane, NoteEvent, NoteType};
use beetle::modifier::{apply_lane_modifier, LaneModifier};
use beetle::text::Ratio;
use std::collections::HashSet;

const KEY_LANES: [Lane; 7] =
    [Lane::Key1, Lane::Key2, Lane::Key3, Lane::Key4, Lane::Key5, Lane::Key6, Lane::Key7];

fn note(measure: u32, num: i64, den: u64, lane: Lane, note_type: NoteType) -> NoteEvent {
    NoteEvent { measure, fraction: Ratio { num, den }, lane, wav_id: None, note_type }
}

#[test]
fn test_mirror_modifier() {
    let notes = vec![
        note(1, 0, 1, Lane::Key1, NoteType::Tap),
        note(1, 1, 2, Lane::Scratch, NoteType::Tap),
    ];
    let mirrored = apply_lane_modifier(&notes, LaneModifier::Mirror, 0);
    assert_eq!(mirrored[0].lane, Lane::Key7);
    assert_eq!(mirrored[1].lane, Lane::Scratch);
}

#[test]
fn test_random_modifier_lane_bijectivity() {
    let notes: Vec<NoteEvent> =
        (0..7).map(|i| note(1, i as i64, 10, KEY_LANES[i], NoteType::Tap)).collect();
    let randomized = apply_lane_modifier(&notes, LaneModifier::Random, 42);
    let mut seen = HashSet::new();
    for n in &randomized {
        assert_ne!(n.lane, Lane::Scratch);
        seen.insert(n.lane);
    }
    assert_eq!(seen.len(), 7);
}

#[test]
fn mirror_twice_restores_lanes() {
    let notes: Vec<NoteEvent> =
        (0..7).map(|i| note(2, i as i64, 7, KEY_LANES[i], NoteType::Tap)).collect();
    let once = apply_lane_modifier(&notes, LaneModifier::Mirror, 5);
    let twice = apply_lane_modifier(&once, LaneModifier::Mirror, 9);
    assert_eq!(twice, notes);
}

#[test]
fn regular_keeps_chart() {
    let notes = vec![note(1, 0, 1, Lane::Key3, NoteType::Landmine)];
    assert_eq!(apply_lane_modifier(&notes, LaneModifier::Regular, 77), notes);
}

#[test]
fn rotation_moves_all_keys_by_the_same_step() {
    let notes: Vec<NoteEvent> =
        (0..7).map(|i| note(1, i as i64, 7, KEY_LANES[i], NoteType::Tap)).collect();
    let rotated = apply_lane_modifier(&notes, LaneModifier::RRandom, 1234);
    let pos = |l: Lane| KEY_LANES.iter().position(|k| *k == l).unwrap();
    let shift = (pos(rotated[0].lane) + 7 - 0) % 7;
    assert!(shift >= 1 && shift <= 6);
    for (i, n) in rotated.iter().enumerate() {
        assert_eq!(pos(n.lane), (i + shift) % 7);
    }
}

#[test]
fn srandom_keeps_long_notes_whole_and_scratch_alone() {
    let notes = vec![
        note(1, 0, 4, Lane::Key2, NoteType::LongNoteStart),
        note(1, 1, 4, Lane::Key5, NoteType::Tap),
        note(1, 2, 4, Lane::Scratch, NoteType::Tap),
        note(1, 3, 4, Lane::Key2, NoteType::LongNoteEnd),
    ];
    for seed in [0u64, 1, 42, 987654321] {
        let out = apply_lane_modifier(&notes, LaneModifier::SRandom, seed);
        assert_eq!(out.len(), 4);
        assert_eq!(out[0].lane, out[3].lane);
        assert_eq!(out[2].lane, Lane::Scratch);
        assert_ne!(out[1].lane, Lane::Scratch);
        for (a, b) in out.iter().zip(notes.iter()) {
            assert_eq!((a.measure, a.fraction, a.note_type), (b.measure, b.fraction, b.note_type));
        }
    }
}

#[test]
fn modifier_names() {
    assert_eq!(LaneModifier::RRandom.as_str(), "R-RANDOM");
    assert_eq!(LaneModifier::SRandom.as_str(), "S-RANDOM");
}
