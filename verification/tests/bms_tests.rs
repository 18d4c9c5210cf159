use beetle::bms::{
    decode_base36, decode_hex, header_keys_are_safe, is_measure_line, parse_bms, BgaChannel,
    BgaDefinition, BgaEvent, BmpId, BmsParseError, Lane, NoteEvent, NoteType, PlayMode,
    TimingEvent, TimingEventKind, WavId,
};
use beetle::text::Ratio;

fn val(r: Ratio) -> f64 {
    r.num as f64 / r.den as f64
}

fn note_parts(n: &NoteEvent) -> (u32, f64, Lane, Option<WavId>, NoteType) {
    (n.measure, val(n.fraction), n.lane, n.wav_id, n.note_type)
}

#[derive(Debug, PartialEq)]
enum Kind {
    Bpm(f64),
    Stop(f64),
}

fn timing_parts(t: &TimingEvent) -> (u32, f64, Kind) {
    let k = match t.kind {
        TimingEventKind::BpmChange(r) => Kind::Bpm(val(r)),
        TimingEventKind::StopMeasures(r) => Kind::Stop(val(r)),
    };
    (t.measure, val(t.fraction), k)
}

fn bga_parts(e: &BgaEvent) -> (u32, f64, BgaChannel, BmpId) {
    (e.measure, val(e.fraction), e.channel, e.bmp_id)
}

#[test]
fn test_decode_base36() {
    assert_eq!(decode_base36(b'0', b'0'), None);
    assert_eq!(decode_base36(b'0', b'1'), Some(WavId(1)));
    assert_eq!(decode_base36(b'0', b'9'), Some(WavId(9)));
    assert_eq!(decode_base36(b'0', b'A'), Some(WavId(10)));
    assert_eq!(decode_base36(b'0', b'a'), Some(WavId(10)));
    assert_eq!(decode_base36(b'0', b'Z'), Some(WavId(35)));
    assert_eq!(decode_base36(b'1', b'0'), Some(WavId(36)));
    assert_eq!(decode_base36(b'Z', b'Z'), Some(WavId(35 * 36 + 35)));
    assert_eq!(decode_base36(b'!', b'A'), None);
}

#[test]
fn test_decode_hex() {
    assert_eq!(decode_hex(b'0', b'0'), Some(0));
    assert_eq!(decode_hex(b'9', b'6'), Some(150));
    assert_eq!(decode_hex(b'F', b'F'), Some(255));
    assert_eq!(decode_hex(b'g', b'0'), None);
}

#[test]
fn test_parse_bms_header() {
    let bms = r#"
#PLAYER 1
#GENRE Hardcore
#TITLE Spica
#SUBTITLE (Original Mix)
#ARTIST void
#BPM 175.5
#PLAYLEVEL 10
#RANK 1
#TOTAL 300
#STAGEFILE bg.png
#BANNER banner.png
#LNOBJ 0Z
#WAV01 kick.wav
#WAV02 snare.wav
#BPM01 190.0
#STOP01 192
"#;
    let chart = parse_bms(bms).expect("Failed to parse header");
    assert_eq!(chart.header.title, "Spica");
    assert_eq!(chart.header.subtitle, "(Original Mix)");
    assert_eq!(chart.header.artist, "void");
    assert_eq!(val(chart.header.bpm), 175.5);
    assert_eq!(chart.header.play_level, 10);
    assert_eq!(val(chart.header.total), 300.0);
    assert_eq!(chart.header.ln_obj, Some(WavId(35)));
    assert_eq!(chart.header.wav_table.get(&WavId(1)), Some(&"kick.wav".to_string()));
    assert_eq!(chart.header.bpm_table.get(&WavId(1)).map(|r| val(*r)), Some(190.0));
    assert_eq!(chart.header.stop_table.get(&WavId(1)).map(|r| val(*r)), Some(192.0));
}

#[test]
fn test_parse_bms_notes_and_timing() {
    let bms = r#"
#BPM 150
#BPM01 200
#STOP01 96
#00102:0.75
#00101:01000200
#00103:96
#00108:0001
#00109:00000100
#00111:0100
#00116:0002
"#;
    let chart = parse_bms(bms).expect("Failed to parse notes");
    assert_eq!(chart.measure_lengths.get(&1u32).map(|r| val(*r)), Some(0.75));

    assert_eq!(chart.bgm_notes.len(), 2);
    let b0 = chart.bgm_notes[0];
    let b1 = chart.bgm_notes[1];
    assert_eq!((b0.0, val(b0.1), b0.2), (1, 0.0, WavId(1)));
    assert_eq!((b1.0, val(b1.1), b1.2), (1, 0.5, WavId(2)));

    assert_eq!(chart.timing_events.len(), 3);
    assert_eq!(timing_parts(&chart.timing_events[0]), (1, 0.0, Kind::Bpm(150.0)));
    assert_eq!(timing_parts(&chart.timing_events[1]), (1, 0.5, Kind::Bpm(200.0)));
    assert_eq!(timing_parts(&chart.timing_events[2]), (1, 0.5, Kind::Stop(0.5)));

    assert_eq!(chart.notes.len(), 2);
    assert_eq!(
        note_parts(&chart.notes[0]),
        (1, 0.0, Lane::Key1, Some(WavId(1)), NoteType::Tap)
    );
    assert_eq!(
        note_parts(&chart.notes[1]),
        (1, 0.5, Lane::Scratch, Some(WavId(2)), NoteType::Tap)
    );
}

#[test]
fn test_parse_long_notes_lntype1() {
    let bms = "\n#00151:01000000\n#00251:01000000\n";
    let chart = parse_bms(bms).expect("Failed to parse LN");
    assert_eq!(chart.notes.len(), 2);
    assert_eq!(chart.notes[0].note_type, NoteType::LongNoteStart);
    assert_eq!(chart.notes[0].measure, 1);
    assert_eq!(chart.notes[1].note_type, NoteType::LongNoteEnd);
    assert_eq!(chart.notes[1].measure, 2);
}

#[test]
fn test_parse_long_notes_lnobj() {
    let bms = "\n#LNOBJ ZZ\n#00111:01000000\n#00211:ZZ000000\n";
    let chart = parse_bms(bms).expect("Failed to parse LNOBJ");
    assert_eq!(chart.notes.len(), 2);
    assert_eq!(chart.notes[0].note_type, NoteType::LongNoteStart);
    assert_eq!(chart.notes[1].note_type, NoteType::LongNoteEnd);
    assert_eq!(chart.notes[1].wav_id, None);
}

#[test]
fn test_two_pass_parsing_and_bottom_definitions() {
    let bms = r#"
#PLAYER 1
#00211:01000000
#00111:02000000
#00108:01
#00209:02
#WAV01 kick.wav
#WAV02 ln_start.wav
#WAVFF ln_end.wav
#BPM01 175.5
#STOP02 96
#LNOBJ FF
#DIFFICULTY 4
#LNTYPE 2
"#;
    let chart = parse_bms(bms).expect("Failed to parse two-pass BMS");
    assert_eq!(chart.header.difficulty, Some(4));
    assert_eq!(chart.header.lntype, 2);
    assert_eq!(chart.header.ln_obj, Some(WavId(15 * 36 + 15)));
    assert_eq!(chart.timing_events.len(), 2);
    assert_eq!(chart.timing_events[0].measure, 1);
    assert_eq!(timing_parts(&chart.timing_events[0]).2, Kind::Bpm(175.5));
    assert_eq!(chart.timing_events[1].measure, 2);
    assert_eq!(timing_parts(&chart.timing_events[1]).2, Kind::Stop(96.0 / 192.0));
}

#[test]
fn test_detect_play_mode() {
    let bms_5k = "\n#PLAYER 1\n#00111:01000000\n#00116:02000000\n";
    let chart_5k = parse_bms(bms_5k).unwrap();
    assert_eq!(chart_5k.detect_play_mode(), PlayMode::Keys5);

    let bms_7k = "\n#PLAYER 1\n#00118:01000000\n";
    let chart_7k = parse_bms(bms_7k).unwrap();
    assert_eq!(chart_7k.detect_play_mode(), PlayMode::Keys7);

    let bms_10k = "\n#PLAYER 2\n#00111:01000000\n";
    let chart_10k = parse_bms(bms_10k).unwrap();
    assert_eq!(chart_10k.detect_play_mode(), PlayMode::Keys10);

    let bms_14k = "\n#PLAYER 2\n#00118:01000000\n";
    let chart_14k = parse_bms(bms_14k).unwrap();
    assert_eq!(chart_14k.detect_play_mode(), PlayMode::Keys14);

    let bms_dp3 = "\n#PLAYER 3\n#00118:01000000\n";
    let chart_dp3 = parse_bms(bms_dp3).unwrap();
    assert_eq!(chart_dp3.detect_play_mode(), PlayMode::Keys14);

    let bms_pms = "\n#PLAYER 1\n#00111:01000000\n#00122:02000000\n";
    let chart_pms = parse_bms(bms_pms).unwrap();
    assert_eq!(chart_pms.detect_play_mode(), PlayMode::Keys9);

    let chart_pms_hint = parse_bms(bms_7k).unwrap();
    assert_eq!(chart_pms_hint.detect_play_mode_with_hint(true), PlayMode::Keys9);
}

#[test]
fn test_2p_and_invisible_notes_handling() {
    let bms = r#"
#PLAYER 3
#00111:01000000
#00121:02000000
#00131:03000000
#00161:04000000
#00161:00000000
"#;
    let chart = parse_bms(bms).expect("Failed to parse DP chart with invisible notes");
    assert_eq!(chart.notes.len(), 1);
    assert_eq!(chart.bgm_notes.len(), 3);
    assert_eq!(chart.total_notes_count, 3);
    assert_eq!(chart.detect_play_mode(), PlayMode::Keys10);
}

#[test]
fn test_parse_bga_events_and_definitions() {
    let bms = r#"
#BMP01 bg.bmp
#BMP02 miss.bmp
#BMP03 overlay.bmp
#BGA04 01 0 0 256 256 0 0
#00104:01000000
#00106:02000000
#00107:03000000
"#;
    let chart = parse_bms(bms).expect("Failed to parse BGA");
    assert_eq!(chart.header.bmp_table.len(), 3);
    assert_eq!(chart.header.bmp_table.get(&BmpId(1)), Some(&"bg.bmp".to_string()));
    assert_eq!(
        chart.header.bga_table.get(&BmpId(4)),
        Some(&BgaDefinition { bmp_id: BmpId(1), sx: 0, sy: 0, w: 256, h: 256, dx: 0, dy: 0 })
    );
    assert_eq!(chart.bga_events.len(), 3);
    assert_eq!(bga_parts(&chart.bga_events[0]), (1, 0.0, BgaChannel::Base, BmpId(1)));
    assert_eq!(bga_parts(&chart.bga_events[1]), (1, 0.0, BgaChannel::Poor, BmpId(2)));
    assert_eq!(bga_parts(&chart.bga_events[2]), (1, 0.0, BgaChannel::Layer, BmpId(3)));
}

#[test]
fn empty_chart_is_rejected() {
    assert!(matches!(parse_bms(""), Err(BmsParseError::EmptyChart)));
    assert!(matches!(parse_bms("  \n\t \r\n"), Err(BmsParseError::EmptyChart)));
}

#[test]
fn measure_line_with_short_tag_is_rejected() {
    match parse_bms("#001 1:0101") {
        Err(BmsParseError::InvalidMeasure(tag)) => assert_eq!(tag, "001"),
        other => panic!("unexpected {:?}", other.map(|c| c.notes.len())),
    }
}

#[test]
fn measure_line_recognition() {
    assert!(is_measure_line("00111:01"));
    assert!(is_measure_line("00111 01"));
    assert!(!is_measure_line("WAV01 a.wav"));
    assert!(!is_measure_line("0011:01"));
    assert!(is_measure_line("001é:01"));
}

#[test]
fn notes_come_out_in_time_order() {
    let bms = "#00211:01\n#00112:0001\n#00111:0100\n#00116:01\n";
    let chart = parse_bms(bms).unwrap();
    let order: Vec<(u32, f64, Lane)> =
        chart.notes.iter().map(|n| (n.measure, val(n.fraction), n.lane)).collect();
    assert_eq!(
        order,
        vec![(1, 0.0, Lane::Scratch), (1, 0.0, Lane::Key1), (1, 0.5, Lane::Key2), (2, 0.0, Lane::Key1)]
    );
}

#[test]
fn header_keys_safety_check() {
    assert!(header_keys_are_safe("#TITLE x\n#WAV01 a.wav\n"));
    assert!(!header_keys_are_safe("#W\u{d55c}X value\n"));
    assert!(!header_keys_are_safe("#\u{d55c}\u{d55c} value\n"));
    assert!(header_keys_are_safe("#\u{d55c} value\n"));
}

#[test]
fn stop_units_are_quarter_of_a_beat_192nds() {
    let chart = parse_bms("#STOP0A 48\n#00109:0A\n").unwrap();
    assert_eq!(timing_parts(&chart.timing_events[0]).2, Kind::Stop(0.25));
}

#[test]
fn header_numbers_in_exponent_form() {
    let chart = parse_bms("#BPM 1.5e2\n#TOTAL 3E2\n#BPM01 1e-1\n#00102:7.5e-1\n").expect("chart");
    assert_eq!(val(chart.header.bpm), 150.0);
    assert_eq!(val(chart.header.total), 300.0);
    assert_eq!(chart.header.bpm_table.get(&WavId(1)).map(|r| val(*r)), Some(0.1));
    assert_eq!(chart.measure_lengths.get(&1u32).map(|r| val(*r)), Some(0.75));
}
