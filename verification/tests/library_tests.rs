use beetle::library::{compute_chart_hash, escape_field, unescape_field, SortMode};

#[test]
fn test_fnv1a_hash() {
    let h1 = compute_chart_hash(b"hello world");
    let h2 = compute_chart_hash(b"hello world");
    let h3 = compute_chart_hash(b"hello beetle");
    assert_eq!(h1, h2);
    assert_ne!(h1, h3);
}

#[test]
fn fnv1a_known_values() {
    assert_eq!(compute_chart_hash(b""), 0xcbf29ce484222325);
    assert_eq!(compute_chart_hash(b"a"), 0xaf63dc4c8601ec8c);
    assert_eq!(compute_chart_hash(b"foobar"), 0x85944171f73967e8);
}

#[test]
fn escape_roundtrip() {
    for s in ["plain", "tab\there", "line\nbreak", "back\\slash", "mix\\\t\n end", ""] {
        assert_eq!(unescape_field(&escape_field(s)), s);
    }
    assert_eq!(escape_field("a\tb\nc\\d"), "a\\tb\\nc\\\\d");
}

#[test]
fn escape_roundtrip_fails_for_backslash_n() {
    assert_ne!(unescape_field(&escape_field("\\n")), "\\n");
}

#[test]
fn sort_mode_cycle() {
    let mut m = SortMode::Title;
    for _ in 0..5 {
        m = m.next();
    }
    assert_eq!(m, SortMode::Title);
    assert_eq!(SortMode::ClearLamp.as_str(), "CLEAR LAMP");
}

use beetle::bms::PlayMode;
use beetle::library::{clamp_selection, contains_chars, filter_song_indices, select_listed, SongEntry};
use beetle::ui::SongCategory;

fn entry(title: &str, artist: &str, genre: &str, play_mode: PlayMode, is_demo: bool, has_score: bool) -> SongEntry {
    SongEntry {
        title: title.to_string(),
        artist: artist.to_string(),
        genre: genre.to_string(),
        play_mode,
        is_demo,
        has_score,
    }
}

fn library_songs() -> Vec<SongEntry> {
    vec![
        entry("Beetle Demo Track", "Beetle Sound Team", "Minimal Rhythm", PlayMode::Keys7, true, false),
        entry("First Anthem", "Sound Artist", "Trance", PlayMode::Keys7, false, false),
        entry("Second Beat", "DJ Beat", "Hardcore", PlayMode::Keys5, false, false),
    ]
}

#[test]
fn test_search_and_category_filtering() {
    let songs = library_songs();

    let all_indices = filter_song_indices(&songs, "", SongCategory::All);
    assert!(all_indices.len() >= 2);

    let anthem_indices = filter_song_indices(&songs, "anthem", SongCategory::All);
    assert_eq!(anthem_indices.len(), 1);
    assert_eq!(songs[anthem_indices[0]].title, "First Anthem");

    let artist_indices = filter_song_indices(&songs, "dj beat", SongCategory::All);
    assert_eq!(artist_indices.len(), 1);
    assert_eq!(songs[artist_indices[0]].title, "Second Beat");

    let genre_indices = filter_song_indices(&songs, "hardcore", SongCategory::All);
    assert_eq!(genre_indices.len(), 1);
    assert_eq!(songs[genre_indices[0]].title, "Second Beat");

    let empty_indices = filter_song_indices(&songs, "nonexistentxyz", SongCategory::All);
    assert_eq!(empty_indices.len(), 0);
}

#[test]
fn filter_by_category_and_query_case() {
    let mut songs = library_songs();
    songs.push(entry("Double Play", "X", "Y", PlayMode::Keys14, false, true));
    assert_eq!(filter_song_indices(&songs, "", SongCategory::Keys5), vec![0, 2]);
    assert_eq!(filter_song_indices(&songs, "", SongCategory::Keys7), vec![0, 1]);
    assert_eq!(filter_song_indices(&songs, "", SongCategory::Keys14), vec![3]);
    assert_eq!(filter_song_indices(&songs, "", SongCategory::Keys9), Vec::<usize>::new());
    assert_eq!(filter_song_indices(&songs, "", SongCategory::ClearStatus), vec![0, 3]);
    assert_eq!(filter_song_indices(&songs, "  BEAT ", SongCategory::All), vec![2]);
    assert_eq!(filter_song_indices(&songs, "  ", SongCategory::Level), vec![0, 1, 2, 3]);
}

#[test]
fn substring_and_selection_clamp() {
    let s: Vec<char> = "abcabd".chars().collect();
    assert!(contains_chars(&s, &"abd".chars().collect()));
    assert!(contains_chars(&s, &Vec::new()));
    assert!(!contains_chars(&s, &"abe".chars().collect()));
    assert!(!contains_chars(&"ab".chars().collect(), &"abc".chars().collect()));
    assert_eq!(clamp_selection(5, 3), 2);
    assert_eq!(clamp_selection(1, 3), 1);
    assert_eq!(clamp_selection(7, 0), 0);
}

#[test]
fn select_listed_uses_given_lowercase() {
    let songs = library_songs();
    let lowered: Vec<(String, String, String)> = vec![
        ("beetle demo track".to_string(), "beetle sound team".to_string(), "minimal rhythm".to_string()),
        ("first anthem".to_string(), "sound artist".to_string(), "trance".to_string()),
        ("second beat".to_string(), "dj beat".to_string(), "hardcore".to_string()),
    ];
    assert_eq!(select_listed(&songs, &lowered, " sound ", SongCategory::All), vec![0, 1]);
    assert_eq!(select_listed(&songs, &lowered, "sound", SongCategory::Keys5), vec![0]);
    assert_eq!(select_listed(&songs, &lowered, "", SongCategory::Keys9), Vec::<usize>::new());
}
