use beetle::bms::{BgaChannel, BgaEvent, BmpId};
use beetle::text::Ratio;
use beetle::video::{fallback_video_ids, fallback_video_names, video_stand_in_names};
use beetle::video::{is_video_path, BgaVideoPlayer};

#[test]
fn test_is_video_path() {
    assert!(is_video_path("bga.mp4"));
    assert!(is_video_path("video.WMV"));
    assert!(is_video_path("folder/movie.avi"));
    assert!(is_video_path("bg.mpg"));
    assert!(is_video_path("movie.webm"));
    assert!(!is_video_path("image.png"));
    assert!(!is_video_path("stage.bmp"));
    assert!(!is_video_path("audio.wav"));
    assert!(!is_video_path("chart.bms"));
}

#[test]
fn test_bga_video_player_nonexistent() {
    let player = BgaVideoPlayer::open("nonexistent_video_file.mp4");
    assert!(player.is_none());
}

#[test]
fn video_path_edge_cases() {
    assert!(!is_video_path(".mp4"));
    assert!(!is_video_path("movie"));
    assert!(is_video_path("dir/movie.mkv/"));
    assert!(is_video_path("dir/movie.MOV/."));
    assert!(!is_video_path("dir/movie.mov/.."));
    assert!(!is_video_path("a.mp4/b"));
    assert!(!is_video_path(""));
    assert!(BgaVideoPlayer::open_from_memory(&[1, 2, 3], Some("clip.mp4")).is_none());
}

#[test]
fn fallback_video_choice() {
    let ev = |ch: BgaChannel, id: u16| BgaEvent { measure: 0, fraction: Ratio { num: 0, den: 1 }, channel: ch, bmp_id: BmpId(id) };
    assert_eq!(fallback_video_ids(&vec![ev(BgaChannel::Poor, 5), ev(BgaChannel::Base, 3), ev(BgaChannel::Base, 7)]), vec![BmpId(3), BmpId(7)]);
    assert_eq!(fallback_video_ids(&vec![ev(BgaChannel::Layer, 2)]), vec![BmpId(1)]);
    let names = video_stand_in_names("bg.v1.bmp");
    assert_eq!(names.len(), 9);
    assert_eq!(names[0], "bg.v1.mp4");
    assert_eq!(names[3], "bg.v1.mpeg");
    assert_eq!(video_stand_in_names("frame")[8], "frame.mkv");
    let f = fallback_video_names("stage.png", "intro.WMV");
    assert_eq!(f[0], "intro.WMV");
    assert_eq!(f[1], "bga.mp4");
    assert_eq!(f.len(), 26);
    assert_eq!(f[25], "bg.mkv");
}
