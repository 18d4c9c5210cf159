use beetle::audio::AudioClock;
use beetle::score::ClearType;
use std::sync::atomic::{AtomicU64, Ordering};
use std::sync::Arc;

#[test]
fn audio_clock_reads_shared_counter() {
    let counter = Arc::new(AtomicU64::new(0));
    let clock = AudioClock::new(counter.clone(), 44100);
    assert_eq!(clock.sample_rate(), 44100);
    assert_eq!(clock.current_samples(), 0);
    counter.store(88200, Ordering::Relaxed);
    assert_eq!(clock.current_samples(), 88200);
}

#[test]
fn clear_lamps_order_and_names() {
    assert!(ClearType::Failed < ClearType::Clear);
    assert!(ClearType::FullCombo < ClearType::Perfect);
    assert_eq!(ClearType::Clear.as_str(), "CLEARED");
    assert_eq!(ClearType::Perfect.rank(), 3);
}
