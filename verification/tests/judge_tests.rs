use beetle::judge::{GaugeType, JudgeGrade, ScoreTracker};
use beetle::text::Ratio;

fn gauge(t: &ScoreTracker) -> f64 {
    t.gauge_units as f64 / t.units_per_percent as f64
}

#[test]
fn groove_gauge_gains_and_clear() {
    let mut t = ScoreTracker::new(100, Ratio { num: 200, den: 1 }, GaugeType::Groove);
    assert_eq!(gauge(&t), 20.0);
    t.record_hit(JudgeGrade::PerfectGreat);
    assert!((gauge(&t) - 22.0).abs() < 1e-9);
    t.record_hit(JudgeGrade::Great);
    assert!((gauge(&t) - 23.6).abs() < 1e-9);
    t.record_hit(JudgeGrade::Good);
    assert!((gauge(&t) - 24.6).abs() < 1e-9);
    assert_eq!(t.ex_score, 3);
    assert_eq!(t.current_combo, 3);
    t.record_hit(JudgeGrade::Miss);
    assert_eq!(t.current_combo, 0);
    assert_eq!(t.max_combo, 3);
    assert!((gauge(&t) - 19.6).abs() < 1e-9);
    assert!(!t.is_cleared());
}

#[test]
fn groove_gauge_floor_and_cap() {
    let mut t = ScoreTracker::new(1, Ratio { num: 200, den: 1 }, GaugeType::Groove);
    for _ in 0..10 {
        t.record_hit(JudgeGrade::Miss);
    }
    assert_eq!(gauge(&t), 2.0);
    t.record_hit(JudgeGrade::PerfectGreat);
    assert_eq!(gauge(&t), 100.0);
    assert!(t.is_cleared());
}

#[test]
fn hard_gauge_fails_and_freezes() {
    let mut t = ScoreTracker::new(10, Ratio { num: 300, den: 1 }, GaugeType::Hazard);
    assert_eq!(gauge(&t), 100.0);
    t.record_hit(JudgeGrade::Bad);
    assert!(t.is_failed);
    assert_eq!(gauge(&t), 0.0);
    let before = (t.pgreat_count, t.ex_score, t.current_combo);
    t.record_hit(JudgeGrade::PerfectGreat);
    assert_eq!((t.pgreat_count, t.ex_score, t.current_combo), before);
    assert!(!t.is_cleared());
}

#[test]
fn timing_statistics() {
    let mut t = ScoreTracker::new(10, Ratio { num: 200, den: 1 }, GaugeType::Easy);
    t.record_hit_with_delta(JudgeGrade::Great, -10_000);
    t.record_hit_with_delta(JudgeGrade::Great, 5_000);
    t.record_hit_with_delta(JudgeGrade::PerfectGreat, 0);
    t.record_hit_with_delta(JudgeGrade::Good, 100_000);
    t.record_hit_with_delta(JudgeGrade::Poor, -100_000);
    assert_eq!(t.fast_count, 1);
    assert_eq!(t.slow_count, 2);
    assert_eq!(t.timing_histogram[6], 1);
    assert_eq!(t.timing_histogram[9], 1);
    assert_eq!(t.timing_histogram[8], 1);
    assert_eq!(t.timing_histogram[16], 1);
    assert_eq!(t.timing_histogram[0], 0);
}

#[test]
fn rank_and_accuracy() {
    let mut t = ScoreTracker::new(9, Ratio { num: 200, den: 1 }, GaugeType::Groove);
    assert_eq!(t.rank(), "F");
    for _ in 0..8 {
        t.record_hit(JudgeGrade::PerfectGreat);
    }
    assert_eq!(t.max_ex_score(), 18);
    assert_eq!(t.rank(), "AAA");
    let acc = t.accuracy_rate();
    assert_eq!(acc.num as f64 / acc.den as f64, 1600.0 / 18.0);
    t.record_hit(JudgeGrade::PerfectGreat);
    assert_eq!(t.rank(), "MAX");
    let empty = ScoreTracker::new(0, Ratio { num: 200, den: 1 }, GaugeType::Groove);
    assert_eq!(empty.rank(), "F");
    assert_eq!(empty.accuracy_rate(), Ratio { num: 0, den: 1 });
}

#[test]
fn gauge_names() {
    assert_eq!(GaugeType::Hazard.as_str(), "HAZARD");
    assert_eq!(GaugeType::default(), GaugeType::Groove);
    assert_eq!(JudgeGrade::PerfectGreat.ex_score_points(), 2);
    assert_eq!(JudgeGrade::Bad.ex_score_points(), 0);
}
