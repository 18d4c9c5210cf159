//! Judgement grades and the score tracker: counts, combo, EX score, the
//! health gauge of each gauge type, and the timing distribution.
//!
//! The gauge is kept exactly: `gauge_units / units_per_percent` percent,
//! with a unit fine enough that every gain and penalty is a whole number of
//! units. Timing deltas are whole microseconds.

use vstd::prelude::*;
use crate::text::Ratio;

verus! {

/// Judgement ratings for note hits.
#[derive(Debug, Clone, Copy, PartialEq, Eq, Structural, PartialOrd, Ord, Hash)]
pub enum JudgeGrade {
    PerfectGreat,
    Great,
    Good,
    Bad,
    Poor,
    Miss,
}

/// EX score points of a grade: 2 for a perfect great, 1 for a great.
pub open spec fn ex_points(g: JudgeGrade) -> int {
    match g {
        JudgeGrade::PerfectGreat => 2,
        JudgeGrade::Great => 1,
        _ => 0,
    }
}

impl JudgeGrade {
    pub fn ex_score_points(self) -> (r: u32)
        ensures
            r == ex_points(self),
    {
        match self {
            JudgeGrade::PerfectGreat => 2,
            JudgeGrade::Great => 1,
            _ => 0,
        }
    }
}

/// Gauge difficulty / health drain type.
#[derive(Debug, Clone, Copy, PartialEq, Eq, Structural, Default)]
pub enum GaugeType {
    Easy,
    #[default]
    Groove,
    Hard,
    Hazard,
}

pub open spec fn gauge_name(g: GaugeType) -> &'static str {
    match g {
        GaugeType::Easy => "EASY",
        GaugeType::Groove => "GROOVE",
        GaugeType::Hard => "HARD",
        GaugeType::Hazard => "HAZARD",
    }
}

impl GaugeType {
    pub fn as_str(self) -> (s: &'static str)
        ensures
            s@ == gauge_name(self)@,
    {
        match self {
            GaugeType::Easy => "EASY",
            GaugeType::Groove => "GROOVE",
            GaugeType::Hard => "HARD",
            GaugeType::Hazard => "HAZARD",
        }
    }
}

/// Hard and hazard gauges fail at zero and never recover.
pub open spec fn is_survival(g: GaugeType) -> bool {
    g == GaugeType::Hard || g == GaugeType::Hazard
}

/// Penalty of a bad, poor or miss, in tenths of a percent.
pub open spec fn penalty_tenths(g: GaugeType, grade: JudgeGrade) -> int {
    match grade {
        JudgeGrade::Bad => match g {
            GaugeType::Easy => 16,
            GaugeType::Groove => 20,
            GaugeType::Hard => 50,
            GaugeType::Hazard => 1000,
        },
        JudgeGrade::Poor => match g {
            GaugeType::Easy => 24,
            GaugeType::Groove => 30,
            GaugeType::Hard => 90,
            GaugeType::Hazard => 1000,
        },
        _ => match g {
            GaugeType::Easy => 40,
            GaugeType::Groove => 50,
            GaugeType::Hard => 100,
            GaugeType::Hazard => 1000,
        },
    }
}

/// The timing histogram bin of a delta: 5 ms buckets from -42.5 ms, the
/// outermost buckets taking everything beyond.
pub open spec fn histogram_bin(delta_us: int) -> int {
    let b = (delta_us + 42500) / 5000;
    if b < 0 {
        0
    } else if b > 16 {
        16
    } else {
        b
    }
}

/// Tracks score, combo, EX score, accuracy, health gauge and timing
/// distribution.
#[derive(Debug, Clone)]
pub struct ScoreTracker {
    pub pgreat_count: u32,
    pub great_count: u32,
    pub good_count: u32,
    pub bad_count: u32,
    pub poor_count: u32,
    pub miss_count: u32,
    pub current_combo: u32,
    pub max_combo: u32,
    pub ex_score: u32,
    pub total_notes: u32,
    /// The gauge is `gauge_units / units_per_percent` percent.
    pub gauge_units: i128,
    pub units_per_percent: i128,
    pub gauge_type: GaugeType,
    pub is_failed: bool,
    pub fast_count: u32,
    pub slow_count: u32,
    /// -40 ms .. +40 ms in 5 ms buckets.
    pub timing_histogram: [u32; 17],
    /// Gauge gain of a perfect great, a great and a good, in gauge units.
    pub gauge_gain_pgreat: i128,
    pub gauge_gain_great: i128,
    pub gauge_gain_good: i128,
}

/// The gauge gain of a perfect great in units of `1/(50 * den * n)` percent:
/// `TOTAL / n` percent, 1.2 times that on the easy gauge.
pub open spec fn pgreat_gain(total: Ratio, g: GaugeType) -> int {
    if g == GaugeType::Easy {
        60 * total.num
    } else {
        50 * total.num
    }
}

/// `TOTAL`, or 200 where it is not positive.
pub open spec fn effective_total(total: Ratio) -> Ratio {
    if total.num <= 0 {
        Ratio { num: 200, den: 1 }
    } else {
        total
    }
}

/// `after` is the tracker once `before` records `grade` hit `delta_us`
/// microseconds early (negative) or late: a failed hard or hazard gauge takes
/// no more records; otherwise counts, EX score, combo, timing statistics and
/// gauge move by the grade and nothing else changes.
pub open spec fn hit_recorded(before: ScoreTracker, after: ScoreTracker, grade: JudgeGrade, delta_us: int) -> bool {
    &&& (before.is_failed && is_survival(before.gauge_type) ==> after == before)
    &&& (!(before.is_failed && is_survival(before.gauge_type)) ==> {
                &&& after.pgreat_count == before.pgreat_count + one_if(grade == JudgeGrade::PerfectGreat)
                &&& after.great_count == before.great_count + one_if(grade == JudgeGrade::Great)
                &&& after.good_count == before.good_count + one_if(grade == JudgeGrade::Good)
                &&& after.bad_count == before.bad_count + one_if(grade == JudgeGrade::Bad)
                &&& after.poor_count == before.poor_count + one_if(grade == JudgeGrade::Poor)
                &&& after.miss_count == before.miss_count + one_if(grade == JudgeGrade::Miss)
                &&& after.ex_score == before.ex_score + ex_points(grade)
                &&& after.current_combo == (if keeps_combo(grade) { before.current_combo + 1 } else { 0 })
                &&& after.max_combo == (if after.current_combo > before.max_combo {
                    after.current_combo
                } else {
                    before.max_combo
                })
                &&& after.fast_count == before.fast_count + one_if(is_timed(grade) && delta_us < -4000)
                &&& after.slow_count == before.slow_count + one_if(is_timed(grade) && delta_us > 4000)
                &&& after.timing_histogram@ == (if is_timed(grade) {
                    before.timing_histogram@.update(
                        histogram_bin(delta_us),
                        (before.timing_histogram@[histogram_bin(delta_us)] + 1) as u32,
                    )
                } else {
                    before.timing_histogram@
                })
                &&& after.gauge_units == gauge_after(
                    before.gauge_units as int,
                    gauge_delta(before, grade),
                    before.gauge_type,
                    before.units_per_percent as int,
                )
                &&& after.is_failed == (is_survival(before.gauge_type) && before.gauge_units + gauge_delta(before, grade) <= 0)
                &&& after.total_notes == before.total_notes
                &&& after.gauge_type == before.gauge_type
                &&& after.units_per_percent == before.units_per_percent
                &&& after.gauge_gain_pgreat == before.gauge_gain_pgreat
                &&& after.gauge_gain_great == before.gauge_gain_great
                &&& after.gauge_gain_good == before.gauge_gain_good
            })
}

impl ScoreTracker {
    /// What holds of every tracker: the gauge stays within 2%..100% (0%..100%
    /// for hard and hazard gauges), a gauge is failed exactly when it is a
    /// hard or hazard gauge at 0%, the EX score is two per perfect great plus one per great, and
    /// the best combo is at least the current one.
    pub open spec fn invariants(&self) -> bool {
        let u = self.units_per_percent;
        &&& u >= 50
        &&& u <= 50 * 0xffff_ffff_ffff_ffff * 0xffff_ffff
        &&& if is_survival(self.gauge_type) {
            0 <= self.gauge_units <= 100 * u
        } else {
            2 * u <= self.gauge_units <= 100 * u
        }
        &&& (self.is_failed <==> is_survival(self.gauge_type) && self.gauge_units == 0)
        &&& self.ex_score == 2 * self.pgreat_count + self.great_count
        &&& self.current_combo <= self.max_combo
    }

    /// The invariants and the bounds of the gauge gains.
    pub open spec fn wf(&self) -> bool {
        &&& self.invariants()
        &&& 0 <= self.gauge_gain_good <= self.gauge_gain_great <= self.gauge_gain_pgreat <= 60 * 0x7fff_ffff_ffff_ffff
    }



    /// The gauge in percent, as an exact fraction.
    pub open spec fn gauge_percent(&self) -> (int, int) {
        (self.gauge_units as int, self.units_per_percent as int)
    }

    /// A tracker for a chart of `total_notes` notes with `#TOTAL` `total`.
    /// Groove and easy gauges start at 20%, hard and hazard at 100%. A
    /// perfect great gains `TOTAL / notes` percent (1.2 times that on the easy
    /// gauge), a great four fifths of that and a good half of it.
    pub fn new(total_notes: u32, total: Ratio, gauge_type: GaugeType) -> (t: Self)
        requires
            total.den >= 1,
        ensures
            t.wf(),
            t.invariants(),
            t.total_notes == total_notes,
            t.gauge_type == gauge_type,
            t.units_per_percent == 50 * effective_total(total).den * (if total_notes == 0 { 1 } else { total_notes as int }),
            t.gauge_units == (if is_survival(gauge_type) { 100int } else { 20int }) * t.units_per_percent,
            t.gauge_gain_pgreat == pgreat_gain(effective_total(total), gauge_type),
            t.gauge_gain_great == t.gauge_gain_pgreat * 4 / 5,
            t.gauge_gain_good == t.gauge_gain_pgreat / 2,
            t.gauge_gain_pgreat * (if total_notes == 0 { 1 } else { total_notes as int }) * effective_total(total).den * 5
                == (if gauge_type == GaugeType::Easy { 6int } else { 5int }) * effective_total(total).num * t.units_per_percent,
            t.pgreat_count == 0 && t.great_count == 0 && t.good_count == 0,
            t.bad_count == 0 && t.poor_count == 0 && t.miss_count == 0,
            t.current_combo == 0 && t.max_combo == 0 && t.ex_score == 0,
            t.fast_count == 0 && t.slow_count == 0,
            !t.is_failed,
            forall|i: int| 0 <= i < 17 ==> t.timing_histogram@[i] == 0,
    {
        let n: i128 = if total_notes == 0 { 1 } else { total_notes as i128 };
        let eff = if total.num <= 0 { Ratio { num: 200, den: 1 } } else { total };
        assert(50 * eff.den * n <= 50 * 0xffff_ffff_ffff_ffff * 0xffff_ffff) by (nonlinear_arith)
            requires
                1 <= eff.den <= 0xffff_ffff_ffff_ffff,
                1 <= n <= 0xffff_ffff;
        let d: i128 = 50 * (eff.den as i128);
        let unit: i128 = d * n;
        assert(unit >= 50) by (nonlinear_arith)
            requires
                unit == 50 * eff.den * n,
                1 <= eff.den,
                1 <= n;
        let gain_pgreat: i128 = if gauge_type == GaugeType::Easy {
            60 * (eff.num as i128)
        } else {
            50 * (eff.num as i128)
        };
        assert(gain_pgreat * n * eff.den * 5 == (if gauge_type == GaugeType::Easy { 6int } else { 5int }) * eff.num * unit)
            by (nonlinear_arith)
            requires
                unit == 50 * eff.den * n,
                gain_pgreat == (if gauge_type == GaugeType::Easy { 60 * eff.num } else { 50 * eff.num });
        let gain_great = gain_pgreat * 4 / 5;
        let gain_good = gain_pgreat / 2;
        let initial = match gauge_type {
            GaugeType::Easy | GaugeType::Groove => 20 * unit,
            GaugeType::Hard | GaugeType::Hazard => 100 * unit,
        };
        ScoreTracker {
            pgreat_count: 0,
            great_count: 0,
            good_count: 0,
            bad_count: 0,
            poor_count: 0,
            miss_count: 0,
            current_combo: 0,
            max_combo: 0,
            ex_score: 0,
            total_notes,
            gauge_units: initial,
            units_per_percent: unit,
            gauge_type,
            is_failed: false,
            fast_count: 0,
            slow_count: 0,
            timing_histogram: [0; 17],
            gauge_gain_pgreat: gain_pgreat,
            gauge_gain_great: gain_great,
            gauge_gain_good: gain_good,
        }
    }
}


/// The gauge change of a grade on tracker `t`, in gauge units.
pub open spec fn gauge_delta(t: ScoreTracker, grade: JudgeGrade) -> int {
    match grade {
        JudgeGrade::PerfectGreat => t.gauge_gain_pgreat as int,
        JudgeGrade::Great => t.gauge_gain_great as int,
        JudgeGrade::Good => t.gauge_gain_good as int,
        _ => -(penalty_tenths(t.gauge_type, grade) * (t.units_per_percent / 10)),
    }
}

/// The gauge after adding `delta` units: capped at 100%, held at 2% for
/// groove and easy gauges, and failed at 0% for hard and hazard gauges.
pub open spec fn gauge_after(g: int, delta: int, ty: GaugeType, u: int) -> int {
    let x = if g + delta > 100 * u {
        100 * u
    } else {
        g + delta
    };
    if is_survival(ty) {
        if x <= 0 {
            0
        } else {
            x
        }
    } else if x < 2 * u {
        2 * u
    } else {
        x
    }
}

/// Whether a grade continues the combo.
pub open spec fn keeps_combo(g: JudgeGrade) -> bool {
    g == JudgeGrade::PerfectGreat || g == JudgeGrade::Great || g == JudgeGrade::Good
}

/// Whether a grade is timed (enters the fast/slow counts and the histogram).
pub open spec fn is_timed(g: JudgeGrade) -> bool {
    g != JudgeGrade::Miss && g != JudgeGrade::Poor
}

/// `1` where `b` holds, else `0`.
pub open spec fn one_if(b: bool) -> int {
    if b {
        1
    } else {
        0
    }
}

fn scaled_penalty(p: i128, tenth: i128) -> (r: i128)
    requires
        0 <= p <= 1000,
        0 <= tenth <= 5 * 0xffff_ffff_ffff_ffff * 0xffff_ffff,
    ensures
        r == -(p * tenth),
        -1000 * tenth <= r <= 0,
{
    assert(0 <= p * tenth <= 1000 * tenth) by (nonlinear_arith)
        requires
            0 <= p <= 1000,
            0 <= tenth;
    -(p * tenth)
}

impl ScoreTracker {
    /// Room in every counter for one more judgement.
    pub open spec fn can_record(&self) -> bool {
        &&& self.pgreat_count < u32::MAX / 2
        &&& self.great_count < u32::MAX / 2
        &&& self.good_count < u32::MAX
        &&& self.bad_count < u32::MAX
        &&& self.poor_count < u32::MAX
        &&& self.miss_count < u32::MAX
        &&& self.ex_score <= u32::MAX - 2
        &&& self.current_combo < u32::MAX
        &&& self.fast_count < u32::MAX
        &&& self.slow_count < u32::MAX
        &&& forall|i: int| 0 <= i < 17 ==> #[trigger] self.timing_histogram@[i] < u32::MAX
    }

    fn apply_gauge_delta(&mut self, delta: i128)
        requires
            50 <= old(self).units_per_percent <= 50 * 0xffff_ffff_ffff_ffff * 0xffff_ffff,
            -100 * old(self).units_per_percent <= old(self).gauge_units <= 100 * old(self).units_per_percent,
            !old(self).is_failed,
            -100 * old(self).units_per_percent <= delta <= 60 * 0x7fff_ffff_ffff_ffff,
        ensures
            final(self).gauge_units == gauge_after(old(self).gauge_units as int, delta as int, old(self).gauge_type, old(self).units_per_percent as int),
            final(self).is_failed == (is_survival(old(self).gauge_type) && old(self).gauge_units + delta <= 0),
            *final(self) == (ScoreTracker { gauge_units: final(self).gauge_units, is_failed: final(self).is_failed, ..*old(self) }),
    {
        let u = self.units_per_percent;
        let mut g = self.gauge_units + delta;
        if g > 100 * u {
            g = 100 * u;
        }
        match self.gauge_type {
            GaugeType::Easy | GaugeType::Groove => {
                if g < 2 * u {
                    g = 2 * u;
                }
            },
            GaugeType::Hard | GaugeType::Hazard => {
                if g <= 0 {
                    g = 0;
                    self.is_failed = true;
                }
            },
        }
        self.gauge_units = g;
    }

    /// Records a judgement and updates the score, combo, gauge and timing
    /// statistics; `delta_us` is how early (negative) or late the hit was, in
    /// microseconds. A failed hard or hazard gauge takes no more records.
    pub fn record_hit_with_delta(&mut self, grade: JudgeGrade, delta_us: i64)
        requires
            old(self).wf(),
            old(self).can_record(),
        ensures
            final(self).wf(),
            final(self).invariants(),
            hit_recorded(*old(self), *final(self), grade, delta_us as int),
    {
        if self.is_failed && (self.gauge_type == GaugeType::Hard || self.gauge_type == GaugeType::Hazard) {
            return;
        }
        self.ex_score = self.ex_score + grade.ex_score_points();
        if grade != JudgeGrade::Miss && grade != JudgeGrade::Poor {
            if delta_us < -4000 {
                self.fast_count = self.fast_count + 1;
            } else if delta_us > 4000 {
                self.slow_count = self.slow_count + 1;
            }
            let shifted = delta_us as i128 + 42500;
            let q = if shifted >= 0 {
                shifted / 5000
            } else {
                -((-shifted + 4999) / 5000)
            };
            let bin: usize = if q < 0 {
                0
            } else if q > 16 {
                16
            } else {
                q as usize
            };
            assert(bin == histogram_bin(delta_us as int)) by (nonlinear_arith)
                requires
                    shifted == delta_us + 42500,
                    q == (if shifted >= 0 { shifted / 5000 } else { -((-shifted + 4999) / 5000) }),
                    bin == (if q < 0 { 0 } else if q > 16 { 16 } else { q }),
            ;
            let c = self.timing_histogram[bin];
            self.timing_histogram[bin] = c + 1;
        }
        let u = self.units_per_percent;
        let tenth = u / 10;
        assert(0 <= tenth * 1000 <= 100 * u) by (nonlinear_arith)
            requires
                tenth == u / 10,
                u >= 50;
        match grade {
            JudgeGrade::PerfectGreat => {
                self.pgreat_count = self.pgreat_count + 1;
                self.current_combo = self.current_combo + 1;
                let d = self.gauge_gain_pgreat;
                self.apply_gauge_delta(d);
            },
            JudgeGrade::Great => {
                self.great_count = self.great_count + 1;
                self.current_combo = self.current_combo + 1;
                let d = self.gauge_gain_great;
                self.apply_gauge_delta(d);
            },
            JudgeGrade::Good => {
                self.good_count = self.good_count + 1;
                self.current_combo = self.current_combo + 1;
                let d = self.gauge_gain_good;
                self.apply_gauge_delta(d);
            },
            JudgeGrade::Bad => {
                self.bad_count = self.bad_count + 1;
                self.current_combo = 0;
                let p: i128 = match self.gauge_type {
                    GaugeType::Easy => 16,
                    GaugeType::Groove => 20,
                    GaugeType::Hard => 50,
                    GaugeType::Hazard => 1000,
                };
                self.apply_gauge_delta(scaled_penalty(p, tenth));
            },
            JudgeGrade::Poor => {
                self.poor_count = self.poor_count + 1;
                self.current_combo = 0;
                let p: i128 = match self.gauge_type {
                    GaugeType::Easy => 24,
                    GaugeType::Groove => 30,
                    GaugeType::Hard => 90,
                    GaugeType::Hazard => 1000,
                };
                self.apply_gauge_delta(scaled_penalty(p, tenth));
            },
            JudgeGrade::Miss => {
                self.miss_count = self.miss_count + 1;
                self.current_combo = 0;
                let p: i128 = match self.gauge_type {
                    GaugeType::Easy => 40,
                    GaugeType::Groove => 50,
                    GaugeType::Hard => 100,
                    GaugeType::Hazard => 1000,
                };
                self.apply_gauge_delta(scaled_penalty(p, tenth));
            },
        }
        if self.current_combo > self.max_combo {
            self.max_combo = self.current_combo;
        }
    }

    /// Records a judgement with no timing delta.
    pub fn record_hit(&mut self, grade: JudgeGrade)
        requires
            old(self).wf(),
            old(self).can_record(),
        ensures
            final(self).wf(),
            final(self).invariants(),
            hit_recorded(*old(self), *final(self), grade, 0),
    {
        self.record_hit_with_delta(grade, 0);
    }
}


/// The rank of `ex` out of `max` EX score: MAX at 100%, then AAA, AA, A, B,
/// C and D from 8/9, 7/9, .., 3/9 of the maximum, F below (and F with no
/// notes).
pub open spec fn rank_name(ex: int, max: int) -> &'static str {
    if max == 0 {
        "F"
    } else if ex >= max {
        "MAX"
    } else if 9 * ex >= 8 * max {
        "AAA"
    } else if 9 * ex >= 7 * max {
        "AA"
    } else if 9 * ex >= 6 * max {
        "A"
    } else if 9 * ex >= 5 * max {
        "B"
    } else if 9 * ex >= 4 * max {
        "C"
    } else if 9 * ex >= 3 * max {
        "D"
    } else {
        "F"
    }
}

impl ScoreTracker {
    /// The largest EX score the chart allows: two per note.
    pub fn max_ex_score(&self) -> (r: u32)
        requires
            self.total_notes <= u32::MAX / 2,
        ensures
            r == 2 * self.total_notes,
    {
        self.total_notes * 2
    }

    /// The EX score as a percentage of the maximum (0 with no notes), as an
    /// exact fraction.
    pub fn accuracy_rate(&self) -> (r: Ratio)
        requires
            self.total_notes <= u32::MAX / 2,
        ensures
            self.total_notes == 0 ==> r == (Ratio { num: 0, den: 1 }),
            self.total_notes > 0 ==> r.num == 100 * self.ex_score && r.den == 2 * self.total_notes,
    {
        let max_score = self.max_ex_score();
        if max_score == 0 {
            Ratio { num: 0, den: 1 }
        } else {
            Ratio { num: self.ex_score as i64 * 100, den: max_score as u64 }
        }
    }

    /// Whether the song is cleared: at least 80% on a groove or easy gauge,
    /// not failed on a hard or hazard gauge.
    pub fn is_cleared(&self) -> (r: bool)
        requires
            self.wf(),
        ensures
            r == (if is_survival(self.gauge_type) {
                !self.is_failed
            } else {
                self.gauge_units >= 80 * self.units_per_percent
            }),
    {
        match self.gauge_type {
            GaugeType::Easy | GaugeType::Groove => self.gauge_units >= 80 * self.units_per_percent,
            GaugeType::Hard | GaugeType::Hazard => !self.is_failed,
        }
    }

    /// The performance rank (MAX, AAA, AA, A, B, C, D, F).
    pub fn rank(&self) -> (r: &'static str)
        requires
            self.total_notes <= u32::MAX / 2,
        ensures
            r@ == rank_name(self.ex_score as int, 2 * self.total_notes)@,
    {
        let max = self.max_ex_score() as u64;
        let ex = self.ex_score as u64;
        if max == 0 {
            "F"
        } else if ex >= max {
            "MAX"
        } else if 9 * ex >= 8 * max {
            "AAA"
        } else if 9 * ex >= 7 * max {
            "AA"
        } else if 9 * ex >= 6 * max {
            "A"
        } else if 9 * ex >= 5 * max {
            "B"
        } else if 9 * ex >= 4 * max {
            "C"
        } else if 9 * ex >= 3 * max {
            "D"
        } else {
            "F"
        }
    }
}

impl Default for ScoreTracker {
    fn default() -> (t: Self)
        ensures
            t.wf(),
            t.total_notes == 0,
            t.gauge_type == GaugeType::Groove,
            t.units_per_percent == 50,
            t.gauge_units == 20 * 50,
    {
        ScoreTracker::new(0, Ratio { num: 200, den: 1 }, GaugeType::Groove)
    }
}

/// `x`, raised to `lo` when below it.
pub open spec fn at_least(x: int, lo: int) -> int {
    if x < lo {
        lo
    } else {
        x
    }
}

/// How much of the gauge a BAD, POOR and MISS drain, in percent of the full
/// gauge: on a hard gauge 5, 9 and 10; on a groove gauge 2, 3 and 5; on an
/// easy gauge 1.6, 2.4 and 4; on a hazard gauge all of it. A hard or hazard
/// gauge stops at 0% and is then failed; a groove or easy gauge stops at 2%.
/// (`u` is the tracker's units per percent, a multiple of ten for every
/// tracker that `new` makes.)
pub proof fn lemma_gauge_drain(before: ScoreTracker, after: ScoreTracker, grade: JudgeGrade, delta_us: int)
    requires
        before.wf(),
        hit_recorded(before, after, grade, delta_us),
        !(before.is_failed && is_survival(before.gauge_type)),
        before.units_per_percent % 10 == 0,
    ensures
        ({
            let u = before.units_per_percent as int;
            &&& before.gauge_type == GaugeType::Hard && grade == JudgeGrade::Miss
                ==> after.gauge_units == at_least(before.gauge_units - 10 * u, 0)
            &&& before.gauge_type == GaugeType::Hard && grade == JudgeGrade::Poor
                ==> after.gauge_units == at_least(before.gauge_units - 9 * u, 0)
            &&& before.gauge_type == GaugeType::Hard && grade == JudgeGrade::Bad
                ==> after.gauge_units == at_least(before.gauge_units - 5 * u, 0)
            &&& before.gauge_type == GaugeType::Groove && grade == JudgeGrade::Miss
                ==> after.gauge_units == at_least(before.gauge_units - 5 * u, 2 * u)
            &&& before.gauge_type == GaugeType::Groove && grade == JudgeGrade::Poor
                ==> after.gauge_units == at_least(before.gauge_units - 3 * u, 2 * u)
            &&& before.gauge_type == GaugeType::Groove && grade == JudgeGrade::Bad
                ==> after.gauge_units == at_least(before.gauge_units - 2 * u, 2 * u)
            &&& before.gauge_type == GaugeType::Easy && grade == JudgeGrade::Miss
                ==> after.gauge_units == at_least(before.gauge_units - 4 * u, 2 * u)
            &&& before.gauge_type == GaugeType::Easy && grade == JudgeGrade::Poor
                ==> after.gauge_units == at_least(before.gauge_units - 24 * u / 10, 2 * u)
            &&& before.gauge_type == GaugeType::Easy && grade == JudgeGrade::Bad
                ==> after.gauge_units == at_least(before.gauge_units - 16 * u / 10, 2 * u)
            &&& before.gauge_type == GaugeType::Hazard && grade == JudgeGrade::Miss
                ==> after.gauge_units == at_least(before.gauge_units - 100 * u, 0)
            &&& before.gauge_type == GaugeType::Hazard && grade == JudgeGrade::Poor
                ==> after.gauge_units == at_least(before.gauge_units - 100 * u, 0)
            &&& before.gauge_type == GaugeType::Hazard && grade == JudgeGrade::Bad
                ==> after.gauge_units == at_least(before.gauge_units - 100 * u, 0)
        }),
        (grade == JudgeGrade::Bad || grade == JudgeGrade::Poor || grade == JudgeGrade::Miss)
            && (before.gauge_type == GaugeType::Hard || before.gauge_type == GaugeType::Hazard)
            ==> (after.is_failed <==> after.gauge_units == 0),
{
    let u = before.units_per_percent as int;
    assert(u / 10 * 10 == u);
    assert(u / 10 * 24 == 24 * u / 10) by (nonlinear_arith)
        requires u % 10 == 0, u >= 0;
    assert(u / 10 * 16 == 16 * u / 10) by (nonlinear_arith)
        requires u % 10 == 0, u >= 0;
}


/// `x`, but no more than `hi`.
pub open spec fn at_most(x: int, hi: int) -> int {
    if x > hi {
        hi
    } else {
        x
    }
}

/// What one recorded judgement does besides draining: a PERFECT GREAT,
/// GREAT or GOOD continues the combo and raises the gauge by that grade's
/// gain, capped at 100%; a BAD, POOR or MISS breaks the combo. A PERFECT
/// GREAT scores 2 EX points, a GREAT 1, any other grade none. The best combo
/// is the larger of the old best and the new combo. A hit judged more than
/// 4 ms early counts as fast and more than 4 ms late as slow, except for a
/// POOR or MISS.
pub proof fn lemma_hit_effects(before: ScoreTracker, after: ScoreTracker, grade: JudgeGrade, delta_us: int)
    requires
        before.wf(),
        hit_recorded(before, after, grade, delta_us),
        !(before.is_failed && is_survival(before.gauge_type)),
    ensures
        ({
            let full = 100 * before.units_per_percent;
            &&& grade == JudgeGrade::PerfectGreat ==> after.gauge_units == at_most(
                before.gauge_units + before.gauge_gain_pgreat,
                full,
            )
            &&& grade == JudgeGrade::Great ==> after.gauge_units == at_most(
                before.gauge_units + before.gauge_gain_great,
                full,
            )
            &&& grade == JudgeGrade::Good ==> after.gauge_units == at_most(
                before.gauge_units + before.gauge_gain_good,
                full,
            )
        }),
        grade == JudgeGrade::PerfectGreat || grade == JudgeGrade::Great || grade == JudgeGrade::Good
            ==> after.current_combo == before.current_combo + 1 && !after.is_failed,
        grade == JudgeGrade::Bad || grade == JudgeGrade::Poor || grade == JudgeGrade::Miss
            ==> after.current_combo == 0,
        after.ex_score == before.ex_score + (if grade == JudgeGrade::PerfectGreat {
            2int
        } else if grade == JudgeGrade::Great {
            1int
        } else {
            0int
        }),
        after.max_combo == (if before.max_combo > after.current_combo {
            before.max_combo
        } else {
            after.current_combo
        }),
        after.fast_count == before.fast_count + (if grade != JudgeGrade::Poor && grade != JudgeGrade::Miss
            && delta_us < -4000 {
            1int
        } else {
            0int
        }),
        after.slow_count == before.slow_count + (if grade != JudgeGrade::Poor && grade != JudgeGrade::Miss
            && delta_us > 4000 {
            1int
        } else {
            0int
        }),
{
}

} // verus!
