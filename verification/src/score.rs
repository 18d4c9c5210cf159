//! Clear lamps of stored scores, the personal-best rule and the store of
//! personal bests by chart hash.

use vstd::prelude::*;
use std::collections::HashMap;

verus! {

/// Clear status lamps, from worst to best.
#[derive(Debug, Clone, Copy, PartialEq, Eq, Structural, PartialOrd, Ord)]
pub enum ClearType {
    Failed,
    Clear,
    FullCombo,
    Perfect,
}

/// Rank of a lamp: failed < cleared < full combo < perfect.
pub open spec fn lamp_rank(c: ClearType) -> int {
    match c {
        ClearType::Failed => 0,
        ClearType::Clear => 1,
        ClearType::FullCombo => 2,
        ClearType::Perfect => 3,
    }
}

pub open spec fn clear_name(c: ClearType) -> &'static str {
    match c {
        ClearType::Failed => "FAILED",
        ClearType::Clear => "CLEARED",
        ClearType::FullCombo => "FULL COMBO",
        ClearType::Perfect => "PERFECT",
    }
}

impl ClearType {
    pub fn as_str(self) -> (s: &'static str)
        ensures
            s@ == clear_name(self)@,
    {
        match self {
            ClearType::Failed => "FAILED",
            ClearType::Clear => "CLEARED",
            ClearType::FullCombo => "FULL COMBO",
            ClearType::Perfect => "PERFECT",
        }
    }

    /// The lamp's rank.
    pub fn rank(self) -> (r: u8)
        ensures
            r == lamp_rank(self),
    {
        match self {
            ClearType::Failed => 0,
            ClearType::Clear => 1,
            ClearType::FullCombo => 2,
            ClearType::Perfect => 3,
        }
    }
}


/// Whether a new result replaces the stored best: it does when nothing is
/// stored for the chart, or when it has a higher EX score or a better lamp.
pub open spec fn replaces_best(new_ex: u32, new_lamp: ClearType, old: Option<(u32, ClearType)>) -> bool {
    match old {
        None => true,
        Some((ex, lamp)) => new_ex > ex || lamp_rank(new_lamp) > lamp_rank(lamp),
    }
}

/// The personal-best rule of the score store.
pub fn is_new_personal_best(new_ex: u32, new_lamp: ClearType, old: Option<(u32, ClearType)>) -> (r: bool)
    ensures
        r == replaces_best(new_ex, new_lamp, old),
{
    match old {
        None => true,
        Some((ex, lamp)) => new_ex > ex || new_lamp.rank() > lamp.rank(),
    }
}

/// A stored personal best: its EX score and lamp, which the personal-best
/// rule reads, and the full record it was stored with.
pub struct BestEntry<R> {
    pub ex_score: u32,
    pub clear_type: ClearType,
    pub record: R,
}

/// The EX score and lamp stored for `hash`, if any.
pub open spec fn stored_best<R>(m: Map<u64, BestEntry<R>>, hash: u64) -> Option<(u32, ClearType)> {
    if m.contains_key(hash) {
        Some((m[hash].ex_score, m[hash].clear_type))
    } else {
        None
    }
}

/// Personal bests by chart hash.
pub struct ScoreStore<R> {
    records: HashMap<u64, BestEntry<R>>,
}

impl<R> View for ScoreStore<R> {
    type V = Map<u64, BestEntry<R>>;

    closed spec fn view(&self) -> Map<u64, BestEntry<R>> {
        self.records@
    }
}

impl<R> ScoreStore<R> {
    /// An empty store.
    pub fn new() -> (s: Self)
        ensures
            s@ == Map::<u64, BestEntry<R>>::empty(),
    {
        ScoreStore { records: HashMap::new() }
    }

    /// The personal best stored for a chart.
    pub fn get(&self, chart_hash: u64) -> (r: Option<&BestEntry<R>>)
        ensures
            match r {
                Some(e) => self@.contains_key(chart_hash) && *e == self@[chart_hash],
                None => !self@.contains_key(chart_hash),
            },
    {
        broadcast use vstd::std_specs::hash::group_hash_axioms;
        self.records.get(&chart_hash)
    }

    /// Stores a result for a chart when it is a new personal best (nothing
    /// stored yet, a higher EX score, or a better lamp); says whether it was.
    pub fn update(&mut self, chart_hash: u64, ex_score: u32, clear_type: ClearType, record: R) -> (r: bool)
        ensures
            r == replaces_best(ex_score, clear_type, stored_best(old(self)@, chart_hash)),
            final(self)@ == if r {
                old(self)@.insert(chart_hash, BestEntry { ex_score, clear_type, record })
            } else {
                old(self)@
            },
    {
        broadcast use vstd::std_specs::hash::group_hash_axioms;
        let old_best = match self.records.get(&chart_hash) {
            Some(e) => Some((e.ex_score, e.clear_type)),
            None => None,
        };
        let is_new_best = is_new_personal_best(ex_score, clear_type, old_best);
        if is_new_best {
            self.records.insert(chart_hash, BestEntry { ex_score, clear_type, record });
        }
        is_new_best
    }

    /// Stores an entry for a chart whatever was stored before (as when the
    /// store is read back).
    pub fn insert(&mut self, chart_hash: u64, entry: BestEntry<R>)
        ensures
            final(self)@ == old(self)@.insert(chart_hash, entry),
    {
        broadcast use vstd::std_specs::hash::group_hash_axioms;
        self.records.insert(chart_hash, entry);
    }

    /// The number of charts with a stored best.
    pub fn len(&self) -> (n: usize)
        ensures
            n == self@.len(),
    {
        broadcast use vstd::std_specs::hash::group_hash_axioms;
        self.records.len()
    }

    /// The stored bests, by chart hash.
    pub fn entries(&self) -> (m: &HashMap<u64, BestEntry<R>>)
        ensures
            m@ == self@,
    {
        &self.records
    }
}

/// Whether lamp `new` is strictly better than `old` in the order
/// failed < cleared < full combo < perfect.
pub open spec fn better_lamp(new: ClearType, old: ClearType) -> bool {
    ||| old == ClearType::Failed && new != ClearType::Failed
    ||| old == ClearType::Clear && (new == ClearType::FullCombo || new == ClearType::Perfect)
    ||| old == ClearType::FullCombo && new == ClearType::Perfect
}

/// The personal-best rule: a result is a new best for a chart exactly when no
/// best is stored for it, or its EX score is higher, or its lamp is strictly
/// better (whatever the EX score); and the store then holds the new result.
pub proof fn lemma_personal_best_rule<R>(
    m: Map<u64, BestEntry<R>>,
    hash: u64,
    ex: u32,
    lamp: ClearType,
)
    ensures
        !m.contains_key(hash) ==> replaces_best(ex, lamp, stored_best(m, hash)),
        m.contains_key(hash) ==> (replaces_best(ex, lamp, stored_best(m, hash)) <==> (ex > m[hash].ex_score
            || better_lamp(lamp, m[hash].clear_type))),
        m.contains_key(hash) && better_lamp(lamp, m[hash].clear_type) ==> replaces_best(
            ex,
            lamp,
            stored_best(m, hash),
        ),
        m.contains_key(hash) && ex <= m[hash].ex_score && !better_lamp(lamp, m[hash].clear_type)
            ==> !replaces_best(ex, lamp, stored_best(m, hash)),
{
}

} // verus!
