//! Lane modifiers: mirror, random, rotated random and per-note random lane
//! assignment, driven by a deterministic XorShift generator.

use vstd::prelude::*;
use crate::bms::{Lane, NoteEvent, NoteType, lane_rank, lane_index};

verus! {

/// Note lane modifiers for chart variation.
#[derive(Debug, Clone, Copy, PartialEq, Eq, Structural)]
pub enum LaneModifier {
    /// The chart as authored.
    Regular,
    /// Keys 1..7 mirrored (1<->7, 2<->6, 3<->5); scratch unchanged.
    Mirror,
    /// Keys 1..7 shuffled by one permutation for the whole song.
    Random,
    /// Keys 1..7 rotated cyclically.
    RRandom,
    /// Each note placed on a random key; a long note keeps its start's key.
    SRandom,
}

pub open spec fn modifier_name(m: LaneModifier) -> &'static str {
    match m {
        LaneModifier::Regular => "REGULAR",
        LaneModifier::Mirror => "MIRROR",
        LaneModifier::Random => "RANDOM",
        LaneModifier::RRandom => "R-RANDOM",
        LaneModifier::SRandom => "S-RANDOM",
    }
}

impl LaneModifier {
    pub fn as_str(self) -> (s: &'static str)
        ensures
            s@ == modifier_name(self)@,
    {
        match self {
            LaneModifier::Regular => "REGULAR",
            LaneModifier::Mirror => "MIRROR",
            LaneModifier::Random => "RANDOM",
            LaneModifier::RRandom => "R-RANDOM",
            LaneModifier::SRandom => "S-RANDOM",
        }
    }
}

/// The key lane with index `i` (0 for key 1 .. 6 for key 7).
pub open spec fn key_lane(i: int) -> Lane {
    if i == 0 {
        Lane::Key1
    } else if i == 1 {
        Lane::Key2
    } else if i == 2 {
        Lane::Key3
    } else if i == 3 {
        Lane::Key4
    } else if i == 4 {
        Lane::Key5
    } else if i == 5 {
        Lane::Key6
    } else {
        Lane::Key7
    }
}

/// Keys 1..7 in order.
pub open spec fn key_lanes() -> Seq<Lane> {
    seq![Lane::Key1, Lane::Key2, Lane::Key3, Lane::Key4, Lane::Key5, Lane::Key6, Lane::Key7]
}

fn key_lane_exec(i: u64) -> (l: Lane)
    requires
        i < 7,
    ensures
        l == key_lane(i as int),
{
    if i == 0 {
        Lane::Key1
    } else if i == 1 {
        Lane::Key2
    } else if i == 2 {
        Lane::Key3
    } else if i == 3 {
        Lane::Key4
    } else if i == 4 {
        Lane::Key5
    } else if i == 5 {
        Lane::Key6
    } else {
        Lane::Key7
    }
}

/// Mirror image of a lane: keys 1..7 reversed, scratch kept.
pub open spec fn mirror_of(l: Lane) -> Lane {
    match l {
        Lane::Scratch => Lane::Scratch,
        Lane::Key1 => Lane::Key7,
        Lane::Key2 => Lane::Key6,
        Lane::Key3 => Lane::Key5,
        Lane::Key4 => Lane::Key4,
        Lane::Key5 => Lane::Key3,
        Lane::Key6 => Lane::Key2,
        Lane::Key7 => Lane::Key1,
    }
}

fn mirror_lane(lane: Lane) -> (r: Lane)
    ensures
        r == mirror_of(lane),
{
    match lane {
        Lane::Scratch => Lane::Scratch,
        Lane::Key1 => Lane::Key7,
        Lane::Key2 => Lane::Key6,
        Lane::Key3 => Lane::Key5,
        Lane::Key4 => Lane::Key4,
        Lane::Key5 => Lane::Key3,
        Lane::Key6 => Lane::Key2,
        Lane::Key7 => Lane::Key1,
    }
}

/// The lane a mapping of keys 1..7 sends `l` to; scratch is kept.
pub open spec fn mapped_lane(l: Lane, mapping: Seq<Lane>) -> Lane {
    if l == Lane::Scratch {
        Lane::Scratch
    } else {
        mapping[lane_rank(l) - 1]
    }
}

fn apply_lane_mapping(lane: Lane, mapping: &[Lane; 7]) -> (r: Lane)
    ensures
        r == mapped_lane(lane, mapping@),
{
    match lane {
        Lane::Scratch => Lane::Scratch,
        Lane::Key1 => mapping[0],
        Lane::Key2 => mapping[1],
        Lane::Key3 => mapping[2],
        Lane::Key4 => mapping[3],
        Lane::Key5 => mapping[4],
        Lane::Key6 => mapping[5],
        Lane::Key7 => mapping[6],
    }
}

/// One XorShift64 step (shifts 13, 7, 17).
pub open spec fn xorshift(x: u64) -> u64 {
    let a = x ^ ((x << 13u64) as u64);
    let b = a ^ (a >> 7u64);
    b ^ ((b << 17u64) as u64)
}

/// Deterministic 64-bit XorShift generator.
struct XorShift64 {
    state: u64,
}

impl XorShift64 {
    fn new(seed: u64) -> (r: Self)
        ensures
            r.state == (if seed == 0 {
                0xdeadbeefcafebabeu64
            } else {
                seed
            }),
    {
        XorShift64 { state: if seed == 0 { 0xdeadbeefcafebabe } else { seed } }
    }

    /// Advances the generator and returns the new state.
    fn next_u64(&mut self) -> (r: u64)
        ensures
            r == xorshift(old(self).state),
            final(self).state == r,
    {
        let mut x = self.state;
        x = x ^ (x << 13u64);
        x = x ^ (x >> 7u64);
        x = x ^ (x << 17u64);
        self.state = x;
        x
    }
}

/// The Fisher-Yates shuffle of keys 1..7 driven from generator state `s`:
/// for `i` from 6 down to 1, swap positions `i` and `next % (i + 1)`.
/// `.0` is the permutation, `.1` the generator state after it.
pub open spec fn shuffle_from(lanes: Seq<Lane>, s: u64, i: int) -> (Seq<Lane>, u64)
    decreases i,
{
    if i <= 0 {
        (lanes, s)
    } else {
        let r = xorshift(s);
        let j = ((r as usize) % ((i + 1) as usize)) as int;
        let swapped = lanes.update(i, lanes[j]).update(j, lanes[i]);
        shuffle_from(swapped, r, i - 1)
    }
}

pub open spec fn random_permutation(s: u64) -> Seq<Lane> {
    shuffle_from(key_lanes(), s, 6).0
}

fn generate_random_permutation(rng: &mut XorShift64) -> (lanes: [Lane; 7])
    ensures
        lanes@ == random_permutation(old(rng).state),
{
    let mut lanes = [Lane::Key1, Lane::Key2, Lane::Key3, Lane::Key4, Lane::Key5, Lane::Key6, Lane::Key7];
    assert(lanes@ =~= key_lanes());
    let ghost s0 = rng.state;
    let mut i: usize = 6;
    while i > 0
        invariant
            i <= 6,
            lanes@.len() == 7,
            shuffle_from(lanes@, rng.state, i as int).0 == shuffle_from(key_lanes(), s0, 6).0,
        decreases i,
    {
        let ghost before = lanes@;
        let r = rng.next_u64();
        let j = (r as usize) % (i + 1);
        let a = lanes[i];
        let b = lanes[j];
        lanes[i] = b;
        lanes[j] = a;
        assert(lanes@ =~= before.update(i as int, before[j as int]).update(j as int, before[i as int]));
        i = i - 1;
    }
    lanes
}


/// Keys 1..7 rotated left by `shift` positions.
pub open spec fn rotated_keys(shift: int) -> Seq<Lane> {
    Seq::new(7, |k: int| key_lane((k + shift) % 7))
}

fn generate_rotated_permutation(shift: u64) -> (lanes: [Lane; 7])
    ensures
        lanes@ == rotated_keys((shift % 7) as int),
{
    let sh = shift % 7;
    let mut lanes = [Lane::Key1, Lane::Key2, Lane::Key3, Lane::Key4, Lane::Key5, Lane::Key6, Lane::Key7];
    let mut k: u64 = 0;
    while k < 7
        invariant
            k <= 7,
            sh < 7,
            lanes@.len() == 7,
            forall|t: int| 0 <= t < k ==> lanes@[t] == key_lane((t + sh) % 7),
        decreases 7 - k,
    {
        lanes[k as usize] = key_lane_exec((k + sh) % 7);
        k = k + 1;
    }
    assert(lanes@ =~= rotated_keys(sh as int));
    lanes
}

/// State of S-RANDOM placement: generator state, the key each open long
/// note (by its lane in the chart) was moved to, and the notes placed so far.
pub struct SRandomState {
    pub rng: u64,
    pub active: Seq<Option<Lane>>,
    pub out: Seq<NoteEvent>,
}

/// Places one note under S-RANDOM: scratch notes stay; a long-note start
/// draws a key and remembers it for its lane; a long-note end takes the key
/// its start was given, or draws one; other notes draw a key.
pub open spec fn srandom_step(st: SRandomState, n: NoteEvent) -> SRandomState {
    let li = lane_rank(n.lane);
    let r = xorshift(st.rng);
    let drawn = key_lane((r % 7) as int);
    if n.lane == Lane::Scratch {
        SRandomState { out: st.out.push(n), ..st }
    } else {
        match n.note_type {
            NoteType::LongNoteStart => SRandomState {
                rng: r,
                active: st.active.update(li, Some(drawn)),
                out: st.out.push(NoteEvent { lane: drawn, ..n }),
            },
            NoteType::LongNoteEnd => match st.active[li] {
                Some(t) => SRandomState {
                    rng: st.rng,
                    active: st.active.update(li, None),
                    out: st.out.push(NoteEvent { lane: t, ..n }),
                },
                None => SRandomState { rng: r, active: st.active, out: st.out.push(NoteEvent { lane: drawn, ..n }) },
            },
            _ => SRandomState { rng: r, active: st.active, out: st.out.push(NoteEvent { lane: drawn, ..n }) },
        }
    }
}

/// S-RANDOM placement of the first `k` notes, from generator state `s`.
pub open spec fn srandom_fold(notes: Seq<NoteEvent>, s: u64, k: int) -> SRandomState
    decreases k,
{
    if k <= 0 {
        SRandomState { rng: s, active: Seq::new(8, |i: int| None), out: Seq::empty() }
    } else {
        srandom_step(srandom_fold(notes, s, k - 1), notes[k - 1])
    }
}

/// The seed the generator starts from (0 is replaced by a fixed value).
pub open spec fn start_state(seed: u64) -> u64 {
    if seed == 0 {
        123456789
    } else {
        seed
    }
}

/// Every note moved by `f`, all else kept.
pub open spec fn relane(notes: Seq<NoteEvent>, f: spec_fn(Lane) -> Lane) -> Seq<NoteEvent> {
    notes.map_values(|n: NoteEvent| NoteEvent { lane: f(n.lane), ..n })
}

/// The notes after applying `m` with `seed`.
pub open spec fn modified_notes(notes: Seq<NoteEvent>, m: LaneModifier, seed: u64) -> Seq<NoteEvent> {
    let s0 = start_state(seed);
    match m {
        LaneModifier::Regular => notes,
        LaneModifier::Mirror => relane(notes, |l: Lane| mirror_of(l)),
        LaneModifier::Random => {
            let p = random_permutation(s0);
            relane(notes, |l: Lane| mapped_lane(l, p))
        },
        LaneModifier::RRandom => {
            let p = rotated_keys(((xorshift(s0) % 6 + 1) % 7) as int);
            relane(notes, |l: Lane| mapped_lane(l, p))
        },
        LaneModifier::SRandom => srandom_fold(notes, s0, notes.len() as int).out,
    }
}

fn relane_exec(notes: &[NoteEvent], mapping: &[Lane; 7], mirror: bool) -> (r: Vec<NoteEvent>)
    ensures
        mirror ==> r@ == relane(notes@, |l: Lane| mirror_of(l)),
        !mirror ==> r@ == relane(notes@, |l: Lane| mapped_lane(l, mapping@)),
{
    let mut out: Vec<NoteEvent> = Vec::new();
    let mut i: usize = 0;
    while i < notes.len()
        invariant
            i <= notes@.len(),
            out@.len() == i,
            mirror ==> forall|k: int| 0 <= k < i ==> out@[k] == (NoteEvent { lane: mirror_of(notes@[k].lane), ..notes@[k] }),
            !mirror ==> forall|k: int| 0 <= k < i ==> out@[k] == (NoteEvent { lane: mapped_lane(notes@[k].lane, mapping@), ..notes@[k] }),
        decreases notes@.len() - i,
    {
        let n = notes[i];
        let lane = if mirror {
            mirror_lane(n.lane)
        } else {
            apply_lane_mapping(n.lane, mapping)
        };
        out.push(NoteEvent { lane, ..n });
        i = i + 1;
    }
    proof {
        if mirror {
            assert(out@ =~= relane(notes@, |l: Lane| mirror_of(l)));
        } else {
            assert(out@ =~= relane(notes@, |l: Lane| mapped_lane(l, mapping@)));
        }
    }
    out
}

fn srandom_exec(notes: &[NoteEvent], rng: &mut XorShift64) -> (r: Vec<NoteEvent>)
    ensures
        r@ == srandom_fold(notes@, old(rng).state, notes@.len() as int).out,
{
    let ghost s0 = rng.state;
    let mut active: Vec<Option<Lane>> = vec![None, None, None, None, None, None, None, None];
    let mut out: Vec<NoteEvent> = Vec::new();
    let mut i: usize = 0;
    assert(active@ =~= srandom_fold(notes@, s0, 0).active);
    assert(out@ =~= srandom_fold(notes@, s0, 0).out);
    while i < notes.len()
        invariant
            i <= notes@.len(),
            active@.len() == 8,
            rng.state == srandom_fold(notes@, s0, i as int).rng,
            active@ == srandom_fold(notes@, s0, i as int).active,
            out@ == srandom_fold(notes@, s0, i as int).out,
        decreases notes@.len() - i,
    {
        let n = notes[i];
        let li = lane_index(n.lane);
        if li == 0 {
            out.push(n);
        } else {
            match n.note_type {
                NoteType::LongNoteStart => {
                    let r = rng.next_u64();
                    let nl = key_lane_exec(r % 7);
                    active.set(li, Some(nl));
                    out.push(NoteEvent { lane: nl, ..n });
                },
                NoteType::LongNoteEnd => {
                    match active[li] {
                        Some(t) => {
                            active.set(li, None);
                            out.push(NoteEvent { lane: t, ..n });
                        },
                        None => {
                            let r = rng.next_u64();
                            let nl = key_lane_exec(r % 7);
                            out.push(NoteEvent { lane: nl, ..n });
                        },
                    }
                },
                _ => {
                    let r = rng.next_u64();
                    let nl = key_lane_exec(r % 7);
                    out.push(NoteEvent { lane: nl, ..n });
                },
            }
        }
        i = i + 1;
    }
    out
}

/// Applies a lane modifier to the notes; the generator is seeded with `seed`
/// (0 stands for a fixed default seed).
pub fn apply_lane_modifier(notes: &[NoteEvent], modifier: LaneModifier, seed: u64) -> (r: Vec<NoteEvent>)
    ensures
        r@ == modified_notes(notes@, modifier, seed),
{
    let mut rng = XorShift64::new(if seed == 0 { 123456789 } else { seed });
    let identity = [Lane::Key1, Lane::Key2, Lane::Key3, Lane::Key4, Lane::Key5, Lane::Key6, Lane::Key7];
    match modifier {
        LaneModifier::Regular => {
            let mut out: Vec<NoteEvent> = Vec::new();
            let mut i: usize = 0;
            while i < notes.len()
                invariant
                    i <= notes@.len(),
                    out@ == notes@.take(i as int),
                decreases notes@.len() - i,
            {
                out.push(notes[i]);
                assert(notes@.take(i + 1) =~= notes@.take(i as int).push(notes@[i as int]));
                i = i + 1;
            }
            assert(notes@.take(notes@.len() as int) =~= notes@);
            out
        },
        LaneModifier::Mirror => relane_exec(notes, &identity, true),
        LaneModifier::Random => {
            let mapping = generate_random_permutation(&mut rng);
            relane_exec(notes, &mapping, false)
        },
        LaneModifier::RRandom => {
            let shift = rng.next_u64() % 6 + 1;
            let mapping = generate_rotated_permutation(shift);
            relane_exec(notes, &mapping, false)
        },
        LaneModifier::SRandom => srandom_exec(notes, &mut rng),
    }
}


/// Keys 1..7 in some order, each exactly once.
pub open spec fn is_key_permutation(p: Seq<Lane>) -> bool {
    &&& p.len() == 7
    &&& forall|i: int| 0 <= i < 7 ==> #[trigger] p[i] != Lane::Scratch
    &&& forall|i: int, j: int| 0 <= i < j < 7 ==> p[i] != p[j]
}

proof fn lemma_shuffle_permutation(lanes: Seq<Lane>, s: u64, i: int)
    requires
        is_key_permutation(lanes),
        0 <= i <= 6,
    ensures
        is_key_permutation(shuffle_from(lanes, s, i).0),
    decreases i,
{
    if i > 0 {
        let r = xorshift(s);
        let j = ((r as usize) % ((i + 1) as usize)) as int;
        let swapped = lanes.update(i, lanes[j]).update(j, lanes[i]);
        assert forall|a: int, b: int| 0 <= a < b < 7 implies swapped[a] != swapped[b] by {
            assert(lanes[a] != lanes[b] || a == b);
            if a != i && a != j && b != i && b != j {
            } else {
                assert(forall|x: int, y: int| 0 <= x < y < 7 ==> lanes[x] != lanes[y]);
            }
        }
        assert forall|a: int| 0 <= a < 7 implies #[trigger] swapped[a] != Lane::Scratch by {
            assert(lanes[i] != Lane::Scratch);
            assert(lanes[j] != Lane::Scratch);
            assert(lanes[a] != Lane::Scratch);
        }
        lemma_shuffle_permutation(swapped, r, i - 1);
    }
}

/// RANDOM moves keys 1..7 by a permutation: for every seed each key lane is
/// the image of exactly one key lane, and none goes to the scratch lane.
pub proof fn lemma_random_is_permutation(s: u64)
    ensures
        is_key_permutation(random_permutation(s)),
{
    let k = key_lanes();
    assert forall|i: int, j: int| 0 <= i < j < 7 implies k[i] != k[j] by {
        assert(lane_rank(k[i]) == i + 1);
        assert(lane_rank(k[j]) == j + 1);
    }
    lemma_shuffle_permutation(key_lanes(), s, 6);
}

/// R-RANDOM moves keys 1..7 by a permutation as well.
pub proof fn lemma_rotation_is_permutation(shift: int)
    requires
        0 <= shift < 7,
    ensures
        is_key_permutation(rotated_keys(shift)),
{
    let p = rotated_keys(shift);
    assert forall|i: int, j: int| 0 <= i < j < 7 implies p[i] != p[j] by {
        let a = (i + shift) % 7;
        let b = (j + shift) % 7;
        assert(a != b);
        assert(lane_rank(key_lane(a)) == a + 1);
        assert(lane_rank(key_lane(b)) == b + 1);
    }
}

/// Mirroring twice gives back the chart: MIRROR is an involution.
pub proof fn lemma_mirror_involution(notes: Seq<NoteEvent>, s1: u64, s2: u64)
    ensures
        modified_notes(modified_notes(notes, LaneModifier::Mirror, s1), LaneModifier::Mirror, s2) == notes,
{
    let once = modified_notes(notes, LaneModifier::Mirror, s1);
    let twice = modified_notes(once, LaneModifier::Mirror, s2);
    assert forall|i: int| 0 <= i < notes.len() implies twice[i] == notes[i] by {
        assert(mirror_of(mirror_of(notes[i].lane)) == notes[i].lane);
    }
    assert(twice =~= notes);
}

/// `out` is `notes` with lanes changed only among keys 1..7.
pub open spec fn same_notes_moved_among_keys(notes: Seq<NoteEvent>, out: Seq<NoteEvent>) -> bool {
    &&& out.len() == notes.len()
    &&& forall|i: int| 0 <= i < notes.len() ==> {
        &&& (#[trigger] out[i]).measure == notes[i].measure
        &&& out[i].fraction == notes[i].fraction
        &&& out[i].wav_id == notes[i].wav_id
        &&& out[i].note_type == notes[i].note_type
        &&& (out[i].lane == Lane::Scratch <==> notes[i].lane == Lane::Scratch)
    }
}

proof fn lemma_mapping_keeps(notes: Seq<NoteEvent>, p: Seq<Lane>)
    requires
        is_key_permutation(p),
    ensures
        same_notes_moved_among_keys(notes, relane(notes, |l: Lane| mapped_lane(l, p))),
{
    let out = relane(notes, |l: Lane| mapped_lane(l, p));
    assert forall|i: int| 0 <= i < notes.len() implies (out[i].lane == Lane::Scratch <==> notes[i].lane == Lane::Scratch) by {
        if notes[i].lane != Lane::Scratch {
            let r = lane_rank(notes[i].lane) - 1;
            assert(p[r] != Lane::Scratch);
        }
    }
}

proof fn lemma_srandom_keeps(notes: Seq<NoteEvent>, s: u64, k: int)
    requires
        0 <= k <= notes.len(),
    ensures
        same_notes_moved_among_keys(notes.take(k), srandom_fold(notes, s, k).out),
        srandom_fold(notes, s, k).active.len() == 8,
        forall|j: int| 0 <= j < 8 ==> (#[trigger] srandom_fold(notes, s, k).active[j] matches Some(l) ==> l != Lane::Scratch),
    decreases k,
{
    if k > 0 {
        lemma_srandom_keeps(notes, s, k - 1);
        let st = srandom_fold(notes, s, k - 1);
        let r = xorshift(st.rng);
        assert(key_lane((r % 7) as int) != Lane::Scratch);
        assert(notes.take(k).drop_last() =~= notes.take(k - 1));
        let li = lane_rank(notes[k - 1].lane);
        if notes[k - 1].lane != Lane::Scratch {
            assert(0 <= li < 8);
        }
    }
}

/// Every modifier keeps each note's position, sound and type, keeps scratch
/// notes on the scratch lane and moves key notes only among keys 1..7.
pub proof fn lemma_modifier_moves_only_keys(notes: Seq<NoteEvent>, m: LaneModifier, seed: u64)
    ensures
        same_notes_moved_among_keys(notes, modified_notes(notes, m, seed)),
{
    let s0 = start_state(seed);
    match m {
        LaneModifier::Regular => {},
        LaneModifier::Mirror => {},
        LaneModifier::Random => {
            lemma_random_is_permutation(s0);
            lemma_mapping_keeps(notes, random_permutation(s0));
        },
        LaneModifier::RRandom => {
            let sh = ((xorshift(s0) % 6 + 1) % 7) as int;
            lemma_rotation_is_permutation(sh);
            lemma_mapping_keeps(notes, rotated_keys(sh));
        },
        LaneModifier::SRandom => {
            lemma_srandom_keeps(notes, s0, notes.len() as int);
            assert(notes.take(notes.len() as int) =~= notes);
        },
    }
}


proof fn lemma_srandom_prefix(notes: Seq<NoteEvent>, s: u64, k1: int, k2: int)
    requires
        0 <= k1 <= k2 <= notes.len(),
    ensures
        srandom_fold(notes, s, k2).out.len() == k2,
        srandom_fold(notes, s, k2).out.take(k1) == srandom_fold(notes, s, k1).out,
    decreases k2,
{
    if k2 > 0 {
        if k1 < k2 {
            lemma_srandom_prefix(notes, s, k1, k2 - 1);
            let prev = srandom_fold(notes, s, k2 - 1).out;
            let cur = srandom_fold(notes, s, k2).out;
            assert(cur.take(k1) =~= prev.take(k1));
        } else {
            lemma_srandom_prefix(notes, s, k1 - 1, k2 - 1);
            assert(srandom_fold(notes, s, k2).out.take(k1) =~= srandom_fold(notes, s, k2).out);
        }
    } else {
        assert(srandom_fold(notes, s, 0).out.take(0) =~= srandom_fold(notes, s, 0).out);
    }
}

/// No long-note start or end on `lane` among `notes[a..b]`.
pub open spec fn no_ln_edge_between(notes: Seq<NoteEvent>, lane: Lane, a: int, b: int) -> bool {
    forall|k: int| a < k < b && (#[trigger] notes[k]).lane == lane ==> notes[k].note_type != NoteType::LongNoteStart
        && notes[k].note_type != NoteType::LongNoteEnd
}

proof fn lemma_srandom_active_kept(notes: Seq<NoteEvent>, s: u64, i: int, k: int)
    requires
        0 <= i < k <= notes.len(),
        notes[i].lane != Lane::Scratch,
        notes[i].note_type == NoteType::LongNoteStart,
        no_ln_edge_between(notes, notes[i].lane, i, k),
    ensures
        srandom_fold(notes, s, k).active[lane_rank(notes[i].lane)] == Some(srandom_fold(notes, s, i + 1).out[i].lane),
    decreases k,
{
    lemma_srandom_keeps(notes, s, k);
    if k > i + 1 {
        lemma_srandom_active_kept(notes, s, i, k - 1);
        lemma_srandom_keeps(notes, s, k - 1);
        let n = notes[k - 1];
        if n.lane != notes[i].lane {
            assert(lane_rank(n.lane) != lane_rank(notes[i].lane));
        } else {
            assert(n.note_type != NoteType::LongNoteStart && n.note_type != NoteType::LongNoteEnd);
        }
    } else {
        lemma_srandom_prefix(notes, s, i, i);
        lemma_srandom_keeps(notes, s, i);
        let st = srandom_fold(notes, s, i);
        assert(st.out.len() == i);
        assert(0 <= lane_rank(notes[i].lane) < 8);
    }
}

/// S-RANDOM keeps long notes whole: a long-note end gets the key its start
/// was moved to, when no other long-note start or end lies on that lane
/// between them.
pub proof fn lemma_srandom_long_notes_intact(notes: Seq<NoteEvent>, seed: u64, i: int, j: int)
    requires
        0 <= i < j < notes.len(),
        notes[i].lane != Lane::Scratch,
        notes[i].note_type == NoteType::LongNoteStart,
        notes[j].note_type == NoteType::LongNoteEnd,
        notes[j].lane == notes[i].lane,
        no_ln_edge_between(notes, notes[i].lane, i, j),
    ensures
        modified_notes(notes, LaneModifier::SRandom, seed)[j].lane == modified_notes(notes, LaneModifier::SRandom, seed)[i].lane,
{
    let s = start_state(seed);
    let n = notes.len() as int;
    lemma_srandom_active_kept(notes, s, i, j);
    lemma_srandom_prefix(notes, s, i + 1, n);
    lemma_srandom_prefix(notes, s, j + 1, n);
    lemma_srandom_prefix(notes, s, j, j + 1);
    assert(srandom_fold(notes, s, n).out[i] == srandom_fold(notes, s, n).out.take(i + 1)[i]);
    assert(srandom_fold(notes, s, n).out[j] == srandom_fold(notes, s, n).out.take(j + 1)[j]);
}

/// The permutation of keys 1..7 that REGULAR, MIRROR, RANDOM and R-RANDOM
/// apply to the whole chart for `seed`: the identity, the reversal, a
/// shuffle, and a rotation (S-RANDOM places each note on its own and has none;
/// the identity stands for it here).
pub open spec fn chart_key_permutation(m: LaneModifier, seed: u64) -> Seq<Lane> {
    let s0 = start_state(seed);
    match m {
        LaneModifier::Regular => key_lanes(),
        LaneModifier::Mirror => seq![Lane::Key7, Lane::Key6, Lane::Key5, Lane::Key4, Lane::Key3, Lane::Key2, Lane::Key1],
        LaneModifier::Random => random_permutation(s0),
        LaneModifier::RRandom => rotated_keys(((xorshift(s0) % 6 + 1) % 7) as int),
        LaneModifier::SRandom => key_lanes(),
    }
}

/// REGULAR, MIRROR, RANDOM and R-RANDOM move the notes by one bijection of
/// keys 1..7 for the whole chart: every note keeps its position, sound and
/// type, scratch notes stay on the scratch lane, and a note on key `k` goes to
/// the `k`-th lane of `chart_key_permutation(m, seed)`, which is a permutation
/// of keys 1..7. For REGULAR it is the identity, for MIRROR key `k` goes to key
/// `8 - k`, and for R-RANDOM it is a rotation other than the identity.
pub proof fn lemma_one_key_permutation(notes: Seq<NoteEvent>, m: LaneModifier, seed: u64)
    requires
        m != LaneModifier::SRandom,
    ensures
        is_key_permutation(chart_key_permutation(m, seed)),
        modified_notes(notes, m, seed) == relane(notes, |l: Lane| mapped_lane(l, chart_key_permutation(m, seed))),
        m == LaneModifier::Regular ==> chart_key_permutation(m, seed) == key_lanes(),
        m == LaneModifier::Mirror ==> forall|k: int| 0 <= k < 7 ==> #[trigger] chart_key_permutation(m, seed)[k] == key_lane(6 - k),
        m == LaneModifier::RRandom ==> chart_key_permutation(m, seed) != key_lanes()
            && exists|shift: int| 1 <= shift <= 6 && chart_key_permutation(m, seed) == rotated_keys(shift),
{
    let p = chart_key_permutation(m, seed);
    let s0 = start_state(seed);
    let out = modified_notes(notes, m, seed);
    let mapped = relane(notes, |l: Lane| mapped_lane(l, p));
    match m {
        LaneModifier::Regular => {
            let k = key_lanes();
            assert forall|i: int, j: int| 0 <= i < j < 7 implies k[i] != k[j] by {
                assert(lane_rank(k[i]) == i + 1);
                assert(lane_rank(k[j]) == j + 1);
            }
            assert forall|i: int| 0 <= i < notes.len() implies mapped[i] == out[i] by {
                assert(mapped_lane(notes[i].lane, p) == notes[i].lane);
            }
            assert(mapped =~= out);
        },
        LaneModifier::Mirror => {
            assert forall|i: int, j: int| 0 <= i < j < 7 implies p[i] != p[j] by {
                assert(lane_rank(p[i]) == 7 - i);
                assert(lane_rank(p[j]) == 7 - j);
            }
            assert forall|i: int| 0 <= i < notes.len() implies mapped[i] == out[i] by {
                assert(mapped_lane(notes[i].lane, p) == mirror_of(notes[i].lane));
            }
            assert(mapped =~= out);
        },
        LaneModifier::Random => {
            lemma_random_is_permutation(s0);
        },
        LaneModifier::RRandom => {
            let sh = ((xorshift(s0) % 6 + 1) % 7) as int;
            assert(1 <= sh <= 6);
            lemma_rotation_is_permutation(sh);
            assert(p[0] == key_lane(sh % 7));
            assert(p[0] != key_lanes()[0]);
            assert(p == rotated_keys(sh));
        },
        LaneModifier::SRandom => {},
    }
}

} // verus!
