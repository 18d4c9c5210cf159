//! Menu state cycling and names: display modes, song categories, screens,
//! key presets and lane names.

use vstd::prelude::*;
use crate::bms::Lane;
use crate::text::chars_of;

verus! {

/// Display and windowing mode.
#[derive(Debug, Clone, Copy, PartialEq, Eq, Structural, Default)]
pub enum DisplayMode {
    #[default]
    Windowed,
    Borderless,
    ExclusiveFullscreen,
}

pub open spec fn display_mode_name(m: DisplayMode) -> &'static str {
    match m {
        DisplayMode::Windowed => "WINDOWED",
        DisplayMode::Borderless => "BORDERLESS",
        DisplayMode::ExclusiveFullscreen => "FULLSCREEN",
    }
}

/// Windowed -> borderless -> fullscreen -> windowed.
pub open spec fn display_mode_after(m: DisplayMode) -> DisplayMode {
    match m {
        DisplayMode::Windowed => DisplayMode::Borderless,
        DisplayMode::Borderless => DisplayMode::ExclusiveFullscreen,
        DisplayMode::ExclusiveFullscreen => DisplayMode::Windowed,
    }
}

/// The reverse cycle of `display_mode_after`.
pub open spec fn display_mode_before(m: DisplayMode) -> DisplayMode {
    match m {
        DisplayMode::Windowed => DisplayMode::ExclusiveFullscreen,
        DisplayMode::Borderless => DisplayMode::Windowed,
        DisplayMode::ExclusiveFullscreen => DisplayMode::Borderless,
    }
}

impl DisplayMode {
    pub fn as_str(&self) -> (s: &'static str)
        ensures
            s@ == display_mode_name(*self)@,
    {
        match self {
            DisplayMode::Windowed => "WINDOWED",
            DisplayMode::Borderless => "BORDERLESS",
            DisplayMode::ExclusiveFullscreen => "FULLSCREEN",
        }
    }

    pub fn next(self) -> (r: Self)
        ensures
            r == display_mode_after(self),
    {
        match self {
            DisplayMode::Windowed => DisplayMode::Borderless,
            DisplayMode::Borderless => DisplayMode::ExclusiveFullscreen,
            DisplayMode::ExclusiveFullscreen => DisplayMode::Windowed,
        }
    }

    pub fn prev(self) -> (r: Self)
        ensures
            r == display_mode_before(self),
    {
        match self {
            DisplayMode::Windowed => DisplayMode::ExclusiveFullscreen,
            DisplayMode::Borderless => DisplayMode::Windowed,
            DisplayMode::ExclusiveFullscreen => DisplayMode::Borderless,
        }
    }
}

/// `prev` undoes `next` and `next` undoes `prev`; three steps come back.
pub proof fn lemma_display_mode_cycle(m: DisplayMode)
    ensures
        display_mode_before(display_mode_after(m)) == m,
        display_mode_after(display_mode_before(m)) == m,
        display_mode_after(display_mode_after(display_mode_after(m))) == m,
{
}

/// Application screens.
#[derive(Debug, Clone, Copy, PartialEq, Eq, Structural)]
pub enum AppScreen {
    SongSelect,
    Loading,
    Gameplay,
    Result,
    KeyConfig,
}

/// Category grouping of the song library.
#[derive(Debug, Clone, Copy, PartialEq, Eq, Structural, Default)]
pub enum SongCategory {
    #[default]
    All,
    Keys5,
    Keys7,
    Keys9,
    Keys10,
    Keys14,
    Level,
    ClearStatus,
}

/// Position of a category in the cycle.
pub open spec fn category_index(c: SongCategory) -> int {
    match c {
        SongCategory::All => 0,
        SongCategory::Keys5 => 1,
        SongCategory::Keys7 => 2,
        SongCategory::Keys9 => 3,
        SongCategory::Keys10 => 4,
        SongCategory::Keys14 => 5,
        SongCategory::Level => 6,
        SongCategory::ClearStatus => 7,
    }
}

pub open spec fn category_name(c: SongCategory) -> &'static str {
    match c {
        SongCategory::All => "ALL SONGS",
        SongCategory::Keys5 => "5 KEYS",
        SongCategory::Keys7 => "7 KEYS",
        SongCategory::Keys9 => "9 KEYS",
        SongCategory::Keys10 => "10 KEYS",
        SongCategory::Keys14 => "14 KEYS",
        SongCategory::Level => "BY LEVEL",
        SongCategory::ClearStatus => "BY CLEAR STATUS",
    }
}

/// All, 5, 7, 9, 10, 14 keys, by level, by clear status, then All again.
pub open spec fn category_after(c: SongCategory) -> SongCategory {
    match c {
        SongCategory::All => SongCategory::Keys5,
        SongCategory::Keys5 => SongCategory::Keys7,
        SongCategory::Keys7 => SongCategory::Keys9,
        SongCategory::Keys9 => SongCategory::Keys10,
        SongCategory::Keys10 => SongCategory::Keys14,
        SongCategory::Keys14 => SongCategory::Level,
        SongCategory::Level => SongCategory::ClearStatus,
        SongCategory::ClearStatus => SongCategory::All,
    }
}

/// The reverse cycle of `category_after`.
pub open spec fn category_before(c: SongCategory) -> SongCategory {
    match c {
        SongCategory::All => SongCategory::ClearStatus,
        SongCategory::Keys5 => SongCategory::All,
        SongCategory::Keys7 => SongCategory::Keys5,
        SongCategory::Keys9 => SongCategory::Keys7,
        SongCategory::Keys10 => SongCategory::Keys9,
        SongCategory::Keys14 => SongCategory::Keys10,
        SongCategory::Level => SongCategory::Keys14,
        SongCategory::ClearStatus => SongCategory::Level,
    }
}

impl SongCategory {
    /// The next category, wrapping from the last to the first.
    pub fn next(self) -> (r: Self)
        ensures
            r == category_after(self),
    {
        match self {
            SongCategory::All => SongCategory::Keys5,
            SongCategory::Keys5 => SongCategory::Keys7,
            SongCategory::Keys7 => SongCategory::Keys9,
            SongCategory::Keys9 => SongCategory::Keys10,
            SongCategory::Keys10 => SongCategory::Keys14,
            SongCategory::Keys14 => SongCategory::Level,
            SongCategory::Level => SongCategory::ClearStatus,
            SongCategory::ClearStatus => SongCategory::All,
        }
    }

    /// The previous category, wrapping from the first to the last.
    pub fn prev(self) -> (r: Self)
        ensures
            r == category_before(self),
    {
        match self {
            SongCategory::All => SongCategory::ClearStatus,
            SongCategory::Keys5 => SongCategory::All,
            SongCategory::Keys7 => SongCategory::Keys5,
            SongCategory::Keys9 => SongCategory::Keys7,
            SongCategory::Keys10 => SongCategory::Keys9,
            SongCategory::Keys14 => SongCategory::Keys10,
            SongCategory::Level => SongCategory::Keys14,
            SongCategory::ClearStatus => SongCategory::Level,
        }
    }

    pub fn as_str(&self) -> (s: &'static str)
        ensures
            s@ == category_name(*self)@,
    {
        match self {
            SongCategory::All => "ALL SONGS",
            SongCategory::Keys5 => "5 KEYS",
            SongCategory::Keys7 => "7 KEYS",
            SongCategory::Keys9 => "9 KEYS",
            SongCategory::Keys10 => "10 KEYS",
            SongCategory::Keys14 => "14 KEYS",
            SongCategory::Level => "BY LEVEL",
            SongCategory::ClearStatus => "BY CLEAR STATUS",
        }
    }
}

/// The categories form one cycle of eight: `next` moves one place forward,
/// `prev` one place back, and each undoes the other.
pub proof fn lemma_category_cycle(c: SongCategory)
    ensures
        category_index(category_after(c)) == (category_index(c) + 1) % 8,
        category_index(category_before(c)) == (category_index(c) + 7) % 8,
        category_before(category_after(c)) == c,
        category_after(category_before(c)) == c,
{
}

/// Key mapping presets for 7 keys + scratch.
#[derive(Debug, Clone, Copy, PartialEq, Eq, Structural)]
pub enum KeyPreset {
    /// Left Shift (scratch) + S D F Space J K L.
    HomeRow,
    /// Left Shift (scratch) + Z S X D C F V.
    ArcadeZx,
    /// User-defined bindings.
    Custom,
}

pub open spec fn preset_name(p: KeyPreset) -> &'static str {
    match p {
        KeyPreset::HomeRow => "HomeRow (S D F Space J K L)",
        KeyPreset::ArcadeZx => "ArcadeZx (Z S X D C F V)",
        KeyPreset::Custom => "Custom Layout",
    }
}

impl KeyPreset {
    pub fn as_str(self) -> (s: &'static str)
        ensures
            s@ == preset_name(self)@,
    {
        match self {
            KeyPreset::HomeRow => "HomeRow (S D F Space J K L)",
            KeyPreset::ArcadeZx => "ArcadeZx (Z S X D C F V)",
            KeyPreset::Custom => "Custom Layout",
        }
    }
}

/// The name a lane is stored under in key bindings.
pub open spec fn lane_name(l: Lane) -> Seq<char> {
    match l {
        Lane::Scratch => seq!['S', 'c', 'r', 'a', 't', 'c', 'h'],
        Lane::Key1 => seq!['K', 'e', 'y', '1'],
        Lane::Key2 => seq!['K', 'e', 'y', '2'],
        Lane::Key3 => seq!['K', 'e', 'y', '3'],
        Lane::Key4 => seq!['K', 'e', 'y', '4'],
        Lane::Key5 => seq!['K', 'e', 'y', '5'],
        Lane::Key6 => seq!['K', 'e', 'y', '6'],
        Lane::Key7 => seq!['K', 'e', 'y', '7'],
    }
}

pub fn lane_to_name(lane: Lane) -> (s: &'static str)
    ensures
        s@ == lane_name(lane),
{
    proof {
        reveal_strlit("Scratch");
        reveal_strlit("Key1");
        reveal_strlit("Key2");
        reveal_strlit("Key3");
        reveal_strlit("Key4");
        reveal_strlit("Key5");
        reveal_strlit("Key6");
        reveal_strlit("Key7");
    }
    match lane {
        Lane::Scratch => "Scratch",
        Lane::Key1 => "Key1",
        Lane::Key2 => "Key2",
        Lane::Key3 => "Key3",
        Lane::Key4 => "Key4",
        Lane::Key5 => "Key5",
        Lane::Key6 => "Key6",
        Lane::Key7 => "Key7",
    }
}

/// The lane named `s`, if any.
pub open spec fn lane_named(s: Seq<char>) -> Option<Lane> {
    if s == lane_name(Lane::Scratch) {
        Some(Lane::Scratch)
    } else if s == lane_name(Lane::Key1) {
        Some(Lane::Key1)
    } else if s == lane_name(Lane::Key2) {
        Some(Lane::Key2)
    } else if s == lane_name(Lane::Key3) {
        Some(Lane::Key3)
    } else if s == lane_name(Lane::Key4) {
        Some(Lane::Key4)
    } else if s == lane_name(Lane::Key5) {
        Some(Lane::Key5)
    } else if s == lane_name(Lane::Key6) {
        Some(Lane::Key6)
    } else if s == lane_name(Lane::Key7) {
        Some(Lane::Key7)
    } else {
        None
    }
}

/// Whether `cs` holds exactly the characters of `lit`.
fn chars_equal(cs: &Vec<char>, lit: &[char]) -> (r: bool)
    ensures
        r == (cs@ == lit@),
{
    if cs.len() != lit.len() {
        return false;
    }
    let mut i: usize = 0;
    while i < cs.len()
        invariant
            i <= cs@.len(),
            cs@.len() == lit@.len(),
            forall|k: int| 0 <= k < i ==> cs@[k] == lit@[k],
        decreases cs@.len() - i,
    {
        if cs[i] != lit[i] {
            return false;
        }
        i = i + 1;
    }
    assert(cs@ =~= lit@);
    true
}

pub fn name_to_lane(s: &str) -> (r: Option<Lane>)
    ensures
        r == lane_named(s@),
{
    let cs = chars_of(s);
    if chars_equal(&cs, &['S', 'c', 'r', 'a', 't', 'c', 'h']) {
        Some(Lane::Scratch)
    } else if chars_equal(&cs, &['K', 'e', 'y', '1']) {
        Some(Lane::Key1)
    } else if chars_equal(&cs, &['K', 'e', 'y', '2']) {
        Some(Lane::Key2)
    } else if chars_equal(&cs, &['K', 'e', 'y', '3']) {
        Some(Lane::Key3)
    } else if chars_equal(&cs, &['K', 'e', 'y', '4']) {
        Some(Lane::Key4)
    } else if chars_equal(&cs, &['K', 'e', 'y', '5']) {
        Some(Lane::Key5)
    } else if chars_equal(&cs, &['K', 'e', 'y', '6']) {
        Some(Lane::Key6)
    } else if chars_equal(&cs, &['K', 'e', 'y', '7']) {
        Some(Lane::Key7)
    } else {
        None
    }
}

/// Reading back a lane's name gives the lane.
pub proof fn lemma_lane_name_roundtrip(l: Lane)
    ensures
        lane_named(lane_name(l)) == Some(l),
{
    let names = seq![
        lane_name(Lane::Scratch),
        lane_name(Lane::Key1),
        lane_name(Lane::Key2),
        lane_name(Lane::Key3),
        lane_name(Lane::Key4),
        lane_name(Lane::Key5),
        lane_name(Lane::Key6),
        lane_name(Lane::Key7),
    ];
    assert(lane_name(Lane::Scratch).len() == 7);
    assert(lane_name(Lane::Key1)[3] == '1');
    assert(lane_name(Lane::Key2)[3] == '2');
    assert(lane_name(Lane::Key3)[3] == '3');
    assert(lane_name(Lane::Key4)[3] == '4');
    assert(lane_name(Lane::Key5)[3] == '5');
    assert(lane_name(Lane::Key6)[3] == '6');
    assert(lane_name(Lane::Key7)[3] == '7');
}

/// Whether a window size preset is offered: it fits the monitor, and in
/// windowed mode it is 16:9.
pub open spec fn resolution_allowed(w: u32, h: u32, mon_w: u32, mon_h: u32, mode: DisplayMode) -> bool {
    &&& w <= mon_w
    &&& h <= mon_h
    &&& (mode == DisplayMode::Windowed ==> w * 9 == h * 16)
}

/// The first `n` presets that are offered, in order.
pub open spec fn allowed_presets(
    presets: Seq<(u32, u32, &'static str)>,
    mon_w: u32,
    mon_h: u32,
    mode: DisplayMode,
    n: int,
) -> Seq<(u32, u32, &'static str)>
    decreases n,
{
    if n <= 0 {
        Seq::empty()
    } else {
        let prev = allowed_presets(presets, mon_w, mon_h, mode, n - 1);
        let p = presets[n - 1];
        if resolution_allowed(p.0, p.1, mon_w, mon_h, mode) {
            prev.push(p)
        } else {
            prev
        }
    }
}

/// The window sizes offered on a `mon_w` x `mon_h` monitor: the presets
/// that fit (16:9 ones only when windowed), or 1280x720 when none does.
pub fn available_resolutions(
    presets: &Vec<(u32, u32, &'static str)>,
    mon_w: u32,
    mon_h: u32,
    mode: DisplayMode,
) -> (r: Vec<(u32, u32, &'static str)>)
    ensures
        allowed_presets(presets@, mon_w, mon_h, mode, presets@.len() as int).len() > 0 ==> r@
            == allowed_presets(presets@, mon_w, mon_h, mode, presets@.len() as int),
        allowed_presets(presets@, mon_w, mon_h, mode, presets@.len() as int).len() == 0 ==> r@
            == seq![(1280u32, 720u32, "1280x720 (16:9 HD)")],
{
    let mut out: Vec<(u32, u32, &'static str)> = Vec::new();
    let mut i: usize = 0;
    while i < presets.len()
        invariant
            i <= presets@.len(),
            out@ == allowed_presets(presets@, mon_w, mon_h, mode, i as int),
        decreases presets@.len() - i,
    {
        let p = presets[i];
        let windowed = mode == DisplayMode::Windowed;
        if p.0 <= mon_w && p.1 <= mon_h && (!windowed || (p.0 as u64) * 9 == (p.1 as u64) * 16) {
            out.push(p);
        }
        i = i + 1;
    }
    if out.len() == 0 {
        let mut fallback: Vec<(u32, u32, &'static str)> = Vec::new();
        fallback.push((1280, 720, "1280x720 (16:9 HD)"));
        assert(fallback@ =~= seq![(1280u32, 720u32, "1280x720 (16:9 HD)")]);
        fallback
    } else {
        out
    }
}

/// The label of the first offered size equal to `w` x `h`, from position `i` on.
pub open spec fn resolution_label_from(avail: Seq<(u32, u32, &'static str)>, w: u32, h: u32, i: int) -> Option<&'static str>
    decreases avail.len() - i,
{
    if i < 0 || i >= avail.len() {
        None
    } else if avail[i].0 == w && avail[i].1 == h {
        Some(avail[i].2)
    } else {
        resolution_label_from(avail, w, h, i + 1)
    }
}

/// The label of the window size `w` x `h` among the offered sizes, or
/// `CUSTOM` when it is not one of them.
pub fn current_resolution_label(avail: &Vec<(u32, u32, &'static str)>, w: u32, h: u32) -> (r: &'static str)
    ensures
        r == match resolution_label_from(avail@, w, h, 0) {
            Some(l) => l,
            None => "CUSTOM",
        },
{
    let mut i: usize = 0;
    while i < avail.len()
        invariant
            i <= avail@.len(),
            resolution_label_from(avail@, w, h, 0) == resolution_label_from(avail@, w, h, i as int),
        decreases avail@.len() - i,
    {
        if avail[i].0 == w && avail[i].1 == h {
            return avail[i].2;
        }
        i = i + 1;
    }
    "CUSTOM"
}

/// The position of the first offered size equal to `w` x `h`, from `i` on.
pub open spec fn resolution_index_from(avail: Seq<(u32, u32, &'static str)>, w: u32, h: u32, i: int) -> Option<int>
    decreases avail.len() - i,
{
    if i < 0 || i >= avail.len() {
        None
    } else if avail[i].0 == w && avail[i].1 == h {
        Some(i)
    } else {
        resolution_index_from(avail, w, h, i + 1)
    }
}

/// The offered size the resolution option switches to from window size
/// `w` x `h`: the next (or previous) one, wrapping, or the first when the
/// window has another size; `None` when nothing is offered.
pub fn cycle_resolution(avail: &Vec<(u32, u32, &'static str)>, w: u32, h: u32, forward: bool) -> (r: Option<(u32, u32)>)
    ensures
        avail@.len() == 0 ==> r is None,
        avail@.len() > 0 ==> r == Some(
            {
                let k = match resolution_index_from(avail@, w, h, 0) {
                    Some(idx) => if forward {
                        (idx + 1) % (avail@.len() as int)
                    } else if idx == 0 {
                        avail@.len() - 1
                    } else {
                        idx - 1
                    },
                    None => 0,
                };
                (avail@[k].0, avail@[k].1)
            },
        ),
{
    let n = avail.len();
    if n == 0 {
        return None;
    }
    let mut i: usize = 0;
    let mut found: Option<usize> = None;
    while i < n
        invariant
            n == avail@.len(),
            i <= n,
            found is None ==> resolution_index_from(avail@, w, h, 0) == resolution_index_from(avail@, w, h, i as int),
            found matches Some(idx) ==> resolution_index_from(avail@, w, h, 0) == Some(idx as int) && idx < n,
        decreases n - i,
    {
        if found.is_none() && avail[i].0 == w && avail[i].1 == h {
            found = Some(i);
        }
        i = i + 1;
    }
    let k = match found {
        Some(idx) => if forward {
            (idx + 1) % n
        } else if idx == 0 {
            n - 1
        } else {
            idx - 1
        },
        None => 0,
    };
    Some((avail[k].0, avail[k].1))
}

} // verus!
