//! BMS chart model and parser.

use vstd::prelude::*;
use crate::text::{is_ws, is_whitespace, trim_start_chars, trim_chars, utf8_len, byte_len, spec_parse_uint, spec_parse_i32, eq_ci, Ratio, spec_parse_decimal, decimal_den_ok, find_char, find_char_range, is_ascii_digit, digits_value, trim_start_range, trim_range, parse_uint_range, parse_i32_range, parse_decimal_range, eq_ci_range, string_of, encode_range, is_digit, chars_of};
use crate::table::{Table, TableKey};
use vstd::utf8::encode_utf8;

verus! {

/// BMS `#WAVxx` sound identifier (Base36).
#[derive(Debug, Clone, Copy, PartialEq, Eq, Structural, Hash, PartialOrd, Ord, Default)]
pub struct WavId(pub u16);

/// BMS `#BMPxx` picture identifier (Base36).
#[derive(Debug, Clone, Copy, PartialEq, Eq, Structural, Hash, PartialOrd, Ord, Default)]
pub struct BmpId(pub u16);

impl WavId {
    pub fn new(id: u16) -> (r: Self)
        ensures
            r.0 == id,
    {
        WavId(id)
    }

    pub fn as_u16(self) -> (r: u16)
        ensures
            r == self.0,
    {
        self.0
    }
}

/// Value of a Base36 digit (`0-9`, `A-Z`, `a-z`).
pub open spec fn base36_digit(c: u8) -> Option<u16> {
    if 48 <= c <= 57 {
        Some((c - 48) as u16)
    } else if 65 <= c <= 90 {
        Some((c - 65 + 10) as u16)
    } else if 97 <= c <= 122 {
        Some((c - 97 + 10) as u16)
    } else {
        None
    }
}

/// Value of a hexadecimal digit (`0-9`, `A-F`, `a-f`).
pub open spec fn hex_digit(c: u8) -> Option<u8> {
    if 48 <= c <= 57 {
        Some((c - 48) as u8)
    } else if 65 <= c <= 70 {
        Some((c - 65 + 10) as u8)
    } else if 97 <= c <= 102 {
        Some((c - 97 + 10) as u8)
    } else {
        None
    }
}

/// The identifier named by two Base36 digits; `00` names nothing.
pub open spec fn spec_decode_base36(c1: u8, c2: u8) -> Option<WavId> {
    match (base36_digit(c1), base36_digit(c2)) {
        (Some(d1), Some(d2)) => if d1 * 36 + d2 == 0 {
            None
        } else {
            Some(WavId((d1 * 36 + d2) as u16))
        },
        _ => None,
    }
}

/// The byte named by two hexadecimal digits.
pub open spec fn spec_decode_hex(c1: u8, c2: u8) -> Option<u8> {
    match (hex_digit(c1), hex_digit(c2)) {
        (Some(d1), Some(d2)) => Some((d1 * 16 + d2) as u8),
        _ => None,
    }
}

fn base36_digit_exec(c: u8) -> (r: Option<u16>)
    ensures
        r == base36_digit(c),
{
    if 48u8 <= c && c <= 57u8 {
        Some((c - 48u8) as u16)
    } else if 65u8 <= c && c <= 90u8 {
        Some((c - 65u8 + 10) as u16)
    } else if 97u8 <= c && c <= 122u8 {
        Some((c - 97u8 + 10) as u16)
    } else {
        None
    }
}

fn hex_digit_exec(c: u8) -> (r: Option<u8>)
    ensures
        r == hex_digit(c),
{
    if 48u8 <= c && c <= 57u8 {
        Some(c - 48u8)
    } else if 65u8 <= c && c <= 70u8 {
        Some(c - 65u8 + 10)
    } else if 97u8 <= c && c <= 102u8 {
        Some(c - 97u8 + 10)
    } else {
        None
    }
}

/// Decodes a 2-character Base36 identifier (`00`..`ZZ`); `None` for `00` or
/// a character that is no Base36 digit.
pub fn decode_base36(c1: u8, c2: u8) -> (r: Option<WavId>)
    ensures
        r == spec_decode_base36(c1, c2),
        r matches Some(w) ==> 1 <= w.0 < 1296,
{
    let d1 = match base36_digit_exec(c1) {
        Some(d) => d,
        None => return None,
    };
    let d2 = match base36_digit_exec(c2) {
        Some(d) => d,
        None => return None,
    };
    let val = d1 * 36 + d2;
    if val == 0 {
        None
    } else {
        Some(WavId(val))
    }
}

/// Decodes a 2-character hexadecimal number (`00`..`FF`).
pub fn decode_hex(c1: u8, c2: u8) -> (r: Option<u8>)
    ensures
        r == spec_decode_hex(c1, c2),
{
    let d1 = match hex_digit_exec(c1) {
        Some(d) => d,
        None => return None,
    };
    let d2 = match hex_digit_exec(c2) {
        Some(d) => d,
        None => return None,
    };
    Some(d1 * 16 + d2)
}

/// BMS play mode category.
#[derive(Debug, Clone, Copy, PartialEq, Eq, Structural, Hash, Default)]
pub enum PlayMode {
    #[default]
    Keys7,
    Keys5,
    Keys9,
    Keys10,
    Keys14,
}

impl PlayMode {
    pub fn as_str(&self) -> (s: &'static str)
        ensures
            s@ == play_mode_name(*self)@,
    {
        match self {
            PlayMode::Keys7 => "7KEYS",
            PlayMode::Keys5 => "5KEYS",
            PlayMode::Keys9 => "9KEYS",
            PlayMode::Keys10 => "10KEYS",
            PlayMode::Keys14 => "14KEYS",
        }
    }
}

pub open spec fn play_mode_name(m: PlayMode) -> &'static str {
    match m {
        PlayMode::Keys7 => "7KEYS",
        PlayMode::Keys5 => "5KEYS",
        PlayMode::Keys9 => "9KEYS",
        PlayMode::Keys10 => "10KEYS",
        PlayMode::Keys14 => "14KEYS",
    }
}

/// Key lanes (7 keys + 1 scratch).
#[derive(Debug, Clone, Copy, PartialEq, Eq, Structural, Hash, PartialOrd, Ord)]
pub enum Lane {
    Scratch,
    Key1,
    Key2,
    Key3,
    Key4,
    Key5,
    Key6,
    Key7,
}

/// Position of a lane in `Scratch, Key1, .., Key7` order.
pub open spec fn lane_rank(l: Lane) -> int {
    match l {
        Lane::Scratch => 0,
        Lane::Key1 => 1,
        Lane::Key2 => 2,
        Lane::Key3 => 3,
        Lane::Key4 => 4,
        Lane::Key5 => 5,
        Lane::Key6 => 6,
        Lane::Key7 => 7,
    }
}

pub fn lane_index(l: Lane) -> (r: usize)
    ensures
        r == lane_rank(l),
{
    match l {
        Lane::Scratch => 0,
        Lane::Key1 => 1,
        Lane::Key2 => 2,
        Lane::Key3 => 3,
        Lane::Key4 => 4,
        Lane::Key5 => 5,
        Lane::Key6 => 6,
        Lane::Key7 => 7,
    }
}

/// The lane at position `i` of `Scratch, Key1, .., Key7`; indices past the
/// end read as key 7 (as replays store lanes).
pub open spec fn lane_at(i: int) -> Lane {
    if i == 0 {
        Lane::Scratch
    } else if i == 1 {
        Lane::Key1
    } else if i == 2 {
        Lane::Key2
    } else if i == 3 {
        Lane::Key3
    } else if i == 4 {
        Lane::Key4
    } else if i == 5 {
        Lane::Key5
    } else if i == 6 {
        Lane::Key6
    } else {
        Lane::Key7
    }
}

pub fn lane_from_index(i: u8) -> (l: Lane)
    ensures
        l == lane_at(i as int),
{
    match i {
        0 => Lane::Scratch,
        1 => Lane::Key1,
        2 => Lane::Key2,
        3 => Lane::Key3,
        4 => Lane::Key4,
        5 => Lane::Key5,
        6 => Lane::Key6,
        _ => Lane::Key7,
    }
}

/// A lane's index reads back as the lane.
pub proof fn lemma_lane_index_roundtrip(l: Lane)
    ensures
        lane_at(lane_rank(l)) == l,
        0 <= lane_rank(l) < 8,
{
}

/// Note type (tap, long note endpoints, landmine).
#[derive(Debug, Clone, Copy, PartialEq, Eq, Structural)]
pub enum NoteType {
    Tap,
    LongNoteStart,
    LongNoteEnd,
    Landmine,
}

/// A note on the timeline: `fraction` is the position inside the measure,
/// `slot / slot_count` of the measure's data.
#[derive(Debug, Clone, Copy, PartialEq, Eq, Structural)]
pub struct NoteEvent {
    pub measure: u32,
    pub fraction: Ratio,
    pub lane: Lane,
    pub wav_id: Option<WavId>,
    pub note_type: NoteType,
}

/// BGA event channel kind.
#[derive(Debug, Clone, Copy, PartialEq, Eq, Structural, Hash)]
pub enum BgaChannel {
    /// 04: base background frame.
    Base,
    /// 06: frame shown on a miss.
    Poor,
    /// 07: overlay frame.
    Layer,
}

/// A BGA event on the timeline.
#[derive(Debug, Clone, Copy, PartialEq, Eq, Structural)]
pub struct BgaEvent {
    pub measure: u32,
    pub fraction: Ratio,
    pub channel: BgaChannel,
    pub bmp_id: BmpId,
}

/// Slice and placement of a picture from `#BGAxx`.
#[derive(Debug, Clone, Copy, PartialEq, Eq, Structural, Default)]
pub struct BgaDefinition {
    pub bmp_id: BmpId,
    pub sx: i32,
    pub sy: i32,
    pub w: u32,
    pub h: u32,
    pub dx: i32,
    pub dy: i32,
}

/// Kind of a timing event.
#[derive(Debug, Clone, Copy, PartialEq, Eq, Structural)]
pub enum TimingEventKind {
    /// BPM change to this BPM.
    BpmChange(Ratio),
    /// Stop lasting this many 4-beat measures.
    StopMeasures(Ratio),
}

/// A timing event on the timeline.
#[derive(Debug, Clone, Copy, PartialEq, Eq, Structural)]
pub struct TimingEvent {
    pub measure: u32,
    pub fraction: Ratio,
    pub kind: TimingEventKind,
}

/// A keysound played without a lane note: measure, position, sound.
pub type BgmNote = (u32, Ratio, WavId);

/// A raw long-note endpoint from channels 51..59 before pairing.
pub type RawLn = (u32, Ratio, Lane, WavId);

/// Errors of BMS parsing.
#[derive(Debug, Clone, PartialEq, Eq)]
pub enum BmsParseError {
    EmptyChart,
    InvalidHeader(String),
    InvalidMeasure(String),
    InvalidChannel(String),
}

/// Number of Base36 identifiers (`00`..`ZZ`).
pub const ID_SLOTS: usize = 1296;

/// Number of measures (`000`..`999`).
pub const MEASURE_SLOTS: usize = 1000;

/// Header metadata.
#[derive(Debug, Clone)]
pub struct BmsHeader {
    pub player: u32,
    pub genre: String,
    pub title: String,
    pub subtitle: String,
    pub artist: String,
    pub subartist: String,
    pub bpm: Ratio,
    pub play_level: u32,
    pub rank: u32,
    pub total: Ratio,
    pub vol_wav: Ratio,
    pub stage_file: String,
    pub banner: String,
    pub ln_obj: Option<WavId>,
    pub difficulty: Option<u32>,
    pub lntype: u32,
    pub wav_table: Table<String>,
    pub bmp_table: Table<String>,
    pub bga_table: Table<BgaDefinition>,
    pub bpm_table: Table<Ratio>,
    pub stop_table: Table<Ratio>,
}

/// The abstract content of a header.
pub struct HeaderModel {
    pub player: u32,
    pub genre: Seq<char>,
    pub title: Seq<char>,
    pub subtitle: Seq<char>,
    pub artist: Seq<char>,
    pub subartist: Seq<char>,
    pub bpm: Ratio,
    pub play_level: u32,
    pub rank: u32,
    pub total: Ratio,
    pub vol_wav: Ratio,
    pub stage_file: Seq<char>,
    pub banner: Seq<char>,
    pub ln_obj: Option<WavId>,
    pub difficulty: Option<u32>,
    pub lntype: u32,
    pub wav_table: Seq<Option<Seq<char>>>,
    pub bmp_table: Seq<Option<Seq<char>>>,
    pub bga_table: Seq<Option<BgaDefinition>>,
    pub bpm_table: Seq<Option<Ratio>>,
    pub stop_table: Seq<Option<Ratio>>,
}

pub open spec fn string_table_view(t: Seq<Option<String>>) -> Seq<Option<Seq<char>>> {
    t.map_values(|o: Option<String>| match o {
        Some(s) => Some(s@),
        None => None,
    })
}

impl BmsHeader {
    pub closed spec fn wf(&self) -> bool {
        &&& self.wav_table.wf()
        &&& self.bmp_table.wf()
        &&& self.bga_table.wf()
        &&& self.bpm_table.wf()
        &&& self.stop_table.wf()
        &&& self.wav_table@.len() == ID_SLOTS
        &&& self.bmp_table@.len() == ID_SLOTS
        &&& self.bga_table@.len() == ID_SLOTS
        &&& self.bpm_table@.len() == ID_SLOTS
        &&& self.stop_table@.len() == ID_SLOTS
        &&& forall|i: int| 0 <= i < ID_SLOTS ==> (#[trigger] self.stop_table@[i] matches Some(r) ==> decimal_den_ok(r))
    }

    pub open spec fn model(&self) -> HeaderModel {
        HeaderModel {
            player: self.player,
            genre: self.genre@,
            title: self.title@,
            subtitle: self.subtitle@,
            artist: self.artist@,
            subartist: self.subartist@,
            bpm: self.bpm,
            play_level: self.play_level,
            rank: self.rank,
            total: self.total,
            vol_wav: self.vol_wav,
            stage_file: self.stage_file@,
            banner: self.banner@,
            ln_obj: self.ln_obj,
            difficulty: self.difficulty,
            lntype: self.lntype,
            wav_table: string_table_view(self.wav_table@),
            bmp_table: string_table_view(self.bmp_table@),
            bga_table: self.bga_table@,
            bpm_table: self.bpm_table@,
            stop_table: self.stop_table@,
        }
    }
}

/// The header before any command is read.
pub open spec fn default_header() -> HeaderModel {
    HeaderModel {
        player: 1,
        genre: Seq::empty(),
        title: Seq::empty(),
        subtitle: Seq::empty(),
        artist: Seq::empty(),
        subartist: Seq::empty(),
        bpm: Ratio { num: 130, den: 1 },
        play_level: 1,
        rank: 2,
        total: Ratio { num: 200, den: 1 },
        vol_wav: Ratio { num: 1, den: 1 },
        stage_file: Seq::empty(),
        banner: Seq::empty(),
        ln_obj: None,
        difficulty: None,
        lntype: 1,
        wav_table: Seq::new(ID_SLOTS as nat, |i: int| None),
        bmp_table: Seq::new(ID_SLOTS as nat, |i: int| None),
        bga_table: Seq::new(ID_SLOTS as nat, |i: int| None),
        bpm_table: Seq::new(ID_SLOTS as nat, |i: int| None),
        stop_table: Seq::new(ID_SLOTS as nat, |i: int| None),
    }
}

/// Identifier named by two characters, when both are ASCII Base36 digits
/// (the byte pair `decode_base36` reads).
pub open spec fn decode_id2(s: Seq<char>) -> Option<WavId> {
    if s.len() == 2 && (s[0] as u32) < 128 && (s[1] as u32) < 128 {
        spec_decode_base36(s[0] as u32 as u8, s[1] as u32 as u8)
    } else {
        None
    }
}

/// `decode_id2` of the first two characters, `None` for a shorter string.
pub open spec fn decode_prefix2(s: Seq<char>) -> Option<WavId> {
    if s.len() >= 2 {
        decode_id2(s.take(2))
    } else {
        None
    }
}

/// A header command's key ends at the first whitespace or `:`.
pub open spec fn is_key_sep(c: char) -> bool {
    is_ws(c) || c == ':'
}

pub open spec fn find_key_sep(s: Seq<char>) -> int
    decreases s.len(),
{
    if s.len() == 0 {
        0
    } else if is_key_sep(s[0]) {
        0
    } else {
        1 + find_key_sep(s.drop_first())
    }
}

/// Everything after position `k` and the separator there.
pub open spec fn rest_after(s: Seq<char>, k: int) -> Seq<char> {
    if k < s.len() {
        s.skip(k + 1)
    } else {
        Seq::empty()
    }
}

pub open spec fn find_ws(s: Seq<char>) -> int
    decreases s.len(),
{
    if s.len() == 0 {
        0
    } else if is_ws(s[0]) {
        0
    } else {
        1 + find_ws(s.drop_first())
    }
}

/// The first `n` whitespace-separated tokens of `s` (`str::split_whitespace`).
pub open spec fn take_tokens(s: Seq<char>, n: nat) -> Seq<Seq<char>>
    decreases n,
{
    if n == 0 {
        Seq::empty()
    } else {
        let t = trim_start_chars(s);
        if t.len() == 0 {
            Seq::empty()
        } else {
            let k = find_ws(t);
            seq![t.take(k)] + take_tokens(t.skip(k), (n - 1) as nat)
        }
    }
}

/// A `#BGAxx bmp sx sy w h dx dy` definition from its seven tokens.
pub open spec fn bga_definition(id: WavId, t: Seq<Seq<char>>) -> BgaDefinition {
    BgaDefinition {
        bmp_id: match decode_prefix2(t[0]) {
            Some(w) => BmpId(w.0),
            None => BmpId(id.0),
        },
        sx: match spec_parse_i32(t[1]) { Some(v) => v as i32, None => 0 },
        sy: match spec_parse_i32(t[2]) { Some(v) => v as i32, None => 0 },
        w: match spec_parse_uint(t[3], u32::MAX as int) { Some(v) => v as u32, None => 0 },
        h: match spec_parse_uint(t[4], u32::MAX as int) { Some(v) => v as u32, None => 0 },
        dx: match spec_parse_i32(t[5]) { Some(v) => v as i32, None => 0 },
        dy: match spec_parse_i32(t[6]) { Some(v) => v as i32, None => 0 },
    }
}

pub open spec fn ci3(key: Seq<char>, a: char, b: char, c: char) -> bool {
    key.len() >= 4 && eq_ci(key.take(3), seq![a, b, c])
}

/// The effect of one header command `content` (after `#`) on the header.
pub open spec fn header_step(h: HeaderModel, content: Seq<char>) -> HeaderModel {
    let k = find_key_sep(content);
    let key = trim_chars(content.take(k));
    let val = trim_chars(rest_after(content, k));
    if eq_ci(key, seq!['P', 'L', 'A', 'Y', 'E', 'R']) {
        match spec_parse_uint(val, u32::MAX as int) {
            Some(v) => HeaderModel { player: v as u32, ..h },
            None => h,
        }
    } else if eq_ci(key, seq!['D', 'I', 'F', 'F', 'I', 'C', 'U', 'L', 'T', 'Y']) {
        match spec_parse_uint(val, u32::MAX as int) {
            Some(v) => HeaderModel { difficulty: Some(v as u32), ..h },
            None => h,
        }
    } else if eq_ci(key, seq!['L', 'N', 'T', 'Y', 'P', 'E']) {
        match spec_parse_uint(val, u32::MAX as int) {
            Some(v) => HeaderModel { lntype: v as u32, ..h },
            None => h,
        }
    } else if eq_ci(key, seq!['T', 'I', 'T', 'L', 'E']) {
        HeaderModel { title: val, ..h }
    } else if eq_ci(key, seq!['S', 'U', 'B', 'T', 'I', 'T', 'L', 'E']) {
        HeaderModel { subtitle: val, ..h }
    } else if eq_ci(key, seq!['A', 'R', 'T', 'I', 'S', 'T']) {
        HeaderModel { artist: val, ..h }
    } else if eq_ci(key, seq!['S', 'U', 'B', 'A', 'R', 'T', 'I', 'S', 'T']) {
        HeaderModel { subartist: val, ..h }
    } else if eq_ci(key, seq!['G', 'E', 'N', 'R', 'E']) {
        HeaderModel { genre: val, ..h }
    } else if eq_ci(key, seq!['B', 'P', 'M']) {
        match spec_parse_decimal(val) {
            Some(v) => HeaderModel { bpm: v, ..h },
            None => h,
        }
    } else if eq_ci(key, seq!['P', 'L', 'A', 'Y', 'L', 'E', 'V', 'E', 'L']) {
        match spec_parse_uint(val, u32::MAX as int) {
            Some(v) => HeaderModel { play_level: v as u32, ..h },
            None => h,
        }
    } else if eq_ci(key, seq!['R', 'A', 'N', 'K']) {
        match spec_parse_uint(val, u32::MAX as int) {
            Some(v) => HeaderModel { rank: v as u32, ..h },
            None => h,
        }
    } else if eq_ci(key, seq!['T', 'O', 'T', 'A', 'L']) {
        match spec_parse_decimal(val) {
            Some(v) => HeaderModel { total: v, ..h },
            None => h,
        }
    } else if eq_ci(key, seq!['V', 'O', 'L', 'W', 'A', 'V']) {
        match spec_parse_decimal(val) {
            Some(v) => HeaderModel { vol_wav: v, ..h },
            None => h,
        }
    } else if eq_ci(key, seq!['S', 'T', 'A', 'G', 'E', 'F', 'I', 'L', 'E']) {
        HeaderModel { stage_file: val, ..h }
    } else if eq_ci(key, seq!['B', 'A', 'N', 'N', 'E', 'R']) {
        HeaderModel { banner: val, ..h }
    } else if eq_ci(key, seq!['L', 'N', 'O', 'B', 'J']) {
        if byte_len(val) >= 2 {
            HeaderModel { ln_obj: decode_prefix2(val), ..h }
        } else {
            h
        }
    } else {
        table_step(h, key, val)
    }
}

/// The effect of a table-defining command with this key and value.
pub open spec fn table_step(h: HeaderModel, key: Seq<char>, val: Seq<char>) -> HeaderModel {
    if ci3(key, 'W', 'A', 'V') {
        match decode_id2(key.skip(3)) {
            Some(id) => HeaderModel { wav_table: h.wav_table.update(id.0 as int, Some(val)), ..h },
            None => h,
        }
    } else if ci3(key, 'B', 'M', 'P') {
        match decode_id2(key.skip(3)) {
            Some(id) => HeaderModel { bmp_table: h.bmp_table.update(id.0 as int, Some(val)), ..h },
            None => h,
        }
    } else if ci3(key, 'B', 'G', 'A') {
        match decode_id2(key.skip(3)) {
            Some(id) => {
                let t = take_tokens(val, 7);
                if t.len() >= 7 {
                    HeaderModel {
                        bga_table: h.bga_table.update(id.0 as int, Some(bga_definition(id, t))),
                        ..h
                    }
                } else {
                    h
                }
            },
            None => h,
        }
    } else if ci3(key, 'B', 'P', 'M') {
        match decode_id2(key.skip(3)) {
            Some(id) => match spec_parse_decimal(val) {
                Some(v) => HeaderModel { bpm_table: h.bpm_table.update(id.0 as int, Some(v)), ..h },
                None => h,
            },
            None => h,
        }
    } else if key.len() >= 5 && eq_ci(key.take(4), seq!['S', 'T', 'O', 'P']) {
        match decode_id2(key.skip(4)) {
            Some(id) => match spec_parse_decimal(val) {
                Some(v) => HeaderModel { stop_table: h.stop_table.update(id.0 as int, Some(v)), ..h },
                None => h,
            },
            None => h,
        }
    } else {
        h
    }
}

/// Position of the first key separator in `cs[a..b]` (as an index into `cs`),
/// or `b`.
fn find_key_sep_range(cs: &Vec<char>, a: usize, b: usize) -> (r: usize)
    requires
        a <= b <= cs@.len(),
    ensures
        a <= r <= b,
        r - a == find_key_sep(cs@.subrange(a as int, b as int)),
{
    let mut i = a;
    while i < b && !(is_whitespace(cs[i]) || cs[i] == ':')
        invariant
            a <= i <= b,
            b <= cs@.len(),
            find_key_sep(cs@.subrange(a as int, b as int)) == (i - a) + find_key_sep(
                cs@.subrange(i as int, b as int),
            ),
        decreases b - i,
    {
        assert(cs@.subrange(i as int, b as int).drop_first() =~= cs@.subrange(i + 1, b as int));
        i = i + 1;
    }
    i
}

/// Position of the first whitespace in `cs[a..b]`, or `b`.
fn find_ws_range(cs: &Vec<char>, a: usize, b: usize) -> (r: usize)
    requires
        a <= b <= cs@.len(),
    ensures
        a <= r <= b,
        r - a == find_ws(cs@.subrange(a as int, b as int)),
{
    let mut i = a;
    while i < b && !is_whitespace(cs[i])
        invariant
            a <= i <= b,
            b <= cs@.len(),
            find_ws(cs@.subrange(a as int, b as int)) == (i - a) + find_ws(
                cs@.subrange(i as int, b as int),
            ),
        decreases b - i,
    {
        assert(cs@.subrange(i as int, b as int).drop_first() =~= cs@.subrange(i + 1, b as int));
        i = i + 1;
    }
    i
}

/// `decode_id2` of `cs[a..b]`.
fn decode_id_range(cs: &Vec<char>, a: usize, b: usize) -> (r: Option<WavId>)
    requires
        a <= b <= cs@.len(),
    ensures
        r == decode_id2(cs@.subrange(a as int, b as int)),
{
    if b - a == 2 {
        let c1 = cs[a];
        let c2 = cs[a + 1];
        if (c1 as u32) < 128 && (c2 as u32) < 128 {
            decode_base36(c1 as u32 as u8, c2 as u32 as u8)
        } else {
            None
        }
    } else {
        None
    }
}

/// Number of UTF-8 bytes of `c`.
fn char_width(c: char) -> (r: usize)
    ensures
        r == utf8_len(c),
        1 <= r <= 4,
{
    let v = c as u32;
    if v < 0x80 {
        1
    } else if v < 0x800 {
        2
    } else if v < 0x10000 {
        3
    } else {
        4
    }
}

proof fn lemma_byte_len_prefix(s: Seq<char>, i: int)
    requires
        0 <= i <= s.len(),
    ensures
        byte_len(s.take(i)) <= byte_len(s),
        byte_len(s.take(i)) >= 0,
    decreases s.len(),
{
    if i == s.len() {
        assert(s.take(i) =~= s);
        lemma_byte_len_nonneg(s);
    } else {
        lemma_byte_len_prefix(s.drop_last(), i);
        assert(s.drop_last().take(i) =~= s.take(i));
    }
}

proof fn lemma_byte_len_nonneg(s: Seq<char>)
    ensures
        byte_len(s) >= 0,
        byte_len(s) >= s.len(),
    decreases s.len(),
{
    if s.len() > 0 {
        lemma_byte_len_nonneg(s.drop_last());
    }
}

/// Whether `cs[a..b]` takes at least `n` bytes in UTF-8.
fn byte_len_at_least(cs: &Vec<char>, a: usize, b: usize, n: usize) -> (r: bool)
    requires
        a <= b <= cs@.len(),
        n <= 16,
    ensures
        r == (byte_len(cs@.subrange(a as int, b as int)) >= n),
{
    let ghost s = cs@.subrange(a as int, b as int);
    let mut i = a;
    let mut acc: usize = 0;
    assert(s.take(0) =~= Seq::<char>::empty());
    while i < b && acc < n
        invariant
            a <= i <= b,
            b <= cs@.len(),
            n <= 16,
            s == cs@.subrange(a as int, b as int),
            acc == byte_len(s.take(i - a)),
            acc < n + 4,
        decreases b - i,
    {
        let w = char_width(cs[i]);
        assert(s.take(i - a + 1).drop_last() =~= s.take(i - a));
        acc = acc + w;
        i = i + 1;
    }
    proof {
        lemma_byte_len_prefix(s, i - a);
        if i == b {
            assert(s.take(i - a) =~= s);
        }
    }
    acc >= n
}

proof fn lemma_trim_start_first(s: Seq<char>)
    ensures
        trim_start_chars(s).len() > 0 ==> !is_ws(trim_start_chars(s)[0]),
        trim_start_chars(s).len() <= s.len(),
    decreases s.len(),
{
    if s.len() > 0 && is_ws(s[0]) {
        lemma_trim_start_first(s.drop_first());
    }
}

proof fn lemma_find_ws_pos(s: Seq<char>)
    requires
        s.len() > 0,
        !is_ws(s[0]),
    ensures
        1 <= find_ws(s) <= s.len(),
{
    lemma_find_ws_bound(s.drop_first());
}

proof fn lemma_find_ws_bound(s: Seq<char>)
    ensures
        0 <= find_ws(s) <= s.len(),
    decreases s.len(),
{
    if s.len() > 0 {
        lemma_find_ws_bound(s.drop_first());
    }
}

/// The text of each token range.
pub open spec fn token_texts(cs: Seq<char>, toks: Seq<(usize, usize)>) -> Seq<Seq<char>> {
    toks.map_values(|t: (usize, usize)| cs.subrange(t.0 as int, t.1 as int))
}

/// Ranges of the first `n` whitespace-separated tokens of `cs[a..b]`.
fn token_ranges(cs: &Vec<char>, a: usize, b: usize, n: usize) -> (r: Vec<(usize, usize)>)
    requires
        a <= b <= cs@.len(),
    ensures
        token_texts(cs@, r@) == take_tokens(cs@.subrange(a as int, b as int), n as nat),
        forall|j: int| 0 <= j < r@.len() ==> a <= (#[trigger] r@[j]).0 <= r@[j].1 <= b,
{
    let mut toks: Vec<(usize, usize)> = Vec::new();
    let mut pos = a;
    let mut left = n;
    assert(token_texts(cs@, toks@) =~= Seq::<Seq<char>>::empty());
    assert(Seq::<Seq<char>>::empty() + take_tokens(cs@.subrange(a as int, b as int), n as nat)
        =~= take_tokens(cs@.subrange(a as int, b as int), n as nat));
    loop
        invariant
            a <= pos <= b,
            b <= cs@.len(),
            left <= n,
            token_texts(cs@, toks@) + take_tokens(cs@.subrange(pos as int, b as int), left as nat)
                == take_tokens(cs@.subrange(a as int, b as int), n as nat),
            forall|j: int| 0 <= j < toks@.len() ==> a <= (#[trigger] toks@[j]).0 <= toks@[j].1 <= b,
        ensures
            token_texts(cs@, toks@) == take_tokens(cs@.subrange(a as int, b as int), n as nat),
            forall|j: int| 0 <= j < toks@.len() ==> a <= (#[trigger] toks@[j]).0 <= toks@[j].1 <= b,
        decreases left,
    {
        if left == 0 {
            assert(token_texts(cs@, toks@) + Seq::<Seq<char>>::empty() =~= token_texts(cs@, toks@));
            break;
        }
        let p = trim_start_range(cs, pos, b);
        if p == b {
            assert(cs@.subrange(p as int, b as int).len() == 0);
            assert(token_texts(cs@, toks@) + Seq::<Seq<char>>::empty() =~= token_texts(cs@, toks@));
            break;
        }
        let k = find_ws_range(cs, p, b);
        let ghost t = cs@.subrange(p as int, b as int);
        proof {
            lemma_trim_start_first(cs@.subrange(pos as int, b as int));
            lemma_find_ws_pos(t);
            assert(t.take(k - p) =~= cs@.subrange(p as int, k as int));
            assert(t.skip(k - p) =~= cs@.subrange(k as int, b as int));
        }
        let ghost before = toks@;
        toks.push((p, k));
        proof {
            assert(token_texts(cs@, toks@) =~= token_texts(cs@, before).push(cs@.subrange(p as int, k as int)));
            assert(token_texts(cs@, before) + (seq![t.take(k - p)] + take_tokens(t.skip(k - p), (left - 1) as nat))
                =~= token_texts(cs@, toks@) + take_tokens(cs@.subrange(k as int, b as int), (left - 1) as nat));
        }
        pos = k;
        left = left - 1;
    }
    toks
}

/// The `#BGAxx` definition from its token ranges.
fn bga_definition_exec(cs: &Vec<char>, id: WavId, toks: &Vec<(usize, usize)>) -> (d: BgaDefinition)
    requires
        toks@.len() >= 7,
        forall|j: int| 0 <= j < toks@.len() ==> (#[trigger] toks@[j]).0 <= toks@[j].1 <= cs@.len(),
    ensures
        d == bga_definition(id, token_texts(cs@, toks@)),
{
    let ghost t = token_texts(cs@, toks@);
    let (p0, k0) = toks[0];
    let id0 = if k0 - p0 >= 2 {
        proof {
            assert(t[0].take(2) =~= cs@.subrange(p0 as int, p0 + 2));
        }
        decode_id_range(cs, p0, p0 + 2)
    } else {
        None
    };
    let bmp_id = match id0 {
        Some(w) => BmpId(w.0),
        None => BmpId(id.0),
    };
    let sx = match parse_i32_range(cs, toks[1].0, toks[1].1) { Some(v) => v, None => 0 };
    let sy = match parse_i32_range(cs, toks[2].0, toks[2].1) { Some(v) => v, None => 0 };
    let w = match parse_uint_range(cs, toks[3].0, toks[3].1, 0xffff_ffff) { Some(v) => v as u32, None => 0 };
    let h = match parse_uint_range(cs, toks[4].0, toks[4].1, 0xffff_ffff) { Some(v) => v as u32, None => 0 };
    let dx = match parse_i32_range(cs, toks[5].0, toks[5].1) { Some(v) => v, None => 0 };
    let dy = match parse_i32_range(cs, toks[6].0, toks[6].1) { Some(v) => v, None => 0 };
    BgaDefinition { bmp_id, sx, sy, w, h, dx, dy }
}

proof fn lemma_string_table_update(t: Seq<Option<String>>, i: int, v: String)
    requires
        0 <= i < t.len(),
    ensures
        string_table_view(t.update(i, Some(v))) == string_table_view(t).update(i, Some(v@)),
{
    assert(string_table_view(t.update(i, Some(v))) =~= string_table_view(t).update(i, Some(v@)));
}


/// Applies one header command (the text after `#`) to the header.
#[verifier::rlimit(40)]
fn parse_header_line(cs: &Vec<char>, a: usize, b: usize, header: &mut BmsHeader)
    requires
        a <= b <= cs@.len(),
        old(header).wf(),
    ensures
        final(header).wf(),
        final(header).model() == header_step(old(header).model(), cs@.subrange(a as int, b as int)),
{
    let ghost content = cs@.subrange(a as int, b as int);
    let k = find_key_sep_range(cs, a, b);
    let (ka, kb) = trim_range(cs, a, k);
    let (va, vb) = if k < b {
        trim_range(cs, k + 1, b)
    } else {
        (b, b)
    };
    proof {
        assert(content.take(k - a) =~= cs@.subrange(a as int, k as int));
        if k < b {
            assert(rest_after(content, k - a) =~= cs@.subrange(k + 1, b as int));
        } else {
            assert(rest_after(content, k - a) =~= Seq::<char>::empty());
            assert(cs@.subrange(b as int, b as int) =~= Seq::<char>::empty());
            assert(trim_chars(Seq::<char>::empty()) =~= Seq::<char>::empty());
        }
    }
    let ghost key = cs@.subrange(ka as int, kb as int);
    let ghost val = cs@.subrange(va as int, vb as int);
    assert(key == trim_chars(content.take(find_key_sep(content))));
    assert(val == trim_chars(rest_after(content, find_key_sep(content))));
    if eq_ci_range(cs, ka, kb, &['P', 'L', 'A', 'Y', 'E', 'R']) {
        if let Some(v) = parse_uint_range(cs, va, vb, 0xffff_ffff) {
            header.player = v as u32;
        }
    } else if eq_ci_range(cs, ka, kb, &['D', 'I', 'F', 'F', 'I', 'C', 'U', 'L', 'T', 'Y']) {
        if let Some(v) = parse_uint_range(cs, va, vb, 0xffff_ffff) {
            header.difficulty = Some(v as u32);
        }
    } else if eq_ci_range(cs, ka, kb, &['L', 'N', 'T', 'Y', 'P', 'E']) {
        if let Some(v) = parse_uint_range(cs, va, vb, 0xffff_ffff) {
            header.lntype = v as u32;
        }
    } else if eq_ci_range(cs, ka, kb, &['T', 'I', 'T', 'L', 'E']) {
        header.title = string_of(cs, va, vb);
    } else if eq_ci_range(cs, ka, kb, &['S', 'U', 'B', 'T', 'I', 'T', 'L', 'E']) {
        header.subtitle = string_of(cs, va, vb);
    } else if eq_ci_range(cs, ka, kb, &['A', 'R', 'T', 'I', 'S', 'T']) {
        header.artist = string_of(cs, va, vb);
    } else if eq_ci_range(cs, ka, kb, &['S', 'U', 'B', 'A', 'R', 'T', 'I', 'S', 'T']) {
        header.subartist = string_of(cs, va, vb);
    } else if eq_ci_range(cs, ka, kb, &['G', 'E', 'N', 'R', 'E']) {
        header.genre = string_of(cs, va, vb);
    } else if eq_ci_range(cs, ka, kb, &['B', 'P', 'M']) {
        if let Some(v) = parse_decimal_range(cs, va, vb) {
            header.bpm = v;
        }
    } else if eq_ci_range(cs, ka, kb, &['P', 'L', 'A', 'Y', 'L', 'E', 'V', 'E', 'L']) {
        if let Some(v) = parse_uint_range(cs, va, vb, 0xffff_ffff) {
            header.play_level = v as u32;
        }
    } else if eq_ci_range(cs, ka, kb, &['R', 'A', 'N', 'K']) {
        if let Some(v) = parse_uint_range(cs, va, vb, 0xffff_ffff) {
            header.rank = v as u32;
        }
    } else if eq_ci_range(cs, ka, kb, &['T', 'O', 'T', 'A', 'L']) {
        if let Some(v) = parse_decimal_range(cs, va, vb) {
            header.total = v;
        }
    } else if eq_ci_range(cs, ka, kb, &['V', 'O', 'L', 'W', 'A', 'V']) {
        if let Some(v) = parse_decimal_range(cs, va, vb) {
            header.vol_wav = v;
        }
    } else if eq_ci_range(cs, ka, kb, &['S', 'T', 'A', 'G', 'E', 'F', 'I', 'L', 'E']) {
        header.stage_file = string_of(cs, va, vb);
    } else if eq_ci_range(cs, ka, kb, &['B', 'A', 'N', 'N', 'E', 'R']) {
        header.banner = string_of(cs, va, vb);
    } else if eq_ci_range(cs, ka, kb, &['L', 'N', 'O', 'B', 'J']) {
        if byte_len_at_least(cs, va, vb, 2) {
            if vb - va >= 2 {
                assert(val.take(2) =~= cs@.subrange(va as int, va + 2));
                header.ln_obj = decode_id_range(cs, va, va + 2);
            } else {
                header.ln_obj = None;
            }
        }
    } else {
        parse_table_line(cs, ka, kb, va, vb, header);
    }
}

/// The table-defining commands `#WAVxx`, `#BMPxx`, `#BGAxx`, `#BPMxx` and
/// `#STOPxx`, for a key that names no other command.
#[verifier::rlimit(40)]
fn parse_table_line(cs: &Vec<char>, ka: usize, kb: usize, va: usize, vb: usize, header: &mut BmsHeader)
    requires
        ka <= kb <= cs@.len(),
        va <= vb <= cs@.len(),
        old(header).wf(),
    ensures
        final(header).wf(),
        final(header).model() == table_step(old(header).model(), cs@.subrange(ka as int, kb as int), cs@.subrange(va as int, vb as int)),
{
    let ghost key = cs@.subrange(ka as int, kb as int);
    let ghost val = cs@.subrange(va as int, vb as int);
    let n = kb - ka;
    proof {
        if n >= 4 {
            assert(key.take(3) =~= cs@.subrange(ka as int, ka + 3));
            assert(key.skip(3) =~= cs@.subrange(ka + 3, kb as int));
        }
        if n >= 5 {
            assert(key.take(4) =~= cs@.subrange(ka as int, ka + 4));
            assert(key.skip(4) =~= cs@.subrange(ka + 4, kb as int));
        }
    }
    if n >= 4 && eq_ci_range(cs, ka, ka + 3, &['W', 'A', 'V']) {
        if let Some(id) = decode_id_range(cs, ka + 3, kb) {
            let v = string_of(cs, va, vb);
            proof {
                lemma_string_table_update(header.wav_table@, id.0 as int, v);
            }
            header.wav_table.insert(&id, v);
        }
    } else if n >= 4 && eq_ci_range(cs, ka, ka + 3, &['B', 'M', 'P']) {
        if let Some(id) = decode_id_range(cs, ka + 3, kb) {
            let v = string_of(cs, va, vb);
            proof {
                lemma_string_table_update(header.bmp_table@, id.0 as int, v);
            }
            header.bmp_table.insert(&BmpId(id.0), v);
        }
    } else if n >= 4 && eq_ci_range(cs, ka, ka + 3, &['B', 'G', 'A']) {
        if let Some(id) = decode_id_range(cs, ka + 3, kb) {
            let toks = token_ranges(cs, va, vb, 7);
            if toks.len() >= 7 {
                let d = bga_definition_exec(cs, id, &toks);
                header.bga_table.insert(&BmpId(id.0), d);
            }
        }
    } else if n >= 4 && eq_ci_range(cs, ka, ka + 3, &['B', 'P', 'M']) {
        if let Some(id) = decode_id_range(cs, ka + 3, kb) {
            if let Some(v) = parse_decimal_range(cs, va, vb) {
                header.bpm_table.insert(&id, v);
            }
        }
    } else if n >= 5 && eq_ci_range(cs, ka, ka + 4, &['S', 'T', 'O', 'P']) {
        if let Some(id) = decode_id_range(cs, ka + 4, kb) {
            if let Some(v) = parse_decimal_range(cs, va, vb) {
                header.stop_table.insert(&id, v);
            }
        }
    }
}


/// Abstract content of a chart's event lists, measure lengths and flags.
pub struct ChartModel {
    pub notes: Seq<NoteEvent>,
    pub bgm_notes: Seq<BgmNote>,
    pub bga_events: Seq<BgaEvent>,
    pub timing_events: Seq<TimingEvent>,
    pub measure_lengths: Seq<Option<Ratio>>,
    pub total_notes_count: int,
    pub has_2p_dp: bool,
    pub has_pms_ch: bool,
    pub has_k67: bool,
}

/// The chart before any measure line is read.
pub open spec fn empty_chart() -> ChartModel {
    ChartModel {
        notes: Seq::empty(),
        bgm_notes: Seq::empty(),
        bga_events: Seq::empty(),
        timing_events: Seq::empty(),
        measure_lengths: Seq::new(MEASURE_SLOTS as nat, |i: int| None),
        total_notes_count: 0,
        has_2p_dp: false,
        has_pms_ch: false,
        has_k67: false,
    }
}

/// A measure line's tag ends at the first `:` or space.
pub open spec fn find_tag_sep(s: Seq<char>) -> int
    decreases s.len(),
{
    if s.len() == 0 {
        0
    } else if s[0] == ':' || s[0] == ' ' {
        0
    } else {
        1 + find_tag_sep(s.drop_first())
    }
}

/// The tag `mmmcc` of a measure line.
pub open spec fn measure_tag(content: Seq<char>) -> Seq<char> {
    trim_chars(content.take(find_tag_sep(content)))
}

/// The slot data of a measure line.
pub open spec fn measure_data(content: Seq<char>) -> Seq<char> {
    trim_chars(rest_after(content, find_tag_sep(content)))
}

/// The measure number: the tag's first three characters as a `u32`.
pub open spec fn measure_number(tag: Seq<char>) -> Option<int> {
    if tag.len() >= 3 {
        spec_parse_uint(tag.take(3), u32::MAX as int)
    } else {
        None
    }
}

/// The channel: the two ASCII digits after the measure, or -1.
pub open spec fn channel_of(tag: Seq<char>) -> int {
    if tag.len() >= 5 && is_ascii_digit(tag[3]) && is_ascii_digit(tag[4]) {
        (tag[3] as int - 48) * 10 + (tag[4] as int - 48)
    } else {
        -1
    }
}

/// The lane of a 1P note or long-note channel.
pub open spec fn lane_of_channel(ch: int) -> Option<Lane> {
    if ch == 11 || ch == 51 {
        Some(Lane::Key1)
    } else if ch == 12 || ch == 52 {
        Some(Lane::Key2)
    } else if ch == 13 || ch == 53 {
        Some(Lane::Key3)
    } else if ch == 14 || ch == 54 {
        Some(Lane::Key4)
    } else if ch == 15 || ch == 55 {
        Some(Lane::Key5)
    } else if ch == 16 || ch == 56 {
        Some(Lane::Scratch)
    } else if ch == 18 || ch == 58 {
        Some(Lane::Key6)
    } else if ch == 19 || ch == 59 {
        Some(Lane::Key7)
    } else {
        None
    }
}

/// Channels `base+1 ..= base+9` without `base+7` (the lanes of one side).
pub open spec fn in_lane_group(ch: int, base: int) -> bool {
    base + 1 <= ch <= base + 9 && ch != base + 7
}

/// The mode-detection flags a channel with data sets.
pub open spec fn flag_step(m: ChartModel, ch: int) -> ChartModel {
    if ch == 18 || ch == 19 || ch == 58 || ch == 59 {
        ChartModel { has_k67: true, ..m }
    } else if ch == 28 || ch == 29 || ch == 68 || ch == 69 {
        ChartModel { has_k67: true, has_2p_dp: true, ..m }
    } else if ch == 21 || ch == 26 || ch == 61 || ch == 66 {
        ChartModel { has_2p_dp: true, ..m }
    } else if (22 <= ch <= 25) || (62 <= ch <= 65) {
        ChartModel { has_pms_ch: true, ..m }
    } else {
        m
    }
}

/// State of the measure pass: the chart so far and the raw long-note
/// endpoints of channels 51..59.
pub type PassState = (ChartModel, Seq<RawLn>);

/// The effect of one two-character slot `c1 c2` at position `frac` of a
/// measure line of channel `ch`.
pub open spec fn slot_step(st: PassState, h: HeaderModel, measure: u32, ch: int, c1: u8, c2: u8, frac: Ratio) -> PassState {
    let m = st.0;
    let l = st.1;
    if ch == 3 {
        match spec_decode_hex(c1, c2) {
            Some(v) => if v > 0 {
                (ChartModel {
                    timing_events: m.timing_events.push(TimingEvent {
                        measure,
                        fraction: frac,
                        kind: TimingEventKind::BpmChange(Ratio { num: v as i64, den: 1 }),
                    }),
                    ..m
                }, l)
            } else {
                st
            },
            None => st,
        }
    } else {
        match spec_decode_base36(c1, c2) {
            None => st,
            Some(w) => if ch == 1 || in_lane_group(ch, 30) || in_lane_group(ch, 40) {
                (ChartModel { bgm_notes: m.bgm_notes.push((measure, frac, w)), ..m }, l)
            } else if ch == 4 || ch == 6 || ch == 7 {
                let c = if ch == 4 {
                    BgaChannel::Base
                } else if ch == 6 {
                    BgaChannel::Poor
                } else {
                    BgaChannel::Layer
                };
                (ChartModel {
                    bga_events: m.bga_events.push(BgaEvent { measure, fraction: frac, channel: c, bmp_id: BmpId(w.0) }),
                    ..m
                }, l)
            } else if ch == 8 {
                match h.bpm_table[w.0 as int] {
                    Some(v) => (ChartModel {
                        timing_events: m.timing_events.push(TimingEvent {
                            measure,
                            fraction: frac,
                            kind: TimingEventKind::BpmChange(v),
                        }),
                        ..m
                    }, l),
                    None => st,
                }
            } else if ch == 9 {
                match h.stop_table[w.0 as int] {
                    Some(v) => (ChartModel {
                        timing_events: m.timing_events.push(TimingEvent {
                            measure,
                            fraction: frac,
                            kind: TimingEventKind::StopMeasures(Ratio { num: v.num, den: (v.den * 192) as u64 }),
                        }),
                        ..m
                    }, l),
                    None => st,
                }
            } else if in_lane_group(ch, 10) {
                let m1 = ChartModel { total_notes_count: m.total_notes_count + 1, ..m };
                match lane_of_channel(ch) {
                    Some(lane) => (ChartModel {
                        notes: m1.notes.push(NoteEvent {
                            measure,
                            fraction: frac,
                            lane,
                            wav_id: Some(w),
                            note_type: NoteType::Tap,
                        }),
                        ..m1
                    }, l),
                    None => (m1, l),
                }
            } else if in_lane_group(ch, 20) || in_lane_group(ch, 60) {
                (ChartModel {
                    total_notes_count: m.total_notes_count + 1,
                    bgm_notes: m.bgm_notes.push((measure, frac, w)),
                    ..m
                }, l)
            } else if in_lane_group(ch, 50) {
                match lane_of_channel(ch) {
                    Some(lane) => (m, l.push((measure, frac, lane, w))),
                    None => st,
                }
            } else {
                st
            },
        }
    }
}

/// The first `k` of the `n` slots of `bytes`, applied in order.
pub open spec fn slots(st: PassState, h: HeaderModel, measure: u32, ch: int, bytes: Seq<u8>, n: int, k: int) -> PassState
    decreases k,
{
    if k <= 0 {
        st
    } else {
        slot_step(
            slots(st, h, measure, ch, bytes, n, k - 1),
            h,
            measure,
            ch,
            bytes[2 * (k - 1)],
            bytes[2 * (k - 1) + 1],
            Ratio { num: (k - 1) as i64, den: n as u64 },
        )
    }
}

/// The effect of one measure line (the text after `#`); `Err` holds the tag
/// of a line that names no measure.
pub open spec fn measure_step(st: PassState, h: HeaderModel, content: Seq<char>) -> Result<PassState, Seq<char>> {
    let tag = measure_tag(content);
    let data = measure_data(content);
    if byte_len(tag) < 5 {
        Err(tag)
    } else {
        match measure_number(tag) {
            None => Err(tag),
            Some(mv) => {
                let measure = mv as u32;
                let ch = channel_of(tag);
                if ch == 2 {
                    match spec_parse_decimal(data) {
                        Some(v) => Ok(
                            (ChartModel {
                                measure_lengths: if mv < MEASURE_SLOTS {
                                    st.0.measure_lengths.update(mv, Some(v))
                                } else {
                                    st.0.measure_lengths
                                },
                                ..st.0
                            }, st.1),
                        ),
                        None => Ok(st),
                    }
                } else {
                    let bytes = encode_utf8(data);
                    let n = bytes.len() / 2;
                    if bytes.len() % 2 != 0 || n == 0 {
                        Ok(st)
                    } else {
                        Ok(slots((flag_step(st.0, ch), st.1), h, measure, ch, bytes, n as int, n as int))
                    }
                }
            },
        }
    }
}


/// A parsed BMS chart.
#[derive(Debug, Clone)]
pub struct BmsChart {
    pub header: BmsHeader,
    pub notes: Vec<NoteEvent>,
    pub bgm_notes: Vec<BgmNote>,
    pub bga_events: Vec<BgaEvent>,
    pub timing_events: Vec<TimingEvent>,
    pub measure_lengths: Table<Ratio>,
    pub total_notes_count: usize,
    pub has_2p_dp: bool,
    pub has_pms_ch: bool,
    pub has_k67: bool,
}

impl BmsChart {
    pub open spec fn wf(&self) -> bool {
        &&& self.header.wf()
        &&& self.measure_lengths.wf()
        &&& self.measure_lengths@.len() == MEASURE_SLOTS
    }

    pub open spec fn model(&self) -> ChartModel {
        ChartModel {
            notes: self.notes@,
            bgm_notes: self.bgm_notes@,
            bga_events: self.bga_events@,
            timing_events: self.timing_events@,
            measure_lengths: self.measure_lengths@,
            total_notes_count: self.total_notes_count as int,
            has_2p_dp: self.has_2p_dp,
            has_pms_ch: self.has_pms_ch,
            has_k67: self.has_k67,
        }
    }
}

/// Applies one slot of a measure line.
#[verifier::rlimit(40)]
fn slot_exec(chart: &mut BmsChart, lns: &mut Vec<RawLn>, measure: u32, ch: i32, c1: u8, c2: u8, frac: Ratio)
    requires
        old(chart).wf(),
        old(chart).total_notes_count + old(lns)@.len() < usize::MAX,
    ensures
        final(chart).wf(),
        final(chart).header == old(chart).header,
        (final(chart).model(), final(lns)@) == slot_step((old(chart).model(), old(lns)@), old(chart).header.model(), measure, ch as int, c1, c2, frac),
        final(chart).total_notes_count + final(lns)@.len() <= old(chart).total_notes_count + old(lns)@.len() + 1,
{
    if ch == 3 {
        if let Some(v) = decode_hex(c1, c2) {
            if v > 0 {
                chart.timing_events.push(TimingEvent {
                    measure,
                    fraction: frac,
                    kind: TimingEventKind::BpmChange(Ratio { num: v as i64, den: 1 }),
                });
            }
        }
        return;
    }
    let w = match decode_base36(c1, c2) {
        Some(w) => w,
        None => return,
    };
    if ch == 1 || (31 <= ch && ch <= 39 && ch != 37) || (41 <= ch && ch <= 49 && ch != 47) {
        chart.bgm_notes.push((measure, frac, w));
    } else if ch == 4 || ch == 6 || ch == 7 {
        let c = if ch == 4 {
            BgaChannel::Base
        } else if ch == 6 {
            BgaChannel::Poor
        } else {
            BgaChannel::Layer
        };
        chart.bga_events.push(BgaEvent { measure, fraction: frac, channel: c, bmp_id: BmpId(w.0) });
    } else if ch == 8 {
        if let Some(v) = chart.header.bpm_table.get(&w) {
            let v = *v;
            chart.timing_events.push(TimingEvent { measure, fraction: frac, kind: TimingEventKind::BpmChange(v) });
        }
    } else if ch == 9 {
        if let Some(v) = chart.header.stop_table.get(&w) {
            let v = *v;
            assert(decimal_den_ok(v));
            let stop = Ratio { num: v.num, den: v.den * 192 };
            chart.timing_events.push(TimingEvent { measure, fraction: frac, kind: TimingEventKind::StopMeasures(stop) });
        }
    } else if 11 <= ch && ch <= 19 && ch != 17 {
        chart.total_notes_count = chart.total_notes_count + 1;
        if let Some(lane) = channel_lane(ch) {
            chart.notes.push(NoteEvent { measure, fraction: frac, lane, wav_id: Some(w), note_type: NoteType::Tap });
        }
    } else if (21 <= ch && ch <= 29 && ch != 27) || (61 <= ch && ch <= 69 && ch != 67) {
        chart.total_notes_count = chart.total_notes_count + 1;
        chart.bgm_notes.push((measure, frac, w));
    } else if 51 <= ch && ch <= 59 && ch != 57 {
        if let Some(lane) = channel_lane(ch) {
            lns.push((measure, frac, lane, w));
        }
    }
}

/// The lane of channel `ch` (`lane_of_channel`).
fn channel_lane(ch: i32) -> (r: Option<Lane>)
    ensures
        r == lane_of_channel(ch as int),
{
    if ch == 11 || ch == 51 {
        Some(Lane::Key1)
    } else if ch == 12 || ch == 52 {
        Some(Lane::Key2)
    } else if ch == 13 || ch == 53 {
        Some(Lane::Key3)
    } else if ch == 14 || ch == 54 {
        Some(Lane::Key4)
    } else if ch == 15 || ch == 55 {
        Some(Lane::Key5)
    } else if ch == 16 || ch == 56 {
        Some(Lane::Scratch)
    } else if ch == 18 || ch == 58 {
        Some(Lane::Key6)
    } else if ch == 19 || ch == 59 {
        Some(Lane::Key7)
    } else {
        None
    }
}


/// Position of the first `:` or space in `cs[a..b]`, or `b`.
fn find_tag_sep_range(cs: &Vec<char>, a: usize, b: usize) -> (r: usize)
    requires
        a <= b <= cs@.len(),
    ensures
        a <= r <= b,
        r - a == find_tag_sep(cs@.subrange(a as int, b as int)),
{
    let mut i = a;
    while i < b && !(cs[i] == ':' || cs[i] == ' ')
        invariant
            a <= i <= b,
            b <= cs@.len(),
            find_tag_sep(cs@.subrange(a as int, b as int)) == (i - a) + find_tag_sep(
                cs@.subrange(i as int, b as int),
            ),
        decreases b - i,
    {
        assert(cs@.subrange(i as int, b as int).drop_first() =~= cs@.subrange(i + 1, b as int));
        i = i + 1;
    }
    i
}

proof fn lemma_encode_utf8_len(s: Seq<char>)
    ensures
        encode_utf8(s).len() <= 4 * s.len(),
    decreases s.len(),
{
    if s.len() > 0 {
        lemma_encode_utf8_len(s.drop_first());
    }
}

/// Reads one measure line (the text after `#`) into the chart.
#[verifier::rlimit(40)]
fn parse_measure_line(cs: &Vec<char>, a: usize, b: usize, chart: &mut BmsChart, lns: &mut Vec<RawLn>) -> (r: Result<(), BmsParseError>)
    requires
        a <= b <= cs@.len(),
        old(chart).wf(),
        old(chart).total_notes_count + old(lns)@.len() + 2 * (b - a) <= usize::MAX,
    ensures
        final(chart).wf(),
        final(chart).header == old(chart).header,
        final(chart).total_notes_count + final(lns)@.len() <= old(chart).total_notes_count + old(lns)@.len() + 2 * (b - a),
        match measure_step((old(chart).model(), old(lns)@), old(chart).header.model(), cs@.subrange(a as int, b as int)) {
            Ok(st) => r is Ok && final(chart).model() == st.0 && final(lns)@ == st.1,
            Err(tag) => r matches Err(BmsParseError::InvalidMeasure(t)) && t@ == tag,
        },
{
    let ghost content = cs@.subrange(a as int, b as int);
    let k = find_tag_sep_range(cs, a, b);
    let (ta, tb) = trim_range(cs, a, k);
    let (da, db) = if k < b {
        trim_range(cs, k + 1, b)
    } else {
        (b, b)
    };
    proof {
        assert(content.take(k - a) =~= cs@.subrange(a as int, k as int));
        if k < b {
            assert(rest_after(content, k - a) =~= cs@.subrange(k + 1, b as int));
        } else {
            assert(rest_after(content, k - a) =~= Seq::<char>::empty());
            assert(cs@.subrange(b as int, b as int) =~= Seq::<char>::empty());
            assert(trim_chars(Seq::<char>::empty()) =~= Seq::<char>::empty());
        }
    }
    let ghost tag = cs@.subrange(ta as int, tb as int);
    let ghost data = cs@.subrange(da as int, db as int);
    assert(tag == measure_tag(content));
    assert(data == measure_data(content));
    if !byte_len_at_least(cs, ta, tb, 5) {
        return Err(BmsParseError::InvalidMeasure(string_of(cs, ta, tb)));
    }
    let mv = if tb - ta >= 3 {
        assert(tag.take(3) =~= cs@.subrange(ta as int, ta + 3));
        parse_uint_range(cs, ta, ta + 3, 0xffff_ffff)
    } else {
        None
    };
    let mv = match mv {
        Some(v) => v,
        None => return Err(BmsParseError::InvalidMeasure(string_of(cs, ta, tb))),
    };
    let measure = mv as u32;
    let ch: i32 = if tb - ta >= 5 && is_digit(cs[ta + 3]) && is_digit(cs[ta + 4]) {
        (cs[ta + 3] as u32 - 48) as i32 * 10 + (cs[ta + 4] as u32 - 48) as i32
    } else {
        -1
    };
    assert(ch as int == channel_of(tag));
    if ch == 2 {
        if let Some(v) = parse_decimal_range(cs, da, db) {
            chart.measure_lengths.insert(&measure, v);
        }
        return Ok(());
    }
    let bytes = encode_range(cs, da, db);
    if bytes.len() % 2 != 0 {
        return Ok(());
    }
    let n = bytes.len() / 2;
    if n == 0 {
        return Ok(());
    }
    proof {
        lemma_encode_utf8_len(data);
    }
    if ch == 18 || ch == 19 || ch == 58 || ch == 59 {
        chart.has_k67 = true;
    } else if ch == 28 || ch == 29 || ch == 68 || ch == 69 {
        chart.has_k67 = true;
        chart.has_2p_dp = true;
    } else if ch == 21 || ch == 26 || ch == 61 || ch == 66 {
        chart.has_2p_dp = true;
    } else if (22 <= ch && ch <= 25) || (62 <= ch && ch <= 65) {
        chart.has_pms_ch = true;
    }
    let ghost st0 = (chart.model(), lns@);
    let ghost h = chart.header.model();
    let ghost start = chart.total_notes_count + lns@.len();
    let mut i: usize = 0;
    while i < n
        invariant
            i <= n,
            n == bytes@.len() / 2,
            2 * n <= bytes@.len() <= usize::MAX,
            chart.wf(),
            chart.header.model() == h,
            chart.header == old(chart).header,
            (chart.model(), lns@) == slots(st0, h, measure, ch as int, bytes@, n as int, i as int),
            chart.total_notes_count + lns@.len() <= start + i,
            start + n <= usize::MAX,
        decreases n - i,
    {
        let c1 = bytes[2 * i];
        let c2 = bytes[2 * i + 1];
        let frac = Ratio { num: i as i64, den: n as u64 };
        slot_exec(chart, lns, measure, ch, c1, c2, frac);
        i = i + 1;
    }
    Ok(())
}


/// Where insertion sort puts `x` into `s`: before the first element that
/// comes after `x`, so that equal elements keep their order.
pub open spec fn insert_pos<T>(s: Seq<T>, x: T, gt: spec_fn(T, T) -> bool) -> int
    decreases s.len(),
{
    if s.len() == 0 {
        0
    } else if gt(s[0], x) {
        0
    } else {
        1 + insert_pos(s.drop_first(), x, gt)
    }
}

/// Stable sort of `s` by the strict order `gt` ("comes after").
pub open spec fn stable_sort<T>(s: Seq<T>, gt: spec_fn(T, T) -> bool) -> Seq<T>
    decreases s.len(),
{
    if s.len() == 0 {
        s
    } else {
        let r = stable_sort(s.drop_last(), gt);
        r.insert(insert_pos(r, s.last(), gt), s.last())
    }
}

proof fn lemma_insert_pos_bound<T>(s: Seq<T>, x: T, gt: spec_fn(T, T) -> bool)
    ensures
        0 <= insert_pos(s, x, gt) <= s.len(),
    decreases s.len(),
{
    if s.len() > 0 {
        lemma_insert_pos_bound(s.drop_first(), x, gt);
    }
}

proof fn lemma_stable_sort_len<T>(s: Seq<T>, gt: spec_fn(T, T) -> bool)
    ensures
        stable_sort(s, gt).len() == s.len(),
    decreases s.len(),
{
    if s.len() > 0 {
        lemma_stable_sort_len(s.drop_last(), gt);
        lemma_insert_pos_bound(stable_sort(s.drop_last(), gt), s.last(), gt);
    }
}

/// Stable insertion sort of `v` by `gt`, whose result `sgt` states.
fn sort_stable<T: Copy>(v: &Vec<T>, gt: impl Fn(&T, &T) -> bool, Ghost(sgt): Ghost<spec_fn(T, T) -> bool>) -> (r: Vec<T>)
    requires
        forall|x: &T, y: &T| #[trigger] gt.requires((x, y)),
        forall|x: &T, y: &T, b: bool| gt.ensures((x, y), b) ==> b == sgt(*x, *y),
    ensures
        r@ == stable_sort(v@, sgt),
{
    let mut r: Vec<T> = Vec::new();
    let mut i: usize = 0;
    assert(v@.take(0) =~= Seq::<T>::empty());
    while i < v.len()
        invariant
            i <= v@.len(),
            r@ == stable_sort(v@.take(i as int), sgt),
            forall|x: &T, y: &T| #[trigger] gt.requires((x, y)),
            forall|x: &T, y: &T, b: bool| gt.ensures((x, y), b) ==> b == sgt(*x, *y),
        decreases v@.len() - i,
    {
        let x = v[i];
        let mut j: usize = 0;
        proof {
            lemma_stable_sort_len(v@.take(i as int), sgt);
            assert(r@.skip(0) =~= r@);
        }
        while j < r.len() && !gt(&r[j], &x)
            invariant
                j <= r@.len(),
                insert_pos(r@, x, sgt) == j + insert_pos(r@.skip(j as int), x, sgt),
                forall|x: &T, y: &T| #[trigger] gt.requires((x, y)),
                forall|x: &T, y: &T, b: bool| gt.ensures((x, y), b) ==> b == sgt(*x, *y),
            decreases r@.len() - j,
        {
            assert(r@.skip(j as int).drop_first() =~= r@.skip(j + 1));
            j = j + 1;
        }
        proof {
            if j == r@.len() {
                assert(r@.skip(j as int).len() == 0);
            }
            assert(v@.take(i + 1).drop_last() =~= v@.take(i as int));
        }
        r.insert(j, x);
        i = i + 1;
    }
    assert(v@.take(v@.len() as int) =~= v@);
    r
}


/// `x > y` for positions `num / den` with positive denominators.
pub open spec fn ratio_gt(x: Ratio, y: Ratio) -> bool {
    x.num * y.den > y.num * x.den
}

/// `x == y` as numbers, for positions with positive denominators.
pub open spec fn ratio_eq(x: Ratio, y: Ratio) -> bool {
    x.num * y.den == y.num * x.den
}

/// Chronological order of raw long-note endpoints.
pub open spec fn ln_after(a: RawLn, b: RawLn) -> bool {
    a.0 > b.0 || (a.0 == b.0 && ratio_gt(a.1, b.1))
}

/// Chronological order of notes; notes at the same position by lane.
pub open spec fn note_after(a: NoteEvent, b: NoteEvent) -> bool {
    a.measure > b.measure || (a.measure == b.measure && (ratio_gt(a.fraction, b.fraction) || (
    ratio_eq(a.fraction, b.fraction) && lane_rank(a.lane) > lane_rank(b.lane))))
}

/// Chronological order of keysounds.
pub open spec fn bgm_after(a: BgmNote, b: BgmNote) -> bool {
    a.0 > b.0 || (a.0 == b.0 && ratio_gt(a.1, b.1))
}

/// Chronological order of BGA events.
pub open spec fn bga_after(a: BgaEvent, b: BgaEvent) -> bool {
    a.measure > b.measure || (a.measure == b.measure && ratio_gt(a.fraction, b.fraction))
}

/// Chronological order of timing events.
pub open spec fn timing_after(a: TimingEvent, b: TimingEvent) -> bool {
    a.measure > b.measure || (a.measure == b.measure && ratio_gt(a.fraction, b.fraction))
}

proof fn lemma_ratio_product(n: i64, d: u64)
    ensures
        i128::MIN <= n * d <= i128::MAX,
{
    assert(-0x8000_0000_0000_0000 * 0xffff_ffff_ffff_ffff <= n * d <= 0x7fff_ffff_ffff_ffff * 0xffff_ffff_ffff_ffff)
        by (nonlinear_arith)
        requires
            -0x8000_0000_0000_0000 <= n <= 0x7fff_ffff_ffff_ffff,
            0 <= d <= 0xffff_ffff_ffff_ffff;
}

fn ratio_compare(x: Ratio, y: Ratio) -> (r: (bool, bool))
    ensures
        r.0 == ratio_gt(x, y),
        r.1 == ratio_eq(x, y),
{
    proof {
        lemma_ratio_product(x.num, y.den);
        lemma_ratio_product(y.num, x.den);
    }
    let l = x.num as i128 * y.den as i128;
    let rr = y.num as i128 * x.den as i128;
    (l > rr, l == rr)
}

fn ln_after_exec(a: &RawLn, b: &RawLn) -> (r: bool)
    ensures
        r == ln_after(*a, *b),
{
    a.0 > b.0 || (a.0 == b.0 && ratio_compare(a.1, b.1).0)
}

fn note_after_exec(a: &NoteEvent, b: &NoteEvent) -> (r: bool)
    ensures
        r == note_after(*a, *b),
{
    if a.measure != b.measure {
        return a.measure > b.measure;
    }
    let (g, e) = ratio_compare(a.fraction, b.fraction);
    g || (e && lane_index(a.lane) > lane_index(b.lane))
}

fn bgm_after_exec(a: &BgmNote, b: &BgmNote) -> (r: bool)
    ensures
        r == bgm_after(*a, *b),
{
    a.0 > b.0 || (a.0 == b.0 && ratio_compare(a.1, b.1).0)
}

fn bga_after_exec(a: &BgaEvent, b: &BgaEvent) -> (r: bool)
    ensures
        r == bga_after(*a, *b),
{
    a.measure > b.measure || (a.measure == b.measure && ratio_compare(a.fraction, b.fraction).0)
}

fn timing_after_exec(a: &TimingEvent, b: &TimingEvent) -> (r: bool)
    ensures
        r == timing_after(*a, *b),
{
    a.measure > b.measure || (a.measure == b.measure && ratio_compare(a.fraction, b.fraction).0)
}


/// State of long-note pairing: the open start on each lane, the notes made,
/// and how many long notes were closed.
pub struct LnPairing {
    pub pending: Seq<Option<(u32, Ratio, WavId)>>,
    pub notes: Seq<NoteEvent>,
    pub added: int,
}

/// Pairs the first `k` endpoints of `lns`: an endpoint on a lane with an open
/// start closes it into a start and an end note; otherwise it opens one.
pub open spec fn pair_lns(lns: Seq<RawLn>, k: int) -> LnPairing
    decreases k,
{
    if k <= 0 {
        LnPairing { pending: Seq::new(8, |i: int| None), notes: Seq::empty(), added: 0 }
    } else {
        let p = pair_lns(lns, k - 1);
        let e = lns[k - 1];
        let li = lane_rank(e.2);
        match p.pending[li] {
            Some(start) => LnPairing {
                pending: p.pending.update(li, None),
                notes: p.notes.push(NoteEvent {
                    measure: start.0,
                    fraction: start.1,
                    lane: e.2,
                    wav_id: Some(start.2),
                    note_type: NoteType::LongNoteStart,
                }).push(NoteEvent {
                    measure: e.0,
                    fraction: e.1,
                    lane: e.2,
                    wav_id: None,
                    note_type: NoteType::LongNoteEnd,
                }),
                added: p.added + 1,
            },
            None => LnPairing { pending: p.pending.update(li, Some((e.0, e.1, e.3))), ..p },
        }
    }
}

/// Marks `#LNOBJ` ends in the first `k` notes: a note with the `ln` sound
/// becomes a silent long-note end and the note before it on its lane a
/// long-note start. `.1` is the last index seen on each lane.
pub open spec fn mark_lnobj(notes: Seq<NoteEvent>, ln: WavId, k: int) -> (Seq<NoteEvent>, Seq<Option<int>>)
    decreases k,
{
    if k <= 0 {
        (notes, Seq::new(8, |i: int| None))
    } else {
        let (ns, last) = mark_lnobj(notes, ln, k - 1);
        let cur = ns[k - 1];
        let li = lane_rank(cur.lane);
        let ns2 = if cur.wav_id == Some(ln) {
            let ended = ns.update(k - 1, NoteEvent { note_type: NoteType::LongNoteEnd, wav_id: None, ..cur });
            match last[li] {
                Some(p) => ended.update(p, NoteEvent { note_type: NoteType::LongNoteStart, ..ended[p] }),
                None => ended,
            }
        } else {
            ns
        };
        (ns2, last.update(li, Some(k - 1)))
    }
}

/// Pairs LNTYPE 1 endpoints (already in chronological order) into notes.
fn pair_ln_exec(lns: &Vec<RawLn>) -> (r: (Vec<NoteEvent>, usize))
    ensures
        r.0@ == pair_lns(lns@, lns@.len() as int).notes,
        r.1 == pair_lns(lns@, lns@.len() as int).added,
        r.1 <= lns@.len(),
{
    let mut pending: Vec<Option<(u32, Ratio, WavId)>> = vec![None, None, None, None, None, None, None, None];
    let mut notes: Vec<NoteEvent> = Vec::new();
    let mut added: usize = 0;
    let mut k: usize = 0;
    assert(pending@ =~= pair_lns(lns@, 0).pending);
    while k < lns.len()
        invariant
            k <= lns@.len(),
            pending@ == pair_lns(lns@, k as int).pending,
            notes@ == pair_lns(lns@, k as int).notes,
            added == pair_lns(lns@, k as int).added,
            pending@.len() == 8,
            added <= k,
        decreases lns@.len() - k,
    {
        let e = lns[k];
        let li = lane_index(e.2);
        match pending[li] {
            Some(start) => {
                pending.set(li, None);
                notes.push(NoteEvent {
                    measure: start.0,
                    fraction: start.1,
                    lane: e.2,
                    wav_id: Some(start.2),
                    note_type: NoteType::LongNoteStart,
                });
                notes.push(NoteEvent {
                    measure: e.0,
                    fraction: e.1,
                    lane: e.2,
                    wav_id: None,
                    note_type: NoteType::LongNoteEnd,
                });
                added = added + 1;
            },
            None => {
                pending.set(li, Some((e.0, e.1, e.3)));
            },
        }
        k = k + 1;
    }
    (notes, added)
}

/// Applies `#LNOBJ` marking to chronologically sorted notes.
fn mark_lnobj_exec(notes: &mut Vec<NoteEvent>, ln: WavId)
    ensures
        final(notes)@ == mark_lnobj(old(notes)@, ln, old(notes)@.len() as int).0,
{
    let ghost orig = notes@;
    let mut last: Vec<Option<usize>> = vec![None, None, None, None, None, None, None, None];
    let mut k: usize = 0;
    assert(last@.map_values(|o: Option<usize>| match o { Some(v) => Some(v as int), None => None }) =~= mark_lnobj(orig, ln, 0).1);
    while k < notes.len()
        invariant
            k <= notes@.len(),
            notes@.len() == orig.len(),
            notes@ == mark_lnobj(orig, ln, k as int).0,
            last@.len() == 8,
            last@.map_values(|o: Option<usize>| match o { Some(v) => Some(v as int), None => None }) == mark_lnobj(orig, ln, k as int).1,
            forall|j: int| 0 <= j < 8 ==> (#[trigger] last@[j] matches Some(p) ==> p < k),
        decreases notes@.len() - k,
    {
        let cur = notes[k];
        let li = lane_index(cur.lane);
        proof {
            lemma_mark_lnobj_len(orig, ln, k as int);
        }
        if cur.wav_id == Some(ln) {
            notes.set(k, NoteEvent { note_type: NoteType::LongNoteEnd, wav_id: None, ..cur });
            match last[li] {
                Some(p) => {
                    assert(last@.map_values(|o: Option<usize>| match o { Some(v) => Some(v as int), None => None })[li as int] == Some(p as int));
                    let prev = notes[p];
                    notes.set(p, NoteEvent { note_type: NoteType::LongNoteStart, ..prev });
                },
                None => {
                    assert(last@.map_values(|o: Option<usize>| match o { Some(v) => Some(v as int), None => None })[li as int] == None::<int>);
                },
            }
        }
        last.set(li, Some(k));
        proof {
            assert(last@.map_values(|o: Option<usize>| match o { Some(v) => Some(v as int), None => None })
                =~= mark_lnobj(orig, ln, k + 1).1);
        }
        k = k + 1;
    }
}

proof fn lemma_mark_lnobj_len(notes: Seq<NoteEvent>, ln: WavId, k: int)
    requires
        0 <= k <= notes.len(),
    ensures
        mark_lnobj(notes, ln, k).0.len() == notes.len(),
        mark_lnobj(notes, ln, k).1.len() == 8,
        forall|j: int| 0 <= j < 8 ==> (#[trigger] mark_lnobj(notes, ln, k).1[j] matches Some(p) ==> 0 <= p < k),
    decreases k,
{
    if k > 0 {
        lemma_mark_lnobj_len(notes, ln, k - 1);
    }
}


/// The command of a line: the text after the `#` that starts the trimmed
/// line, leading whitespace dropped; `None` for other lines and empty
/// commands.
pub open spec fn line_command(line: Seq<char>) -> Option<Seq<char>> {
    let l = trim_chars(line);
    if l.len() > 0 && l[0] == '#' {
        let c = trim_start_chars(l.skip(1));
        if c.len() > 0 {
            Some(c)
        } else {
            None
        }
    } else {
        None
    }
}

/// A measure-data command `mmmcc:...`: three ASCII digits, and `:` or a
/// space at byte 5 of the command's UTF-8 encoding.
pub open spec fn is_measure_chars(c: Seq<char>) -> bool {
    &&& c.len() >= 5
    &&& is_ascii_digit(c[0])
    &&& is_ascii_digit(c[1])
    &&& is_ascii_digit(c[2])
    &&& ((c.len() >= 6 && utf8_len(c[3]) == 1 && utf8_len(c[4]) == 1 && (c[5] == ':' || c[5] == ' '))
        || (utf8_len(c[3]) == 2 && (c[4] == ':' || c[4] == ' ')))
}

/// The first pass: every header command of `s` (lines split at `\n`), in
/// order.
pub open spec fn header_pass(h: HeaderModel, s: Seq<char>) -> HeaderModel
    decreases s.len(),
{
    let k = find_char(s, '\n');
    let h2 = match line_command(s.take(k)) {
        Some(c) => if is_measure_chars(c) {
            h
        } else {
            header_step(h, c)
        },
        None => h,
    };
    if 0 <= k < s.len() {
        header_pass(h2, s.skip(k + 1))
    } else {
        h2
    }
}

/// The second pass: every measure command of `s`, in order, up to the first
/// one that names no measure.
pub open spec fn measure_pass(st: Result<PassState, Seq<char>>, h: HeaderModel, s: Seq<char>) -> Result<PassState, Seq<char>>
    decreases s.len(),
{
    match st {
        Err(e) => Err(e),
        Ok(p) => {
            let k = find_char(s, '\n');
            let st2 = match line_command(s.take(k)) {
                Some(c) => if is_measure_chars(c) {
                    measure_step(p, h, c)
                } else {
                    Ok(p)
                },
                None => Ok(p),
            };
            if 0 <= k < s.len() {
                measure_pass(st2, h, s.skip(k + 1))
            } else {
                st2
            }
        },
    }
}

/// The chart after both passes: long notes paired, every list in
/// chronological order, `#LNOBJ` ends marked.
pub open spec fn finish_chart(m: ChartModel, lns: Seq<RawLn>, h: HeaderModel) -> ChartModel {
    let sorted_lns = stable_sort(lns, |a: RawLn, b: RawLn| ln_after(a, b));
    let ln = pair_lns(sorted_lns, sorted_lns.len() as int);
    let notes = stable_sort(m.notes + ln.notes, |a: NoteEvent, b: NoteEvent| note_after(a, b));
    ChartModel {
        notes: match h.ln_obj {
            Some(id) => mark_lnobj(notes, id, notes.len() as int).0,
            None => notes,
        },
        bgm_notes: stable_sort(m.bgm_notes, |a: BgmNote, b: BgmNote| bgm_after(a, b)),
        bga_events: stable_sort(m.bga_events, |a: BgaEvent, b: BgaEvent| bga_after(a, b)),
        timing_events: stable_sort(m.timing_events, |a: TimingEvent, b: TimingEvent| timing_after(a, b)),
        total_notes_count: m.total_notes_count + ln.added,
        ..m
    }
}

/// Outcome of parsing, as values.
pub enum ParseOutcome {
    Parsed(HeaderModel, ChartModel),
    EmptyChart,
    InvalidMeasure(Seq<char>),
}

/// What `parse_bms` makes of `input`.
pub open spec fn spec_parse_bms(input: Seq<char>) -> ParseOutcome {
    let t = trim_chars(input);
    if t.len() == 0 {
        ParseOutcome::EmptyChart
    } else {
        let h = header_pass(default_header(), t);
        match measure_pass(Ok((empty_chart(), Seq::empty())), h, t) {
            Ok(st) => ParseOutcome::Parsed(h, finish_chart(st.0, st.1, h)),
            Err(tag) => ParseOutcome::InvalidMeasure(tag),
        }
    }
}

/// Whether byte `n` of the UTF-8 encoding of `s` starts a character (or ends
/// the string).
pub open spec fn byte_boundary(s: Seq<char>, n: int) -> bool
    decreases s.len(),
{
    if n <= 0 {
        n == 0
    } else if s.len() == 0 {
        false
    } else {
        byte_boundary(s.drop_first(), n - utf8_len(s[0]))
    }
}

/// A header key that names one of the fixed commands.
pub open spec fn is_named_key(key: Seq<char>) -> bool {
    ||| eq_ci(key, seq!['P', 'L', 'A', 'Y', 'E', 'R'])
    ||| eq_ci(key, seq!['D', 'I', 'F', 'F', 'I', 'C', 'U', 'L', 'T', 'Y'])
    ||| eq_ci(key, seq!['L', 'N', 'T', 'Y', 'P', 'E'])
    ||| eq_ci(key, seq!['T', 'I', 'T', 'L', 'E'])
    ||| eq_ci(key, seq!['S', 'U', 'B', 'T', 'I', 'T', 'L', 'E'])
    ||| eq_ci(key, seq!['A', 'R', 'T', 'I', 'S', 'T'])
    ||| eq_ci(key, seq!['S', 'U', 'B', 'A', 'R', 'T', 'I', 'S', 'T'])
    ||| eq_ci(key, seq!['G', 'E', 'N', 'R', 'E'])
    ||| eq_ci(key, seq!['B', 'P', 'M'])
    ||| eq_ci(key, seq!['P', 'L', 'A', 'Y', 'L', 'E', 'V', 'E', 'L'])
    ||| eq_ci(key, seq!['R', 'A', 'N', 'K'])
    ||| eq_ci(key, seq!['T', 'O', 'T', 'A', 'L'])
    ||| eq_ci(key, seq!['V', 'O', 'L', 'W', 'A', 'V'])
    ||| eq_ci(key, seq!['S', 'T', 'A', 'G', 'E', 'F', 'I', 'L', 'E'])
    ||| eq_ci(key, seq!['B', 'A', 'N', 'N', 'E', 'R'])
    ||| eq_ci(key, seq!['L', 'N', 'O', 'B', 'J'])
}

/// A header key whose 3- and 4-byte prefixes, where the command matching
/// reads them, end on character boundaries.
pub open spec fn header_key_safe(key: Seq<char>) -> bool {
    ||| is_named_key(key)
    ||| byte_len(key) < 4
    ||| (byte_boundary(key, 3) && (ci3(key, 'W', 'A', 'V') || ci3(key, 'B', 'M', 'P') || ci3(key, 'B', 'G', 'A')
        || ci3(key, 'B', 'P', 'M') || byte_len(key) < 5 || byte_boundary(key, 4)))
}

/// The key of a header command.
pub open spec fn command_key(c: Seq<char>) -> Seq<char> {
    trim_chars(c.take(find_key_sep(c)))
}

/// Every header command of `s` has a safe key.
pub open spec fn header_keys_safe(s: Seq<char>) -> bool
    decreases s.len(),
{
    let k = find_char(s, '\n');
    let ok = match line_command(s.take(k)) {
        Some(c) => is_measure_chars(c) || header_key_safe(command_key(c)),
        None => true,
    };
    ok && (0 <= k < s.len() ==> header_keys_safe(s.skip(k + 1)))
}


/// `is_measure_chars` of `cs[a..b]`.
fn is_measure_range(cs: &Vec<char>, a: usize, b: usize) -> (r: bool)
    requires
        a <= b <= cs@.len(),
    ensures
        r == is_measure_chars(cs@.subrange(a as int, b as int)),
{
    if b - a < 5 || !is_digit(cs[a]) || !is_digit(cs[a + 1]) || !is_digit(cs[a + 2]) {
        return false;
    }
    let w3 = char_width(cs[a + 3]);
    let w4 = char_width(cs[a + 4]);
    if b - a >= 6 && w3 == 1 && w4 == 1 && (cs[a + 5] == ':' || cs[a + 5] == ' ') {
        return true;
    }
    w3 == 2 && (cs[a + 4] == ':' || cs[a + 4] == ' ')
}

/// Bounds of `line_command` of `cs[a..b]`.
fn line_command_range(cs: &Vec<char>, a: usize, b: usize) -> (r: Option<(usize, usize)>)
    requires
        a <= b <= cs@.len(),
    ensures
        match line_command(cs@.subrange(a as int, b as int)) {
            Some(c) => r matches Some(p) && a <= p.0 <= p.1 <= b && cs@.subrange(p.0 as int, p.1 as int) == c,
            None => r is None,
        },
{
    let (la, lb) = trim_range(cs, a, b);
    let ghost l = cs@.subrange(la as int, lb as int);
    if la < lb && cs[la] == '#' {
        let ca = trim_start_range(cs, la + 1, lb);
        assert(l.skip(1) =~= cs@.subrange(la + 1, lb as int));
        if ca < lb {
            Some((ca, lb))
        } else {
            None
        }
    } else {
        None
    }
}

/// A header with no command applied.
fn default_header_exec() -> (h: BmsHeader)
    ensures
        h.wf(),
        h.model() == default_header(),
{
    let h = BmsHeader {
        player: 1,
        genre: String::new(),
        title: String::new(),
        subtitle: String::new(),
        artist: String::new(),
        subartist: String::new(),
        bpm: Ratio { num: 130, den: 1 },
        play_level: 1,
        rank: 2,
        total: Ratio { num: 200, den: 1 },
        vol_wav: Ratio { num: 1, den: 1 },
        stage_file: String::new(),
        banner: String::new(),
        ln_obj: None,
        difficulty: None,
        lntype: 1,
        wav_table: Table::new(ID_SLOTS),
        bmp_table: Table::new(ID_SLOTS),
        bga_table: Table::new(ID_SLOTS),
        bpm_table: Table::new(ID_SLOTS),
        stop_table: Table::new(ID_SLOTS),
    };
    assert(string_table_view(h.wav_table@) =~= default_header().wav_table);
    assert(string_table_view(h.bmp_table@) =~= default_header().bmp_table);
    assert(h.genre@ =~= Seq::<char>::empty());
    h
}

/// The first pass over the lines of `cs[ta..tb]`.
fn header_pass_exec(cs: &Vec<char>, ta: usize, tb: usize) -> (h: BmsHeader)
    requires
        ta <= tb <= cs@.len(),
    ensures
        h.wf(),
        h.model() == header_pass(default_header(), cs@.subrange(ta as int, tb as int)),
{
    let mut header = default_header_exec();
    let mut pos = ta;
    loop
        invariant_except_break
            header_pass(header.model(), cs@.subrange(pos as int, tb as int)) == header_pass(
                default_header(),
                cs@.subrange(ta as int, tb as int),
            ),
        invariant
            ta <= pos <= tb,
            tb <= cs@.len(),
            header.wf(),
        ensures
            header.wf(),
            header.model() == header_pass(default_header(), cs@.subrange(ta as int, tb as int)),
        decreases tb - pos,
    {
        let ghost rest = cs@.subrange(pos as int, tb as int);
        let ghost h0 = header.model();
        let k = find_char_range(cs, pos, tb, '\n');
        assert(rest.take(k - pos) =~= cs@.subrange(pos as int, k as int));
        if let Some((ca, cb)) = line_command_range(cs, pos, k) {
            if !is_measure_range(cs, ca, cb) {
                parse_header_line(cs, ca, cb, &mut header);
            }
        }
        if k < tb {
            assert(rest.skip(k - pos + 1) =~= cs@.subrange(k + 1, tb as int));
            pos = k + 1;
        } else {
            break;
        }
    }
    header
}

proof fn lemma_measure_pass_err(e: Seq<char>, h: HeaderModel, s: Seq<char>)
    ensures
        measure_pass(Err(e), h, s) == Err::<PassState, Seq<char>>(e),
{
}

/// The second pass over the lines of `cs[ta..tb]`.
#[verifier::rlimit(40)]
fn measure_pass_exec(cs: &Vec<char>, ta: usize, tb: usize, chart: &mut BmsChart, lns: &mut Vec<RawLn>) -> (r: Result<(), BmsParseError>)
    requires
        ta <= tb <= cs@.len(),
        2 * cs@.len() <= usize::MAX,
        old(chart).wf(),
        old(chart).model() == empty_chart(),
        old(lns)@.len() == 0,
    ensures
        final(chart).wf(),
        final(chart).header == old(chart).header,
        final(chart).total_notes_count + final(lns)@.len() <= 2 * tb,
        match measure_pass(Ok((empty_chart(), Seq::empty())), old(chart).header.model(), cs@.subrange(ta as int, tb as int)) {
            Ok(st) => r is Ok && final(chart).model() == st.0 && final(lns)@ == st.1,
            Err(tag) => r matches Err(BmsParseError::InvalidMeasure(t)) && t@ == tag,
        },
{
    let ghost h = chart.header.model();
    let ghost whole = cs@.subrange(ta as int, tb as int);
    let mut pos = ta;
    assert(lns@ =~= Seq::<RawLn>::empty());
    loop
        invariant
            ta <= pos <= tb,
            tb <= cs@.len(),
            2 * cs@.len() <= usize::MAX,
            chart.wf(),
            chart.header == old(chart).header,
            h == chart.header.model(),
            whole == cs@.subrange(ta as int, tb as int),
            chart.total_notes_count + lns@.len() <= 2 * pos,
            measure_pass(Ok((chart.model(), lns@)), h, cs@.subrange(pos as int, tb as int)) == measure_pass(
                Ok((empty_chart(), Seq::empty())),
                h,
                whole,
            ),
        decreases tb - pos,
    {
        let ghost rest = cs@.subrange(pos as int, tb as int);
        let ghost p0 = (chart.model(), lns@);
        let k = find_char_range(cs, pos, tb, '\n');
        assert(rest.take(k - pos) =~= cs@.subrange(pos as int, k as int));
        if let Some((ca, cb)) = line_command_range(cs, pos, k) {
            if is_measure_range(cs, ca, cb) {
                let res = parse_measure_line(cs, ca, cb, chart, lns);
                if let Err(e) = res {
                    proof {
                        let c = cs@.subrange(ca as int, cb as int);
                        assert(measure_step(p0, h, c) is Err);
                        if k < tb {
                            assert(rest.skip(k - pos + 1) =~= cs@.subrange(k + 1, tb as int));
                            lemma_measure_pass_err(measure_step(p0, h, c)->Err_0, h, cs@.subrange(k + 1, tb as int));
                        }
                    }
                    return Err(e);
                }
            }
        }
        if k < tb {
            assert(rest.skip(k - pos + 1) =~= cs@.subrange(k + 1, tb as int));
            pos = k + 1;
        } else {
            proof {
                let kk = find_char(rest, '\n');
                assert(kk == k - pos);
                assert(!(0 <= kk < rest.len()));
                assert(measure_pass(Ok(p0), h, rest) == Ok::<PassState, Seq<char>>((chart.model(), lns@)));
            }
            return Ok(());
        }
    }
}


/// The orders the chart's lists are sorted by.
pub open spec fn ln_order() -> spec_fn(RawLn, RawLn) -> bool {
    |a: RawLn, b: RawLn| ln_after(a, b)
}

pub open spec fn note_order() -> spec_fn(NoteEvent, NoteEvent) -> bool {
    |a: NoteEvent, b: NoteEvent| note_after(a, b)
}

pub open spec fn bgm_order() -> spec_fn(BgmNote, BgmNote) -> bool {
    |a: BgmNote, b: BgmNote| bgm_after(a, b)
}

pub open spec fn bga_order() -> spec_fn(BgaEvent, BgaEvent) -> bool {
    |a: BgaEvent, b: BgaEvent| bga_after(a, b)
}

pub open spec fn timing_order() -> spec_fn(TimingEvent, TimingEvent) -> bool {
    |a: TimingEvent, b: TimingEvent| timing_after(a, b)
}

/// Pairs long notes, sorts every list and marks `#LNOBJ` ends.
fn finish_exec(chart: &mut BmsChart, lns: &Vec<RawLn>)
    requires
        old(chart).wf(),
        old(chart).total_notes_count + lns@.len() <= usize::MAX,
    ensures
        final(chart).wf(),
        final(chart).header == old(chart).header,
        final(chart).model() == finish_chart(old(chart).model(), lns@, old(chart).header.model()),
{
    let sorted = sort_stable(lns, ln_after_exec, Ghost(ln_order()));
    proof {
        lemma_stable_sort_len(lns@, ln_order());
    }
    let (mut ln_notes, added) = pair_ln_exec(&sorted);
    chart.notes.append(&mut ln_notes);
    chart.notes = sort_stable(&chart.notes, note_after_exec, Ghost(note_order()));
    if let Some(id) = chart.header.ln_obj {
        mark_lnobj_exec(&mut chart.notes, id);
    }
    chart.bgm_notes = sort_stable(&chart.bgm_notes, bgm_after_exec, Ghost(bgm_order()));
    chart.bga_events = sort_stable(&chart.bga_events, bga_after_exec, Ghost(bga_order()));
    chart.timing_events = sort_stable(&chart.timing_events, timing_after_exec, Ghost(timing_order()));
    chart.total_notes_count = chart.total_notes_count + added;
}

/// Parses BMS/BME/BML chart text: a first pass reads every header command
/// (so definitions may follow the measures that use them), a second pass
/// reads the measure lines; then long notes are paired and every list is put
/// in chronological order.
pub fn parse_bms(input: &str) -> (r: Result<BmsChart, BmsParseError>)
    requires
        input@.len() <= isize::MAX,
        header_keys_safe(trim_chars(input@)),
    ensures
        match spec_parse_bms(input@) {
            ParseOutcome::Parsed(h, m) => r matches Ok(c) && c.wf() && c.header.model() == h && c.model() == m,
            ParseOutcome::EmptyChart => r matches Err(BmsParseError::EmptyChart),
            ParseOutcome::InvalidMeasure(t) => r matches Err(BmsParseError::InvalidMeasure(s)) && s@ == t,
        },
{
    let cs = chars_of(input);
    let (ta, tb) = trim_range(&cs, 0, cs.len());
    assert(cs@.subrange(0, cs@.len() as int) =~= input@);
    if ta == tb {
        return Err(BmsParseError::EmptyChart);
    }
    let header = header_pass_exec(&cs, ta, tb);
    let mut chart = BmsChart {
        header,
        notes: Vec::new(),
        bgm_notes: Vec::new(),
        bga_events: Vec::new(),
        timing_events: Vec::new(),
        measure_lengths: Table::new(MEASURE_SLOTS),
        total_notes_count: 0,
        has_2p_dp: false,
        has_pms_ch: false,
        has_k67: false,
    };
    assert(chart.model() =~= empty_chart()) by {
        assert(chart.notes@ =~= Seq::<NoteEvent>::empty());
        assert(chart.bgm_notes@ =~= Seq::<BgmNote>::empty());
        assert(chart.bga_events@ =~= Seq::<BgaEvent>::empty());
        assert(chart.timing_events@ =~= Seq::<TimingEvent>::empty());
    }
    let mut lns: Vec<RawLn> = Vec::new();
    match measure_pass_exec(&cs, ta, tb, &mut chart, &mut lns) {
        Ok(()) => {},
        Err(e) => return Err(e),
    }
    finish_exec(&mut chart, &lns);
    Ok(chart)
}


/// Whether a command (the trimmed text after `#`) is measure data
/// `#XXXYY:...`: at least six bytes, three ASCII digits, and `:` or a space
/// at byte 5.
pub fn is_measure_line(content: &str) -> (r: bool)
    ensures
        r == is_measure_chars(content@),
{
    let cs = chars_of(content);
    assert(cs@.subrange(0, cs@.len() as int) =~= cs@);
    is_measure_range(&cs, 0, cs.len())
}

/// `byte_boundary` of `cs[a..b]` at byte `n`.
fn byte_boundary_range(cs: &Vec<char>, a: usize, b: usize, n: usize) -> (r: bool)
    requires
        a <= b <= cs@.len(),
    ensures
        r == byte_boundary(cs@.subrange(a as int, b as int), n as int),
{
    let mut i = a;
    let mut left = n;
    while left > 0 && i < b
        invariant
            a <= i <= b,
            b <= cs@.len(),
            byte_boundary(cs@.subrange(a as int, b as int), n as int) == byte_boundary(cs@.subrange(i as int, b as int), left as int),
        decreases b - i,
    {
        let w = char_width(cs[i]);
        assert(cs@.subrange(i as int, b as int).drop_first() =~= cs@.subrange(i + 1, b as int));
        if w > left {
            assert(!byte_boundary(cs@.subrange(i + 1, b as int), left - w));
            return false;
        }
        left = left - w;
        i = i + 1;
    }
    left == 0
}

/// `byte_len(cs[a..b]) < n`, for small `n`.
fn byte_len_below(cs: &Vec<char>, a: usize, b: usize, n: usize) -> (r: bool)
    requires
        a <= b <= cs@.len(),
        n <= 16,
    ensures
        r == (byte_len(cs@.subrange(a as int, b as int)) < n),
{
    !byte_len_at_least(cs, a, b, n)
}

/// `header_key_safe` of `cs[ka..kb]`.
fn header_key_safe_range(cs: &Vec<char>, ka: usize, kb: usize) -> (r: bool)
    requires
        ka <= kb <= cs@.len(),
    ensures
        r == header_key_safe(cs@.subrange(ka as int, kb as int)),
{
    let ghost key = cs@.subrange(ka as int, kb as int);
    let named = eq_ci_range(cs, ka, kb, &['P', 'L', 'A', 'Y', 'E', 'R'])
        || eq_ci_range(cs, ka, kb, &['D', 'I', 'F', 'F', 'I', 'C', 'U', 'L', 'T', 'Y'])
        || eq_ci_range(cs, ka, kb, &['L', 'N', 'T', 'Y', 'P', 'E'])
        || eq_ci_range(cs, ka, kb, &['T', 'I', 'T', 'L', 'E'])
        || eq_ci_range(cs, ka, kb, &['S', 'U', 'B', 'T', 'I', 'T', 'L', 'E'])
        || eq_ci_range(cs, ka, kb, &['A', 'R', 'T', 'I', 'S', 'T'])
        || eq_ci_range(cs, ka, kb, &['S', 'U', 'B', 'A', 'R', 'T', 'I', 'S', 'T'])
        || eq_ci_range(cs, ka, kb, &['G', 'E', 'N', 'R', 'E'])
        || eq_ci_range(cs, ka, kb, &['B', 'P', 'M'])
        || eq_ci_range(cs, ka, kb, &['P', 'L', 'A', 'Y', 'L', 'E', 'V', 'E', 'L'])
        || eq_ci_range(cs, ka, kb, &['R', 'A', 'N', 'K'])
        || eq_ci_range(cs, ka, kb, &['T', 'O', 'T', 'A', 'L'])
        || eq_ci_range(cs, ka, kb, &['V', 'O', 'L', 'W', 'A', 'V'])
        || eq_ci_range(cs, ka, kb, &['S', 'T', 'A', 'G', 'E', 'F', 'I', 'L', 'E'])
        || eq_ci_range(cs, ka, kb, &['B', 'A', 'N', 'N', 'E', 'R'])
        || eq_ci_range(cs, ka, kb, &['L', 'N', 'O', 'B', 'J']);
    if named || byte_len_below(cs, ka, kb, 4) {
        return true;
    }
    if !byte_boundary_range(cs, ka, kb, 3) {
        return false;
    }
    let n = kb - ka;
    proof {
        if n >= 4 {
            assert(key.take(3) =~= cs@.subrange(ka as int, ka + 3));
        }
    }
    let prefixed = n >= 4 && (eq_ci_range(cs, ka, ka + 3, &['W', 'A', 'V']) || eq_ci_range(cs, ka, ka + 3, &['B', 'M', 'P'])
        || eq_ci_range(cs, ka, ka + 3, &['B', 'G', 'A']) || eq_ci_range(cs, ka, ka + 3, &['B', 'P', 'M']));
    prefixed || byte_len_below(cs, ka, kb, 5) || byte_boundary_range(cs, ka, kb, 4)
}

/// Whether every header command of `input` has a key that command matching
/// can slice: a key whose third or fourth byte falls inside a multi-byte
/// character is not accepted by `parse_bms`.
pub fn header_keys_are_safe(input: &str) -> (r: bool)
    requires
        input@.len() <= isize::MAX,
    ensures
        r == header_keys_safe(trim_chars(input@)),
{
    let cs = chars_of(input);
    let (ta, tb) = trim_range(&cs, 0, cs.len());
    assert(cs@.subrange(0, cs@.len() as int) =~= input@);
    let ghost whole = cs@.subrange(ta as int, tb as int);
    let mut pos = ta;
    loop
        invariant
            ta <= pos <= tb,
            tb <= cs@.len(),
            whole == cs@.subrange(ta as int, tb as int),
            whole == trim_chars(input@),
            header_keys_safe(whole) == header_keys_safe(cs@.subrange(pos as int, tb as int)),
        decreases tb - pos,
    {
        let ghost rest = cs@.subrange(pos as int, tb as int);
        let k = find_char_range(&cs, pos, tb, '\n');
        assert(rest.take(k - pos) =~= cs@.subrange(pos as int, k as int));
        if let Some((ca, cb)) = line_command_range(&cs, pos, k) {
            if !is_measure_range(&cs, ca, cb) {
                let ks = find_key_sep_range(&cs, ca, cb);
                let (ka, kb) = trim_range(&cs, ca, ks);
                assert(cs@.subrange(ca as int, cb as int).take(ks - ca) =~= cs@.subrange(ca as int, ks as int));
                if !header_key_safe_range(&cs, ka, kb) {
                    return false;
                }
            }
        }
        if k < tb {
            assert(rest.skip(k - pos + 1) =~= cs@.subrange(k + 1, tb as int));
            pos = k + 1;
        } else {
            return true;
        }
    }
}

impl BmsChart {
    /// Detects the play mode from the header and the note channels present.
    pub fn detect_play_mode(&self) -> (m: PlayMode)
        ensures
            m == play_mode_of(self.header.player, self.has_2p_dp, self.has_pms_ch, self.has_k67, false),
    {
        self.detect_play_mode_with_hint(false)
    }

    /// Detects the play mode; `is_pms_ext` is true for a `.pms` file.
    pub fn detect_play_mode_with_hint(&self, is_pms_ext: bool) -> (m: PlayMode)
        ensures
            m == play_mode_of(self.header.player, self.has_2p_dp, self.has_pms_ch, self.has_k67, is_pms_ext),
    {
        if is_pms_ext {
            PlayMode::Keys9
        } else if self.header.player == 2 || self.header.player == 3 || self.has_2p_dp {
            if self.has_k67 {
                PlayMode::Keys14
            } else {
                PlayMode::Keys10
            }
        } else if self.has_pms_ch && !self.has_k67 {
            PlayMode::Keys9
        } else if self.has_k67 {
            PlayMode::Keys7
        } else {
            PlayMode::Keys5
        }
    }
}

/// The play mode: `.pms` files are 9 keys; `#PLAYER 2`/`3` or 2P channels
/// make a double-play chart (14 keys with keys 6/7, else 10); PMS channels
/// without keys 6/7 make 9 keys; otherwise 7 keys with keys 6/7, else 5.
pub open spec fn play_mode_of(player: u32, dp: bool, pms: bool, k67: bool, pms_ext: bool) -> PlayMode {
    if pms_ext {
        PlayMode::Keys9
    } else if player == 2 || player == 3 || dp {
        if k67 {
            PlayMode::Keys14
        } else {
            PlayMode::Keys10
        }
    } else if pms && !k67 {
        PlayMode::Keys9
    } else if k67 {
        PlayMode::Keys7
    } else {
        PlayMode::Keys5
    }
}


/// A position with a positive denominator.
pub open spec fn pos_ok(r: Ratio) -> bool {
    r.den >= 1
}

proof fn lemma_ratio_order(a: Ratio, b: Ratio, c: Ratio)
    requires
        pos_ok(a),
        pos_ok(b),
        pos_ok(c),
    ensures
        !ratio_gt(a, a),
        ratio_eq(a, a),
        ratio_gt(a, b) && ratio_gt(b, c) ==> ratio_gt(a, c),
        ratio_gt(a, b) && ratio_eq(b, c) ==> ratio_gt(a, c),
        ratio_eq(a, b) && ratio_gt(b, c) ==> ratio_gt(a, c),
        ratio_eq(a, b) && ratio_eq(b, c) ==> ratio_eq(a, c),
        ratio_gt(a, b) ==> !ratio_eq(a, b),
{
    let (an, ad, bn, bd, cn, cd) = (a.num as int, a.den as int, b.num as int, b.den as int, c.num as int, c.den as int);
    assert(an * bd > bn * ad && bn * cd > cn * bd ==> an * cd > cn * ad) by (nonlinear_arith)
        requires ad >= 1, bd >= 1, cd >= 1;
    assert(an * bd > bn * ad && bn * cd == cn * bd ==> an * cd > cn * ad) by (nonlinear_arith)
        requires ad >= 1, bd >= 1, cd >= 1;
    assert(an * bd == bn * ad && bn * cd > cn * bd ==> an * cd > cn * ad) by (nonlinear_arith)
        requires ad >= 1, bd >= 1, cd >= 1;
    assert(an * bd == bn * ad && bn * cd == cn * bd ==> an * cd == cn * ad) by (nonlinear_arith)
        requires ad >= 1, bd >= 1, cd >= 1;
}

/// `s` is ordered by `gt`: no element comes after a later one.
pub open spec fn sorted_by<T>(s: Seq<T>, gt: spec_fn(T, T) -> bool) -> bool {
    forall|i: int, j: int| 0 <= i < j < s.len() ==> !gt(#[trigger] s[i], #[trigger] s[j])
}

/// `gt` is irreflexive and transitive on the values `ok` admits.
pub open spec fn strict_order_on<T>(gt: spec_fn(T, T) -> bool, ok: spec_fn(T) -> bool) -> bool {
    &&& forall|x: T| #[trigger] ok(x) ==> !gt(x, x)
    &&& forall|x: T, y: T, z: T| ok(x) && ok(y) && ok(z) && #[trigger] gt(x, y) && #[trigger] gt(y, z) ==> gt(x, z)
}

proof fn lemma_insert_pos_props<T>(s: Seq<T>, x: T, gt: spec_fn(T, T) -> bool)
    ensures
        0 <= insert_pos(s, x, gt) <= s.len(),
        forall|k: int| 0 <= k < insert_pos(s, x, gt) ==> !gt(#[trigger] s[k], x),
        insert_pos(s, x, gt) < s.len() ==> gt(s[insert_pos(s, x, gt)], x),
    decreases s.len(),
{
    if s.len() > 0 && !gt(s[0], x) {
        lemma_insert_pos_props(s.drop_first(), x, gt);
        let p = insert_pos(s, x, gt);
        assert forall|k: int| 0 <= k < p implies !gt(#[trigger] s[k], x) by {
            if k > 0 {
                assert(s[k] == s.drop_first()[k - 1]);
            }
        }
    }
}

/// Insertion sort orders by `gt` when `gt` is a strict order on the
/// elements, and keeps every element `ok`.
pub proof fn lemma_stable_sort_sorted<T>(s: Seq<T>, gt: spec_fn(T, T) -> bool, ok: spec_fn(T) -> bool)
    requires
        strict_order_on(gt, ok),
        forall|i: int| 0 <= i < s.len() ==> #[trigger] ok(s[i]),
    ensures
        sorted_by(stable_sort(s, gt), gt),
        stable_sort(s, gt).len() == s.len(),
        forall|i: int| 0 <= i < s.len() ==> #[trigger] ok(stable_sort(s, gt)[i]),
    decreases s.len(),
{
    lemma_stable_sort_len(s, gt);
    if s.len() > 0 {
        let x = s.last();
        assert(ok(s[s.len() - 1]));
        lemma_stable_sort_sorted(s.drop_last(), gt, ok);
        let r = stable_sort(s.drop_last(), gt);
        let p = insert_pos(r, x, gt);
        lemma_insert_pos_props(r, x, gt);
        let r2 = r.insert(p, x);
        assert forall|i: int| 0 <= i < r2.len() implies #[trigger] ok(r2[i]) by {
            if i < p {
                assert(r2[i] == r[i]);
            } else if i > p {
                assert(r2[i] == r[i - 1]);
            }
        }
        assert forall|i: int, j: int| 0 <= i < j < r2.len() implies !gt(#[trigger] r2[i], #[trigger] r2[j]) by {
            if j < p {
                assert(r2[i] == r[i] && r2[j] == r[j]);
            } else if j == p {
                assert(r2[i] == r[i]);
            } else if i > p {
                assert(r2[i] == r[i - 1] && r2[j] == r[j - 1]);
            } else if i == p {
                assert(r2[j] == r[j - 1]);
                assert(ok(r[j - 1]));
                assert(ok(r[p]));
                if gt(x, r[j - 1]) {
                    assert(gt(r[p], x));
                    assert(gt(r[p], r[j - 1]));
                    if j - 1 > p {
                        assert(!gt(r[p], r[j - 1]));
                    }
                }
            } else {
                assert(r2[i] == r[i] && r2[j] == r[j - 1]);
            }
        }
    }
}

/// Chronological note order is a strict order on notes with positive
/// position denominators.
proof fn lemma_note_order_strict()
    ensures
        strict_order_on(note_order(), |n: NoteEvent| pos_ok(n.fraction)),
{
    let ok = |n: NoteEvent| pos_ok(n.fraction);
    assert forall|x: NoteEvent| #[trigger] ok(x) implies !note_order()(x, x) by {
        lemma_ratio_order(x.fraction, x.fraction, x.fraction);
    }
    assert forall|x: NoteEvent, y: NoteEvent, z: NoteEvent|
        ok(x) && ok(y) && ok(z) && #[trigger] note_order()(x, y) && #[trigger] note_order()(y, z) implies note_order()(x, z) by {
        lemma_ratio_order(x.fraction, y.fraction, z.fraction);
        lemma_ratio_order(y.fraction, x.fraction, z.fraction);
    }
}


/// Every note has a positive position denominator.
pub open spec fn notes_pos_ok(ns: Seq<NoteEvent>) -> bool {
    forall|i: int| 0 <= i < ns.len() ==> #[trigger] pos_ok(ns[i].fraction)
}

/// Every raw long-note endpoint has a positive position denominator.
pub open spec fn lns_pos_ok(ls: Seq<RawLn>) -> bool {
    forall|i: int| 0 <= i < ls.len() ==> #[trigger] pos_ok(ls[i].1)
}

proof fn lemma_slots_pos_ok(st: PassState, h: HeaderModel, measure: u32, ch: int, bytes: Seq<u8>, n: int, k: int)
    requires
        notes_pos_ok(st.0.notes),
        lns_pos_ok(st.1),
        1 <= n,
        k <= n,
        n <= u64::MAX,
    ensures
        notes_pos_ok(slots(st, h, measure, ch, bytes, n, k).0.notes),
        lns_pos_ok(slots(st, h, measure, ch, bytes, n, k).1),
    decreases k,
{
    if k > 0 {
        lemma_slots_pos_ok(st, h, measure, ch, bytes, n, k - 1);
        let p = slots(st, h, measure, ch, bytes, n, k - 1);
        let frac = Ratio { num: (k - 1) as i64, den: n as u64 };
        assert(pos_ok(frac));
        let q = slot_step(p, h, measure, ch, bytes[2 * (k - 1)], bytes[2 * (k - 1) + 1], frac);
        assert forall|i: int| 0 <= i < q.0.notes.len() implies #[trigger] pos_ok(q.0.notes[i].fraction) by {
            if i < p.0.notes.len() {
                assert(q.0.notes[i] == p.0.notes[i]);
            }
        }
        assert forall|i: int| 0 <= i < q.1.len() implies #[trigger] pos_ok(q.1[i].1) by {
            if i < p.1.len() {
                assert(q.1[i] == p.1[i]);
            }
        }
    }
}

proof fn lemma_trim_len(s: Seq<char>)
    ensures
        trim_start_chars(s).len() <= s.len(),
        trim_chars(s).len() <= s.len(),
{
    lemma_trim_start_first(s);
    lemma_trim_end_len(trim_start_chars(s));
}

proof fn lemma_trim_end_len(s: Seq<char>)
    ensures
        crate::text::trim_end_chars(s).len() <= s.len(),
    decreases s.len(),
{
    if s.len() > 0 && is_ws(s.last()) {
        lemma_trim_end_len(s.drop_last());
    }
}

proof fn lemma_find_char_bound(s: Seq<char>, c: char)
    ensures
        0 <= find_char(s, c) <= s.len(),
    decreases s.len(),
{
    if s.len() > 0 && s[0] != c {
        lemma_find_char_bound(s.drop_first(), c);
    }
}

proof fn lemma_find_tag_sep_bound(s: Seq<char>)
    ensures
        0 <= find_tag_sep(s) <= s.len(),
    decreases s.len(),
{
    if s.len() > 0 && !(s[0] == ':' || s[0] == ' ') {
        lemma_find_tag_sep_bound(s.drop_first());
    }
}

/// The slot data of a measure command is no longer than the line it is on.
proof fn lemma_measure_data_len(line: Seq<char>, c: Seq<char>)
    requires
        line_command(line) == Some(c),
    ensures
        measure_data(c).len() <= line.len(),
{
    let l = trim_chars(line);
    lemma_trim_len(line);
    lemma_trim_len(l.skip(1));
    lemma_find_tag_sep_bound(c);
    let k = find_tag_sep(c);
    lemma_trim_len(rest_after(c, k));
}

proof fn lemma_measure_pass_pos_ok(st: Result<PassState, Seq<char>>, h: HeaderModel, s: Seq<char>)
    requires
        st matches Ok(p) ==> notes_pos_ok(p.0.notes) && lns_pos_ok(p.1),
        s.len() <= isize::MAX,
    ensures
        measure_pass(st, h, s) matches Ok(p) ==> notes_pos_ok(p.0.notes) && lns_pos_ok(p.1),
    decreases s.len(),
{
    if let Ok(p) = st {
        let k = find_char(s, '\n');
        lemma_find_char_bound(s, '\n');
        if let Some(c) = line_command(s.take(k)) {
            lemma_measure_data_len(s.take(k), c);
            lemma_encode_utf8_len(measure_data(c));
            if is_measure_chars(c) {
                let tag = measure_tag(c);
                let data = measure_data(c);
                if byte_len(tag) >= 5 {
                    if let Some(mv) = measure_number(tag) {
                        let ch = channel_of(tag);
                        if ch != 2 {
                            let bytes = encode_utf8(data);
                            let n = bytes.len() / 2;
                            if bytes.len() % 2 == 0 && n != 0 {
                                lemma_slots_pos_ok((flag_step(p.0, ch), p.1), h, mv as u32, ch, bytes, n as int, n as int);
                            }
                        }
                    }
                }
            }
        }
        if 0 <= k < s.len() {
            let st2 = match line_command(s.take(k)) {
                Some(c) => if is_measure_chars(c) {
                    measure_step(p, h, c)
                } else {
                    Ok(p)
                },
                None => Ok(p),
            };
            lemma_measure_pass_pos_ok(st2, h, s.skip(k + 1));
        }
    }
}

proof fn lemma_stable_sort_keeps<T>(s: Seq<T>, gt: spec_fn(T, T) -> bool, ok: spec_fn(T) -> bool)
    requires
        forall|i: int| 0 <= i < s.len() ==> #[trigger] ok(s[i]),
    ensures
        stable_sort(s, gt).len() == s.len(),
        forall|i: int| 0 <= i < s.len() ==> #[trigger] ok(stable_sort(s, gt)[i]),
    decreases s.len(),
{
    lemma_stable_sort_len(s, gt);
    if s.len() > 0 {
        assert(ok(s[s.len() - 1]));
        lemma_stable_sort_keeps(s.drop_last(), gt, ok);
        let r = stable_sort(s.drop_last(), gt);
        let p = insert_pos(r, s.last(), gt);
        lemma_insert_pos_bound(r, s.last(), gt);
        let r2 = r.insert(p, s.last());
        assert forall|i: int| 0 <= i < r2.len() implies #[trigger] ok(r2[i]) by {
            if i < p {
                assert(r2[i] == r[i]);
            } else if i > p {
                assert(r2[i] == r[i - 1]);
            }
        }
    }
}

proof fn lemma_pair_lns_pos_ok(lns: Seq<RawLn>, k: int)
    requires
        lns_pos_ok(lns),
        0 <= k <= lns.len(),
    ensures
        notes_pos_ok(pair_lns(lns, k).notes),
        pair_lns(lns, k).pending.len() == 8,
        forall|j: int| 0 <= j < 8 ==> (#[trigger] pair_lns(lns, k).pending[j] matches Some(p) ==> pos_ok(p.1)),
    decreases k,
{
    if k > 0 {
        lemma_pair_lns_pos_ok(lns, k - 1);
        let p = pair_lns(lns, k - 1);
        let e = lns[k - 1];
        let li = lane_rank(e.2);
        assert(pos_ok(lns[k - 1].1));
        let q = pair_lns(lns, k);
        assert forall|i: int| 0 <= i < q.notes.len() implies #[trigger] pos_ok(q.notes[i].fraction) by {
            if i < p.notes.len() {
                assert(q.notes[i] == p.notes[i]);
            }
        }
    }
}

proof fn lemma_mark_lnobj_keeps_positions(notes: Seq<NoteEvent>, ln: WavId, k: int)
    requires
        0 <= k <= notes.len(),
    ensures
        mark_lnobj(notes, ln, k).0.len() == notes.len(),
        forall|i: int| 0 <= i < notes.len() ==> {
            &&& (#[trigger] mark_lnobj(notes, ln, k).0[i]).measure == notes[i].measure
            &&& mark_lnobj(notes, ln, k).0[i].fraction == notes[i].fraction
            &&& mark_lnobj(notes, ln, k).0[i].lane == notes[i].lane
        },
    decreases k,
{
    lemma_mark_lnobj_len(notes, ln, k);
    if k > 0 {
        lemma_mark_lnobj_keeps_positions(notes, ln, k - 1);
        lemma_mark_lnobj_len(notes, ln, k - 1);
    }
}

/// `parse_bms` returns its notes in chronological order: by measure, then
/// position in the measure, then lane (they are sorted before the `#LNOBJ`
/// ends are marked, which moves no note).
pub proof fn lemma_parsed_notes_in_order(input: Seq<char>)
    requires
        input.len() <= isize::MAX,
    ensures
        spec_parse_bms(input) matches ParseOutcome::Parsed(h, m) ==> sorted_by(m.notes, note_order()),
{
    let t = trim_chars(input);
    lemma_trim_len(input);
    if t.len() > 0 {
        let h = header_pass(default_header(), t);
        let st0: Result<PassState, Seq<char>> = Ok((empty_chart(), Seq::empty()));
        lemma_measure_pass_pos_ok(st0, h, t);
        if let Ok(st) = measure_pass(st0, h, t) {
            let ok_ln = |e: RawLn| pos_ok(e.1);
            let ok_note = |n: NoteEvent| pos_ok(n.fraction);
            lemma_stable_sort_keeps(st.1, ln_order(), ok_ln);
            let sorted_lns = stable_sort(st.1, ln_order());
            assert(lns_pos_ok(sorted_lns)) by {
                assert forall|i: int| 0 <= i < sorted_lns.len() implies #[trigger] pos_ok(sorted_lns[i].1) by {
                    assert(ok_ln(sorted_lns[i]));
                }
            }
            lemma_pair_lns_pos_ok(sorted_lns, sorted_lns.len() as int);
            let ln = pair_lns(sorted_lns, sorted_lns.len() as int);
            let all = st.0.notes + ln.notes;
            assert forall|i: int| 0 <= i < all.len() implies #[trigger] ok_note(all[i]) by {
                if i < st.0.notes.len() {
                    assert(pos_ok(st.0.notes[i].fraction));
                } else {
                    assert(pos_ok(ln.notes[i - st.0.notes.len()].fraction));
                }
            }
            lemma_note_order_strict();
            lemma_stable_sort_sorted(all, note_order(), ok_note);
            let notes = stable_sort(all, note_order());
            let m = finish_chart(st.0, st.1, h);
            if let Some(id) = h.ln_obj {
                lemma_mark_lnobj_keeps_positions(notes, id, notes.len() as int);
                let marked = mark_lnobj(notes, id, notes.len() as int).0;
                assert forall|i: int, j: int| 0 <= i < j < marked.len() implies !note_order()(#[trigger] marked[i], #[trigger] marked[j]) by {
                    assert(!note_order()(notes[i], notes[j]));
                    assert(marked[i].measure == notes[i].measure && marked[i].fraction == notes[i].fraction && marked[i].lane == notes[i].lane);
                    assert(marked[j].measure == notes[j].measure && marked[j].fraction == notes[j].fraction && marked[j].lane == notes[j].lane);
                }
                assert(m.notes == marked);
            } else {
                assert(m.notes == notes);
            }
        }
    }
}

/// The rank (0 for scratch, `k` for key `k`) of the lane of 1P channel `ch`
/// in the BMS channel layout: channel `1k` or `5k` is key `k` for `k` up to 5,
/// `16`/`56` the scratch, `18`/`58` key 6 and `19`/`59` key 7.
pub open spec fn layout_rank(ch: int) -> int {
    let k = ch % 10;
    if k == 6 {
        0
    } else if k >= 8 {
        k - 2
    } else {
        k
    }
}

/// The 1P channel layout: every note channel `11..=19` and long-note
/// channel `51..=59` but the seventh of each group has a lane, channel `c`
/// and `c + 40` share it, its rank is `layout_rank` (key `k` for channel `1k`
/// and `5k` with `k` up to 5, scratch for `16`/`56`, key 6 for `18`/`58`, key 7
/// for `19`/`59`), and no other channel has one.
pub proof fn lemma_channel_layout(ch: int)
    ensures
        (11 <= ch <= 19 || 51 <= ch <= 59) && ch % 10 != 7 ==> (lane_of_channel(ch) matches Some(l)
            && lane_rank(l) == layout_rank(ch)),
        11 <= ch <= 15 ==> (lane_of_channel(ch) matches Some(l) && lane_rank(l) == ch - 10),
        51 <= ch <= 55 ==> (lane_of_channel(ch) matches Some(l) && lane_rank(l) == ch - 50),
        ch == 16 || ch == 56 ==> lane_of_channel(ch) == Some(Lane::Scratch),
        ch == 18 || ch == 58 ==> lane_of_channel(ch) == Some(Lane::Key6),
        ch == 19 || ch == 59 ==> lane_of_channel(ch) == Some(Lane::Key7),
        11 <= ch <= 19 ==> lane_of_channel(ch) == lane_of_channel(ch + 40),
        lane_of_channel(ch) is Some ==> (11 <= ch <= 19 || 51 <= ch <= 59) && ch % 10 != 7,
{
}

/// A note that one slot of a 1P note channel adds to the chart is a tap of
/// the slot's sound at the slot's place, on the channel's lane in the layout;
/// a slot of a 1P long-note channel adds a long-note end point on that lane.
pub proof fn lemma_slot_note_lane(st: PassState, h: HeaderModel, measure: u32, ch: int, c1: u8, c2: u8, frac: Ratio)
    ensures
        ({
            let r = slot_step(st, h, measure, ch, c1, c2, frac);
            11 <= ch <= 19 && ch != 17 && spec_decode_base36(c1, c2) is Some ==> {
                &&& r.0.notes.len() == st.0.notes.len() + 1
                &&& lane_rank(r.0.notes.last().lane) == layout_rank(ch)
                &&& r.0.notes.last().wav_id == spec_decode_base36(c1, c2)
                &&& r.0.notes.last().measure == measure
                &&& r.0.notes.last().fraction == frac
                &&& r.0.notes.last().note_type == NoteType::Tap
            }
        }),
        ({
            let r = slot_step(st, h, measure, ch, c1, c2, frac);
            51 <= ch <= 59 && ch != 57 && spec_decode_base36(c1, c2) is Some ==> {
                &&& r.1.len() == st.1.len() + 1
                &&& lane_rank(r.1.last().2) == layout_rank(ch)
                &&& r.1.last() == (measure, frac, r.1.last().2, spec_decode_base36(c1, c2).unwrap())
            }
        }),
{
    lemma_channel_layout(ch);
}


/// The character of Base36 digit `d` (`0`..`9`, then letters from `A`, or
/// from `a` when `lower`).
pub open spec fn base36_char(d: int, lower: bool) -> u8 {
    if d < 10 {
        (48 + d) as u8
    } else if lower {
        (97 + d - 10) as u8
    } else {
        (65 + d - 10) as u8
    }
}

/// Two Base36 digits name the number `36 * d1 + d2`, whichever case their
/// letters are written in, and `00` names nothing.
pub proof fn lemma_base36_numeral(d1: int, d2: int, lower1: bool, lower2: bool)
    requires
        0 <= d1 < 36,
        0 <= d2 < 36,
    ensures
        spec_decode_base36(base36_char(d1, lower1), base36_char(d2, lower2)) == (if d1 == 0 && d2 == 0 {
            None
        } else {
            Some(WavId((36 * d1 + d2) as u16))
        }),
{
}

} // verus!
