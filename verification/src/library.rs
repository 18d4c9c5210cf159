//! Song library helpers: chart identification by FNV-1a hash, sort modes,
//! the field escaping of the song cache's tab-separated lines, and the song
//! list filter of song select.

use vstd::prelude::*;
use crate::bms::PlayMode;
use crate::text::{chars_of, push_char, trim_chars, trim_range};
use crate::ui::SongCategory;
use crate::video::{lowercase_of, to_lowercase};

verus! {

/// FNV-1a 64-bit offset basis.
pub const FNV_OFFSET: u64 = 0xcbf29ce484222325;

/// FNV-1a 64-bit prime.
pub const FNV_PRIME: u64 = 0x100000001b3;

/// FNV-1a 64-bit hash of `data`: start from the offset basis; for each byte,
/// xor it in and multiply by the prime modulo 2^64.
pub open spec fn fnv1a(data: Seq<u8>) -> u64
    decreases data.len(),
{
    if data.len() == 0 {
        FNV_OFFSET
    } else {
        let h = fnv1a(data.drop_last()) ^ (data.last() as u64);
        ((h as nat * FNV_PRIME as nat) % 0x1_0000_0000_0000_0000nat) as u64
    }
}

/// Hash used to identify a chart by its bytes.
pub fn compute_chart_hash(data: &[u8]) -> (h: u64)
    ensures
        h == fnv1a(data@),
{
    let mut hash: u64 = FNV_OFFSET;
    let mut i: usize = 0;
    while i < data.len()
        invariant
            i <= data@.len(),
            hash == fnv1a(data@.take(i as int)),
        decreases data@.len() - i,
    {
        assert(data@.take(i + 1).drop_last() =~= data@.take(i as int));
        hash = hash ^ (data[i] as u64);
        hash = hash.wrapping_mul(FNV_PRIME);
        i = i + 1;
    }
    assert(data@.take(data@.len() as int) =~= data@);
    hash
}

/// Song list sorting criteria.
#[derive(Debug, Clone, Copy, PartialEq, Eq, Structural)]
pub enum SortMode {
    Title,
    Level,
    ClearLamp,
    ScoreRate,
    Bpm,
}

pub open spec fn sort_mode_name(m: SortMode) -> &'static str {
    match m {
        SortMode::Title => "TITLE",
        SortMode::Level => "LEVEL",
        SortMode::ClearLamp => "CLEAR LAMP",
        SortMode::ScoreRate => "SCORE RATE",
        SortMode::Bpm => "BPM",
    }
}

/// Title -> level -> clear lamp -> score rate -> BPM -> title.
pub open spec fn sort_mode_after(m: SortMode) -> SortMode {
    match m {
        SortMode::Title => SortMode::Level,
        SortMode::Level => SortMode::ClearLamp,
        SortMode::ClearLamp => SortMode::ScoreRate,
        SortMode::ScoreRate => SortMode::Bpm,
        SortMode::Bpm => SortMode::Title,
    }
}

impl SortMode {
    pub fn as_str(self) -> (s: &'static str)
        ensures
            s@ == sort_mode_name(self)@,
    {
        match self {
            SortMode::Title => "TITLE",
            SortMode::Level => "LEVEL",
            SortMode::ClearLamp => "CLEAR LAMP",
            SortMode::ScoreRate => "SCORE RATE",
            SortMode::Bpm => "BPM",
        }
    }

    pub fn next(self) -> (r: Self)
        ensures
            r == sort_mode_after(self),
    {
        match self {
            SortMode::Title => SortMode::Level,
            SortMode::Level => SortMode::ClearLamp,
            SortMode::ClearLamp => SortMode::ScoreRate,
            SortMode::ScoreRate => SortMode::Bpm,
            SortMode::Bpm => SortMode::Title,
        }
    }
}

/// Cycling the sort mode five times comes back to the start.
pub proof fn lemma_sort_mode_cycle(m: SortMode)
    ensures
        sort_mode_after(sort_mode_after(sort_mode_after(sort_mode_after(sort_mode_after(m))))) == m,
{
}

/// The escaped form of one character: `\` as `\\`, tab as `\t`, newline as
/// `\n`.
pub open spec fn escape_char(c: char) -> Seq<char> {
    if c == '\\' {
        seq!['\\', '\\']
    } else if c == '\t' {
        seq!['\\', 't']
    } else if c == '\n' {
        seq!['\\', 'n']
    } else {
        seq![c]
    }
}

/// A field with backslashes, tabs and newlines escaped.
pub open spec fn escape_chars(s: Seq<char>) -> Seq<char>
    decreases s.len(),
{
    if s.len() == 0 {
        Seq::empty()
    } else {
        escape_chars(s.drop_last()) + escape_char(s.last())
    }
}

/// `str::replace(pat, rep)` for a two-character pattern: every
/// non-overlapping occurrence, left to right, replaced by `rep`.
pub open spec fn replace2(s: Seq<char>, a: char, b: char, rep: char) -> Seq<char>
    decreases s.len(),
{
    if s.len() == 0 {
        s
    } else if s.len() >= 2 && s[0] == a && s[1] == b {
        seq![rep] + replace2(s.skip(2), a, b, rep)
    } else {
        seq![s[0]] + replace2(s.drop_first(), a, b, rep)
    }
}

/// Unescaping: `\n`, then `\t`, then `\\`, each replaced in turn.
pub open spec fn unescape_chars(s: Seq<char>) -> Seq<char> {
    replace2(replace2(replace2(s, '\\', 'n', '\n'), '\\', 't', '\t'), '\\', '\\', '\\')
}

/// Escapes backslashes, tabs and newlines for a tab-separated field.
pub fn escape_field(s: &str) -> (r: String)
    ensures
        r@ == escape_chars(s@),
{
    let cs = crate::text::chars_of(s);
    let mut out = String::new();
    let mut i: usize = 0;
    while i < cs.len()
        invariant
            i <= cs@.len(),
            cs@ == s@,
            out@ == escape_chars(cs@.take(i as int)),
        decreases cs@.len() - i,
    {
        let c = cs[i];
        let ghost before = out@;
        assert(cs@.take(i + 1).drop_last() =~= cs@.take(i as int));
        if c == '\\' {
            push_char(&mut out, '\\');
            push_char(&mut out, '\\');
        } else if c == '\t' {
            push_char(&mut out, '\\');
            push_char(&mut out, 't');
        } else if c == '\n' {
            push_char(&mut out, '\\');
            push_char(&mut out, 'n');
        } else {
            push_char(&mut out, c);
        }
        assert(out@ =~= before + escape_char(c));
        i = i + 1;
    }
    assert(cs@.take(cs@.len() as int) =~= cs@);
    out
}

/// `replace2` of `cs`.
fn replace2_vec(cs: &Vec<char>, a: char, b: char, rep: char) -> (r: Vec<char>)
    ensures
        r@ == replace2(cs@, a, b, rep),
{
    let mut out: Vec<char> = Vec::new();
    let mut i: usize = 0;
    assert(cs@.skip(0) =~= cs@);
    while i < cs.len()
        invariant
            i <= cs@.len(),
            out@ + replace2(cs@.skip(i as int), a, b, rep) == replace2(cs@, a, b, rep),
        decreases cs@.len() - i,
    {
        let ghost rest = cs@.skip(i as int);
        if i + 1 < cs.len() && cs[i] == a && cs[i + 1] == b {
            assert(rest.skip(2) =~= cs@.skip(i + 2));
            out.push(rep);
            assert(out@ + replace2(cs@.skip(i + 2), a, b, rep) =~= out@.drop_last() + (seq![rep] + replace2(rest.skip(2), a, b, rep)));
            i = i + 2;
        } else {
            assert(rest.drop_first() =~= cs@.skip(i + 1));
            out.push(cs[i]);
            assert(out@ + replace2(cs@.skip(i + 1), a, b, rep) =~= out@.drop_last() + (seq![rest[0]] + replace2(rest.drop_first(), a, b, rep)));
            i = i + 1;
        }
    }
    assert(cs@.skip(cs@.len() as int) =~= Seq::<char>::empty());
    assert(out@ + Seq::<char>::empty() =~= out@);
    out
}

/// Reverses the escaping of `escape_field` (for fields without a backslash
/// before an `n` or a `t`).
pub fn unescape_field(s: &str) -> (r: String)
    ensures
        r@ == unescape_chars(s@),
{
    let cs = crate::text::chars_of(s);
    let step1 = replace2_vec(&cs, '\\', 'n', '\n');
    let step2 = replace2_vec(&step1, '\\', 't', '\t');
    let step3 = replace2_vec(&step2, '\\', '\\', '\\');
    crate::text::string_of(&step3, 0, step3.len())
}


/// How a character stands after escaping (`k == 0`) and after each of the
/// three unescaping passes (`k == 1, 2, 3`).
pub open spec fn stage_token(k: int, c: char) -> Seq<char> {
    if k == 0 {
        escape_char(c)
    } else if k == 1 {
        if c == '\n' {
            seq!['\n']
        } else {
            escape_char(c)
        }
    } else if k == 2 {
        if c == '\n' || c == '\t' {
            seq![c]
        } else {
            escape_char(c)
        }
    } else {
        seq![c]
    }
}

/// The tokens of all characters of `s` at stage `k`, in order.
pub open spec fn staged(s: Seq<char>, k: int) -> Seq<char>
    decreases s.len(),
{
    if s.len() == 0 {
        Seq::empty()
    } else {
        stage_token(k, s[0]) + staged(s.drop_first(), k)
    }
}

/// No backslash in `s` is directly followed by `x`.
pub open spec fn no_backslash_before(s: Seq<char>, x: char) -> bool {
    forall|i: int| 0 <= i < s.len() - 1 && #[trigger] s[i] == '\\' ==> s[i + 1] != x
}

proof fn lemma_staged_push(s: Seq<char>, c: char, k: int)
    ensures
        staged(s.push(c), k) == staged(s, k) + stage_token(k, c),
    decreases s.len(),
{
    if s.len() == 0 {
        assert(s.push(c).drop_first() =~= Seq::<char>::empty());
        assert(staged(Seq::<char>::empty(), k) =~= Seq::<char>::empty());
        assert(staged(s.push(c), k) =~= staged(s, k) + stage_token(k, c));
    } else {
        assert(s.push(c).drop_first() =~= s.drop_first().push(c));
        lemma_staged_push(s.drop_first(), c, k);
        assert(staged(s.push(c), k) =~= staged(s, k) + stage_token(k, c));
    }
}

proof fn lemma_escape_is_staged(s: Seq<char>)
    ensures
        escape_chars(s) == staged(s, 0),
    decreases s.len(),
{
    if s.len() > 0 {
        lemma_escape_is_staged(s.drop_last());
        lemma_staged_push(s.drop_last(), s.last(), 0);
        assert(s.drop_last().push(s.last()) =~= s);
    }
}

proof fn lemma_staged_first(s: Seq<char>, k: int)
    requires
        s.len() > 0,
    ensures
        staged(s, k).len() > 0,
        staged(s, k)[0] == stage_token(k, s[0])[0],
{
}

proof fn lemma_pass(s: Seq<char>, k: int)
    requires
        0 <= k <= 2,
        k == 0 ==> no_backslash_before(s, 'n'),
        k == 1 ==> no_backslash_before(s, 't'),
    ensures
        k == 0 ==> replace2(staged(s, 0), '\\', 'n', '\n') == staged(s, 1),
        k == 1 ==> replace2(staged(s, 1), '\\', 't', '\t') == staged(s, 2),
        k == 2 ==> replace2(staged(s, 2), '\\', '\\', '\\') == staged(s, 3),
    decreases s.len(),
{
    if s.len() > 0 {
        let c = s[0];
        let rest = s.drop_first();
        if k == 0 {
            assert forall|i: int| 0 <= i < rest.len() - 1 && #[trigger] rest[i] == '\\' implies rest[i + 1] != 'n' by {
                assert(s[i + 1] == rest[i]);
                assert(s[i + 2] == rest[i + 1]);
            }
        } else if k == 1 {
            assert forall|i: int| 0 <= i < rest.len() - 1 && #[trigger] rest[i] == '\\' implies rest[i + 1] != 't' by {
                assert(s[i + 1] == rest[i]);
                assert(s[i + 2] == rest[i + 1]);
            }
        }
        lemma_pass(rest, k);
        let f = staged(rest, k);
        let (x, r) = if k == 0 {
            ('n', '\n')
        } else if k == 1 {
            ('t', '\t')
        } else {
            ('\\', '\\')
        };
        let t = stage_token(k, c);
        assert(staged(s, k) == t + f);
        if rest.len() > 0 {
            lemma_staged_first(rest, k);
            if c == '\\' && k < 2 {
                assert(s[1] == rest[0]);
                assert(rest[0] != x);
            }
        }
        if t.len() == 2 {
            let g = seq![t[1]] + f;
            assert((t + f).skip(2) =~= f);
            assert((t + f).drop_first() =~= g);
            assert(g.drop_first() =~= f);
            if rest.len() > 0 {
                assert(g[1] == f[0]);
            } else {
                assert(f.len() == 0);
            }
            assert(replace2(g, '\\', x, r) == (if g.len() >= 2 && g[0] == '\\' && g[1] == x {
                seq![r] + replace2(g.skip(2), '\\', x, r)
            } else {
                seq![g[0]] + replace2(g.drop_first(), '\\', x, r)
            }));
        } else {
            assert((t + f).drop_first() =~= f);
        }
    }
}

proof fn lemma_staged_last(s: Seq<char>)
    ensures
        staged(s, 3) == s,
    decreases s.len(),
{
    if s.len() > 0 {
        lemma_staged_last(s.drop_first());
        assert(staged(s, 3) =~= s);
    }
}

/// Unescaping an escaped field gives the field back, for every field in
/// which no backslash is directly followed by `n` or `t`.
pub proof fn lemma_escape_roundtrip(s: Seq<char>)
    requires
        no_backslash_before(s, 'n'),
        no_backslash_before(s, 't'),
    ensures
        unescape_chars(escape_chars(s)) == s,
{
    lemma_escape_is_staged(s);
    lemma_pass(s, 0);
    lemma_pass(s, 1);
    lemma_pass(s, 2);
    lemma_staged_last(s);
}

/// Whether `q` occurs in `s` as a run of characters (`str::contains`).
pub open spec fn has_substring(s: Seq<char>, q: Seq<char>) -> bool {
    exists|i: int| 0 <= i && i + q.len() <= s.len() && #[trigger] s.subrange(i, i + q.len()) == q
}

fn matches_at(s: &Vec<char>, q: &Vec<char>, i: usize) -> (r: bool)
    requires
        i + q@.len() <= s@.len(),
    ensures
        r == (s@.subrange(i as int, i + q@.len()) == q@),
{
    let mut j: usize = 0;
    while j < q.len()
        invariant
            i + q@.len() <= s@.len(),
            s@.len() == s.len(),
            j <= q@.len(),
            forall|m: int| 0 <= m < j ==> s@[i + m] == q@[m],
        decreases q@.len() - j,
    {
        if s[i + j] != q[j] {
            assert(s@.subrange(i as int, i + q@.len())[j as int] != q@[j as int]);
            return false;
        }
        j = j + 1;
    }
    assert(s@.subrange(i as int, i + q@.len()) =~= q@);
    true
}

/// Whether `q` occurs in `s`.
pub fn contains_chars(s: &Vec<char>, q: &Vec<char>) -> (r: bool)
    ensures
        r == has_substring(s@, q@),
{
    if q.len() > s.len() {
        return false;
    }
    let last = s.len() - q.len();
    let mut i: usize = 0;
    loop
        invariant
            q@.len() <= s@.len(),
            last == s@.len() - q@.len(),
            i <= last,
            forall|j: int| 0 <= j < i ==> #[trigger] s@.subrange(j, j + q@.len()) != q@,
        decreases last - i,
    {
        if matches_at(s, q, i) {
            return true;
        }
        if i == last {
            return false;
        }
        i = i + 1;
    }
}

/// What the song list filter reads of a song.
pub struct SongEntry {
    pub title: String,
    pub artist: String,
    pub genre: String,
    pub play_mode: PlayMode,
    /// The built-in demo song, listed under the 5-key, 7-key and clear-status
    /// categories whatever its mode.
    pub is_demo: bool,
    /// Whether a best score is stored for the song.
    pub has_score: bool,
}

/// Whether a song with lower-cased title, artist and genre matches the
/// lower-cased, trimmed search text `q` (empty text matches every song).
pub open spec fn search_hit(title: Seq<char>, artist: Seq<char>, genre: Seq<char>, q: Seq<char>) -> bool {
    q.len() == 0 || has_substring(title, q) || has_substring(artist, q) || has_substring(genre, q)
}

/// Whether a song belongs to category `c`.
pub open spec fn in_category(e: SongEntry, c: SongCategory) -> bool {
    match c {
        SongCategory::All => true,
        SongCategory::Keys5 => e.play_mode == PlayMode::Keys5 || e.is_demo,
        SongCategory::Keys7 => e.play_mode == PlayMode::Keys7 || e.is_demo,
        SongCategory::Keys9 => e.play_mode == PlayMode::Keys9,
        SongCategory::Keys10 => e.play_mode == PlayMode::Keys10,
        SongCategory::Keys14 => e.play_mode == PlayMode::Keys14,
        SongCategory::Level => true,
        SongCategory::ClearStatus => e.has_score || e.is_demo,
    }
}

/// Whether song `e` is listed for search text `query` in category `c`.
pub open spec fn song_listed(e: SongEntry, query: Seq<char>, c: SongCategory) -> bool {
    &&& search_hit(
        lowercase_of(e.title@),
        lowercase_of(e.artist@),
        lowercase_of(e.genre@),
        trim_chars(lowercase_of(query)),
    )
    &&& in_category(e, c)
}

/// The positions, in order, of the first `n` songs that are listed.
pub open spec fn listed_indices(songs: Seq<SongEntry>, query: Seq<char>, c: SongCategory, n: int) -> Seq<usize>
    decreases n,
{
    if n <= 0 {
        Seq::empty()
    } else {
        let prev = listed_indices(songs, query, c, n - 1);
        if song_listed(songs[n - 1], query, c) {
            prev.push((n - 1) as usize)
        } else {
            prev
        }
    }
}

/// Whether the lower-cased fields match the lower-cased, trimmed search text.
pub fn matches_search(title: &str, artist: &str, genre: &str, q: &Vec<char>) -> (r: bool)
    ensures
        r == search_hit(title@, artist@, genre@, q@),
{
    if q.len() == 0 {
        return true;
    }
    let t = chars_of(title);
    if contains_chars(&t, q) {
        return true;
    }
    let a = chars_of(artist);
    if contains_chars(&a, q) {
        return true;
    }
    let g = chars_of(genre);
    contains_chars(&g, q)
}

/// Whether a song belongs to a category.
pub fn song_in_category(e: &SongEntry, c: SongCategory) -> (r: bool)
    ensures
        r == in_category(*e, c),
{
    match c {
        SongCategory::All => true,
        SongCategory::Keys5 => e.play_mode == PlayMode::Keys5 || e.is_demo,
        SongCategory::Keys7 => e.play_mode == PlayMode::Keys7 || e.is_demo,
        SongCategory::Keys9 => e.play_mode == PlayMode::Keys9,
        SongCategory::Keys10 => e.play_mode == PlayMode::Keys10,
        SongCategory::Keys14 => e.play_mode == PlayMode::Keys14,
        SongCategory::Level => true,
        SongCategory::ClearStatus => e.has_score || e.is_demo,
    }
}

/// The positions, in order, of the first `n` songs that are listed, given
/// each song's lower-cased title, artist and genre and the lower-cased,
/// trimmed search text `q`.
pub open spec fn listed_lowered(
    songs: Seq<SongEntry>,
    lowered: Seq<(String, String, String)>,
    q: Seq<char>,
    c: SongCategory,
    n: int,
) -> Seq<usize>
    decreases n,
{
    if n <= 0 {
        Seq::empty()
    } else {
        let prev = listed_lowered(songs, lowered, q, c, n - 1);
        let l = lowered[n - 1];
        if search_hit(l.0@, l.1@, l.2@, q) && in_category(songs[n - 1], c) {
            prev.push((n - 1) as usize)
        } else {
            prev
        }
    }
}

/// The positions of the listed songs, given each song's lower-cased title,
/// artist and genre (`lowered`, one entry per song) and the lower-cased
/// search text: those whose fields contain the trimmed search text (any song
/// when it is empty) and that belong to the category.
pub fn select_listed(
    songs: &Vec<SongEntry>,
    lowered: &Vec<(String, String, String)>,
    query_lowered: &str,
    category: SongCategory,
) -> (r: Vec<usize>)
    requires
        lowered@.len() == songs@.len(),
    ensures
        r@ == listed_lowered(songs@, lowered@, trim_chars(query_lowered@), category, songs@.len() as int),
{
    let lc = chars_of(query_lowered);
    let (a, b) = trim_range(&lc, 0, lc.len());
    assert(lc@.subrange(0, lc@.len() as int) =~= lc@);
    let mut q: Vec<char> = Vec::new();
    let mut k: usize = a;
    while k < b
        invariant
            a <= k <= b <= lc@.len(),
            q@ == lc@.subrange(a as int, k as int),
        decreases b - k,
    {
        q.push(lc[k]);
        assert(q@ =~= lc@.subrange(a as int, k + 1));
        k = k + 1;
    }
    let mut out: Vec<usize> = Vec::new();
    let mut i: usize = 0;
    while i < songs.len()
        invariant
            i <= songs@.len(),
            lowered@.len() == songs@.len(),
            q@ == trim_chars(query_lowered@),
            out@ == listed_lowered(songs@, lowered@, q@, category, i as int),
        decreases songs@.len() - i,
    {
        let l = &lowered[i];
        let hit = matches_search(l.0.as_str(), l.1.as_str(), l.2.as_str(), &q);
        if hit && song_in_category(&songs[i], category) {
            out.push(i);
        }
        i = i + 1;
    }
    out
}

proof fn lemma_listed_lowered(
    songs: Seq<SongEntry>,
    lowered: Seq<(String, String, String)>,
    query: Seq<char>,
    c: SongCategory,
    n: int,
)
    requires
        0 <= n <= songs.len(),
        lowered.len() == songs.len(),
        forall|i: int| 0 <= i < songs.len() ==> {
            &&& (#[trigger] lowered[i]).0@ == lowercase_of(songs[i].title@)
            &&& lowered[i].1@ == lowercase_of(songs[i].artist@)
            &&& lowered[i].2@ == lowercase_of(songs[i].genre@)
        },
    ensures
        listed_lowered(songs, lowered, trim_chars(lowercase_of(query)), c, n) == listed_indices(songs, query, c, n),
    decreases n,
{
    if n > 0 {
        lemma_listed_lowered(songs, lowered, query, c, n - 1);
        let l = lowered[n - 1];
        assert(l.0@ == lowercase_of(songs[n - 1].title@));
    }
}

/// The positions of the songs listed for a search text and a category:
/// those whose title, artist or genre contains the lower-cased, trimmed
/// search text (any song when it is empty) and that belong to the category.
pub fn filter_song_indices(songs: &Vec<SongEntry>, query: &str, category: SongCategory) -> (r: Vec<usize>)
    ensures
        r@ == listed_indices(songs@, query@, category, songs@.len() as int),
{
    let mut lowered: Vec<(String, String, String)> = Vec::new();
    let mut i: usize = 0;
    while i < songs.len()
        invariant
            i <= songs@.len(),
            lowered@.len() == i,
            forall|j: int| 0 <= j < i ==> {
                &&& (#[trigger] lowered@[j]).0@ == lowercase_of(songs@[j].title@)
                &&& lowered@[j].1@ == lowercase_of(songs@[j].artist@)
                &&& lowered@[j].2@ == lowercase_of(songs@[j].genre@)
            },
        decreases songs@.len() - i,
    {
        let e = &songs[i];
        let t = to_lowercase(e.title.as_str());
        let ar = to_lowercase(e.artist.as_str());
        let g = to_lowercase(e.genre.as_str());
        lowered.push((t, ar, g));
        i = i + 1;
    }
    let low = to_lowercase(query);
    let r = select_listed(songs, &lowered, low.as_str(), category);
    proof {
        lemma_listed_lowered(songs@, lowered@, query@, category, songs@.len() as int);
    }
    r
}

/// The highlighted position once the list holds `len` songs: kept when still
/// in the list, else the last song (0 for an empty list).
pub fn clamp_selection(selected: usize, len: usize) -> (r: usize)
    ensures
        r == if len == 0 {
            0
        } else if selected >= len {
            (len - 1) as usize
        } else {
            selected
        },
{
    if len == 0 {
        0
    } else if selected >= len {
        len - 1
    } else {
        selected
    }
}


/// The first `n` listed positions are below `n`, strictly increasing, and
/// are exactly the positions of the listed songs among the first `n`.
proof fn lemma_listed_indices_members(songs: Seq<SongEntry>, query: Seq<char>, c: SongCategory, n: int)
    requires
        0 <= n <= songs.len() <= usize::MAX,
    ensures
        forall|k: int| 0 <= k < listed_indices(songs, query, c, n).len() ==> {
            let i = #[trigger] listed_indices(songs, query, c, n)[k];
            &&& i < n
            &&& song_listed(songs[i as int], query, c)
        },
        forall|k1: int, k2: int|
            0 <= k1 < k2 < listed_indices(songs, query, c, n).len() ==> listed_indices(songs, query, c, n)[k1]
                < listed_indices(songs, query, c, n)[k2],
        forall|i: int|
            0 <= i < n && song_listed(songs[i], query, c) ==> listed_indices(songs, query, c, n).contains(
                i as usize,
            ),
    decreases n,
{
    if n > 0 {
        lemma_listed_indices_members(songs, query, c, n - 1);
        let prev = listed_indices(songs, query, c, n - 1);
        if song_listed(songs[n - 1], query, c) {
            let cur = prev.push((n - 1) as usize);
            assert(cur == listed_indices(songs, query, c, n));
            assert forall|k: int| 0 <= k < cur.len() implies cur[k] < n && song_listed(songs[cur[k] as int], query, c) by {
                if k < prev.len() {
                    assert(cur[k] == prev[k]);
                }
            }
            assert forall|k1: int, k2: int| 0 <= k1 < k2 < cur.len() implies cur[k1] < cur[k2] by {
                assert(cur[k1] == prev[k1]);
                if k2 < prev.len() {
                    assert(cur[k2] == prev[k2]);
                }
            }
            assert forall|i: int| 0 <= i < n && song_listed(songs[i], query, c) implies cur.contains(i as usize) by {
                if i < n - 1 {
                    let k = choose|k: int| 0 <= k < prev.len() && prev[k] == i as usize;
                    assert(cur[k] == i as usize);
                } else {
                    assert(cur[prev.len() as int] == i as usize);
                }
            }
        }
    }
}

/// The song list filter lists, in increasing order, each song whose
/// lower-cased title, artist or genre contains the lower-cased, trimmed
/// search text (every song for empty text) and that the category admits, and
/// no other: a single play-mode category (9, 10 or 14 keys) admits only songs
/// of that mode; the 5-key and 7-key categories admit songs of that mode and
/// the demo song; the clear-status category admits songs with a stored score
/// and the demo song; "all" and "level" admit every song.
pub proof fn lemma_filter_by_category(songs: Seq<SongEntry>, query: Seq<char>, c: SongCategory)
    requires
        songs.len() <= usize::MAX,
    ensures
        ({
            let r = listed_indices(songs, query, c, songs.len() as int);
            &&& forall|k: int| 0 <= k < r.len() ==> {
                let e = songs[#[trigger] r[k] as int];
                &&& r[k] < songs.len()
                &&& search_hit(
                    lowercase_of(e.title@),
                    lowercase_of(e.artist@),
                    lowercase_of(e.genre@),
                    trim_chars(lowercase_of(query)),
                )
                &&& (c == SongCategory::Keys9 ==> e.play_mode == PlayMode::Keys9)
                &&& (c == SongCategory::Keys10 ==> e.play_mode == PlayMode::Keys10)
                &&& (c == SongCategory::Keys14 ==> e.play_mode == PlayMode::Keys14)
                &&& (c == SongCategory::Keys5 ==> e.play_mode == PlayMode::Keys5 || e.is_demo)
                &&& (c == SongCategory::Keys7 ==> e.play_mode == PlayMode::Keys7 || e.is_demo)
                &&& (c == SongCategory::ClearStatus ==> e.has_score || e.is_demo)
            }
            &&& forall|k1: int, k2: int| 0 <= k1 < k2 < r.len() ==> r[k1] < r[k2]
            &&& forall|i: int|
                0 <= i < songs.len() && search_hit(
                    lowercase_of((#[trigger] songs[i]).title@),
                    lowercase_of(songs[i].artist@),
                    lowercase_of(songs[i].genre@),
                    trim_chars(lowercase_of(query)),
                ) && (c == SongCategory::All || c == SongCategory::Level
                    || (c == SongCategory::Keys9 && songs[i].play_mode == PlayMode::Keys9)
                    || (c == SongCategory::Keys10 && songs[i].play_mode == PlayMode::Keys10)
                    || (c == SongCategory::Keys14 && songs[i].play_mode == PlayMode::Keys14)
                    || (c == SongCategory::Keys5 && (songs[i].play_mode == PlayMode::Keys5 || songs[i].is_demo))
                    || (c == SongCategory::Keys7 && (songs[i].play_mode == PlayMode::Keys7 || songs[i].is_demo))
                    || (c == SongCategory::ClearStatus && (songs[i].has_score || songs[i].is_demo)))
                    ==> r.contains(i as usize)
        }),
{
    lemma_listed_indices_members(songs, query, c, songs.len() as int);
}

} // verus!
