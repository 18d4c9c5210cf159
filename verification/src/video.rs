//! Video BGA: recognising video files by extension, and the video player
//! interface (a player that decodes nothing, as built without a platform
//! video backend).

use vstd::prelude::*;
use crate::bms::{BgaChannel, BgaEvent, BmpId};
use crate::image::ImageBuffer;
use crate::text::{chars_of, push_char, string_of};

verus! {

/// Unicode lower-casing of a string (`str::to_lowercase`).
pub uninterp spec fn lowercase_of(s: Seq<char>) -> Seq<char>;

/// Calls `str::to_lowercase`; its result is named `lowercase_of` of the
/// input (the Unicode lower-case mapping, which depends on nothing else).
#[verifier::external_body]
pub(crate) fn to_lowercase(s: &str) -> (r: String)
    ensures
        r@ == lowercase_of(s@),
{
    s.to_lowercase()
}

/// The video file extensions the player recognises.
pub open spec fn video_extensions() -> Seq<Seq<char>> {
    seq![
        seq!['m', 'p', '4'],
        seq!['m', '4', 'v'],
        seq!['m', 'p', 'g'],
        seq!['m', 'p', 'e', 'g'],
        seq!['w', 'm', 'v'],
        seq!['a', 'v', 'i'],
        seq!['m', 'o', 'v'],
        seq!['w', 'e', 'b', 'm'],
        seq!['m', 'k', 'v'],
    ]
}

/// Index of the last `c` in `s`, or -1.
pub open spec fn rfind(s: Seq<char>, c: char) -> int
    decreases s.len(),
{
    if s.len() == 0 {
        -1
    } else if s.last() == c {
        s.len() - 1
    } else {
        rfind(s.drop_last(), c)
    }
}

/// The last component of a `/`-separated path (`Path::file_name`): empty
/// and `.` components are skipped, and a path ending in `..` has none.
pub open spec fn file_name_of(s: Seq<char>) -> Option<Seq<char>>
    decreases s.len(),
{
    let k = rfind(s, '/');
    let seg = s.skip(k + 1);
    if seg.len() == 0 || seg == seq!['.'] {
        if 0 <= k < s.len() {
            file_name_of(s.take(k))
        } else {
            None
        }
    } else if seg == seq!['.', '.'] {
        None
    } else {
        Some(seg)
    }
}

/// The text after the last `.` of a file name (`Path::extension`); none
/// without a `.` or when the only `.` starts the name.
pub open spec fn extension_of(name: Seq<char>) -> Option<Seq<char>> {
    let d = rfind(name, '.');
    if d <= 0 {
        None
    } else {
        Some(name.skip(d + 1))
    }
}

/// A path whose extension, lower-cased, is a video extension.
pub open spec fn is_video_chars(path: Seq<char>) -> bool {
    match file_name_of(path) {
        Some(name) => match extension_of(name) {
            Some(ext) => video_extensions().contains(lowercase_of(ext)),
            None => false,
        },
        None => false,
    }
}

proof fn lemma_rfind_bound(s: Seq<char>, c: char)
    ensures
        -1 <= rfind(s, c) < s.len(),
        rfind(s, c) >= 0 ==> s[rfind(s, c)] == c,
    decreases s.len(),
{
    if s.len() > 0 && s.last() != c {
        lemma_rfind_bound(s.drop_last(), c);
    }
}

/// `rfind` in `cs[0..end]`, as `end` for none.
fn rfind_range(cs: &Vec<char>, end: usize, c: char) -> (r: usize)
    requires
        end <= cs@.len(),
    ensures
        r <= end,
        r == end <==> rfind(cs@.take(end as int), c) == -1,
        r < end ==> r == rfind(cs@.take(end as int), c),
{
    let mut j = end;
    while j > 0 && cs[j - 1] != c
        invariant
            j <= end <= cs@.len(),
            rfind(cs@.take(end as int), c) == rfind(cs@.take(j as int), c),
        decreases j,
    {
        assert(cs@.take(j as int).drop_last() =~= cs@.take(j - 1));
        j = j - 1;
    }
    if j == 0 {
        assert(cs@.take(0) =~= Seq::<char>::empty());
        end
    } else {
        j - 1
    }
}

/// Whether `cs[a..b]` holds exactly `lit`.
fn range_is(cs: &Vec<char>, a: usize, b: usize, lit: &[char]) -> (r: bool)
    requires
        a <= b <= cs@.len(),
    ensures
        r == (cs@.subrange(a as int, b as int) == lit@),
{
    if b - a != lit.len() {
        return false;
    }
    let mut i: usize = 0;
    while i < lit.len()
        invariant
            i <= lit@.len(),
            b - a == lit@.len(),
            a <= b <= cs@.len(),
            forall|k: int| 0 <= k < i ==> cs@[a + k] == lit@[k],
        decreases lit@.len() - i,
    {
        if cs[a + i] != lit[i] {
            return false;
        }
        i = i + 1;
    }
    assert(cs@.subrange(a as int, b as int) =~= lit@);
    true
}

/// Bounds of `file_name_of(cs)`.
fn file_name_range(cs: &Vec<char>) -> (r: Option<(usize, usize)>)
    ensures
        match file_name_of(cs@) {
            Some(n) => r matches Some(p) && p.0 <= p.1 <= cs@.len() && cs@.subrange(p.0 as int, p.1 as int) == n,
            None => r is None,
        },
{
    let mut end = cs.len();
    assert(cs@.take(end as int) =~= cs@);
    loop
        invariant
            end <= cs@.len(),
            file_name_of(cs@) == file_name_of(cs@.take(end as int)),
        decreases end,
    {
        let ghost s = cs@.take(end as int);
        let k = rfind_range(cs, end, '/');
        let start = if k == end {
            0
        } else {
            k + 1
        };
        proof {
            lemma_rfind_bound(s, '/');
            assert(s.skip(rfind(s, '/') + 1) =~= cs@.subrange(start as int, end as int));
            let seg = s.skip(rfind(s, '/') + 1);
            assert(file_name_of(s) == (if seg.len() == 0 || seg == seq!['.'] {
                if 0 <= rfind(s, '/') < s.len() {
                    file_name_of(s.take(rfind(s, '/')))
                } else {
                    None
                }
            } else if seg == seq!['.', '.'] {
                None
            } else {
                Some(seg)
            }));
        }
        assert(start == rfind(s, '/') + 1);
        let dot = ['.'];
        assert(dot@ =~= seq!['.']);
        let is_dot = range_is(cs, start, end, &dot);
        if start == end || is_dot {
            if k == end {
                assert(rfind(s, '/') == -1);
                assert(file_name_of(s) == None::<Seq<char>>);
                return None;
            }
            assert(s.take(k as int) =~= cs@.take(k as int));
            end = k;
        } else if range_is(cs, start, end, &['.', '.']) {
            assert(cs@.subrange(start as int, end as int) =~= seq!['.', '.']);
            return None;
        } else {
            return Some((start, end));
        }
    }
}

/// Whether a file path has a recognised video extension.
pub fn is_video_path(path: &str) -> (r: bool)
    ensures
        r == is_video_chars(path@),
{
    let cs = chars_of(path);
    let (a, b) = match file_name_range(&cs) {
        Some(p) => p,
        None => return false,
    };
    let ghost name = cs@.subrange(a as int, b as int);
    let d = rfind_range(&cs, b, '.');
    proof {
        assert(cs@.take(b as int).skip(a as int) =~= name);
        lemma_rfind_bound(cs@.take(b as int), '.');
        lemma_rfind_prefix_drop(cs@.take(b as int), a as int);
    }
    if d == b || d <= a {
        return false;
    }
    let ext = string_of(&cs, d + 1, b);
    assert(name.skip(rfind(name, '.') + 1) =~= cs@.subrange(d + 1, b as int));
    let low = to_lowercase(ext.as_str());
    let lc = chars_of(low.as_str());
    let n = lc.len();
    let r = range_is(&lc, 0, n, &['m', 'p', '4']) || range_is(&lc, 0, n, &['m', '4', 'v']) || range_is(
        &lc,
        0,
        n,
        &['m', 'p', 'g'],
    ) || range_is(&lc, 0, n, &['m', 'p', 'e', 'g']) || range_is(&lc, 0, n, &['w', 'm', 'v'])
        || range_is(&lc, 0, n, &['a', 'v', 'i']) || range_is(&lc, 0, n, &['m', 'o', 'v']) || range_is(
        &lc,
        0,
        n,
        &['w', 'e', 'b', 'm'],
    ) || range_is(&lc, 0, n, &['m', 'k', 'v']);
    proof {
        let e = lowercase_of(name.skip(rfind(name, '.') + 1));
        assert(lc@.subrange(0, n as int) =~= e);
        let v = video_extensions();
        if v.contains(e) {
            let i = choose|i: int| 0 <= i < v.len() && v[i] == e;
            assert(r);
        }
        if r {
            assert(v.contains(e)) by {
                if e == v[0] { assert(v[0] == e); }
                else if e == v[1] { assert(v[1] == e); }
                else if e == v[2] { assert(v[2] == e); }
                else if e == v[3] { assert(v[3] == e); }
                else if e == v[4] { assert(v[4] == e); }
                else if e == v[5] { assert(v[5] == e); }
                else if e == v[6] { assert(v[6] == e); }
                else if e == v[7] { assert(v[7] == e); }
                else { assert(v[8] == e); }
            }
        }
    }
    r
}

/// `rfind` of `s` in the part after `a` is `rfind` of the whole, shifted,
/// when it lies after `a`.
proof fn lemma_rfind_prefix_drop(s: Seq<char>, a: int)
    requires
        0 <= a <= s.len(),
    ensures
        rfind(s, '.') >= a ==> rfind(s.skip(a), '.') == rfind(s, '.') - a,
        rfind(s, '.') < a ==> rfind(s.skip(a), '.') == -1,
    decreases s.len(),
{
    if s.len() > a {
        if s.last() != '.' {
            lemma_rfind_prefix_drop(s.drop_last(), a);
            assert(s.skip(a).drop_last() =~= s.drop_last().skip(a));
        }
    } else {
        assert(s.skip(a).len() == 0);
        lemma_rfind_bound(s, '.');
    }
}

/// BGA video player. Built without a platform video backend, it opens no
/// video and has no frame.
pub struct BgaVideoPlayer {
    _backend: (),
}

impl BgaVideoPlayer {
    /// Opens a video file: none without a video backend.
    pub fn open(path: &str) -> (r: Option<Self>)
        ensures
            r is None,
    {
        if !is_video_path(path) {
            return None;
        }
        None
    }

    /// Opens a video from bytes in memory: none without a video backend.
    pub fn open_from_memory(bytes: &[u8], filename_hint: Option<&str>) -> (r: Option<Self>)
        ensures
            r is None,
    {
        if let Some(hint) = filename_hint {
            if !is_video_path(hint) {
                return None;
            }
        }
        None
    }

    /// The current decoded frame, if any.
    pub fn current_frame(&self) -> (r: Option<&ImageBuffer>)
        ensures
            r is None,
    {
        None
    }

    pub fn width(&self) -> (r: u32)
        ensures
            r == 0,
    {
        0
    }

    pub fn height(&self) -> (r: u32)
        ensures
            r == 0,
    {
        0
    }
}

/// The BMP ids of the base-channel BGA events, in order.
pub open spec fn base_bmp_ids(events: Seq<BgaEvent>) -> Seq<BmpId>
    decreases events.len(),
{
    if events.len() == 0 {
        Seq::empty()
    } else {
        let prev = base_bmp_ids(events.drop_last());
        if events.last().channel == BgaChannel::Base {
            prev.push(events.last().bmp_id)
        } else {
            prev
        }
    }
}

/// The BMP ids a chart's fallback video (one found beside the chart when no
/// BMP entry names a video) is shown under: the ids of the base-channel BGA
/// events, in order, or id 1 when the chart has none.
pub fn fallback_video_ids(events: &Vec<BgaEvent>) -> (r: Vec<BmpId>)
    ensures
        r@ == if base_bmp_ids(events@).len() == 0 {
            seq![BmpId(1)]
        } else {
            base_bmp_ids(events@)
        },
{
    let mut out: Vec<BmpId> = Vec::new();
    let mut i: usize = 0;
    assert(events@.take(0) =~= Seq::<BgaEvent>::empty());
    while i < events.len()
        invariant
            i <= events@.len(),
            out@ == base_bmp_ids(events@.take(i as int)),
        decreases events@.len() - i,
    {
        assert(events@.take(i + 1).drop_last() =~= events@.take(i as int));
        if events[i].channel == BgaChannel::Base {
            out.push(events[i].bmp_id);
        }
        i = i + 1;
    }
    assert(events@.take(events@.len() as int) =~= events@);
    if out.len() == 0 {
        let mut one: Vec<BmpId> = Vec::new();
        one.push(BmpId(1));
        assert(one@ =~= seq![BmpId(1)]);
        one
    } else {
        out
    }
}

/// The video files tried in place of the picture file `name`: its name up to
/// the last `.` (all of it when there is none) with each video extension, in
/// the order of `video_extensions`.
pub open spec fn stand_in_names(name: Seq<char>) -> Seq<Seq<char>> {
    let k = rfind(name, '.');
    let stem = if k >= 0 { name.take(k) } else { name };
    video_extensions().map_values(|e: Seq<char>| stem + seq!['.'] + e)
}

fn extension_chars(i: usize) -> (r: Vec<char>)
    requires
        i < 9,
    ensures
        r@ == video_extensions()[i as int],
{
    let v = if i == 0 {
        vec!['m', 'p', '4']
    } else if i == 1 {
        vec!['m', '4', 'v']
    } else if i == 2 {
        vec!['m', 'p', 'g']
    } else if i == 3 {
        vec!['m', 'p', 'e', 'g']
    } else if i == 4 {
        vec!['w', 'm', 'v']
    } else if i == 5 {
        vec!['a', 'v', 'i']
    } else if i == 6 {
        vec!['m', 'o', 'v']
    } else if i == 7 {
        vec!['w', 'e', 'b', 'm']
    } else {
        vec!['m', 'k', 'v']
    };
    assert(v@ =~= video_extensions()[i as int]);
    v
}

/// The video files tried in place of a picture file named `filename`.
pub fn video_stand_in_names(filename: &str) -> (r: Vec<String>)
    ensures
        r@.len() == stand_in_names(filename@).len(),
        forall|i: int| 0 <= i < r@.len() ==> (#[trigger] r@[i])@ == stand_in_names(filename@)[i],
{
    let cs = chars_of(filename);
    let k = rfind_range(&cs, cs.len(), '.');
    assert(cs@.take(cs@.len() as int) =~= cs@);
    let stem_end = k;
    let ghost stem = if rfind(filename@, '.') >= 0 { filename@.take(rfind(filename@, '.')) } else { filename@ };
    assert(cs@.subrange(0, stem_end as int) =~= stem);
    let mut out: Vec<String> = Vec::new();
    let mut i: usize = 0;
    while i < 9
        invariant
            i <= 9,
            stem_end <= cs@.len(),
            cs@.subrange(0, stem_end as int) == stem,
            stem == (if rfind(filename@, '.') >= 0 { filename@.take(rfind(filename@, '.')) } else { filename@ }),
            out@.len() == i,
            forall|j: int| 0 <= j < i ==> (#[trigger] out@[j])@ == stand_in_names(filename@)[j],
        decreases 9 - i,
    {
        let mut name = string_of(&cs, 0, stem_end);
        push_char(&mut name, '.');
        let ext = extension_chars(i);
        let mut t: usize = 0;
        let ghost base = name@;
        while t < ext.len()
            invariant
                t <= ext@.len(),
                name@ == base + ext@.take(t as int),
            decreases ext@.len() - t,
        {
            push_char(&mut name, ext[t]);
            assert(name@ =~= base + ext@.take(t + 1));
            t = t + 1;
        }
        assert(ext@.take(ext@.len() as int) =~= ext@);
        assert(name@ =~= stand_in_names(filename@)[i as int]);
        out.push(name);
        i = i + 1;
    }
    out
}

/// The usual names of a chart's background video, tried in this order.
pub open spec fn usual_video_names() -> Seq<&'static str> {
    seq![
        "bga.mp4",
        "movie.mp4",
        "video.mp4",
        "bg.mp4",
        "pv.mp4",
        "bga.mpg",
        "movie.mpg",
        "video.mpg",
        "bg.mpg",
        "bga.wmv",
        "movie.wmv",
        "video.wmv",
        "bg.wmv",
        "bga.avi",
        "movie.avi",
        "video.avi",
        "bg.avi",
        "bga.webm",
        "movie.webm",
        "video.webm",
        "bg.webm",
        "bga.mkv",
        "movie.mkv",
        "video.mkv",
        "bg.mkv",
    ]
}

/// The file names tried, in order, for a chart's fallback video: the stage
/// file and then the banner, each when it is a video file name, then the
/// usual names.
pub open spec fn fallback_video_names_of(stage_file: Seq<char>, banner: Seq<char>) -> Seq<Seq<char>> {
    let first = if stage_file.len() > 0 && is_video_chars(stage_file) { seq![stage_file] } else { Seq::empty() };
    let second = if banner.len() > 0 && is_video_chars(banner) { seq![banner] } else { Seq::empty() };
    first + second + usual_video_names().map_values(|n: &'static str| n@)
}

/// The file names to look for, in order, when a chart's BMP entries name
/// no video.
pub fn fallback_video_names(stage_file: &str, banner: &str) -> (r: Vec<String>)
    ensures
        r@.len() == fallback_video_names_of(stage_file@, banner@).len(),
        forall|i: int| 0 <= i < r@.len() ==> (#[trigger] r@[i])@ == fallback_video_names_of(stage_file@, banner@)[i],
{
    let mut out: Vec<String> = Vec::new();
    let ghost first = if stage_file@.len() > 0 && is_video_chars(stage_file@) { seq![stage_file@] } else { Seq::<Seq<char>>::empty() };
    let ghost second = if banner@.len() > 0 && is_video_chars(banner@) { seq![banner@] } else { Seq::<Seq<char>>::empty() };
    if chars_of(stage_file).len() > 0 && is_video_path(stage_file) {
        out.push(stage_file.to_owned());
    }
    if chars_of(banner).len() > 0 && is_video_path(banner) {
        out.push(banner.to_owned());
    }
    let ghost head = first + second;
    assert(out@.len() == head.len());
    assert(forall|j: int| 0 <= j < out@.len() ==> (#[trigger] out@[j])@ == head[j]);
    let usual: Vec<&'static str> = vec![
        "bga.mp4",
        "movie.mp4",
        "video.mp4",
        "bg.mp4",
        "pv.mp4",
        "bga.mpg",
        "movie.mpg",
        "video.mpg",
        "bg.mpg",
        "bga.wmv",
        "movie.wmv",
        "video.wmv",
        "bg.wmv",
        "bga.avi",
        "movie.avi",
        "video.avi",
        "bg.avi",
        "bga.webm",
        "movie.webm",
        "video.webm",
        "bg.webm",
        "bga.mkv",
        "movie.mkv",
        "video.mkv",
        "bg.mkv",
    ];
    assert(usual@ =~= usual_video_names());
    let ghost all = fallback_video_names_of(stage_file@, banner@);
    assert(all =~= head + usual_video_names().map_values(|n: &'static str| n@));
    let h = out.len();
    let mut i: usize = 0;
    while i < usual.len()
        invariant
            i <= usual@.len(),
            usual@ == usual_video_names(),
            h == head.len(),
            all == head + usual_video_names().map_values(|n: &'static str| n@),
            out@.len() == h + i,
            forall|j: int| 0 <= j < out@.len() ==> (#[trigger] out@[j])@ == all[j],
        decreases usual@.len() - i,
    {
        out.push(usual[i].to_owned());
        i = i + 1;
    }
    out
}

} // verus!
