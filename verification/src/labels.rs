//! What the song list shows beside a song: the colour of its level, the name
//! and colour of its clear lamp, and text cut to a number of characters.

use vstd::prelude::*;
use crate::score::ClearType;
use crate::skin::ColorRgba;
use crate::text::{chars_of, push_char};

verus! {

/// The colour of a chart level: green up to 4, cyan up to 8, amber up to 10,
/// red up to 12, purple otherwise (level 0 too).
pub open spec fn level_color_of(level: u32) -> ColorRgba {
    if 1 <= level && level <= 4 {
        ColorRgba { r: 80, g: 220, b: 130, a: 255 }
    } else if 5 <= level && level <= 8 {
        ColorRgba { r: 60, g: 180, b: 255, a: 255 }
    } else if 9 <= level && level <= 10 {
        ColorRgba { r: 255, g: 200, b: 50, a: 255 }
    } else if 11 <= level && level <= 12 {
        ColorRgba { r: 255, g: 70, b: 70, a: 255 }
    } else {
        ColorRgba { r: 210, g: 90, b: 255, a: 255 }
    }
}

pub fn level_color(level: u32) -> (c: ColorRgba)
    ensures
        c == level_color_of(level),
{
    if 1 <= level && level <= 4 {
        ColorRgba::new(80, 220, 130, 255)
    } else if 5 <= level && level <= 8 {
        ColorRgba::new(60, 180, 255, 255)
    } else if 9 <= level && level <= 10 {
        ColorRgba::new(255, 200, 50, 255)
    } else if 11 <= level && level <= 12 {
        ColorRgba::new(255, 70, 70, 255)
    } else {
        ColorRgba::new(210, 90, 255, 255)
    }
}

/// The label of a clear lamp (`None`: never played).
pub open spec fn lamp_label(c: Option<ClearType>) -> &'static str {
    match c {
        Some(ClearType::Perfect) => "PERFECT",
        Some(ClearType::FullCombo) => "FULL COMBO",
        Some(ClearType::Clear) => "CLEARED",
        Some(ClearType::Failed) => "FAILED",
        None => "NO PLAY",
    }
}

/// The colour of a clear lamp.
pub open spec fn lamp_color(c: Option<ClearType>) -> ColorRgba {
    match c {
        Some(ClearType::Perfect) => ColorRgba { r: 255, g: 230, b: 80, a: 255 },
        Some(ClearType::FullCombo) => ColorRgba { r: 80, g: 255, b: 140, a: 255 },
        Some(ClearType::Clear) => ColorRgba { r: 60, g: 190, b: 255, a: 255 },
        Some(ClearType::Failed) => ColorRgba { r: 240, g: 60, b: 60, a: 255 },
        None => ColorRgba { r: 70, g: 75, b: 95, a: 255 },
    }
}

/// The label and colour of a clear lamp.
pub fn clear_lamp_color(clear_type: Option<ClearType>) -> (r: (&'static str, ColorRgba))
    ensures
        r.0@ == lamp_label(clear_type)@,
        r.1 == lamp_color(clear_type),
{
    match clear_type {
        Some(ClearType::Perfect) => ("PERFECT", ColorRgba::new(255, 230, 80, 255)),
        Some(ClearType::FullCombo) => ("FULL COMBO", ColorRgba::new(80, 255, 140, 255)),
        Some(ClearType::Clear) => ("CLEARED", ColorRgba::new(60, 190, 255, 255)),
        Some(ClearType::Failed) => ("FAILED", ColorRgba::new(240, 60, 60, 255)),
        None => ("NO PLAY", ColorRgba::new(70, 75, 95, 255)),
    }
}

/// `s` when it has at most `max` characters; otherwise its first `max - 3`
/// characters (none when `max < 3`) followed by `...`.
pub open spec fn truncated(s: Seq<char>, max: nat) -> Seq<char> {
    if s.len() <= max {
        s
    } else {
        s.take(if max >= 3 { max - 3 } else { 0 }) + seq!['.', '.', '.']
    }
}

/// Cuts `s` to at most `max_chars` characters, marking a cut with `...`.
pub fn truncate_str(s: &str, max_chars: usize) -> (r: String)
    ensures
        r@ == truncated(s@, max_chars as nat),
        max_chars >= 3 ==> r@.len() <= max_chars,
        s@.len() <= max_chars ==> r@ == s@,
{
    let cs = chars_of(s);
    if cs.len() <= max_chars {
        return s.to_owned();
    }
    let keep: usize = if max_chars >= 3 {
        max_chars - 3
    } else {
        0
    };
    let mut out = String::new();
    let mut i: usize = 0;
    while i < keep
        invariant
            keep < cs@.len(),
            i <= keep,
            out@ == cs@.take(i as int),
        decreases keep - i,
    {
        push_char(&mut out, cs[i]);
        assert(out@ =~= cs@.take(i + 1));
        i = i + 1;
    }
    push_char(&mut out, '.');
    push_char(&mut out, '.');
    push_char(&mut out, '.');
    assert(out@ =~= truncated(s@, max_chars as nat));
    out
}

} // verus!
