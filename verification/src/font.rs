//! Text measurement for the built-in bitmap font: 5-pixel ASCII glyphs and
//! 10-pixel full-width (Hangul, Kana, CJK and symbol) glyphs.

use vstd::prelude::*;

verus! {

/// The built-in bitmap font.
pub struct BitmapFont;

/// Full-width glyphs: Hangul syllables and jamo, Hiragana and Katakana, CJK
/// ideographs and punctuation, full-width forms, and a few symbols.
pub open spec fn fullwidth(c: char) -> bool {
    let code = c as u32;
    ||| 0xAC00 <= code <= 0xD7A3
    ||| 0x3131 <= code <= 0x3163
    ||| 0x3040 <= code <= 0x30FF
    ||| 0x4E00 <= code <= 0x9FFF
    ||| 0x3000 <= code <= 0x303F
    ||| 0xFF01 <= code <= 0xFF60
    ||| c == '★' || c == '☆' || c == '♪' || c == '♫' || c == '◆' || c == '◇' || c == '▲'
    ||| c == '▼' || c == '▶' || c == '◀' || c == '♥' || c == '♡' || c == '✓' || c == '✗' || c == '※'
}

/// A scale below 1 draws at 1.
pub open spec fn eff_scale(scale: u32) -> int {
    if scale == 0 {
        1
    } else {
        scale as int
    }
}

/// Glyph width plus spacing of `c`.
pub open spec fn advance_of(c: char, scale: int) -> int {
    if fullwidth(c) {
        12 * scale
    } else {
        6 * scale
    }
}

/// Sum of the advances of `cs`.
pub open spec fn advances(cs: Seq<char>, scale: int) -> int
    decreases cs.len(),
{
    if cs.len() == 0 {
        0
    } else {
        advances(cs.drop_last(), scale) + advance_of(cs.last(), scale)
    }
}

/// Width of a text: the advances of its characters without the last one's
/// trailing spacing.
pub open spec fn text_width_of(cs: Seq<char>, scale: u32) -> int {
    let s = eff_scale(scale);
    if cs.len() == 0 {
        0
    } else {
        advances(cs, s) - (if fullwidth(cs.last()) {
            2 * s
        } else {
            s
        })
    }
}

/// Width of bold text: 8-pixel digits with 2 pixels between them.
pub open spec fn bold_width_of(count: int, scale: u32) -> int {
    if count == 0 {
        0
    } else {
        count * 8 * eff_scale(scale) + (count - 1) * 2 * eff_scale(scale)
    }
}

proof fn lemma_advances_bounds(cs: Seq<char>, scale: int, k: int)
    requires
        scale >= 1,
        0 <= k <= cs.len(),
    ensures
        0 <= advances(cs.take(k), scale) <= advances(cs, scale),
    decreases cs.len(),
{
    if k == cs.len() {
        assert(cs.take(k) =~= cs);
        lemma_advances_nonneg(cs, scale);
    } else {
        lemma_advances_bounds(cs.drop_last(), scale, k);
        assert(cs.drop_last().take(k) =~= cs.take(k));
    }
}

proof fn lemma_advances_nonneg(cs: Seq<char>, scale: int)
    requires
        scale >= 1,
    ensures
        advances(cs, scale) >= 0,
    decreases cs.len(),
{
    if cs.len() > 0 {
        lemma_advances_nonneg(cs.drop_last(), scale);
    }
}

impl BitmapFont {
    pub const ASCII_WIDTH: u32 = 5;
    pub const ASCII_HEIGHT: u32 = 7;
    pub const ASCII_SPACING: u32 = 1;
    pub const CJK_WIDTH: u32 = 10;
    pub const CJK_HEIGHT: u32 = 8;
    pub const CJK_SPACING: u32 = 2;
    pub const BOLD_WIDTH: u32 = 8;
    pub const BOLD_HEIGHT: u32 = 12;
    pub const BOLD_SPACING: u32 = 2;

    /// Whether `c` is drawn with a full-width glyph.
    pub fn is_fullwidth(c: char) -> (r: bool)
        ensures
            r == fullwidth(c),
    {
        let code = c as u32;
        (0xAC00 <= code && code <= 0xD7A3) || (0x3131 <= code && code <= 0x3163) || (0x3040 <= code
            && code <= 0x30FF) || (0x4E00 <= code && code <= 0x9FFF) || (0x3000 <= code && code
            <= 0x303F) || (0xFF01 <= code && code <= 0xFF60) || c == '★' || c == '☆' || c == '♪'
            || c == '♫' || c == '◆' || c == '◇' || c == '▲' || c == '▼' || c == '▶' || c == '◀'
            || c == '♥' || c == '♡' || c == '✓' || c == '✗' || c == '※'
    }

    /// Width plus spacing of one character.
    pub fn char_advance(c: char, scale: u32) -> (r: u32)
        requires
            12 * eff_scale(scale) <= u32::MAX,
        ensures
            r == advance_of(c, eff_scale(scale)),
    {
        let s = if scale == 0 { 1 } else { scale };
        assert(6 * s <= 12 * s);
        if Self::is_fullwidth(c) {
            (Self::CJK_WIDTH + Self::CJK_SPACING) * s
        } else {
            (Self::ASCII_WIDTH + Self::ASCII_SPACING) * s
        }
    }

    /// Width of one character's glyph, without spacing.
    pub fn char_width(c: char, scale: u32) -> (r: u32)
        requires
            10 * eff_scale(scale) <= u32::MAX,
        ensures
            r == (if fullwidth(c) {
                10 * eff_scale(scale)
            } else {
                5 * eff_scale(scale)
            }),
    {
        let s = if scale == 0 { 1 } else { scale };
        if Self::is_fullwidth(c) {
            Self::CJK_WIDTH * s
        } else {
            Self::ASCII_WIDTH * s
        }
    }

    /// Width in pixels of a mixed ASCII / Hangul / Japanese text.
    pub fn text_width(text: &str, scale: u32) -> (r: u32)
        requires
            advances(text@, eff_scale(scale)) <= u32::MAX,
            12 * eff_scale(scale) <= u32::MAX,
        ensures
            r == text_width_of(text@, scale),
    {
        let s = if scale == 0 { 1 } else { scale };
        let cs = crate::text::chars_of(text);
        let mut total: u32 = 0;
        let mut i: usize = 0;
        while i < cs.len()
            invariant
                i <= cs@.len(),
                cs@ == text@,
                s == eff_scale(scale),
                12 * s <= u32::MAX,
                advances(cs@, s as int) <= u32::MAX,
                total == advances(cs@.take(i as int), s as int),
            decreases cs@.len() - i,
        {
            proof {
                assert(cs@.take(i + 1).drop_last() =~= cs@.take(i as int));
                lemma_advances_bounds(cs@, s as int, i + 1);
            }
            total = total + Self::char_advance(cs[i], scale);
            i = i + 1;
        }
        assert(cs@.take(cs@.len() as int) =~= cs@);
        if cs.len() == 0 {
            0
        } else {
            let last = cs[cs.len() - 1];
            let trailing = if Self::is_fullwidth(last) {
                Self::CJK_SPACING * s
            } else {
                Self::ASCII_SPACING * s
            };
            proof {
                assert(advances(cs@, s as int) == advances(cs@.drop_last(), s as int) + advance_of(cs@.last(), s as int));
                lemma_advances_nonneg(cs@.drop_last(), s as int);
            }
            total - trailing
        }
    }

    /// Width in pixels of bold text.
    pub fn bold_text_width(text: &str, scale: u32) -> (r: u32)
        requires
            bold_width_of(text@.len() as int, scale) <= u32::MAX,
        ensures
            r == bold_width_of(text@.len() as int, scale),
    {
        let cs = crate::text::chars_of(text);
        let n = cs.len();
        if n == 0 {
            return 0;
        }
        let s: u64 = if scale == 0 { 1 } else { scale as u64 };
        assert(n * 8 * s <= u32::MAX) by (nonlinear_arith)
            requires
                n * 8 * s + (n - 1) * 2 * s <= u32::MAX,
                n >= 1,
                s >= 1;
        assert((n - 1) * 2 * s <= u32::MAX) by (nonlinear_arith)
            requires
                n * 8 * s + (n - 1) * 2 * s <= u32::MAX,
                n >= 1,
                s >= 1;
        let count = n as u64;
        assert(count * 8 <= count * 8 * s) by (nonlinear_arith)
            requires
                s >= 1,
                count >= 1;
        assert((count - 1) * 2 <= (count - 1) * 2 * s) by (nonlinear_arith)
            requires
                s >= 1,
                count >= 1;
        let w = count * 8 * s + (count - 1) * 2 * s;
        w as u32
    }
}

} // verus!
