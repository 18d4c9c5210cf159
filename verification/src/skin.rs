//! Colours shared by the image and rendering code, and the skin's lane
//! colours and the lanes each play mode shows.

use vstd::prelude::*;
use crate::bms::{Lane, PlayMode};

verus! {

/// An 8-bit-per-channel RGBA colour.
#[derive(Debug, Clone, Copy, PartialEq, Eq, Structural)]
pub struct ColorRgba {
    pub r: u8,
    pub g: u8,
    pub b: u8,
    pub a: u8,
}

/// The fully transparent black colour.
pub open spec fn transparent_spec() -> ColorRgba {
    ColorRgba { r: 0, g: 0, b: 0, a: 0 }
}

/// The colour packed as `0xAARRGGBB`.
pub open spec fn argb_value(c: ColorRgba) -> int {
    c.a as int * 0x1000000 + c.r as int * 0x10000 + c.g as int * 0x100 + c.b as int
}

impl ColorRgba {
    pub fn new(r: u8, g: u8, b: u8, a: u8) -> (c: Self)
        ensures
            c == (ColorRgba { r, g, b, a }),
    {
        ColorRgba { r, g, b, a }
    }

    /// Packs the colour as `0xAARRGGBB`.
    pub fn to_u32(self) -> (v: u32)
        ensures
            v as int == argb_value(self),
    {
        let a = self.a as u32;
        let r = self.r as u32;
        let g = self.g as u32;
        let b = self.b as u32;
        let v = (a << 24u32) | (r << 16u32) | (g << 8u32) | b;
        assert(a < 256 && r < 256 && g < 256 && b < 256 ==> (a << 24u32) | (r << 16u32) | (g << 8u32) | b
            == a * 0x1000000 + r * 0x10000 + g * 0x100 + b) by (bit_vector);
        v
    }

    pub fn transparent() -> (c: Self)
        ensures
            c == transparent_spec(),
    {
        ColorRgba { r: 0, g: 0, b: 0, a: 0 }
    }

    /// The same colour with its alpha channel replaced.
    pub fn with_alpha(self, a: u8) -> (c: Self)
        ensures
            c == (ColorRgba { r: self.r, g: self.g, b: self.b, a }),
    {
        ColorRgba { r: self.r, g: self.g, b: self.b, a }
    }
}

/// The skin's colours and play mode: what the playfield's lane colouring
/// reads (the playfield geometry, in pixels, belongs to the renderer).
#[derive(Debug, Clone, Copy, PartialEq, Eq, Structural)]
pub struct SkinColors {
    pub play_mode: PlayMode,
    pub bg_color: ColorRgba,
    pub playfield_bg_color: ColorRgba,
    pub lane_line_color: ColorRgba,
    pub judge_line_color: ColorRgba,
    pub white_key_color: ColorRgba,
    pub blue_key_color: ColorRgba,
    pub scratch_key_color: ColorRgba,
    pub key_beam_white: ColorRgba,
    pub key_beam_blue: ColorRgba,
    pub key_beam_scratch: ColorRgba,
}

/// The lanes a play mode shows: scratch and keys 1 to 5 for 5-key charts,
/// scratch and keys 1 to 7 for every other mode.
pub open spec fn active_lanes_of(mode: PlayMode) -> Seq<Lane> {
    if mode == PlayMode::Keys5 {
        seq![Lane::Scratch, Lane::Key1, Lane::Key2, Lane::Key3, Lane::Key4, Lane::Key5]
    } else {
        seq![Lane::Scratch, Lane::Key1, Lane::Key2, Lane::Key3, Lane::Key4, Lane::Key5, Lane::Key6, Lane::Key7]
    }
}

/// Odd keys are white keys, even keys blue keys.
pub open spec fn is_white_key(lane: Lane) -> bool {
    lane == Lane::Key1 || lane == Lane::Key3 || lane == Lane::Key5 || lane == Lane::Key7
}

impl SkinColors {
    /// The lanes the skin's play mode shows.
    pub fn active_lanes(&self) -> (v: Vec<Lane>)
        ensures
            v@ == active_lanes_of(self.play_mode),
    {
        let mut v: Vec<Lane> = Vec::new();
        v.push(Lane::Scratch);
        v.push(Lane::Key1);
        v.push(Lane::Key2);
        v.push(Lane::Key3);
        v.push(Lane::Key4);
        v.push(Lane::Key5);
        if self.play_mode != PlayMode::Keys5 {
            v.push(Lane::Key6);
            v.push(Lane::Key7);
        }
        assert(v@ =~= active_lanes_of(self.play_mode));
        v
    }

    /// The colour of notes on a lane.
    pub fn lane_color(&self, lane: Lane) -> (c: ColorRgba)
        ensures
            c == if lane == Lane::Scratch {
                self.scratch_key_color
            } else if is_white_key(lane) {
                self.white_key_color
            } else {
                self.blue_key_color
            },
    {
        match lane {
            Lane::Scratch => self.scratch_key_color,
            Lane::Key1 | Lane::Key3 | Lane::Key5 | Lane::Key7 => self.white_key_color,
            Lane::Key2 | Lane::Key4 | Lane::Key6 => self.blue_key_color,
        }
    }

    /// The colour of a lane's key beam while its key is held.
    pub fn key_beam_color(&self, lane: Lane) -> (c: ColorRgba)
        ensures
            c == if lane == Lane::Scratch {
                self.key_beam_scratch
            } else if is_white_key(lane) {
                self.key_beam_white
            } else {
                self.key_beam_blue
            },
    {
        match lane {
            Lane::Scratch => self.key_beam_scratch,
            Lane::Key1 | Lane::Key3 | Lane::Key5 | Lane::Key7 => self.key_beam_white,
            Lane::Key2 | Lane::Key4 | Lane::Key6 => self.key_beam_blue,
        }
    }

    /// Sets the play mode.
    pub fn set_play_mode(&mut self, mode: PlayMode)
        ensures
            *final(self) == (SkinColors { play_mode: mode, ..*old(self) }),
    {
        self.play_mode = mode;
    }
}

impl Default for SkinColors {
    fn default() -> (s: Self)
        ensures
            s.play_mode == PlayMode::Keys7,
            s.white_key_color == (ColorRgba { r: 245, g: 245, b: 250, a: 255 }),
            s.blue_key_color == (ColorRgba { r: 60, g: 140, b: 255, a: 255 }),
            s.scratch_key_color == (ColorRgba { r: 255, g: 70, b: 70, a: 255 }),
            s.key_beam_white == (ColorRgba { r: 200, g: 200, b: 255, a: 60 }),
            s.key_beam_blue == (ColorRgba { r: 60, g: 140, b: 255, a: 80 }),
            s.key_beam_scratch == (ColorRgba { r: 255, g: 70, b: 70, a: 80 }),
            s.bg_color == (ColorRgba { r: 8, g: 8, b: 12, a: 255 }),
            s.playfield_bg_color == (ColorRgba { r: 16, g: 16, b: 22, a: 255 }),
            s.lane_line_color == (ColorRgba { r: 45, g: 45, b: 55, a: 255 }),
            s.judge_line_color == (ColorRgba { r: 255, g: 50, b: 50, a: 255 }),
    {
        SkinColors {
            play_mode: PlayMode::Keys7,
            bg_color: ColorRgba::new(8, 8, 12, 255),
            playfield_bg_color: ColorRgba::new(16, 16, 22, 255),
            lane_line_color: ColorRgba::new(45, 45, 55, 255),
            judge_line_color: ColorRgba::new(255, 50, 50, 255),
            white_key_color: ColorRgba::new(245, 245, 250, 255),
            blue_key_color: ColorRgba::new(60, 140, 255, 255),
            scratch_key_color: ColorRgba::new(255, 70, 70, 255),
            key_beam_white: ColorRgba::new(200, 200, 255, 60),
            key_beam_blue: ColorRgba::new(60, 140, 255, 80),
            key_beam_scratch: ColorRgba::new(255, 70, 70, 80),
        }
    }
}

} // verus!
