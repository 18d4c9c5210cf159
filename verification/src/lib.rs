//! Beetle: a BMS rhythm-game engine core.
//!
//! Chart parsing, judgement and gauge bookkeeping, lane modifiers, personal
//! bests, the song library's hash, cache fields and filter, image decoding,
//! key bindings, menu key handling and song list labels, each with its
//! behaviour stated as a Verus contract.

pub mod bms;
pub mod skin;
pub mod image;
pub mod text;
pub mod table;
pub mod modifier;
pub mod judge;
pub mod ui;
pub mod library;
pub mod font;
pub mod video;
pub mod audio;
pub mod score;
pub mod input;
pub mod menus;
pub mod labels;
