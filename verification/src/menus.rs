//! Key handling outside the lanes: song select, the play-options modal, the
//! key-configuration screen, the pause overlay and the hotkeys during play. Each is a step from the menu's state and a key to
//! its next state and what the caller has to do (adjust a setting the caller
//! keeps, save the configuration, change screens).

use vstd::prelude::*;
use crate::bms::{Lane, lane_at, lane_from_index};
use crate::input::{InputConfig, KeyCode, PhysicalKey, bind_result, mapped_lane, toggled};
use crate::judge::GaugeType;
use crate::modifier::LaneModifier;
use crate::ui::{DisplayMode, KeyPreset, SongCategory, display_mode_after, display_mode_before, category_after, category_before};
use crate::library::{SortMode, sort_mode_after};
use crate::text::{chars_of, push_char, string_of};

verus! {

/// Number of rows of the play-options modal.
pub const OPTION_ROWS: usize = 12;

/// Number of target frame-rate presets.
pub const FPS_PRESET_COUNT: usize = 6;

/// The target frame-rate presets in order (0 means unlimited).
pub open spec fn fps_preset(i: int) -> u32 {
    if i == 0 {
        60
    } else if i == 1 {
        120
    } else if i == 2 {
        144
    } else if i == 3 {
        240
    } else if i == 4 {
        360
    } else {
        0
    }
}

/// The position of `fps` among the presets, or the position of 240 when it
/// is not a preset.
pub open spec fn fps_index(fps: u32) -> int {
    if fps == 60 {
        0
    } else if fps == 120 {
        1
    } else if fps == 144 {
        2
    } else if fps == 240 {
        3
    } else if fps == 360 {
        4
    } else if fps == 0 {
        5
    } else {
        3
    }
}

/// Whether `fps` is one of the presets.
pub open spec fn is_fps_preset(fps: u32) -> bool {
    fps == 60 || fps == 120 || fps == 144 || fps == 240 || fps == 360 || fps == 0
}

/// The preset after `fps` (wrapping).
pub open spec fn fps_after(fps: u32) -> u32 {
    fps_preset((fps_index(fps) + 1) % 6)
}

/// The preset before `fps` (wrapping).
pub open spec fn fps_before(fps: u32) -> u32 {
    fps_preset(if fps_index(fps) == 0 { 5 } else { fps_index(fps) - 1 })
}

fn fps_preset_exec(i: usize) -> (f: u32)
    ensures
        f == fps_preset(i as int),
{
    if i == 0 {
        60
    } else if i == 1 {
        120
    } else if i == 2 {
        144
    } else if i == 3 {
        240
    } else if i == 4 {
        360
    } else {
        0
    }
}

fn fps_index_exec(fps: u32) -> (i: usize)
    ensures
        i == fps_index(fps),
{
    let mut i: usize = 0;
    while i < FPS_PRESET_COUNT
        invariant
            i <= FPS_PRESET_COUNT,
            forall|j: int| 0 <= j < i ==> fps_preset(j) != fps,
        decreases FPS_PRESET_COUNT - i,
    {
        if fps_preset_exec(i) == fps {
            return i;
        }
        i = i + 1;
    }
    assert(fps_preset(0) != fps && fps_preset(1) != fps && fps_preset(2) != fps);
    assert(fps_preset(3) != fps && fps_preset(4) != fps && fps_preset(5) != fps);
    3
}

/// Lane modifiers in option order: regular, mirror, random, R-random, S-random.
pub open spec fn modifier_after(m: LaneModifier) -> LaneModifier {
    match m {
        LaneModifier::Regular => LaneModifier::Mirror,
        LaneModifier::Mirror => LaneModifier::Random,
        LaneModifier::Random => LaneModifier::RRandom,
        LaneModifier::RRandom => LaneModifier::SRandom,
        LaneModifier::SRandom => LaneModifier::Regular,
    }
}

/// The reverse of `modifier_after`.
pub open spec fn modifier_before(m: LaneModifier) -> LaneModifier {
    match m {
        LaneModifier::Regular => LaneModifier::SRandom,
        LaneModifier::Mirror => LaneModifier::Regular,
        LaneModifier::Random => LaneModifier::Mirror,
        LaneModifier::RRandom => LaneModifier::Random,
        LaneModifier::SRandom => LaneModifier::RRandom,
    }
}

/// Gauges in option order: easy, groove, hard, hazard.
pub open spec fn gauge_after(g: GaugeType) -> GaugeType {
    match g {
        GaugeType::Easy => GaugeType::Groove,
        GaugeType::Groove => GaugeType::Hard,
        GaugeType::Hard => GaugeType::Hazard,
        GaugeType::Hazard => GaugeType::Easy,
    }
}

/// The reverse of `gauge_after`.
pub open spec fn gauge_before(g: GaugeType) -> GaugeType {
    match g {
        GaugeType::Easy => GaugeType::Hazard,
        GaugeType::Groove => GaugeType::Easy,
        GaugeType::Hard => GaugeType::Groove,
        GaugeType::Hazard => GaugeType::Hard,
    }
}

/// What the caller does after a key in the play-options modal. `true` in a
/// step raises the setting, `false` lowers it; every action but `Nothing`
/// ends with saving the configuration.
#[derive(Debug, Clone, Copy, PartialEq, Eq, Structural)]
pub enum OptionAction {
    /// Nothing beyond the cursor move (or an ignored key).
    Nothing,
    /// The modal closed; save.
    Close,
    /// A setting held by the modal changed; save.
    Save,
    /// Step hi-speed by 25 within 100..=1200, then save.
    HiSpeed(bool),
    /// Step the judge offset by 1 ms within -100..=100, then save.
    JudgeOffset(bool),
    /// Step the master volume by 0.05 within 0..=2, then save.
    MasterVolume(bool),
    /// Apply the modal's new display mode, then save.
    ApplyDisplayMode,
    /// Cycle the window resolution, then save.
    Resolution(bool),
    /// Cycle the graphics backend, then save.
    GpuBackend(bool),
    /// The modal closed for the key-configuration screen; save.
    OpenKeyConfig,
}

/// The play-options modal and the settings it edits itself.
#[derive(Debug, Clone, Copy, PartialEq, Eq, Structural)]
pub struct OptionModal {
    pub open: bool,
    /// The highlighted row, 0..=11.
    pub row: usize,
    pub lane_modifier: LaneModifier,
    pub gauge_type: GaugeType,
    pub display_mode: DisplayMode,
    pub target_fps: u32,
    pub auto_play: bool,
    /// The measure play starts from, at most 200 by the modal.
    pub start_measure: u32,
}

/// Keys the menus read, grouped by what they do.
pub open spec fn is_up(code: KeyCode) -> bool {
    code == KeyCode::ArrowUp || code == KeyCode::KeyK
}

pub open spec fn is_down(code: KeyCode) -> bool {
    code == KeyCode::ArrowDown || code == KeyCode::KeyJ
}

pub open spec fn is_confirm(code: KeyCode) -> bool {
    code == KeyCode::Enter || code == KeyCode::Space
}

/// The modal after a left (`right == false`) or right/confirm key on its row.
pub open spec fn option_adjusted(m: OptionModal, right: bool, confirm: bool) -> OptionModal {
    if m.row == 1 {
        OptionModal {
            lane_modifier: if right {
                modifier_after(m.lane_modifier)
            } else {
                modifier_before(m.lane_modifier)
            },
            ..m
        }
    } else if m.row == 2 {
        OptionModal {
            gauge_type: if right {
                gauge_after(m.gauge_type)
            } else {
                gauge_before(m.gauge_type)
            },
            ..m
        }
    } else if m.row == 5 {
        OptionModal {
            display_mode: if right {
                display_mode_after(m.display_mode)
            } else {
                display_mode_before(m.display_mode)
            },
            ..m
        }
    } else if m.row == 8 {
        OptionModal {
            target_fps: if right {
                fps_after(m.target_fps)
            } else {
                fps_before(m.target_fps)
            },
            ..m
        }
    } else if m.row == 9 && right && confirm {
        OptionModal { open: false, ..m }
    } else if m.row == 10 {
        OptionModal { auto_play: !m.auto_play, ..m }
    } else if m.row == 11 {
        OptionModal {
            start_measure: if right {
                if m.start_measure + 1 <= 200 {
                    (m.start_measure + 1) as u32
                } else {
                    200
                }
            } else {
                if m.start_measure == 0 {
                    0
                } else {
                    (m.start_measure - 1) as u32
                }
            },
            ..m
        }
    } else {
        m
    }
}

/// What the caller does after a left or right/confirm key on the modal's row.
pub open spec fn option_adjust_action(m: OptionModal, right: bool, confirm: bool) -> OptionAction {
    if m.row == 0 {
        OptionAction::HiSpeed(right)
    } else if m.row == 3 {
        OptionAction::JudgeOffset(right)
    } else if m.row == 4 {
        OptionAction::MasterVolume(right)
    } else if m.row == 5 {
        OptionAction::ApplyDisplayMode
    } else if m.row == 6 {
        OptionAction::Resolution(right)
    } else if m.row == 7 {
        OptionAction::GpuBackend(right)
    } else if m.row == 9 && right && confirm {
        OptionAction::OpenKeyConfig
    } else {
        OptionAction::Save
    }
}

/// The modal after `code`.
pub open spec fn option_next(m: OptionModal, code: KeyCode) -> OptionModal {
    if code == KeyCode::Tab || code == KeyCode::KeyO || code == KeyCode::Escape {
        OptionModal { open: false, ..m }
    } else if is_up(code) {
        OptionModal { row: if m.row == 0 { 0 } else { (m.row - 1) as usize }, ..m }
    } else if is_down(code) {
        OptionModal { row: if m.row + 1 <= 11 { (m.row + 1) as usize } else { 11 }, ..m }
    } else if code == KeyCode::ArrowLeft {
        option_adjusted(m, false, false)
    } else if code == KeyCode::ArrowRight || is_confirm(code) {
        option_adjusted(m, true, is_confirm(code))
    } else {
        m
    }
}

/// What the caller does after `code`.
pub open spec fn option_action(m: OptionModal, code: KeyCode) -> OptionAction {
    if code == KeyCode::Tab || code == KeyCode::KeyO || code == KeyCode::Escape {
        OptionAction::Close
    } else if code == KeyCode::ArrowLeft {
        option_adjust_action(m, false, false)
    } else if code == KeyCode::ArrowRight || is_confirm(code) {
        option_adjust_action(m, true, is_confirm(code))
    } else {
        OptionAction::Nothing
    }
}

/// Whether `code` toggles the key layout: left or right (not confirm) on row 9.
pub open spec fn option_toggles_layout(m: OptionModal, code: KeyCode) -> bool {
    m.row == 9 && (code == KeyCode::ArrowLeft || code == KeyCode::ArrowRight)
}

impl OptionModal {
    pub open spec fn wf(&self) -> bool {
        self.row < OPTION_ROWS
    }

    /// The modal opened on its first row.
    pub fn open_with(
        lane_modifier: LaneModifier,
        gauge_type: GaugeType,
        display_mode: DisplayMode,
        target_fps: u32,
        auto_play: bool,
        start_measure: u32,
    ) -> (m: Self)
        ensures
            m.wf(),
            m == (OptionModal {
                open: true,
                row: 0,
                lane_modifier,
                gauge_type,
                display_mode,
                target_fps,
                auto_play,
                start_measure,
            }),
    {
        OptionModal {
            open: true,
            row: 0,
            lane_modifier,
            gauge_type,
            display_mode,
            target_fps,
            auto_play,
            start_measure,
        }
    }

    fn adjust(&mut self, keys: &mut InputConfig, right: bool, confirm: bool) -> (a: OptionAction)
        requires
            old(self).wf(),
        ensures
            *final(self) == option_adjusted(*old(self), right, confirm),
            a == option_adjust_action(*old(self), right, confirm),
            final(keys).custom_bindings == old(keys).custom_bindings,
            final(keys).preset == if old(self).row == 9 && !(right && confirm) {
                toggled(old(keys).preset, old(keys).custom_bindings@.len() > 0)
            } else {
                old(keys).preset
            },
    {
        match self.row {
            0 => OptionAction::HiSpeed(right),
            1 => {
                self.lane_modifier = if right {
                    match self.lane_modifier {
                        LaneModifier::Regular => LaneModifier::Mirror,
                        LaneModifier::Mirror => LaneModifier::Random,
                        LaneModifier::Random => LaneModifier::RRandom,
                        LaneModifier::RRandom => LaneModifier::SRandom,
                        LaneModifier::SRandom => LaneModifier::Regular,
                    }
                } else {
                    match self.lane_modifier {
                        LaneModifier::Regular => LaneModifier::SRandom,
                        LaneModifier::Mirror => LaneModifier::Regular,
                        LaneModifier::Random => LaneModifier::Mirror,
                        LaneModifier::RRandom => LaneModifier::Random,
                        LaneModifier::SRandom => LaneModifier::RRandom,
                    }
                };
                OptionAction::Save
            },
            2 => {
                self.gauge_type = if right {
                    match self.gauge_type {
                        GaugeType::Easy => GaugeType::Groove,
                        GaugeType::Groove => GaugeType::Hard,
                        GaugeType::Hard => GaugeType::Hazard,
                        GaugeType::Hazard => GaugeType::Easy,
                    }
                } else {
                    match self.gauge_type {
                        GaugeType::Easy => GaugeType::Hazard,
                        GaugeType::Groove => GaugeType::Easy,
                        GaugeType::Hard => GaugeType::Groove,
                        GaugeType::Hazard => GaugeType::Hard,
                    }
                };
                OptionAction::Save
            },
            3 => OptionAction::JudgeOffset(right),
            4 => OptionAction::MasterVolume(right),
            5 => {
                self.display_mode = if right {
                    self.display_mode.next()
                } else {
                    self.display_mode.prev()
                };
                OptionAction::ApplyDisplayMode
            },
            6 => OptionAction::Resolution(right),
            7 => OptionAction::GpuBackend(right),
            8 => {
                let cur = fps_index_exec(self.target_fps);
                let idx = if right {
                    (cur + 1) % FPS_PRESET_COUNT
                } else if cur == 0 {
                    FPS_PRESET_COUNT - 1
                } else {
                    cur - 1
                };
                self.target_fps = fps_preset_exec(idx);
                OptionAction::Save
            },
            9 => {
                if right && confirm {
                    self.open = false;
                    OptionAction::OpenKeyConfig
                } else {
                    keys.toggle_preset();
                    OptionAction::Save
                }
            },
            10 => {
                self.auto_play = !self.auto_play;
                OptionAction::Save
            },
            _ => {
                self.start_measure = if right {
                    if self.start_measure < 200 {
                        self.start_measure + 1
                    } else {
                        200
                    }
                } else if self.start_measure == 0 {
                    0
                } else {
                    self.start_measure - 1
                };
                OptionAction::Save
            },
        }
    }

    /// Handles a key pressed while the modal is open. Tab, O or Escape close
    /// it; up and down move between rows; left lowers the highlighted
    /// setting and right, Enter or Space raise it; on the key layout row,
    /// Enter or Space open the key-configuration screen instead.
    pub fn handle_key(&mut self, keys: &mut InputConfig, code: KeyCode) -> (a: OptionAction)
        requires
            old(self).wf(),
        ensures
            final(self).wf(),
            *final(self) == option_next(*old(self), code),
            a == option_action(*old(self), code),
            final(keys).custom_bindings == old(keys).custom_bindings,
            final(keys).preset == if option_toggles_layout(*old(self), code) {
                toggled(old(keys).preset, old(keys).custom_bindings@.len() > 0)
            } else {
                old(keys).preset
            },
    {
        if code == KeyCode::Tab || code == KeyCode::KeyO || code == KeyCode::Escape {
            self.open = false;
            OptionAction::Close
        } else if code == KeyCode::ArrowUp || code == KeyCode::KeyK {
            if self.row > 0 {
                self.row = self.row - 1;
            }
            OptionAction::Nothing
        } else if code == KeyCode::ArrowDown || code == KeyCode::KeyJ {
            if self.row < 11 {
                self.row = self.row + 1;
            }
            OptionAction::Nothing
        } else if code == KeyCode::ArrowLeft {
            self.adjust(keys, false, false)
        } else if code == KeyCode::ArrowRight || code == KeyCode::Enter || code == KeyCode::Space {
            let confirm = code == KeyCode::Enter || code == KeyCode::Space;
            self.adjust(keys, true, confirm)
        } else {
            OptionAction::Nothing
        }
    }
}

/// On a row other than the key layout, a right key then a left key give the
/// modal back unchanged (the frame rate being a preset, and the start
/// measure below its cap of 200).
pub proof fn lemma_option_left_undoes_right(m: OptionModal)
    requires
        m.wf(),
        m.row != 9,
        m.row == 8 ==> is_fps_preset(m.target_fps),
        m.row == 11 ==> m.start_measure < 200,
    ensures
        option_next(option_next(m, KeyCode::ArrowRight), KeyCode::ArrowLeft) == m,
        option_next(option_next(m, KeyCode::ArrowLeft), KeyCode::ArrowRight) == m
            || (m.row == 11 && m.start_measure == 0),
{
}

/// What the caller does after a key on the key-configuration screen.
#[derive(Debug, Clone, Copy, PartialEq, Eq, Structural)]
pub enum KeyConfigAction {
    Nothing,
    /// The bindings changed; save.
    Save,
    /// Back to song select; save.
    Leave,
}

/// The key-configuration screen: the highlighted lane row and whether the
/// next key is taken as its binding.
#[derive(Debug, Clone, Copy, PartialEq, Eq, Structural)]
pub struct KeyConfigScreen {
    /// The highlighted lane, 0 (scratch) ..= 7 (key 7).
    pub selected: u8,
    pub rebinding: bool,
}

/// The screen after a pressed key.
pub open spec fn key_config_next(s: KeyConfigScreen, code: KeyCode) -> KeyConfigScreen {
    if s.rebinding {
        KeyConfigScreen { rebinding: false, ..s }
    } else if is_confirm(code) {
        KeyConfigScreen { rebinding: true, ..s }
    } else if is_up(code) {
        KeyConfigScreen { selected: if s.selected == 0 { 0 } else { (s.selected - 1) as u8 }, ..s }
    } else if is_down(code) {
        KeyConfigScreen { selected: if s.selected + 1 <= 7 { (s.selected + 1) as u8 } else { 7 }, ..s }
    } else {
        s
    }
}

/// What the caller does after a pressed key.
pub open spec fn key_config_action(s: KeyConfigScreen, code: KeyCode) -> KeyConfigAction {
    if s.rebinding {
        if code == KeyCode::Escape {
            KeyConfigAction::Nothing
        } else {
            KeyConfigAction::Save
        }
    } else if code == KeyCode::Escape {
        KeyConfigAction::Leave
    } else if code == KeyCode::F1 || code == KeyCode::Delete || code == KeyCode::Backspace {
        KeyConfigAction::Save
    } else {
        KeyConfigAction::Nothing
    }
}

impl KeyConfigScreen {
    pub open spec fn wf(&self) -> bool {
        self.selected <= 7
    }

    /// The screen entered on its scratch row.
    pub fn enter() -> (s: Self)
        ensures
            s.wf(),
            s == (KeyConfigScreen { selected: 0, rebinding: false }),
    {
        KeyConfigScreen { selected: 0, rebinding: false }
    }

    /// Handles a key event. Releases are ignored. While a binding is awaited,
    /// Escape cancels it and any other key is bound to the highlighted lane;
    /// otherwise Enter or Space await a binding, up and down move, F1
    /// toggles the layout, Delete or Backspace reset to the home-row layout
    /// and Escape leaves.
    pub fn handle_key(&mut self, keys: &mut InputConfig, pressed: bool, code: KeyCode) -> (a: KeyConfigAction)
        requires
            old(self).wf(),
            old(keys).wf(),
        ensures
            final(self).wf(),
            final(keys).wf(),
            !pressed ==> *final(self) == *old(self) && a == KeyConfigAction::Nothing
                && *final(keys) == *old(keys),
            pressed ==> *final(self) == key_config_next(*old(self), code)
                && a == key_config_action(*old(self), code),
            pressed && old(self).rebinding && code != KeyCode::Escape ==> {
                &&& final(keys).preset == KeyPreset::Custom
                &&& final(keys).custom_bindings@ == bind_result(
                    old(keys).preset,
                    old(keys).custom_bindings@,
                    code,
                    lane_at(old(self).selected as int),
                )
            },
            pressed && !old(self).rebinding && code == KeyCode::F1 ==> final(keys).preset == toggled(
                old(keys).preset,
                old(keys).custom_bindings@.len() > 0,
            ) && final(keys).custom_bindings == old(keys).custom_bindings,
            pressed && !old(self).rebinding && (code == KeyCode::Delete || code == KeyCode::Backspace)
                ==> final(keys).preset == KeyPreset::HomeRow && final(keys).custom_bindings@.len() == 0,
            pressed && !(old(self).rebinding && code != KeyCode::Escape) && !(!old(self).rebinding
                && (code == KeyCode::F1 || code == KeyCode::Delete || code == KeyCode::Backspace))
                ==> *final(keys) == *old(keys),
    {
        if !pressed {
            return KeyConfigAction::Nothing;
        }
        if self.rebinding {
            self.rebinding = false;
            if code == KeyCode::Escape {
                KeyConfigAction::Nothing
            } else {
                let lane = lane_from_index(self.selected);
                keys.bind_key(code, lane);
                KeyConfigAction::Save
            }
        } else if code == KeyCode::Escape {
            KeyConfigAction::Leave
        } else if code == KeyCode::Enter || code == KeyCode::Space {
            self.rebinding = true;
            KeyConfigAction::Nothing
        } else if code == KeyCode::ArrowUp || code == KeyCode::KeyK {
            if self.selected > 0 {
                self.selected = self.selected - 1;
            }
            KeyConfigAction::Nothing
        } else if code == KeyCode::ArrowDown || code == KeyCode::KeyJ {
            if self.selected < 7 {
                self.selected = self.selected + 1;
            }
            KeyConfigAction::Nothing
        } else if code == KeyCode::F1 {
            keys.toggle_preset();
            KeyConfigAction::Save
        } else if code == KeyCode::Delete || code == KeyCode::Backspace {
            keys.reset_to_preset(KeyPreset::HomeRow);
            KeyConfigAction::Save
        } else {
            KeyConfigAction::Nothing
        }
    }
}

/// What the caller does after a key in the pause overlay.
#[derive(Debug, Clone, Copy, PartialEq, Eq, Structural)]
pub enum PauseAction {
    Nothing,
    /// Unpause and resume the audio.
    Resume,
    /// Unpause and start the song again.
    Restart,
    /// Unpause, stop the audio and go back to song select.
    Quit,
}

/// The pause overlay's highlighted option after `code` (0 resume, 1
/// restart, 2 quit).
pub open spec fn pause_next(selected: u8, code: KeyCode) -> u8 {
    if is_up(code) {
        if selected == 0 { 0 } else { (selected - 1) as u8 }
    } else if is_down(code) {
        if selected + 1 <= 2 { (selected + 1) as u8 } else { 2 }
    } else {
        selected
    }
}

/// What the caller does after `code` in the pause overlay.
pub open spec fn pause_action(selected: u8, code: KeyCode) -> PauseAction {
    if code == KeyCode::Escape {
        PauseAction::Resume
    } else if code == KeyCode::KeyR {
        PauseAction::Restart
    } else if is_confirm(code) {
        if selected == 0 {
            PauseAction::Resume
        } else if selected == 1 {
            PauseAction::Restart
        } else if selected == 2 {
            PauseAction::Quit
        } else {
            PauseAction::Nothing
        }
    } else {
        PauseAction::Nothing
    }
}

/// Handles a key pressed in the pause overlay.
pub fn handle_pause_key(selected: &mut u8, code: KeyCode) -> (a: PauseAction)
    ensures
        *final(selected) == pause_next(*old(selected), code),
        a == pause_action(*old(selected), code),
{
    let cur = *selected;
    let mut next = cur;
    let a = if code == KeyCode::Escape {
        PauseAction::Resume
    } else if code == KeyCode::KeyR {
        PauseAction::Restart
    } else if code == KeyCode::ArrowUp || code == KeyCode::KeyK {
        if cur > 0 {
            next = cur - 1;
        }
        PauseAction::Nothing
    } else if code == KeyCode::ArrowDown || code == KeyCode::KeyJ {
        next = if cur < 2 {
            cur + 1
        } else {
            2
        };
        PauseAction::Nothing
    } else if code == KeyCode::Enter || code == KeyCode::Space {
        if cur == 0 {
            PauseAction::Resume
        } else if cur == 1 {
            PauseAction::Restart
        } else if cur == 2 {
            PauseAction::Quit
        } else {
            PauseAction::Nothing
        }
    } else {
        PauseAction::Nothing
    };
    *selected = next;
    a
}

/// `char::is_control`: the general category `Cc` (C0 and C1 control codes).
pub open spec fn is_control_char(c: char) -> bool {
    (c as u32) <= 0x1f || (0x7f <= (c as u32) && (c as u32) <= 0x9f)
}

fn is_control(c: char) -> (r: bool)
    ensures
        r == is_control_char(c),
{
    let v = c as u32;
    v <= 0x1f || (0x7f <= v && v <= 0x9f)
}

/// The characters of `t` that are not control codes, in order.
pub open spec fn printable(t: Seq<char>) -> Seq<char>
    decreases t.len(),
{
    if t.len() == 0 {
        t
    } else if is_control_char(t.last()) {
        printable(t.drop_last())
    } else {
        printable(t.drop_last()).push(t.last())
    }
}

/// What the caller does after a key on the song-select screen.
#[derive(Debug, Clone, Copy, PartialEq, Eq, Structural)]
pub enum SongSelectAction {
    Nothing,
    /// The search text or the category changed: filter the list again.
    Refilter,
    /// Step hi-speed by 25 within 100..=1200 (`true` raises), then save.
    HiSpeed(bool),
    /// Open the play-options modal (keys then go to the modal until it closes).
    OpenOptions,
    /// Play the highlighted song's stored replay, if there is one.
    PlayReplay,
    /// Go to the key-configuration screen.
    OpenKeyConfig,
    /// The sort mode changed: sort the songs, filter again and save.
    Resort,
    /// Play the highlighted song.
    StartSong,
    /// Scan the song folders again.
    Rescan,
}

/// The song-select screen: live search, category, auto play, sort order and
/// the highlighted position in the filtered list.
pub struct SongSelect {
    pub search_active: bool,
    pub query: String,
    pub category: SongCategory,
    pub auto_play: bool,
    pub sort_mode: SortMode,
    pub selected: usize,
}

/// The song-select screen as a value.
pub struct SongSelectModel {
    pub search_active: bool,
    pub query: Seq<char>,
    pub category: SongCategory,
    pub auto_play: bool,
    pub sort_mode: SortMode,
    pub selected: usize,
}

impl View for SongSelect {
    type V = SongSelectModel;

    open spec fn view(&self) -> SongSelectModel {
        SongSelectModel {
            search_active: self.search_active,
            query: self.query@,
            category: self.category,
            auto_play: self.auto_play,
            sort_mode: self.sort_mode,
            selected: self.selected,
        }
    }
}

/// The screen after a key while the search box has focus.
pub open spec fn search_step(v: SongSelectModel, code: KeyCode, text: Option<Seq<char>>) -> (SongSelectModel, SongSelectAction) {
    if code == KeyCode::Escape {
        if v.query.len() > 0 {
            (SongSelectModel { query: Seq::empty(), ..v }, SongSelectAction::Refilter)
        } else {
            (SongSelectModel { search_active: false, ..v }, SongSelectAction::Nothing)
        }
    } else if code == KeyCode::Enter {
        (SongSelectModel { search_active: false, ..v }, SongSelectAction::Nothing)
    } else if code == KeyCode::Backspace {
        (
            SongSelectModel { query: if v.query.len() > 0 { v.query.drop_last() } else { v.query }, ..v },
            SongSelectAction::Refilter,
        )
    } else {
        match text {
            Some(t) => (SongSelectModel { query: v.query + printable(t), ..v }, SongSelectAction::Refilter),
            None => (v, SongSelectAction::Nothing),
        }
    }
}

/// The highlighted position after moving up in a list of `len` songs (wrapping).
pub open spec fn select_up(selected: usize, len: usize) -> usize {
    if selected > 0 {
        (selected - 1) as usize
    } else if len > 0 {
        (len - 1) as usize
    } else {
        selected
    }
}

/// The highlighted position after moving down in a list of `len` songs (wrapping).
pub open spec fn select_down(selected: usize, len: usize) -> usize {
    if len > 0 {
        ((selected + 1) % (len as int)) as usize
    } else {
        selected
    }
}

/// The highlighted position ten songs up, stopping at the first.
pub open spec fn page_up(selected: usize) -> usize {
    if selected >= 10 {
        (selected - 10) as usize
    } else {
        0
    }
}

/// The highlighted position ten songs down, stopping at the last of `len`.
pub open spec fn page_down(selected: usize, len: usize) -> usize {
    if len == 0 {
        selected
    } else if selected + 10 < len {
        (selected + 10) as usize
    } else {
        (len - 1) as usize
    }
}

/// The screen after a key while browsing the list of `len` songs.
pub open spec fn browse_step(v: SongSelectModel, code: KeyCode, text: Option<Seq<char>>, len: usize) -> (SongSelectModel, SongSelectAction) {
    if code == KeyCode::Slash {
        (SongSelectModel { search_active: true, ..v }, SongSelectAction::Nothing)
    } else if code == KeyCode::F1 {
        (SongSelectModel { category: category_before(v.category), ..v }, SongSelectAction::Refilter)
    } else if code == KeyCode::F3 {
        (v, SongSelectAction::HiSpeed(true))
    } else if code == KeyCode::F4 {
        (v, SongSelectAction::HiSpeed(false))
    } else if code == KeyCode::Tab || code == KeyCode::KeyO {
        (v, SongSelectAction::OpenOptions)
    } else if code == KeyCode::KeyA {
        (SongSelectModel { auto_play: !v.auto_play, ..v }, SongSelectAction::Nothing)
    } else if code == KeyCode::KeyR {
        (v, SongSelectAction::PlayReplay)
    } else if code == KeyCode::F12 || code == KeyCode::KeyC {
        (v, SongSelectAction::OpenKeyConfig)
    } else if code == KeyCode::F2 {
        (SongSelectModel { sort_mode: sort_mode_after(v.sort_mode), ..v }, SongSelectAction::Resort)
    } else if is_up(code) {
        (SongSelectModel { selected: select_up(v.selected, len), ..v }, SongSelectAction::Nothing)
    } else if is_down(code) {
        (SongSelectModel { selected: select_down(v.selected, len), ..v }, SongSelectAction::Nothing)
    } else if code == KeyCode::PageUp {
        (SongSelectModel { selected: page_up(v.selected), ..v }, SongSelectAction::Nothing)
    } else if code == KeyCode::PageDown {
        (SongSelectModel { selected: page_down(v.selected, len), ..v }, SongSelectAction::Nothing)
    } else if code == KeyCode::Home {
        (SongSelectModel { selected: 0, ..v }, SongSelectAction::Nothing)
    } else if code == KeyCode::End {
        (SongSelectModel { selected: if len > 0 { (len - 1) as usize } else { v.selected }, ..v }, SongSelectAction::Nothing)
    } else if is_confirm(code) {
        (v, SongSelectAction::StartSong)
    } else if code == KeyCode::F5 {
        (v, SongSelectAction::Rescan)
    } else if text == Some(seq!['/']) {
        (SongSelectModel { search_active: true, ..v }, SongSelectAction::Nothing)
    } else {
        (v, SongSelectAction::Nothing)
    }
}

/// The screen after a key event (`len` songs listed).
pub open spec fn song_select_step(
    v: SongSelectModel,
    pressed: bool,
    code: KeyCode,
    text: Option<Seq<char>>,
    len: usize,
) -> (SongSelectModel, SongSelectAction) {
    if !pressed {
        (v, SongSelectAction::Nothing)
    } else if v.search_active {
        search_step(v, code, text)
    } else {
        browse_step(v, code, text, len)
    }
}

/// The text a key produced, as characters.
pub open spec fn text_chars(text: Option<&str>) -> Option<Seq<char>> {
    match text {
        Some(t) => Some(t@),
        None => None,
    }
}

impl SongSelect {
    fn search_key(&mut self, code: KeyCode, text: Option<&str>) -> (a: SongSelectAction)
        ensures
            (final(self)@, a) == search_step(old(self)@, code, text_chars(text)),
    {
        if code == KeyCode::Escape {
            let cs = chars_of(self.query.as_str());
            if cs.len() > 0 {
                self.query = String::new();
                assert(self.query@ =~= Seq::<char>::empty());
                SongSelectAction::Refilter
            } else {
                self.search_active = false;
                SongSelectAction::Nothing
            }
        } else if code == KeyCode::Enter {
            self.search_active = false;
            SongSelectAction::Nothing
        } else if code == KeyCode::Backspace {
            let cs = chars_of(self.query.as_str());
            if cs.len() > 0 {
                self.query = string_of(&cs, 0, cs.len() - 1);
                assert(self.query@ =~= old(self).query@.drop_last());
            }
            SongSelectAction::Refilter
        } else {
            match text {
                Some(t) => {
                    let cs = chars_of(t);
                    let ghost q0 = self.query@;
                    let mut i: usize = 0;
                    assert(cs@.take(0) =~= Seq::<char>::empty());
                    assert(q0 + printable(Seq::<char>::empty()) =~= q0);
                    while i < cs.len()
                        invariant
                            i <= cs@.len(),
                            self.query@ == q0 + printable(cs@.take(i as int)),
                            self.search_active == old(self).search_active,
                            self.category == old(self).category,
                            self.auto_play == old(self).auto_play,
                            self.sort_mode == old(self).sort_mode,
                            self.selected == old(self).selected,
                        decreases cs@.len() - i,
                    {
                        let c = cs[i];
                        assert(cs@.take(i + 1).drop_last() =~= cs@.take(i as int));
                        assert(cs@.take(i + 1).last() == c);
                        if !is_control(c) {
                            push_char(&mut self.query, c);
                            assert(self.query@ =~= q0 + printable(cs@.take(i + 1)));
                        }
                        i = i + 1;
                    }
                    assert(cs@.take(cs@.len() as int) =~= cs@);
                    SongSelectAction::Refilter
                },
                None => SongSelectAction::Nothing,
            }
        }
    }

    fn move_key(&mut self, code: KeyCode, len: usize)
        requires
            is_up(code) || is_down(code) || code == KeyCode::PageUp || code == KeyCode::PageDown
                || code == KeyCode::Home || code == KeyCode::End,
        ensures
            final(self)@ == browse_step(old(self)@, code, None, len).0,
    {
        if code == KeyCode::ArrowUp || code == KeyCode::KeyK {
            if self.selected > 0 {
                self.selected = self.selected - 1;
            } else if len > 0 {
                self.selected = len - 1;
            }
        } else if code == KeyCode::ArrowDown || code == KeyCode::KeyJ {
            if len > 0 {
                let next = (self.selected as u128 + 1) % (len as u128);
                self.selected = next as usize;
            }
        } else if code == KeyCode::PageUp {
            self.selected = if self.selected >= 10 {
                self.selected - 10
            } else {
                0
            };
        } else if code == KeyCode::PageDown {
            if len > 0 {
                self.selected = if self.selected < len - 1 && len - 1 - self.selected > 10 {
                    self.selected + 10
                } else {
                    len - 1
                };
            }
        } else if code == KeyCode::Home {
            self.selected = 0;
        } else if len > 0 {
            self.selected = len - 1;
        }
    }

    /// Handles a key event while the play-options modal is closed. `text`
    /// is the text the key produced, if any; `len` is the number of songs
    /// listed. Releases are ignored.
    pub fn handle_key(&mut self, pressed: bool, code: KeyCode, text: Option<&str>, len: usize) -> (a: SongSelectAction)
        ensures
            (final(self)@, a) == song_select_step(old(self)@, pressed, code, text_chars(text), len),
    {
        if !pressed {
            return SongSelectAction::Nothing;
        }
        if self.search_active {
            self.search_key(code, text)
        } else if code == KeyCode::Slash {
            self.search_active = true;
            SongSelectAction::Nothing
        } else if code == KeyCode::F1 {
            self.category = self.category.prev();
            SongSelectAction::Refilter
        } else if code == KeyCode::F3 {
            SongSelectAction::HiSpeed(true)
        } else if code == KeyCode::F4 {
            SongSelectAction::HiSpeed(false)
        } else if code == KeyCode::Tab || code == KeyCode::KeyO {
            SongSelectAction::OpenOptions
        } else if code == KeyCode::KeyA {
            self.auto_play = !self.auto_play;
            SongSelectAction::Nothing
        } else if code == KeyCode::KeyR {
            SongSelectAction::PlayReplay
        } else if code == KeyCode::F12 || code == KeyCode::KeyC {
            SongSelectAction::OpenKeyConfig
        } else if code == KeyCode::F2 {
            self.sort_mode = self.sort_mode.next();
            SongSelectAction::Resort
        } else if code == KeyCode::ArrowUp || code == KeyCode::KeyK || code == KeyCode::ArrowDown
            || code == KeyCode::KeyJ || code == KeyCode::PageUp || code == KeyCode::PageDown
            || code == KeyCode::Home || code == KeyCode::End {
            self.move_key(code, len);
            SongSelectAction::Nothing
        } else if code == KeyCode::Enter || code == KeyCode::Space {
            SongSelectAction::StartSong
        } else if code == KeyCode::F5 {
            SongSelectAction::Rescan
        } else {
            match text {
                Some(t) => {
                    let cs = chars_of(t);
                    if cs.len() == 1 && cs[0] == '/' {
                        assert(t@ =~= seq!['/']);
                        self.search_active = true;
                    } else {
                        assert(t@ != seq!['/']);
                    }
                },
                None => {},
            }
            SongSelectAction::Nothing
        }
    }
}

/// In a list of `len` songs, moving down then up, or up then down, comes
/// back to the highlighted song, and either move stays in the list.
pub proof fn lemma_select_wraps(selected: usize, len: usize)
    requires
        selected < len,
    ensures
        select_up(select_down(selected, len), len) == selected,
        select_down(select_up(selected, len), len) == selected,
        select_down(selected, len) < len,
        select_up(selected, len) < len,
{
    if selected + 1 < len {
        vstd::arithmetic::div_mod::lemma_small_mod((selected + 1) as nat, len as nat);
    } else {
        vstd::arithmetic::div_mod::lemma_mod_self_0(len as int);
    }
    if selected > 0 {
        vstd::arithmetic::div_mod::lemma_small_mod(selected as nat, len as nat);
    } else {
        vstd::arithmetic::div_mod::lemma_mod_self_0(len as int);
    }
}

/// What a key pressed during unpaused play asks for, before lane input.
#[derive(Debug, Clone, Copy, PartialEq, Eq, Structural)]
pub enum GameplayHotkey {
    /// Not a hotkey: the key goes on to lane input.
    NotHotkey,
    /// Open the pause overlay on its first option and pause the audio.
    Pause,
    /// Leave auto play or replay for song select, stopping the audio.
    Quit,
    /// Step hi-speed by 25 within 100..=1200 (`true` raises), then save.
    HiSpeed(bool),
    /// Step the lane cover by 0.05 within 0..=0.8 (`true` raises), then save.
    LaneCover(bool),
}

/// The hotkey `code` is during play; `watching` is auto play or a replay.
pub open spec fn gameplay_hotkey_of(code: KeyCode, watching: bool) -> GameplayHotkey {
    if code == KeyCode::Escape {
        if watching {
            GameplayHotkey::Quit
        } else {
            GameplayHotkey::Pause
        }
    } else if code == KeyCode::F3 || code == KeyCode::PageUp || code == KeyCode::Digit1 {
        GameplayHotkey::HiSpeed(true)
    } else if code == KeyCode::F4 || code == KeyCode::PageDown || code == KeyCode::Digit2 {
        GameplayHotkey::HiSpeed(false)
    } else if code == KeyCode::F10 {
        GameplayHotkey::LaneCover(true)
    } else if code == KeyCode::F11 {
        GameplayHotkey::LaneCover(false)
    } else {
        GameplayHotkey::NotHotkey
    }
}

/// Classifies a key pressed during unpaused play.
pub fn gameplay_hotkey(code: KeyCode, watching: bool) -> (h: GameplayHotkey)
    ensures
        h == gameplay_hotkey_of(code, watching),
{
    if code == KeyCode::Escape {
        if watching {
            GameplayHotkey::Quit
        } else {
            GameplayHotkey::Pause
        }
    } else if code == KeyCode::F3 || code == KeyCode::PageUp || code == KeyCode::Digit1 {
        GameplayHotkey::HiSpeed(true)
    } else if code == KeyCode::F4 || code == KeyCode::PageDown || code == KeyCode::Digit2 {
        GameplayHotkey::HiSpeed(false)
    } else if code == KeyCode::F10 {
        GameplayHotkey::LaneCover(true)
    } else if code == KeyCode::F11 {
        GameplayHotkey::LaneCover(false)
    } else {
        GameplayHotkey::NotHotkey
    }
}

/// The lane a key event plays during a song: none while paused, in auto
/// play or in a replay; otherwise the lane the bindings give the key.
pub fn lane_for_event(keys: &InputConfig, paused: bool, watching: bool, key: PhysicalKey) -> (r: Option<Lane>)
    ensures
        r == if paused || watching {
            None
        } else {
            mapped_lane(keys.preset, keys.custom_bindings@, key)
        },
{
    if paused || watching {
        None
    } else {
        keys.map_key(key)
    }
}

/// What a key pressed on the result screen asks for.
#[derive(Debug, Clone, Copy, PartialEq, Eq, Structural)]
pub enum ResultAction {
    Nothing,
    /// Back to song select.
    Back,
    /// Play the same song again.
    Retry,
    /// Save a screenshot of the result screen.
    Screenshot,
}

/// The result-screen action for a key event.
pub open spec fn result_action_of(pressed: bool, code: KeyCode) -> ResultAction {
    if !pressed {
        ResultAction::Nothing
    } else if is_confirm(code) || code == KeyCode::Escape {
        ResultAction::Back
    } else if code == KeyCode::KeyR {
        ResultAction::Retry
    } else if code == KeyCode::KeyP {
        ResultAction::Screenshot
    } else {
        ResultAction::Nothing
    }
}

/// Handles a key event on the result screen.
pub fn result_key(pressed: bool, code: KeyCode) -> (a: ResultAction)
    ensures
        a == result_action_of(pressed, code),
{
    if !pressed {
        ResultAction::Nothing
    } else if code == KeyCode::Enter || code == KeyCode::Space || code == KeyCode::Escape {
        ResultAction::Back
    } else if code == KeyCode::KeyR {
        ResultAction::Retry
    } else if code == KeyCode::KeyP {
        ResultAction::Screenshot
    } else {
        ResultAction::Nothing
    }
}

/// What a key handled before any screen asks for.
#[derive(Debug, Clone, Copy, PartialEq, Eq, Structural)]
pub enum GlobalHotkey {
    /// Not a global hotkey: the key goes on to the current screen.
    NotHotkey,
    /// The gauge or the lane modifier changed; save.
    Save,
    /// Step the judge offset by 2 ms within -100..=100 (`true` raises), then save.
    JudgeOffset(bool),
}

/// Whether `code` is a global hotkey for a key event: pressed, with no search
/// text being typed and no key binding awaited.
pub open spec fn is_global_hotkey(pressed: bool, typing: bool, code: KeyCode) -> bool {
    pressed && !typing && (code == KeyCode::F6 || code == KeyCode::F7 || code == KeyCode::F8 || code == KeyCode::F9)
}

/// Handles the keys that work on every screen: F6 cycles the gauge, F7 the
/// lane modifier, F8 and F9 lower and raise the judge offset. `typing` is
/// whether search text is being typed or a key binding is awaited; then, and
/// for releases, no key is a global hotkey.
pub fn handle_global_key(
    gauge_type: &mut GaugeType,
    lane_modifier: &mut LaneModifier,
    pressed: bool,
    typing: bool,
    code: KeyCode,
) -> (a: GlobalHotkey)
    ensures
        *final(gauge_type) == if is_global_hotkey(pressed, typing, code) && code == KeyCode::F6 {
            gauge_after(*old(gauge_type))
        } else {
            *old(gauge_type)
        },
        *final(lane_modifier) == if is_global_hotkey(pressed, typing, code) && code == KeyCode::F7 {
            modifier_after(*old(lane_modifier))
        } else {
            *old(lane_modifier)
        },
        a == if !is_global_hotkey(pressed, typing, code) {
            GlobalHotkey::NotHotkey
        } else if code == KeyCode::F8 {
            GlobalHotkey::JudgeOffset(false)
        } else if code == KeyCode::F9 {
            GlobalHotkey::JudgeOffset(true)
        } else {
            GlobalHotkey::Save
        },
{
    if !pressed || typing {
        return GlobalHotkey::NotHotkey;
    }
    if code == KeyCode::F6 {
        *gauge_type = match *gauge_type {
            GaugeType::Easy => GaugeType::Groove,
            GaugeType::Groove => GaugeType::Hard,
            GaugeType::Hard => GaugeType::Hazard,
            GaugeType::Hazard => GaugeType::Easy,
        };
        GlobalHotkey::Save
    } else if code == KeyCode::F7 {
        *lane_modifier = match *lane_modifier {
            LaneModifier::Regular => LaneModifier::Mirror,
            LaneModifier::Mirror => LaneModifier::Random,
            LaneModifier::Random => LaneModifier::RRandom,
            LaneModifier::RRandom => LaneModifier::SRandom,
            LaneModifier::SRandom => LaneModifier::Regular,
        };
        GlobalHotkey::Save
    } else if code == KeyCode::F8 {
        GlobalHotkey::JudgeOffset(false)
    } else if code == KeyCode::F9 {
        GlobalHotkey::JudgeOffset(true)
    } else {
        GlobalHotkey::NotHotkey
    }
}

} // verus!
