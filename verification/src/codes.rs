//! Fixed lookup tables from hardware-native event codes to canonical kinds.
//!
//! The codes follow the Linux input-event convention for gamepads (the
//! `BTN_*` and `ABS_*` ranges). A code without a table entry is unrecognized:
//! the translator drops such events silently, since vendor-specific extra
//! controls are expected and out of scope.

use vstd::prelude::*;

use crate::kinds::AxisKind;
use crate::kinds::ButtonKind;

verus! {

pub const CODE_BTN_SOUTH: u16 = 304;

pub const CODE_BTN_EAST: u16 = 305;

pub const CODE_BTN_C: u16 = 306;

pub const CODE_BTN_NORTH: u16 = 307;

pub const CODE_BTN_WEST: u16 = 308;

pub const CODE_BTN_Z: u16 = 309;

pub const CODE_BTN_LEFT_TRIGGER: u16 = 310;

pub const CODE_BTN_RIGHT_TRIGGER: u16 = 311;

pub const CODE_BTN_LEFT_TRIGGER_2: u16 = 312;

pub const CODE_BTN_RIGHT_TRIGGER_2: u16 = 313;

pub const CODE_BTN_SELECT: u16 = 314;

pub const CODE_BTN_START: u16 = 315;

pub const CODE_BTN_MODE: u16 = 316;

pub const CODE_BTN_LEFT_THUMB: u16 = 317;

pub const CODE_BTN_RIGHT_THUMB: u16 = 318;

pub const CODE_BTN_DPAD_UP: u16 = 544;

pub const CODE_BTN_DPAD_DOWN: u16 = 545;

pub const CODE_BTN_DPAD_LEFT: u16 = 546;

pub const CODE_BTN_DPAD_RIGHT: u16 = 547;

pub const CODE_ABS_LEFT_X: u16 = 0;

pub const CODE_ABS_LEFT_Y: u16 = 1;

pub const CODE_ABS_LEFT_Z: u16 = 2;

pub const CODE_ABS_RIGHT_X: u16 = 3;

pub const CODE_ABS_RIGHT_Y: u16 = 4;

pub const CODE_ABS_RIGHT_Z: u16 = 5;

pub const CODE_ABS_DPAD_X: u16 = 16;

pub const CODE_ABS_DPAD_Y: u16 = 17;

/// The button kind a native code stands for, if any.
pub open spec fn spec_button_of_code(code: u16) -> Option<ButtonKind> {
    if code == CODE_BTN_SOUTH {
        Some(ButtonKind::South)
    } else if code == CODE_BTN_EAST {
        Some(ButtonKind::East)
    } else if code == CODE_BTN_C {
        Some(ButtonKind::C)
    } else if code == CODE_BTN_NORTH {
        Some(ButtonKind::North)
    } else if code == CODE_BTN_WEST {
        Some(ButtonKind::West)
    } else if code == CODE_BTN_Z {
        Some(ButtonKind::Z)
    } else if code == CODE_BTN_LEFT_TRIGGER {
        Some(ButtonKind::LeftTrigger)
    } else if code == CODE_BTN_RIGHT_TRIGGER {
        Some(ButtonKind::RightTrigger)
    } else if code == CODE_BTN_LEFT_TRIGGER_2 {
        Some(ButtonKind::LeftTrigger2)
    } else if code == CODE_BTN_RIGHT_TRIGGER_2 {
        Some(ButtonKind::RightTrigger2)
    } else if code == CODE_BTN_SELECT {
        Some(ButtonKind::Select)
    } else if code == CODE_BTN_START {
        Some(ButtonKind::Start)
    } else if code == CODE_BTN_MODE {
        Some(ButtonKind::Mode)
    } else if code == CODE_BTN_LEFT_THUMB {
        Some(ButtonKind::LeftThumb)
    } else if code == CODE_BTN_RIGHT_THUMB {
        Some(ButtonKind::RightThumb)
    } else if code == CODE_BTN_DPAD_UP {
        Some(ButtonKind::DPadUp)
    } else if code == CODE_BTN_DPAD_DOWN {
        Some(ButtonKind::DPadDown)
    } else if code == CODE_BTN_DPAD_LEFT {
        Some(ButtonKind::DPadLeft)
    } else if code == CODE_BTN_DPAD_RIGHT {
        Some(ButtonKind::DPadRight)
    } else {
        None
    }
}

/// The axis kind a native code stands for, if any.
pub open spec fn spec_axis_of_code(code: u16) -> Option<AxisKind> {
    if code == CODE_ABS_LEFT_X {
        Some(AxisKind::LeftStickX)
    } else if code == CODE_ABS_LEFT_Y {
        Some(AxisKind::LeftStickY)
    } else if code == CODE_ABS_LEFT_Z {
        Some(AxisKind::LeftZ)
    } else if code == CODE_ABS_RIGHT_X {
        Some(AxisKind::RightStickX)
    } else if code == CODE_ABS_RIGHT_Y {
        Some(AxisKind::RightStickY)
    } else if code == CODE_ABS_RIGHT_Z {
        Some(AxisKind::RightZ)
    } else if code == CODE_ABS_DPAD_X {
        Some(AxisKind::DPadX)
    } else if code == CODE_ABS_DPAD_Y {
        Some(AxisKind::DPadY)
    } else {
        None
    }
}

/// Map a native button code through the fixed table.
pub fn button_of_code(code: u16) -> (r: Option<ButtonKind>)
    ensures
        r == spec_button_of_code(code),
{
    if code == CODE_BTN_SOUTH {
        Some(ButtonKind::South)
    } else if code == CODE_BTN_EAST {
        Some(ButtonKind::East)
    } else if code == CODE_BTN_C {
        Some(ButtonKind::C)
    } else if code == CODE_BTN_NORTH {
        Some(ButtonKind::North)
    } else if code == CODE_BTN_WEST {
        Some(ButtonKind::West)
    } else if code == CODE_BTN_Z {
        Some(ButtonKind::Z)
    } else if code == CODE_BTN_LEFT_TRIGGER {
        Some(ButtonKind::LeftTrigger)
    } else if code == CODE_BTN_RIGHT_TRIGGER {
        Some(ButtonKind::RightTrigger)
    } else if code == CODE_BTN_LEFT_TRIGGER_2 {
        Some(ButtonKind::LeftTrigger2)
    } else if code == CODE_BTN_RIGHT_TRIGGER_2 {
        Some(ButtonKind::RightTrigger2)
    } else if code == CODE_BTN_SELECT {
        Some(ButtonKind::Select)
    } else if code == CODE_BTN_START {
        Some(ButtonKind::Start)
    } else if code == CODE_BTN_MODE {
        Some(ButtonKind::Mode)
    } else if code == CODE_BTN_LEFT_THUMB {
        Some(ButtonKind::LeftThumb)
    } else if code == CODE_BTN_RIGHT_THUMB {
        Some(ButtonKind::RightThumb)
    } else if code == CODE_BTN_DPAD_UP {
        Some(ButtonKind::DPadUp)
    } else if code == CODE_BTN_DPAD_DOWN {
        Some(ButtonKind::DPadDown)
    } else if code == CODE_BTN_DPAD_LEFT {
        Some(ButtonKind::DPadLeft)
    } else if code == CODE_BTN_DPAD_RIGHT {
        Some(ButtonKind::DPadRight)
    } else {
        None
    }
}

/// Map a native axis code through the fixed table.
pub fn axis_of_code(code: u16) -> (r: Option<AxisKind>)
    ensures
        r == spec_axis_of_code(code),
{
    if code == CODE_ABS_LEFT_X {
        Some(AxisKind::LeftStickX)
    } else if code == CODE_ABS_LEFT_Y {
        Some(AxisKind::LeftStickY)
    } else if code == CODE_ABS_LEFT_Z {
        Some(AxisKind::LeftZ)
    } else if code == CODE_ABS_RIGHT_X {
        Some(AxisKind::RightStickX)
    } else if code == CODE_ABS_RIGHT_Y {
        Some(AxisKind::RightStickY)
    } else if code == CODE_ABS_RIGHT_Z {
        Some(AxisKind::RightZ)
    } else if code == CODE_ABS_DPAD_X {
        Some(AxisKind::DPadX)
    } else if code == CODE_ABS_DPAD_Y {
        Some(AxisKind::DPadY)
    } else {
        None
    }
}

} // verus!
