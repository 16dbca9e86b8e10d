//! Canonical identifiers: devices, button kinds, axis kinds, and the keys
//! and events built from them.

use vstd::prelude::*;

verus! {

/// Opaque, stable handle assigned to a physical device for the duration of
/// its connection. Created on connect; invalidated (but not necessarily
/// reused) on disconnect. Equality is by value.
#[derive(Clone, Copy, PartialEq, Eq, Structural, Debug)]
pub struct DeviceId(pub u64);

/// Closed enumeration of the canonical digital controls of a gamepad.
#[derive(Clone, Copy, PartialEq, Eq, Structural, Debug)]
pub enum ButtonKind {
    South,
    East,
    North,
    West,
    C,
    Z,
    LeftTrigger,
    LeftTrigger2,
    RightTrigger,
    RightTrigger2,
    Select,
    Start,
    Mode,
    LeftThumb,
    RightThumb,
    DPadUp,
    DPadDown,
    DPadLeft,
    DPadRight,
}

/// Closed enumeration of the canonical continuous controls of a gamepad.
#[derive(Clone, Copy, PartialEq, Eq, Structural, Debug)]
pub enum AxisKind {
    LeftStickX,
    LeftStickY,
    LeftZ,
    RightStickX,
    RightStickY,
    RightZ,
    DPadX,
    DPadY,
}

/// Key of one digital control: a (device, button kind) pair.
#[derive(Clone, Copy, PartialEq, Eq, Structural, Debug)]
pub struct ButtonKey(pub DeviceId, pub ButtonKind);

/// Key of one continuous control: a (device, axis kind) pair.
#[derive(Clone, Copy, PartialEq, Eq, Structural, Debug)]
pub struct AxisKey(pub DeviceId, pub AxisKind);

/// Kind of a canonical high-level connection event.
#[derive(Clone, Copy, PartialEq, Eq, Structural, Debug)]
pub enum EventKind {
    Connected,
    Disconnected,
}

/// Canonical high-level event surfaced to consumers.
#[derive(Clone, Copy, PartialEq, Eq, Structural, Debug)]
pub struct CanonicalEvent(pub DeviceId, pub EventKind);

/// Every [`ButtonKind`], each exactly once.
pub fn all_button_kinds() -> (r: Vec<ButtonKind>)
    ensures
        r@.len() == 19,
        forall|b: ButtonKind| r@.contains(b),
{
    let mut v: Vec<ButtonKind> = Vec::new();
    v.push(ButtonKind::South);
    v.push(ButtonKind::East);
    v.push(ButtonKind::North);
    v.push(ButtonKind::West);
    v.push(ButtonKind::C);
    v.push(ButtonKind::Z);
    v.push(ButtonKind::LeftTrigger);
    v.push(ButtonKind::LeftTrigger2);
    v.push(ButtonKind::RightTrigger);
    v.push(ButtonKind::RightTrigger2);
    v.push(ButtonKind::Select);
    v.push(ButtonKind::Start);
    v.push(ButtonKind::Mode);
    v.push(ButtonKind::LeftThumb);
    v.push(ButtonKind::RightThumb);
    v.push(ButtonKind::DPadUp);
    v.push(ButtonKind::DPadDown);
    v.push(ButtonKind::DPadLeft);
    v.push(ButtonKind::DPadRight);
    proof {
        assert forall|b: ButtonKind| v@.contains(b) by {
            match b {
                ButtonKind::South => assert(v@[0] == b),
                ButtonKind::East => assert(v@[1] == b),
                ButtonKind::North => assert(v@[2] == b),
                ButtonKind::West => assert(v@[3] == b),
                ButtonKind::C => assert(v@[4] == b),
                ButtonKind::Z => assert(v@[5] == b),
                ButtonKind::LeftTrigger => assert(v@[6] == b),
                ButtonKind::LeftTrigger2 => assert(v@[7] == b),
                ButtonKind::RightTrigger => assert(v@[8] == b),
                ButtonKind::RightTrigger2 => assert(v@[9] == b),
                ButtonKind::Select => assert(v@[10] == b),
                ButtonKind::Start => assert(v@[11] == b),
                ButtonKind::Mode => assert(v@[12] == b),
                ButtonKind::LeftThumb => assert(v@[13] == b),
                ButtonKind::RightThumb => assert(v@[14] == b),
                ButtonKind::DPadUp => assert(v@[15] == b),
                ButtonKind::DPadDown => assert(v@[16] == b),
                ButtonKind::DPadLeft => assert(v@[17] == b),
                ButtonKind::DPadRight => assert(v@[18] == b),
            }
        }
    }
    v
}

/// Every [`AxisKind`], each exactly once.
pub fn all_axis_kinds() -> (r: Vec<AxisKind>)
    ensures
        r@.len() == 8,
        forall|a: AxisKind| r@.contains(a),
{
    let mut v: Vec<AxisKind> = Vec::new();
    v.push(AxisKind::LeftStickX);
    v.push(AxisKind::LeftStickY);
    v.push(AxisKind::LeftZ);
    v.push(AxisKind::RightStickX);
    v.push(AxisKind::RightStickY);
    v.push(AxisKind::RightZ);
    v.push(AxisKind::DPadX);
    v.push(AxisKind::DPadY);
    proof {
        assert forall|a: AxisKind| v@.contains(a) by {
            match a {
                AxisKind::LeftStickX => assert(v@[0] == a),
                AxisKind::LeftStickY => assert(v@[1] == a),
                AxisKind::LeftZ => assert(v@[2] == a),
                AxisKind::RightStickX => assert(v@[3] == a),
                AxisKind::RightStickY => assert(v@[4] == a),
                AxisKind::RightZ => assert(v@[5] == a),
                AxisKind::DPadX => assert(v@[6] == a),
                AxisKind::DPadY => assert(v@[7] == a),
            }
        }
    }
    v
}

} // verus!
