//! Frame-based gamepad input tracking.
//!
//! The crate turns raw, per-frame hardware gamepad events (connect,
//! disconnect, button press/release, axis motion) into a normalized,
//! queryable input-state model:
//!
//! - [`digital::DigitalState`] tracks, per digital button, "currently held",
//!   "pressed this frame" and "released this frame";
//! - [`axis::AxisState`] is a last-write-wins store of continuous axis values;
//! - [`translator`] maps hardware codes to canonical identifiers, drives the
//!   two stores, and emits canonical connect/disconnect events.
//!
//! The hardware collaborator (a pollable raw-event source) is not part of the
//! crate: the host polls it, hands the drained events to
//! [`translator::drain`] as plain values, and afterwards informs the source
//! that a frame boundary passed.

pub mod axis;
pub mod codes;
pub mod digital;
pub mod events;
pub mod kinds;
pub mod translator;
