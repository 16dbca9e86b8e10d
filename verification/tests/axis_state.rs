use gamepad_input::axis::AxisState;
use gamepad_input::kinds::AxisKey;
use gamepad_input::kinds::AxisKind;
use gamepad_input::kinds::DeviceId;

fn key(d: u64, a: AxisKind) -> AxisKey {
    AxisKey(DeviceId(d), a)
}

#[test]
fn get_before_set_is_absent() {
    let a = AxisState::new();
    assert_eq!(a.get(key(0, AxisKind::LeftStickX)), None);
}

#[test]
fn set_then_get_round_trips_bit_patterns() {
    let mut a = AxisState::new();
    let k = key(1, AxisKind::LeftStickX);
    a.set(k, 0.7f32.to_bits());
    assert_eq!(a.get(k).map(f32::from_bits), Some(0.7f32));
    // negative values pass through untouched too
    a.set(k, (-0.25f32).to_bits());
    assert_eq!(a.get(k).map(f32::from_bits), Some(-0.25f32));
}

#[test]
fn set_overwrites_last_write_wins() {
    let mut a = AxisState::new();
    let k = key(1, AxisKind::RightZ);
    a.set(k, 0.1f32.to_bits());
    a.set(k, 0.9f32.to_bits());
    assert_eq!(a.get(k).map(f32::from_bits), Some(0.9f32));
}

#[test]
fn set_leaves_other_keys_alone() {
    let mut a = AxisState::new();
    let k1 = key(1, AxisKind::DPadX);
    let k2 = key(1, AxisKind::DPadY);
    let k3 = key(2, AxisKind::DPadX);
    a.set(k1, 1.0f32.to_bits());
    assert_eq!(a.get(k2), None);
    assert_eq!(a.get(k3), None);
    a.set(k2, (-1.0f32).to_bits());
    assert_eq!(a.get(k1).map(f32::from_bits), Some(1.0f32));
}

#[test]
fn remove_makes_absent() {
    let mut a = AxisState::new();
    let k = key(3, AxisKind::LeftZ);
    a.set(k, 0.5f32.to_bits());
    a.remove(k);
    assert_eq!(a.get(k), None);
    // removing an absent key is harmless
    a.remove(k);
    assert_eq!(a.get(k), None);
}
