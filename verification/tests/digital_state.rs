use gamepad_input::digital::DigitalState;
use gamepad_input::kinds::ButtonKey;
use gamepad_input::kinds::ButtonKind;
use gamepad_input::kinds::DeviceId;
use gamepad_input::kinds::all_button_kinds;

fn key(d: u64, b: ButtonKind) -> ButtonKey {
    ButtonKey(DeviceId(d), b)
}

#[test]
fn untouched_keys_read_false() {
    let s = DigitalState::new();
    for b in all_button_kinds() {
        let k = key(0, b);
        assert!(!s.pressed(k));
        assert!(!s.just_pressed(k));
        assert!(!s.just_released(k));
    }
}

#[test]
fn press_sets_all_three_until_update() {
    let mut s = DigitalState::new();
    let k = key(1, ButtonKind::South);
    s.press(k);
    assert!(s.pressed(k));
    assert!(s.just_pressed(k));
    assert!(!s.just_released(k));
    // an untouched key is unaffected
    let other = key(1, ButtonKind::East);
    assert!(!other.eq(&k));
    assert!(!s.pressed(other));
    assert!(!s.just_pressed(other));
    assert!(!s.just_released(other));
}

#[test]
fn update_keeps_pressed_clears_just_pressed() {
    let mut s = DigitalState::new();
    let k = key(1, ButtonKind::South);
    s.press(k);
    s.update();
    assert!(s.pressed(k));
    assert!(!s.just_pressed(k));
    assert!(!s.just_released(k));
}

#[test]
fn release_then_update() {
    let mut s = DigitalState::new();
    let k = key(2, ButtonKind::West);
    s.press(k);
    s.update();
    s.release(k);
    assert!(!s.pressed(k));
    assert!(s.just_released(k));
    assert!(!s.just_pressed(k));
    s.update();
    assert!(!s.pressed(k));
    assert!(!s.just_released(k));
}

#[test]
fn update_is_idempotent_without_presses() {
    let mut s = DigitalState::new();
    let k = key(2, ButtonKind::Start);
    s.press(k);
    s.update();
    s.update();
    assert!(s.pressed(k));
    assert!(!s.just_pressed(k));
    assert!(!s.just_released(k));
}

#[test]
fn reset_clears_even_same_frame_press() {
    let mut s = DigitalState::new();
    let k = key(3, ButtonKind::Mode);
    s.press(k);
    s.reset(k);
    assert!(!s.pressed(k));
    assert!(!s.just_pressed(k));
    assert!(!s.just_released(k));
}

#[test]
fn reset_clears_same_frame_release_without_just_released() {
    let mut s = DigitalState::new();
    let k = key(3, ButtonKind::Z);
    s.press(k);
    s.update();
    s.release(k);
    s.reset(k);
    assert!(!s.pressed(k));
    assert!(!s.just_released(k));
}

#[test]
fn at_most_one_of_just_pressed_just_released() {
    let mut s = DigitalState::new();
    let k = key(4, ButtonKind::DPadUp);
    s.press(k);
    assert!(!(s.just_pressed(k) && s.just_released(k)));
    s.release(k);
    assert!(!(s.just_pressed(k) && s.just_released(k)));
    s.update();
    assert!(!s.just_pressed(k) && !s.just_released(k));
}
