use gamepad_input::axis::AxisState;
use gamepad_input::codes::CODE_ABS_LEFT_Y;
use gamepad_input::codes::CODE_BTN_EAST;
use gamepad_input::codes::CODE_BTN_SOUTH;
use gamepad_input::codes::axis_of_code;
use gamepad_input::codes::button_of_code;
use gamepad_input::digital::DigitalState;
use gamepad_input::events::EventQueue;
use gamepad_input::kinds::AxisKey;
use gamepad_input::kinds::AxisKind;
use gamepad_input::kinds::ButtonKey;
use gamepad_input::kinds::ButtonKind;
use gamepad_input::kinds::CanonicalEvent;
use gamepad_input::kinds::DeviceId;
use gamepad_input::kinds::EventKind;
use gamepad_input::kinds::all_axis_kinds;
use gamepad_input::kinds::all_button_kinds;
use gamepad_input::translator::RawEvent;
use gamepad_input::translator::RawEventKind;
use gamepad_input::translator::connect_device;
use gamepad_input::translator::disconnect_device;
use gamepad_input::translator::drain;
use gamepad_input::translator::frame_pass;
use gamepad_input::translator::startup_pass;

struct Fixture {
    queue: EventQueue,
    inputs: DigitalState,
    axes: AxisState,
}

fn fresh() -> Fixture {
    Fixture { queue: EventQueue::new(), inputs: DigitalState::new(), axes: AxisState::new() }
}

#[test]
fn code_tables() {
    assert_eq!(button_of_code(CODE_BTN_SOUTH), Some(ButtonKind::South));
    assert_eq!(button_of_code(CODE_BTN_EAST), Some(ButtonKind::East));
    assert_eq!(button_of_code(9999), None);
    assert_eq!(axis_of_code(CODE_ABS_LEFT_Y), Some(AxisKind::LeftStickY));
    assert_eq!(axis_of_code(9999), None);
}

#[test]
fn connect_protocol_scenario() {
    let mut f = fresh();
    let d = DeviceId(7);
    connect_device(d, &mut f.queue, &mut f.inputs, &mut f.axes);
    for b in all_button_kinds() {
        let k = ButtonKey(d, b);
        assert!(!f.inputs.pressed(k));
        assert!(!f.inputs.just_pressed(k));
        assert!(!f.inputs.just_released(k));
    }
    for a in all_axis_kinds() {
        let k = AxisKey(d, a);
        assert_eq!(f.axes.get(k).map(f32::from_bits), Some(0.0f32));
    }
    assert_eq!(f.queue.len(), 1);
    assert_eq!(f.queue.get(0), CanonicalEvent(d, EventKind::Connected));
}

#[test]
fn disconnect_protocol_scenario() {
    let mut f = fresh();
    let d = DeviceId(7);
    connect_device(d, &mut f.queue, &mut f.inputs, &mut f.axes);
    // next frame: the device holds South and moves the left stick
    f.queue.update();
    f.inputs.update();
    f.inputs.press(ButtonKey(d, ButtonKind::South));
    f.axes.set(AxisKey(d, AxisKind::LeftStickX), 0.7f32.to_bits());
    // next frame: the device disconnects
    f.queue.update();
    f.inputs.update();
    disconnect_device(d, &mut f.queue, &mut f.inputs, &mut f.axes);
    assert!(!f.inputs.pressed(ButtonKey(d, ButtonKind::South)));
    assert!(!f.inputs.just_released(ButtonKey(d, ButtonKind::South)));
    assert_eq!(f.axes.get(AxisKey(d, AxisKind::LeftStickX)), None);
    assert_eq!(f.queue.len(), 1);
    assert_eq!(f.queue.get(0), CanonicalEvent(d, EventKind::Disconnected));
}

#[test]
fn drain_three_events_scenario() {
    let mut f = fresh();
    let d = DeviceId(2);
    let raw = vec![
        RawEvent { device: d, kind: RawEventKind::ButtonPressed(CODE_BTN_SOUTH) },
        RawEvent { device: d, kind: RawEventKind::AxisChanged(CODE_ABS_LEFT_Y, 0.5f32.to_bits()) },
        RawEvent { device: d, kind: RawEventKind::ButtonPressed(9999) },
    ];
    drain(&raw, &mut f.queue, &mut f.inputs, &mut f.axes);
    assert!(f.inputs.just_pressed(ButtonKey(d, ButtonKind::South)));
    assert_eq!(f.axes.get(AxisKey(d, AxisKind::LeftStickY)).map(f32::from_bits), Some(0.5f32));
    // the unrecognized code left no trace: no other button or axis reads set
    for b in all_button_kinds() {
        if b != ButtonKind::South {
            assert!(!f.inputs.pressed(ButtonKey(d, b)));
            assert!(!f.inputs.just_pressed(ButtonKey(d, b)));
        }
    }
    for a in all_axis_kinds() {
        if a != AxisKind::LeftStickY {
            assert_eq!(f.axes.get(AxisKey(d, a)), None);
        }
    }
    assert_eq!(f.queue.len(), 0);
}

#[test]
fn drain_dispatches_connects_and_releases() {
    let mut f = fresh();
    let d = DeviceId(4);
    let raw = vec![
        RawEvent { device: d, kind: RawEventKind::Connected },
        RawEvent { device: d, kind: RawEventKind::ButtonPressed(CODE_BTN_EAST) },
        RawEvent { device: d, kind: RawEventKind::ButtonReleased(CODE_BTN_EAST) },
        RawEvent { device: d, kind: RawEventKind::Other },
    ];
    drain(&raw, &mut f.queue, &mut f.inputs, &mut f.axes);
    assert_eq!(f.queue.len(), 1);
    assert_eq!(f.queue.get(0), CanonicalEvent(d, EventKind::Connected));
    assert!(!f.inputs.pressed(ButtonKey(d, ButtonKind::East)));
    assert!(f.inputs.just_released(ButtonKey(d, ButtonKind::East)));
}

#[test]
fn frame_pass_begins_the_frame_first() {
    let mut f = fresh();
    let d = DeviceId(5);
    let press = vec![RawEvent { device: d, kind: RawEventKind::ButtonPressed(CODE_BTN_SOUTH) }];
    frame_pass(&press, &mut f.queue, &mut f.inputs, &mut f.axes);
    assert!(f.inputs.just_pressed(ButtonKey(d, ButtonKind::South)));
    // an empty next frame clears the per-frame flags but keeps the hold
    let none: Vec<RawEvent> = Vec::new();
    frame_pass(&none, &mut f.queue, &mut f.inputs, &mut f.axes);
    assert!(f.inputs.pressed(ButtonKey(d, ButtonKind::South)));
    assert!(!f.inputs.just_pressed(ButtonKey(d, ButtonKind::South)));
    assert_eq!(f.queue.len(), 0);
}

#[test]
fn startup_pass_connects_in_enumeration_order() {
    let mut f = fresh();
    let d1 = DeviceId(1);
    let d2 = DeviceId(2);
    let devices = vec![d1, d2];
    startup_pass(&devices, &mut f.queue, &mut f.inputs, &mut f.axes);
    assert_eq!(f.queue.len(), 2);
    assert_eq!(f.queue.get(0), CanonicalEvent(d1, EventKind::Connected));
    assert_eq!(f.queue.get(1), CanonicalEvent(d2, EventKind::Connected));
    assert_eq!(f.axes.get(AxisKey(d2, AxisKind::RightStickX)).map(f32::from_bits), Some(0.0f32));
    assert!(!f.inputs.pressed(ButtonKey(d1, ButtonKind::South)));
}

#[test]
fn reconnection_is_idempotent() {
    // connect, disconnect, connect again ...
    let mut f = fresh();
    let d = DeviceId(3);
    connect_device(d, &mut f.queue, &mut f.inputs, &mut f.axes);
    f.inputs.press(ButtonKey(d, ButtonKind::North));
    f.axes.set(AxisKey(d, AxisKind::LeftStickY), 0.3f32.to_bits());
    disconnect_device(d, &mut f.queue, &mut f.inputs, &mut f.axes);
    connect_device(d, &mut f.queue, &mut f.inputs, &mut f.axes);
    // ... reads exactly as a single connect from a fresh state
    let mut g = fresh();
    connect_device(d, &mut g.queue, &mut g.inputs, &mut g.axes);
    for b in all_button_kinds() {
        let k = ButtonKey(d, b);
        assert_eq!(f.inputs.pressed(k), g.inputs.pressed(k));
        assert_eq!(f.inputs.just_pressed(k), g.inputs.just_pressed(k));
        assert_eq!(f.inputs.just_released(k), g.inputs.just_released(k));
    }
    for a in all_axis_kinds() {
        let k = AxisKey(d, a);
        assert_eq!(f.axes.get(k), g.axes.get(k));
    }
}
