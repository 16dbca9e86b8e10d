use gamepad_input::events::EventQueue;
use gamepad_input::kinds::CanonicalEvent;
use gamepad_input::kinds::DeviceId;
use gamepad_input::kinds::EventKind;

#[test]
fn send_appends_in_order() {
    let mut q = EventQueue::new();
    assert_eq!(q.len(), 0);
    q.send(CanonicalEvent(DeviceId(1), EventKind::Connected));
    q.send(CanonicalEvent(DeviceId(2), EventKind::Disconnected));
    assert_eq!(q.len(), 2);
    assert_eq!(q.get(0), CanonicalEvent(DeviceId(1), EventKind::Connected));
    assert_eq!(q.get(1), CanonicalEvent(DeviceId(2), EventKind::Disconnected));
}

#[test]
fn update_clears_the_previous_frame() {
    let mut q = EventQueue::new();
    q.send(CanonicalEvent(DeviceId(1), EventKind::Connected));
    q.update();
    assert_eq!(q.len(), 0);
}
