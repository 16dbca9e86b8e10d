//! The per-frame driver: it maps raw hardware events onto the normalized
//! input model.
//!
//! The host polls its raw-event source once per frame, hands the drained
//! events here as plain values, and afterwards tells the source that a frame
//! boundary passed. The translator dispatches each raw event in order:
//! connect and disconnect events run a canonicalization protocol over every
//! button and axis kind of the device, button and axis events go through the
//! fixed code tables of [`crate::codes`], and unrecognized codes are dropped
//! silently.
//!
//! The contracts speak of [`InputModel`], a ghost snapshot of the two stores
//! and the canonical queue: each operation's result equals a spec-level step
//! function applied to the snapshot, so the whole per-frame drive is pinned
//! down as a fold over the incoming events.

use vstd::prelude::*;

use crate::axis::AxisState;
use crate::codes::spec_axis_of_code;
use crate::codes::spec_button_of_code;
use crate::codes::axis_of_code;
use crate::codes::button_of_code;
use crate::digital::DigitalState;
use crate::events::EventQueue;
use crate::kinds::all_axis_kinds;
use crate::kinds::all_button_kinds;
use crate::kinds::AxisKey;
use crate::kinds::ButtonKey;
use crate::kinds::CanonicalEvent;
use crate::kinds::DeviceId;
use crate::kinds::EventKind;

verus! {

/// One raw event as reported by the hardware source, reduced to plain
/// values: native button and axis codes, and the axis reading as the raw
/// 32-bit pattern of the hardware's normalized value.
#[derive(Clone, Copy, PartialEq, Eq, Structural, Debug)]
pub enum RawEventKind {
    Connected,
    Disconnected,
    ButtonPressed(u16),
    ButtonReleased(u16),
    AxisChanged(u16, u32),
    Other,
}

/// A raw event together with the device that reported it.
#[derive(Clone, Copy, PartialEq, Eq, Structural, Debug)]
pub struct RawEvent {
    pub device: DeviceId,
    pub kind: RawEventKind,
}

/// Ghost snapshot of the whole input state: for every digital key its
/// (pressed, changed-this-frame) flags, for every stored axis key its value,
/// and this frame's canonical events in append order.
#[verifier::ext_equal]
pub ghost struct InputModel {
    pub digital: Map<ButtonKey, (bool, bool)>,
    pub axes: Map<AxisKey, u32>,
    pub queue: Seq<CanonicalEvent>,
}

/// The snapshot of concrete stores and queue.
pub open spec fn model_of(inputs: DigitalState, axes: AxisState, queue: EventQueue) -> InputModel {
    InputModel {
        digital: Map::total(|k: ButtonKey| (inputs.spec_pressed(k), inputs.spec_changed(k))),
        axes: Map::new(|k: AxisKey| axes.spec_contains(k), |k: AxisKey| axes.spec_value(k)),
        queue: queue@,
    }
}

/// Begin-frame reset: the canonical queue empties and every "changed this
/// frame" flag clears; pressed flags and axis values stay.
pub open spec fn begin_frame_spec(m: InputModel) -> InputModel {
    InputModel {
        digital: Map::total(|k: ButtonKey| (m.digital[k].0, false)),
        axes: m.axes,
        queue: Seq::empty(),
    }
}

/// Connect protocol: every button of the device reads as never touched,
/// every axis of the device reads 0 (the pattern of 0.0), and one Connected
/// event is appended.
pub open spec fn connect_spec(m: InputModel, d: DeviceId) -> InputModel {
    InputModel {
        digital: Map::total(
            |k: ButtonKey|
                if k.0 == d {
                    (false, false)
                } else {
                    m.digital[k]
                },
        ),
        axes: Map::new(
            |k: AxisKey| k.0 == d || m.axes.dom().contains(k),
            |k: AxisKey|
                if k.0 == d {
                    0u32
                } else {
                    m.axes[k]
                },
        ),
        queue: m.queue.push(CanonicalEvent(d, EventKind::Connected)),
    }
}

/// Disconnect protocol: every button of the device reads as never touched,
/// every axis of the device reads as absent, and one Disconnected event is
/// appended.
pub open spec fn disconnect_spec(m: InputModel, d: DeviceId) -> InputModel {
    InputModel {
        digital: Map::total(
            |k: ButtonKey|
                if k.0 == d {
                    (false, false)
                } else {
                    m.digital[k]
                },
        ),
        axes: Map::new(
            |k: AxisKey| k.0 != d && m.axes.dom().contains(k),
            |k: AxisKey| m.axes[k],
        ),
        queue: m.queue.push(CanonicalEvent(d, EventKind::Disconnected)),
    }
}

/// Dispatch of a single raw event, as the per-frame drain performs it.
pub open spec fn step_spec(m: InputModel, e: RawEvent) -> InputModel {
    match e.kind {
        RawEventKind::Connected => connect_spec(m, e.device),
        RawEventKind::Disconnected => disconnect_spec(m, e.device),
        RawEventKind::ButtonPressed(code) => match spec_button_of_code(code) {
            Some(b) => InputModel {
                digital: m.digital.insert(ButtonKey(e.device, b), (true, true)),
                axes: m.axes,
                queue: m.queue,
            },
            None => m,
        },
        RawEventKind::ButtonReleased(code) => match spec_button_of_code(code) {
            Some(b) => InputModel {
                digital: m.digital.insert(ButtonKey(e.device, b), (false, true)),
                axes: m.axes,
                queue: m.queue,
            },
            None => m,
        },
        RawEventKind::AxisChanged(code, v) => match spec_axis_of_code(code) {
            Some(a) => InputModel {
                digital: m.digital,
                axes: m.axes.insert(AxisKey(e.device, a), v),
                queue: m.queue,
            },
            None => m,
        },
        RawEventKind::Other => m,
    }
}

/// Fold of [`step_spec`] over a sequence of raw events, in order.
pub open spec fn run_spec(m: InputModel, evs: Seq<RawEvent>) -> InputModel
    decreases evs.len(),
{
    if evs.len() == 0 {
        m
    } else {
        run_spec(step_spec(m, evs[0]), evs.subrange(1, evs.len() as int))
    }
}

/// Fold of [`connect_spec`] over a sequence of devices, in order.
pub open spec fn run_connects_spec(m: InputModel, ds: Seq<DeviceId>) -> InputModel
    decreases ds.len(),
{
    if ds.len() == 0 {
        m
    } else {
        run_connects_spec(connect_spec(m, ds[0]), ds.subrange(1, ds.len() as int))
    }
}

/// Folding one more event steps the fold's result.
pub proof fn lemma_run_push(m: InputModel, evs: Seq<RawEvent>, e: RawEvent)
    ensures
        run_spec(m, evs.push(e)) == step_spec(run_spec(m, evs), e),
    decreases evs.len(),
{
    if evs.len() == 0 {
        assert(evs.push(e)[0] == e);
        assert(evs.push(e).subrange(1, evs.push(e).len() as int) =~= Seq::<RawEvent>::empty());
        assert(run_spec(step_spec(m, e), Seq::<RawEvent>::empty()) == step_spec(m, e));
        assert(run_spec(m, evs) == m);
    } else {
        assert(evs.push(e)[0] == evs[0]);
        assert(evs.push(e).subrange(1, evs.push(e).len() as int) =~= evs.subrange(
            1,
            evs.len() as int,
        ).push(e));
        lemma_run_push(step_spec(m, evs[0]), evs.subrange(1, evs.len() as int), e);
        assert(run_spec(m, evs.push(e)) == run_spec(
            step_spec(m, evs[0]),
            evs.subrange(1, evs.len() as int).push(e),
        ));
        assert(run_spec(m, evs) == run_spec(step_spec(m, evs[0]), evs.subrange(1, evs.len() as int)));
    }
}

/// Connecting one more device steps the fold's result.
pub proof fn lemma_run_connects_push(m: InputModel, ds: Seq<DeviceId>, d: DeviceId)
    ensures
        run_connects_spec(m, ds.push(d)) == connect_spec(run_connects_spec(m, ds), d),
    decreases ds.len(),
{
    if ds.len() == 0 {
        assert(ds.push(d)[0] == d);
        assert(ds.push(d).subrange(1, ds.push(d).len() as int) =~= Seq::<DeviceId>::empty());
        assert(run_connects_spec(connect_spec(m, d), Seq::<DeviceId>::empty()) == connect_spec(
            m,
            d,
        ));
        assert(run_connects_spec(m, ds) == m);
    } else {
        assert(ds.push(d)[0] == ds[0]);
        assert(ds.push(d).subrange(1, ds.push(d).len() as int) =~= ds.subrange(
            1,
            ds.len() as int,
        ).push(d));
        lemma_run_connects_push(connect_spec(m, ds[0]), ds.subrange(1, ds.len() as int), d);
        assert(run_connects_spec(m, ds.push(d)) == run_connects_spec(
            connect_spec(m, ds[0]),
            ds.subrange(1, ds.len() as int).push(d),
        ));
        assert(run_connects_spec(m, ds) == run_connects_spec(
            connect_spec(m, ds[0]),
            ds.subrange(1, ds.len() as int),
        ));
    }
}

/// Run the connect protocol for `d`: reset every button kind of the device,
/// zero every axis kind, and append one Connected event. Reconnecting devices
/// therefore report no spurious transitions and read centered.
pub fn connect_device(
    d: DeviceId,
    queue: &mut EventQueue,
    inputs: &mut DigitalState,
    axes: &mut AxisState,
)
    requires
        old(inputs).wf(),
        old(axes).wf(),
    ensures
        final(inputs).wf(),
        final(axes).wf(),
        model_of(*final(inputs), *final(axes), *final(queue)) == connect_spec(
            model_of(*old(inputs), *old(axes), *old(queue)),
            d,
        ),
{
    let buttons = all_button_kinds();
    let mut i: usize = 0;
    while i < buttons.len()
        invariant
            inputs.wf(),
            i <= buttons@.len(),
            forall|j: int|
                0 <= j < i ==> !inputs.spec_pressed(ButtonKey(d, buttons@[j]))
                    && !inputs.spec_changed(ButtonKey(d, buttons@[j])),
            forall|k: ButtonKey|
                k.0 != d ==> inputs.spec_pressed(k) == old(inputs).spec_pressed(k)
                    && inputs.spec_changed(k) == old(inputs).spec_changed(k),
        decreases buttons@.len() - i,
    {
        inputs.reset(ButtonKey(d, buttons[i]));
        i = i + 1;
    }
    proof {
        assert forall|k: ButtonKey| k.0 == d implies !inputs.spec_pressed(k)
            && !inputs.spec_changed(k) by {
            assert(buttons@.contains(k.1));
            let j = choose|j: int| 0 <= j < buttons@.len() && buttons@[j] == k.1;
            assert(!inputs.spec_pressed(ButtonKey(d, buttons@[j])));
            assert(ButtonKey(d, buttons@[j]) == k);
        }
    }
    let axis_kinds = all_axis_kinds();
    let mut a: usize = 0;
    while a < axis_kinds.len()
        invariant
            axes.wf(),
            a <= axis_kinds@.len(),
            forall|j: int|
                0 <= j < a ==> axes.spec_get(AxisKey(d, axis_kinds@[j])) == Some(0u32),
            forall|k: AxisKey| k.0 != d ==> axes.spec_get(k) == old(axes).spec_get(k),
        decreases axis_kinds@.len() - a,
    {
        axes.set(AxisKey(d, axis_kinds[a]), 0);
        a = a + 1;
    }
    proof {
        assert forall|k: AxisKey| k.0 == d implies axes.spec_get(k) == Some(0u32) by {
            assert(axis_kinds@.contains(k.1));
            let j = choose|j: int| 0 <= j < axis_kinds@.len() && axis_kinds@[j] == k.1;
            assert(axes.spec_get(AxisKey(d, axis_kinds@[j])) == Some(0u32));
            assert(AxisKey(d, axis_kinds@[j]) == k);
        }
    }
    queue.send(CanonicalEvent(d, EventKind::Connected));
    proof {
        let m1 = model_of(*old(inputs), *old(axes), *old(queue));
        let m2 = model_of(*inputs, *axes, *queue);
        assert forall|k: AxisKey| k.0 == d implies axes.spec_contains(k) && axes.spec_value(k)
            == 0u32 by {
            assert(axes.spec_get(k) == Some(0u32));
        }
        assert forall|k: AxisKey| k.0 != d implies axes.spec_contains(k) == old(
            axes,
        ).spec_contains(k) && (axes.spec_contains(k) ==> axes.spec_value(k) == old(
            axes,
        ).spec_value(k)) by {
            assert(axes.spec_get(k) == old(axes).spec_get(k));
        }
        assert(m2.digital =~= connect_spec(m1, d).digital);
        assert(m2.axes =~= connect_spec(m1, d).axes);
        assert(m2.queue =~= connect_spec(m1, d).queue);
        assert(m2 =~= connect_spec(m1, d));
    }
}

/// Run the disconnect protocol for `d`: reset every button kind of the
/// device, remove every axis kind (absent, not zero, since the device is
/// gone), and append one Disconnected event.
pub fn disconnect_device(
    d: DeviceId,
    queue: &mut EventQueue,
    inputs: &mut DigitalState,
    axes: &mut AxisState,
)
    requires
        old(inputs).wf(),
        old(axes).wf(),
    ensures
        final(inputs).wf(),
        final(axes).wf(),
        model_of(*final(inputs), *final(axes), *final(queue)) == disconnect_spec(
            model_of(*old(inputs), *old(axes), *old(queue)),
            d,
        ),
{
    let buttons = all_button_kinds();
    let mut i: usize = 0;
    while i < buttons.len()
        invariant
            inputs.wf(),
            i <= buttons@.len(),
            forall|j: int|
                0 <= j < i ==> !inputs.spec_pressed(ButtonKey(d, buttons@[j]))
                    && !inputs.spec_changed(ButtonKey(d, buttons@[j])),
            forall|k: ButtonKey|
                k.0 != d ==> inputs.spec_pressed(k) == old(inputs).spec_pressed(k)
                    && inputs.spec_changed(k) == old(inputs).spec_changed(k),
        decreases buttons@.len() - i,
    {
        inputs.reset(ButtonKey(d, buttons[i]));
        i = i + 1;
    }
    proof {
        assert forall|k: ButtonKey| k.0 == d implies !inputs.spec_pressed(k)
            && !inputs.spec_changed(k) by {
            assert(buttons@.contains(k.1));
            let j = choose|j: int| 0 <= j < buttons@.len() && buttons@[j] == k.1;
            assert(!inputs.spec_pressed(ButtonKey(d, buttons@[j])));
            assert(ButtonKey(d, buttons@[j]) == k);
        }
    }
    let axis_kinds = all_axis_kinds();
    let mut a: usize = 0;
    while a < axis_kinds.len()
        invariant
            axes.wf(),
            a <= axis_kinds@.len(),
            forall|j: int|
                0 <= j < a ==> axes.spec_get(AxisKey(d, axis_kinds@[j])) == Option::<u32>::None,
            forall|k: AxisKey| k.0 != d ==> axes.spec_get(k) == old(axes).spec_get(k),
        decreases axis_kinds@.len() - a,
    {
        axes.remove(AxisKey(d, axis_kinds[a]));
        a = a + 1;
    }
    proof {
        assert forall|k: AxisKey| k.0 == d implies axes.spec_get(k) == Option::<u32>::None by {
            assert(axis_kinds@.contains(k.1));
            let j = choose|j: int| 0 <= j < axis_kinds@.len() && axis_kinds@[j] == k.1;
            assert(axes.spec_get(AxisKey(d, axis_kinds@[j])) == Option::<u32>::None);
            assert(AxisKey(d, axis_kinds@[j]) == k);
        }
    }
    queue.send(CanonicalEvent(d, EventKind::Disconnected));
    proof {
        let m1 = model_of(*old(inputs), *old(axes), *old(queue));
        let m2 = model_of(*inputs, *axes, *queue);
        assert forall|k: AxisKey| k.0 == d implies !axes.spec_contains(k) by {
            assert(axes.spec_get(k) == Option::<u32>::None);
        }
        assert forall|k: AxisKey| k.0 != d implies axes.spec_contains(k) == old(
            axes,
        ).spec_contains(k) && (axes.spec_contains(k) ==> axes.spec_value(k) == old(
            axes,
        ).spec_value(k)) by {
            assert(axes.spec_get(k) == old(axes).spec_get(k));
        }
        assert(m2.digital =~= disconnect_spec(m1, d).digital);
        assert(m2.axes =~= disconnect_spec(m1, d).axes);
        assert(m2.queue =~= disconnect_spec(m1, d).queue);
        assert(m2 =~= disconnect_spec(m1, d));
    }
}

/// Dispatch one raw event: connect and disconnect run their protocols,
/// recognized button codes press or release, recognized axis codes store the
/// value, and everything else is dropped silently.
pub fn process_raw_event(
    e: RawEvent,
    queue: &mut EventQueue,
    inputs: &mut DigitalState,
    axes: &mut AxisState,
)
    requires
        old(inputs).wf(),
        old(axes).wf(),
    ensures
        final(inputs).wf(),
        final(axes).wf(),
        model_of(*final(inputs), *final(axes), *final(queue)) == step_spec(
            model_of(*old(inputs), *old(axes), *old(queue)),
            e,
        ),
{
    let ghost m1 = model_of(*old(inputs), *old(axes), *old(queue));
    match e.kind {
        RawEventKind::Connected => {
            connect_device(e.device, queue, inputs, axes);
        },
        RawEventKind::Disconnected => {
            disconnect_device(e.device, queue, inputs, axes);
        },
        RawEventKind::ButtonPressed(code) => {
            let converted = button_of_code(code);
            match converted {
                Some(b) => {
                    inputs.press(ButtonKey(e.device, b));
                    proof {
                        let m2 = model_of(*inputs, *axes, *queue);
                        assert(m2.digital =~= m1.digital.insert(ButtonKey(e.device, b), (true, true)));
                        assert(m2 =~= step_spec(m1, e));
                    }
                },
                None => {},
            }
        },
        RawEventKind::ButtonReleased(code) => {
            let converted = button_of_code(code);
            match converted {
                Some(b) => {
                    inputs.release(ButtonKey(e.device, b));
                    proof {
                        let m2 = model_of(*inputs, *axes, *queue);
                        assert(m2.digital =~= m1.digital.insert(ButtonKey(e.device, b), (false, true)));
                        assert(m2 =~= step_spec(m1, e));
                    }
                },
                None => {},
            }
        },
        RawEventKind::AxisChanged(code, v) => {
            let converted = axis_of_code(code);
            match converted {
                Some(a) => {
                    axes.set(AxisKey(e.device, a), v);
                    proof {
                        let m2 = model_of(*inputs, *axes, *queue);
                        let key = AxisKey(e.device, a);
                        assert(axes.spec_contains(key) && axes.spec_value(key) == v) by {
                            assert(axes.spec_get(key) == Some(v));
                        }
                        assert forall|k: AxisKey| k != key implies axes.spec_contains(k) == old(
                            axes,
                        ).spec_contains(k) && (axes.spec_contains(k) ==> axes.spec_value(k) == old(
                            axes,
                        ).spec_value(k)) by {
                            assert(axes.spec_get(k) == old(axes).spec_get(k));
                        }
                        assert(m2.axes =~= m1.axes.insert(AxisKey(e.device, a), v));
                        assert(m2 =~= step_spec(m1, e));
                    }
                },
                None => {},
            }
        },
        RawEventKind::Other => {},
    }
}

/// Per-frame drain: dispatch every raw event the host pulled this frame, in
/// order. The host is expected to have begun the frame first (queue and
/// digital-store `update`), and to inform its source of the frame boundary
/// exactly once afterwards, however many events were drained.
pub fn drain(
    raw: &Vec<RawEvent>,
    queue: &mut EventQueue,
    inputs: &mut DigitalState,
    axes: &mut AxisState,
)
    requires
        old(inputs).wf(),
        old(axes).wf(),
    ensures
        final(inputs).wf(),
        final(axes).wf(),
        model_of(*final(inputs), *final(axes), *final(queue)) == run_spec(
            model_of(*old(inputs), *old(axes), *old(queue)),
            raw@,
        ),
{
    let ghost m0 = model_of(*inputs, *axes, *queue);
    let mut i: usize = 0;
    while i < raw.len()
        invariant
            inputs.wf(),
            axes.wf(),
            i <= raw@.len(),
            model_of(*inputs, *axes, *queue) == run_spec(m0, raw@.subrange(0, i as int)),
        decreases raw@.len() - i,
    {
        let e = raw[i];
        process_raw_event(e, queue, inputs, axes);
        proof {
            assert(raw@.subrange(0, i as int).push(raw@[i as int]) =~= raw@.subrange(
                0,
                i + 1,
            ));
            lemma_run_push(m0, raw@.subrange(0, i as int), raw@[i as int]);
        }
        i = i + 1;
    }
    proof {
        assert(raw@.subrange(0, raw@.len() as int) =~= raw@);
    }
}

/// Startup enumeration pass (to run exactly once, before the first per-frame
/// cycle): begin the frame, then run the connect protocol for every device
/// already present, in enumeration order.
pub fn startup_pass(
    devices: &Vec<DeviceId>,
    queue: &mut EventQueue,
    inputs: &mut DigitalState,
    axes: &mut AxisState,
)
    requires
        old(inputs).wf(),
        old(axes).wf(),
    ensures
        final(inputs).wf(),
        final(axes).wf(),
        model_of(*final(inputs), *final(axes), *final(queue)) == run_connects_spec(
            begin_frame_spec(model_of(*old(inputs), *old(axes), *old(queue))),
            devices@,
        ),
{
    let ghost m_in = model_of(*old(inputs), *old(axes), *old(queue));
    queue.update();
    inputs.update();
    proof {
        let m0 = model_of(*inputs, *axes, *queue);
        assert(m0.digital =~= begin_frame_spec(m_in).digital);
        assert(m0.axes =~= begin_frame_spec(m_in).axes);
        assert(m0.queue =~= begin_frame_spec(m_in).queue);
        assert(m0 =~= begin_frame_spec(m_in));
    }
    let ghost m0 = model_of(*inputs, *axes, *queue);
    let mut i: usize = 0;
    while i < devices.len()
        invariant
            inputs.wf(),
            axes.wf(),
            i <= devices@.len(),
            model_of(*inputs, *axes, *queue) == run_connects_spec(m0, devices@.subrange(0, i as int)),
        decreases devices@.len() - i,
    {
        connect_device(devices[i], queue, inputs, axes);
        proof {
            assert(devices@.subrange(0, i as int).push(devices@[i as int]) =~= devices@.subrange(
                0,
                i + 1,
            ));
            lemma_run_connects_push(m0, devices@.subrange(0, i as int), devices@[i as int]);
        }
        i = i + 1;
    }
    proof {
        assert(devices@.subrange(0, devices@.len() as int) =~= devices@);
    }
}

/// Per-frame pass: begin the frame (clear the canonical queue and every
/// "changed this frame" flag), then drain this frame's raw events in order.
/// The host informs its source of the frame boundary exactly once afterwards.
pub fn frame_pass(
    raw: &Vec<RawEvent>,
    queue: &mut EventQueue,
    inputs: &mut DigitalState,
    axes: &mut AxisState,
)
    requires
        old(inputs).wf(),
        old(axes).wf(),
    ensures
        final(inputs).wf(),
        final(axes).wf(),
        model_of(*final(inputs), *final(axes), *final(queue)) == run_spec(
            begin_frame_spec(model_of(*old(inputs), *old(axes), *old(queue))),
            raw@,
        ),
{
    let ghost m_in = model_of(*old(inputs), *old(axes), *old(queue));
    queue.update();
    inputs.update();
    proof {
        let m0 = model_of(*inputs, *axes, *queue);
        assert(m0.digital =~= begin_frame_spec(m_in).digital);
        assert(m0.axes =~= begin_frame_spec(m_in).axes);
        assert(m0.queue =~= begin_frame_spec(m_in).queue);
        assert(m0 =~= begin_frame_spec(m_in));
    }
    drain(raw, queue, inputs, axes);
}

/// Reconnection is idempotent: connect, disconnect and connect again leaves
/// every button and axis reading exactly as a single connect does. (The
/// canonical queue is per-frame history, not device state: it records all
/// three events.)
pub proof fn lemma_reconnect_idempotent(m: InputModel, d: DeviceId)
    ensures
        connect_spec(disconnect_spec(connect_spec(m, d), d), d).digital == connect_spec(
            m,
            d,
        ).digital,
        connect_spec(disconnect_spec(connect_spec(m, d), d), d).axes == connect_spec(m, d).axes,
{
    assert(connect_spec(disconnect_spec(connect_spec(m, d), d), d).digital =~= connect_spec(
        m,
        d,
    ).digital);
    assert(connect_spec(disconnect_spec(connect_spec(m, d), d), d).axes =~= connect_spec(
        m,
        d,
    ).axes);
}

} // verus!
