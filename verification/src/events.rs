//! Canonical connection-event queue.
//!
//! An append-only per-frame sequence of [`CanonicalEvent`]s. The host clears
//! it once per frame with [`EventQueue::update`], before the translator runs;
//! consumers read this frame's events before the next begin-frame call.

use vstd::prelude::*;

use crate::kinds::CanonicalEvent;

verus! {

/// Append-only per-frame queue of canonical connection events.
pub struct EventQueue {
    events: Vec<CanonicalEvent>,
}

impl View for EventQueue {
    type V = Seq<CanonicalEvent>;

    closed spec fn view(&self) -> Seq<CanonicalEvent> {
        self.events@
    }
}

impl EventQueue {
    /// An empty queue.
    pub fn new() -> (q: Self)
        ensures
            q@ == Seq::<CanonicalEvent>::empty(),
    {
        EventQueue { events: Vec::new() }
    }

    /// Begin-frame reset: drop every event of the previous frame.
    pub fn update(&mut self)
        ensures
            final(self)@ == Seq::<CanonicalEvent>::empty(),
    {
        self.events.clear();
    }

    /// Append one event.
    pub fn send(&mut self, e: CanonicalEvent)
        ensures
            final(self)@ == old(self)@.push(e),
    {
        self.events.push(e);
    }

    /// Number of events queued this frame.
    pub fn len(&self) -> (n: usize)
        ensures
            n == self@.len(),
    {
        self.events.len()
    }

    /// The `i`-th event of this frame, in append order.
    pub fn get(&self, i: usize) -> (e: CanonicalEvent)
        requires
            i < self@.len(),
        ensures
            e == self@[i as int],
    {
        self.events[i]
    }
}

} // verus!
