//! The append-only sequence of accepted events.
use vstd::prelude::*;

use crate::event::Event;

verus! {

/// Accepted events, in the order they were accepted.
pub struct EventLog {
    events: Vec<Event>,
}

impl View for EventLog {
    type V = Seq<Event>;

    closed spec fn view(&self) -> Seq<Event> {
        self.events@
    }
}

impl EventLog {
    /// An empty log.
    pub fn new() -> (r: EventLog)
        ensures
            r@ == Seq::<Event>::empty(),
    {
        EventLog { events: Vec::new() }
    }

    /// Appends `event` at the end of the log.
    pub fn append(&mut self, event: Event)
        ensures
            final(self)@ == old(self)@.push(event),
    {
        self.events.push(event);
    }

    /// The events, oldest first.
    pub fn events(&self) -> (r: &[Event])
        ensures
            r@ == self@,
    {
        self.events.as_slice()
    }

    /// The number of events.
    pub fn len(&self) -> (r: usize)
        ensures
            r == self@.len(),
    {
        self.events.len()
    }
}

impl Default for EventLog {
    fn default() -> (r: EventLog)
        ensures
            r@ == Seq::<Event>::empty(),
    {
        EventLog::new()
    }
}

} // verus!
