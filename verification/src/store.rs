//! Durable records of accepted events.
use std::io;
use std::time::SystemTime;

use vstd::prelude::*;

use crate::event::Event;

verus! {

/// `std::time::SystemTime`, carried through as an opaque value.
#[verifier::external_type_specification]
#[verifier::external_body]
pub struct ExSystemTime(SystemTime);

/// `std::io::Error`, carried through as an opaque value.
#[verifier::external_type_specification]
#[verifier::external_body]
pub struct ExIoError(io::Error);

/// `SystemTime::now`: the current time of the system clock. Nothing is
/// stated of the value.
#[verifier::external_body]
fn now() -> SystemTime {
    SystemTime::now()
}

/// An event as a store keeps it: its position in the store and when it was
/// recorded.
#[derive(Debug, Clone, Copy)]
pub struct Recorded {
    /// Zero-based position of the event in its store.
    pub position: u64,
    /// When the event was recorded.
    pub recorded_at: SystemTime,
    /// The event itself.
    pub event: Event,
}

/// An append-only store of events.
pub trait EventStore {
    /// Appends `event` and returns how it was recorded.
    fn append(&mut self, event: Event) -> io::Result<Recorded>;

    /// Every recorded event, oldest first.
    fn read_all(&self) -> io::Result<Vec<Recorded>>;
}

/// An event store held in memory.
pub struct MemoryStore(Vec<Recorded>);

impl View for MemoryStore {
    type V = Seq<Recorded>;

    closed spec fn view(&self) -> Seq<Recorded> {
        self.0@
    }
}

impl MemoryStore {
    /// An empty store.
    pub fn new() -> (r: MemoryStore)
        ensures
            r@ == Seq::<Recorded>::empty(),
    {
        MemoryStore(Vec::new())
    }
}

impl Default for MemoryStore {
    fn default() -> (r: MemoryStore)
        ensures
            r@ == Seq::<Recorded>::empty(),
    {
        Self::new()
    }
}

impl EventStore for MemoryStore {
    /// Records `event` at the next position, stamped with the current time.
    /// Never fails.
    fn append(&mut self, event: Event) -> (r: io::Result<Recorded>)
        ensures
            r matches Ok(recorded) && recorded.position == old(self)@.len()
                && recorded.event == event && final(self)@ == old(self)@.push(recorded),
    {
        let recorded = Recorded { event, position: self.0.len() as u64, recorded_at: now() };
        self.0.push(recorded);
        Ok(recorded)
    }

    /// Every recorded event, oldest first. Never fails.
    fn read_all(&self) -> (r: io::Result<Vec<Recorded>>)
        ensures
            r matches Ok(all) && all@ == self@,
    {
        let mut all: Vec<Recorded> = Vec::new();
        let mut i: usize = 0;
        while i < self.0.len()
            invariant
                i <= self.0@.len(),
                all@ == self.0@.take(i as int),
            decreases self.0@.len() - i,
        {
            all.push(self.0[i]);
            i = i + 1;
            assert(all@ =~= self.0@.take(i as int));
        }
        assert(self.0@.take(i as int) =~= self.0@);
        Ok(all)
    }
}

} // verus!
