//! What the run's journal records.

use vstd::prelude::*;
use vstd::string::*;

verus! {

/// One entry of the journal.
#[derive(Debug)]
pub struct Event {
    pub kind: String,
    pub detail: String,
}

pub struct EventView {
    pub kind: Seq<char>,
    pub detail: Seq<char>,
}

impl View for Event {
    type V = EventView;

    open spec fn view(&self) -> EventView {
        EventView { kind: self.kind@, detail: self.detail@ }
    }
}

impl Event {
    /// An entry of this kind.
    pub fn new(kind: &str, detail: String) -> (r: Event)
        ensures
            r@ == (EventView { kind: kind@, detail: detail@ }),
    {
        Event { kind: kind.to_owned(), detail }
    }
}

/// What was recorded, and the line that tells of it.
#[derive(Debug)]
pub struct Outcome {
    pub event: Event,
    pub line: String,
}

pub struct OutcomeView {
    pub event: EventView,
    pub line: Seq<char>,
}

impl View for Outcome {
    type V = OutcomeView;

    open spec fn view(&self) -> OutcomeView {
        OutcomeView { event: self.event@, line: self.line@ }
    }
}

/// An entry of the journal stands for what its fields hold, and so does what was recorded.
pub proof fn law_events_stand_for_their_fields(event: Event, outcome: Outcome)
    ensures
        event@.kind == event.kind@,
        event@.detail == event.detail@,
        outcome@.event == outcome.event@,
        outcome@.line == outcome.line@,
{
}

} // verus!
