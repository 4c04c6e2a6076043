//! The event alphabet: the flat sequence of markers a document tree is
//! linearized into before it is rendered.

use vstd::prelude::*;

use crate::{Error, Feature};

verus! {

/// Turns a higher level representation of a stream, or of a part of one,
/// into its events.
pub trait IntoEvents: Sized {
    /// The events of the value, in the order in which they are emitted.
    spec fn linearized(&self) -> Seq<EventView>;

    /// Whether every node of the value can be linearized. A floating point
    /// node cannot.
    spec fn linearizable(&self) -> bool;

    /// Linearizes the value, which is consumed. Fails if the value holds a
    /// node that is not supported.
    fn into_events(self) -> (result: Result<Vec<Event>, Error>)
        ensures
            match result {
                Ok(events) => self.linearizable() && views(events@) == self.linearized(),
                Err(error) => !self.linearizable() && error == Error::Unsupported(
                    Feature::FloatingPoint,
                ),
            },
    ;
}

/// One marker of the linearized document.
///
/// Events carry no type information beyond their kind. Whether a scalar is
/// a sequence item, a mapping key or a mapping value follows from its
/// position alone.
#[derive(Debug)]
pub enum Event {
    StreamStart,
    StreamEnd,
    DocumentStart,
    DocumentEnd,
    MappingStart,
    MappingEnd,
    SequenceStart,
    SequenceEnd,
    Scalar(String),
    Comment(String),
    Alias(usize),
}

/// The mathematical value of an [`Event`]: text payloads are character
/// sequences.
pub enum EventView {
    StreamStart,
    StreamEnd,
    DocumentStart,
    DocumentEnd,
    MappingStart,
    MappingEnd,
    SequenceStart,
    SequenceEnd,
    Scalar(Seq<char>),
    Comment(Seq<char>),
    Alias(usize),
}

impl EventView {
    /// Whether the two events are the same kind of marker, whatever text
    /// or number they carry.
    pub open spec fn same_kind(self, other: EventView) -> bool {
        match (self, other) {
            (EventView::StreamStart, EventView::StreamStart) => true,
            (EventView::StreamEnd, EventView::StreamEnd) => true,
            (EventView::DocumentStart, EventView::DocumentStart) => true,
            (EventView::DocumentEnd, EventView::DocumentEnd) => true,
            (EventView::MappingStart, EventView::MappingStart) => true,
            (EventView::MappingEnd, EventView::MappingEnd) => true,
            (EventView::SequenceStart, EventView::SequenceStart) => true,
            (EventView::SequenceEnd, EventView::SequenceEnd) => true,
            (EventView::Scalar(_), EventView::Scalar(_)) => true,
            (EventView::Comment(_), EventView::Comment(_)) => true,
            (EventView::Alias(_), EventView::Alias(_)) => true,
            _ => false,
        }
    }
}

impl View for Event {
    type V = EventView;

    open spec fn view(&self) -> EventView {
        match self {
            Event::StreamStart => EventView::StreamStart,
            Event::StreamEnd => EventView::StreamEnd,
            Event::DocumentStart => EventView::DocumentStart,
            Event::DocumentEnd => EventView::DocumentEnd,
            Event::MappingStart => EventView::MappingStart,
            Event::MappingEnd => EventView::MappingEnd,
            Event::SequenceStart => EventView::SequenceStart,
            Event::SequenceEnd => EventView::SequenceEnd,
            Event::Scalar(text) => EventView::Scalar(text@),
            Event::Comment(text) => EventView::Comment(text@),
            Event::Alias(id) => EventView::Alias(*id),
        }
    }
}

impl DeepView for Event {
    type V = EventView;

    open spec fn deep_view(&self) -> EventView {
        self@
    }
}

impl Event {
    /// Whether the two events are the same kind of marker, whatever text
    /// or number they carry.
    pub fn same_kind(&self, other: &Event) -> (same: bool)
        ensures
            same == self@.same_kind(other@),
    {
        match (self, other) {
            (Event::StreamStart, Event::StreamStart) => true,
            (Event::StreamEnd, Event::StreamEnd) => true,
            (Event::DocumentStart, Event::DocumentStart) => true,
            (Event::DocumentEnd, Event::DocumentEnd) => true,
            (Event::MappingStart, Event::MappingStart) => true,
            (Event::MappingEnd, Event::MappingEnd) => true,
            (Event::SequenceStart, Event::SequenceStart) => true,
            (Event::SequenceEnd, Event::SequenceEnd) => true,
            (Event::Scalar(_), Event::Scalar(_)) => true,
            (Event::Comment(_), Event::Comment(_)) => true,
            (Event::Alias(_), Event::Alias(_)) => true,
            _ => false,
        }
    }
}

impl Clone for Event {
    fn clone(&self) -> (copy: Self)
        ensures
            copy@ == self@,
    {
        match self {
            Event::StreamStart => Event::StreamStart,
            Event::StreamEnd => Event::StreamEnd,
            Event::DocumentStart => Event::DocumentStart,
            Event::DocumentEnd => Event::DocumentEnd,
            Event::MappingStart => Event::MappingStart,
            Event::MappingEnd => Event::MappingEnd,
            Event::SequenceStart => Event::SequenceStart,
            Event::SequenceEnd => Event::SequenceEnd,
            Event::Scalar(text) => Event::Scalar(text.clone()),
            Event::Comment(text) => Event::Comment(text.clone()),
            Event::Alias(id) => Event::Alias(*id),
        }
    }
}

impl PartialEq for Event {
    fn eq(&self, other: &Self) -> (same: bool) {
        match (self, other) {
            (Event::StreamStart, Event::StreamStart) => true,
            (Event::StreamEnd, Event::StreamEnd) => true,
            (Event::DocumentStart, Event::DocumentStart) => true,
            (Event::DocumentEnd, Event::DocumentEnd) => true,
            (Event::MappingStart, Event::MappingStart) => true,
            (Event::MappingEnd, Event::MappingEnd) => true,
            (Event::SequenceStart, Event::SequenceStart) => true,
            (Event::SequenceEnd, Event::SequenceEnd) => true,
            (Event::Scalar(a), Event::Scalar(b)) => *a == *b,
            (Event::Comment(a), Event::Comment(b)) => *a == *b,
            (Event::Alias(a), Event::Alias(b)) => *a == *b,
            _ => false,
        }
    }
}

impl vstd::std_specs::cmp::PartialEqSpecImpl for Event {
    open spec fn obeys_eq_spec() -> bool {
        true
    }

    open spec fn eq_spec(&self, other: &Self) -> bool {
        self@ == other@
    }
}

/// The mathematical values of a sequence of events, in order.
pub open spec fn views(events: Seq<Event>) -> Seq<EventView> {
    events.map_values(|event: Event| event@)
}

/// The values of a sequence with one more event are the values of the
/// sequence with the value of that event.
pub proof fn lemma_views_push(events: Seq<Event>, event: Event)
    ensures
        views(events.push(event)) == views(events).push(event@),
{
    assert(views(events.push(event)) =~= views(events).push(event@));
}

} // verus!
