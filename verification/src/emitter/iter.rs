//! The event cursor: a single pass over an event sequence with one event of
//! lookahead.

use vstd::prelude::*;

use crate::events::{views, Event, EventView};

verus! {

/// The mathematical value of an [`EventIter`]: the events it walks and how
/// many of them have been read.
pub struct Cursor {
    pub events: Seq<EventView>,
    pub position: nat,
}

impl Cursor {
    /// The event the next read returns, if any is left.
    pub open spec fn upcoming(self) -> Option<EventView> {
        lookahead(self.events, self.position as int)
    }
}

/// The event at `position`, if the sequence reaches that far.
pub open spec fn lookahead(events: Seq<EventView>, position: int) -> Option<EventView> {
    if 0 <= position < events.len() {
        Some(events[position])
    } else {
        None
    }
}

/// A read position over an event sequence. Reading never changes the
/// sequence itself.
#[derive(Debug)]
pub struct EventIter {
    events: Vec<Event>,
    index: usize,
}

impl View for EventIter {
    type V = Cursor;

    closed spec fn view(&self) -> Cursor {
        Cursor { events: views(self.events@), position: self.index as nat }
    }
}

impl EventIter {
    #[verifier::type_invariant]
    spec fn in_bounds(self) -> bool {
        self.index <= self.events@.len()
    }

    /// Places a cursor before the first of `events`.
    pub fn new(events: Vec<Event>) -> (cursor: Self)
        ensures
            cursor@ == (Cursor { events: views(events@), position: 0 }),
    {
        Self { events, index: 0 }
    }

    /// Returns the event at the current position and moves past it, or
    /// returns `None` at the end of the sequence and stays there.
    pub fn next(&mut self) -> (event: Option<Event>)
        ensures
            final(self)@.events == old(self)@.events,
            final(self)@.position <= final(self)@.events.len(),
            match event {
                Some(e) => {
                    &&& old(self)@.upcoming() == Some(e@)
                    &&& final(self)@.position == old(self)@.position + 1
                },
                None => {
                    &&& old(self)@.upcoming() is None
                    &&& final(self)@.position == old(self)@.position
                },
            },
    {
        proof {
            use_type_invariant(&*self);
        }
        if self.index < self.events.len() {
            let event = self.events[self.index].clone();
            self.index += 1;
            Some(event)
        } else {
            None
        }
    }

    /// Returns the event at the current position without moving.
    pub fn peek(&self) -> (event: Option<&Event>)
        ensures
            match event {
                Some(e) => self@.upcoming() == Some(e@),
                None => self@.upcoming() is None,
            },
    {
        proof {
            use_type_invariant(self);
        }
        if self.index < self.events.len() {
            Some(&self.events[self.index])
        } else {
            None
        }
    }

    /// Returns the event at the current position if it is of the kind of
    /// `ty`, without moving. What `ty` carries plays no part.
    pub fn peek_as(&self, ty: Event) -> (event: Option<&Event>)
        ensures
            match event {
                Some(e) => self@.upcoming() == Some(e@) && e@.same_kind(ty@),
                None => match self@.upcoming() {
                    Some(upcoming) => !upcoming.same_kind(ty@),
                    None => true,
                },
            },
    {
        match self.peek() {
            Some(e) => if e.same_kind(&ty) {
                Some(e)
            } else {
                None
            },
            None => None,
        }
    }
}

} // verus!
