//! The context stack of the emitter.

use vstd::prelude::*;

verus! {

/// Which scalar a mapping frame expects next.
#[derive(Clone, Copy, Debug, PartialEq, Eq, Structural)]
pub enum Phase {
    ExpectingKey,
    ExpectingValue,
}

impl Phase {
    /// The other phase.
    pub open spec fn flipped(self) -> Phase {
        match self {
            Phase::ExpectingKey => Phase::ExpectingValue,
            Phase::ExpectingValue => Phase::ExpectingKey,
        }
    }

    /// Returns the other phase.
    pub fn flip(self) -> (other: Phase)
        ensures
            other == self.flipped(),
    {
        match self {
            Phase::ExpectingKey => Phase::ExpectingValue,
            Phase::ExpectingValue => Phase::ExpectingKey,
        }
    }
}

/// One frame of the context stack: the structure that is currently open.
#[derive(Clone, Copy, Debug, PartialEq, Eq, Structural)]
pub enum State {
    Stream,
    Document,
    Sequence,
    Mapping(Phase),
}

impl Default for State {
    fn default() -> (state: Self)
        ensures
            state == State::Stream,
    {
        State::Stream
    }
}

/// The stack of open frames, innermost last.
#[derive(Debug)]
pub struct States(Vec<State>);

impl View for States {
    type V = Seq<State>;

    closed spec fn view(&self) -> Seq<State> {
        self.0@
    }
}

impl States {
    /// Creates an empty stack.
    pub fn new() -> (states: Self)
        ensures
            states@ == Seq::<State>::empty(),
    {
        Self(Vec::new())
    }

    /// The innermost frame.
    pub fn current(&self) -> (top: &State)
        requires
            self@.len() > 0,
        ensures
            *top == self@.last(),
    {
        &self.0[self.0.len() - 1]
    }

    /// The innermost frame, for update in place. No other frame changes.
    pub fn current_mut(&mut self) -> (top: &mut State)
        requires
            old(self)@.len() > 0,
        ensures
            *top == old(self)@.last(),
            final(self)@ == old(self)@.update(old(self)@.len() - 1, *final(top)),
    {
        let last = self.0.len() - 1;
        &mut self.0[last]
    }

    pub fn is_empty(&self) -> (empty: bool)
        ensures
            empty == (self@.len() == 0),
    {
        self.0.is_empty()
    }

    /// The number of open frames.
    pub fn len(&self) -> (depth: usize)
        ensures
            depth == self@.len(),
    {
        self.0.len()
    }

    /// Opens `state` as the new innermost frame.
    pub fn push(&mut self, state: State)
        ensures
            final(self)@ == old(self)@.push(state),
    {
        self.0.push(state)
    }

    /// Closes the innermost frame.
    pub fn pop(&mut self)
        requires
            old(self)@.len() > 0,
        ensures
            final(self)@ == old(self)@.drop_last(),
    {
        self.0.pop();
    }

    /// A stack is held in memory, so its depth is a machine integer.
    pub proof fn lemma_depth_fits(&self)
        ensures
            self@.len() <= usize::MAX,
    {
        assert(self.0.len() == self.0@.len());
    }
}

} // verus!
