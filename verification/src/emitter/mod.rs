//! The emitter: renders an event sequence as indented block-style text.
//!
//! The rules of the rendering are those of the state machine in
//! [`machine`]; the [`Emitter`] is that machine in executable form.

use vstd::prelude::*;
use vstd::string::StringExecFns;

pub mod iter;
pub mod machine;
pub mod nesting;
pub mod options;
pub mod state;

pub use crate::{Error, Feature};
pub use iter::{lookahead, Cursor, EventIter};
pub use machine::{rendering, run, step, Context, Outcome, Step};
pub use options::{EmitterOptionsBuilder, Options};
pub use state::{Phase, State, States};

use crate::events::{views, Event, EventView};
use machine::{
    collections, decreased, expects_value, indent_prefix, lemma_collections_bounded,
    lemma_collections_push, lemma_slot_taken, lemma_step_keeps_balance, slot_taken, spaces,
};

verus! {

/// What changes while the emitter walks the events: the context stack and
/// the indent level.
#[derive(Debug)]
pub struct EmitterState {
    indent_level: usize,
    states: States,
}

impl View for EmitterState {
    type V = Context;

    closed spec fn view(&self) -> Context {
        Context { stack: self.states@, indent_level: self.indent_level as int }
    }
}

impl EmitterState {
    /// The state before the first event.
    pub fn new() -> (state: Self)
        ensures
            state@ == Context::initial(),
    {
        Self { indent_level: 0, states: States::new() }
    }

    /// The number of nested block levels.
    pub fn indent_level(&self) -> (level: usize)
        ensures
            level == self@.indent_level,
    {
        self.indent_level
    }

    /// The number of open frames.
    pub fn depth(&self) -> (depth: usize)
        ensures
            depth == self@.stack.len(),
    {
        self.states.len()
    }
}

/// Renders event sequences as text, `indent_size` spaces per nesting level.
#[derive(Debug)]
pub struct Emitter {
    options: Options,
    state: EmitterState,
    events: EventIter,
}

impl Emitter {
    /// The number of spaces per nesting level.
    pub closed spec fn indent_size(&self) -> nat {
        self.options.indent_size as nat
    }

    /// The context stack and the indent level.
    pub closed spec fn context(&self) -> Context {
        self.state@
    }

    /// The events of the pass and how far it has come.
    pub closed spec fn cursor(&self) -> Cursor {
        self.events@
    }

    /// The invariant of the emitter: the indent level is not negative and
    /// does not exceed the number of open sequences and mappings. It holds
    /// between any two events, whatever the events are.
    pub open spec fn wf(&self) -> bool {
        self.context().balanced()
    }

    /// The emitter `after` has the settings and the cursor of `self`; its
    /// context, `result` and the text between `before` and `written` are
    /// what `event` does in the context of `self`, with the upcoming event
    /// as lookahead. A failed event changes nothing and writes nothing.
    spec fn moved_by(
        &self,
        event: EventView,
        result: Result<(), Error>,
        after: &Emitter,
        before: Seq<char>,
        written: Seq<char>,
    ) -> bool {
        &&& after.indent_size() == self.indent_size()
        &&& after.cursor() == self.cursor()
        &&& match step(self.context(), self.indent_size(), event, self.cursor().upcoming()) {
            Ok(done) => {
                &&& result == Ok::<(), Error>(())
                &&& after.context() == done.context
                &&& written == before + done.text
            },
            Err(error) => {
                &&& result == Err::<(), Error>(error)
                &&& after.context() == self.context()
                &&& written == before
            },
        }
    }

    /// Creates an emitter with the given settings, before any event.
    pub fn new(options: Options) -> (emitter: Self)
        ensures
            emitter.indent_size() == options.indent_size,
            emitter.context() == Context::initial(),
            emitter.cursor() == (Cursor { events: Seq::empty(), position: 0 }),
            emitter.wf(),
    {
        let emitter = Self {
            options,
            state: EmitterState::new(),
            events: EventIter::new(Vec::new()),
        };
        assert(views(Seq::<Event>::empty()) =~= Seq::<EventView>::empty());
        emitter
    }

    /// The context stack and the indent level as the last event left them.
    pub fn state(&self) -> (state: &EmitterState)
        ensures
            state@ == self.context(),
    {
        &self.state
    }

    /// Renders `events` and returns the text.
    ///
    /// The pass starts from the initial state, whatever the emitter did
    /// before. It returns the error of the first event that fails, and the
    /// text only if no event fails.
    pub fn from_events(&mut self, events: Vec<Event>) -> (result: Result<String, Error>)
        ensures
            final(self).indent_size() == old(self).indent_size(),
            final(self).context() == rendering(views(events@), old(self).indent_size()).context,
            final(self).wf(),
            match result {
                Ok(text) => {
                    &&& rendering(views(events@), old(self).indent_size()).error is None
                    &&& text@ == rendering(views(events@), old(self).indent_size()).text
                },
                Err(error) => rendering(views(events@), old(self).indent_size()).error == Some(
                    error,
                ),
            },
    {
        let mut writer = String::new();
        match self.emit(events, &mut writer) {
            Ok(()) => {
                assert(Seq::<char>::empty() + rendering(
                    views(events@),
                    old(self).indent_size(),
                ).text =~= rendering(views(events@), old(self).indent_size()).text);
                Ok(writer)
            },
            Err(error) => Err(error),
        }
    }

    /// Renders `events` and appends the text to `writer`.
    ///
    /// The pass starts from the initial state, whatever the emitter did
    /// before. It stops at the first event that fails and returns its
    /// error; `writer` then holds the text of the events before it.
    pub fn emit(&mut self, events: Vec<Event>, writer: &mut String) -> (result: Result<(), Error>)
        ensures
            final(self).indent_size() == old(self).indent_size(),
            final(self).context() == rendering(views(events@), old(self).indent_size()).context,
            final(self).wf(),
            final(writer)@ == old(writer)@ + rendering(
                views(events@),
                old(self).indent_size(),
            ).text,
            result == match rendering(views(events@), old(self).indent_size()).error {
                None => Ok::<(), Error>(()),
                Some(error) => Err(error),
            },
    {
        let ghost all = views(events@);
        let ghost size = self.indent_size();
        let ghost total = rendering(all, size);
        self.begin(events);
        assert(writer@ + total.text =~= old(writer)@ + total.text);
        loop
            invariant
                self.wf(),
                self.indent_size() == size,
                self.cursor().events == all,
                self.cursor().position <= all.len(),
                size == old(self).indent_size(),
                all == views(events@),
                total == rendering(all, size),
                total.context == run(self.context(), size, all, self.cursor().position as int).context,
                total.error == run(self.context(), size, all, self.cursor().position as int).error,
                old(writer)@ + total.text == writer@ + run(
                    self.context(),
                    size,
                    all,
                    self.cursor().position as int,
                ).text,
            decreases all.len() - self.cursor().position,
        {
            let ghost context = self.context();
            let ghost position = self.cursor().position as int;
            let ghost text = writer@;
            let advanced = self.advance(writer);
            proof {
                let rest = run(context, size, all, position);
                if position < all.len() {
                    match step(context, size, all[position], lookahead(all, position + 1)) {
                        Ok(done) => {
                            let later = run(done.context, size, all, position + 1);
                            assert(text + (done.text + later.text) =~= (text + done.text)
                                + later.text);
                        },
                        Err(_) => {
                            assert(text + rest.text =~= text);
                        },
                    }
                } else {
                    assert(text + rest.text =~= text);
                }
            }
            match advanced {
                None => {
                    return Ok(());
                },
                Some(Err(error)) => {
                    return Err(error);
                },
                Some(Ok(())) => {},
            }
        }
    }

    /// Starts a pass over `events`: the context is the initial one and the
    /// cursor stands before the first event.
    pub fn begin(&mut self, events: Vec<Event>)
        ensures
            final(self).indent_size() == old(self).indent_size(),
            final(self).context() == Context::initial(),
            final(self).cursor() == (Cursor { events: views(events@), position: 0 }),
            final(self).wf(),
    {
        self.state = EmitterState::new();
        self.events = EventIter::new(events);
    }

    /// Processes the next event of the pass, if one is left, and appends
    /// its text to `writer`.
    ///
    /// Returns `None` at the end of the events, and else whether the event
    /// could be processed. An event that fails is passed over all the same,
    /// but changes nothing else.
    pub fn advance(&mut self, writer: &mut String) -> (result: Option<Result<(), Error>>)
        requires
            old(self).wf(),
        ensures
            final(self).wf(),
            final(self).indent_size() == old(self).indent_size(),
            final(self).cursor().events == old(self).cursor().events,
            final(self).cursor().position <= final(self).cursor().events.len(),
            match old(self).cursor().upcoming() {
                None => {
                    &&& result is None
                    &&& final(self).cursor() == old(self).cursor()
                    &&& final(self).context() == old(self).context()
                    &&& final(writer)@ == old(writer)@
                },
                Some(event) => {
                    &&& final(self).cursor().position == old(self).cursor().position + 1
                    &&& match step(
                        old(self).context(),
                        old(self).indent_size(),
                        event,
                        lookahead(
                            old(self).cursor().events,
                            old(self).cursor().position as int + 1,
                        ),
                    ) {
                        Ok(done) => {
                            &&& result == Some(Ok::<(), Error>(()))
                            &&& final(self).context() == done.context
                            &&& final(writer)@ == old(writer)@ + done.text
                        },
                        Err(error) => {
                            &&& result == Some(Err::<(), Error>(error))
                            &&& final(self).context() == old(self).context()
                            &&& final(writer)@ == old(writer)@
                        },
                    }
                },
            },
    {
        let event = match self.events.next() {
            None => {
                return None;
            },
            Some(event) => event,
        };
        proof {
            lemma_step_keeps_balance(
                self.context(),
                self.indent_size(),
                event@,
                self.cursor().upcoming(),
            );
        }
        let ghost before = writer@;
        let result = match event {
            Event::StreamStart => self.emit_stream_start(),
            Event::StreamEnd => self.emit_stream_end(),
            Event::DocumentStart => self.emit_document_start(writer),
            Event::DocumentEnd => self.emit_document_end(writer),
            Event::MappingStart => self.emit_mapping_start(writer),
            Event::MappingEnd => self.emit_mapping_end(),
            Event::SequenceStart => self.emit_sequence_start(),
            Event::SequenceEnd => self.emit_sequence_end(),
            Event::Scalar(value) => self.emit_scalar(writer, value.as_str()),
            Event::Comment(content) => self.emit_comment(writer, content.as_str()),
            Event::Alias(_) => Err(Error::Unsupported(Feature::Alias)),
        };
        proof {
            let done = step(
                old(self).context(),
                old(self).indent_size(),
                event@,
                self.cursor().upcoming(),
            );
            if let Ok(done) = done {
                assert(writer@ =~= before + done.text);
            }
        }
        Some(result)
    }

    /// Enters one more block level.
    fn increase_indent(&mut self)
        requires
            old(self).context().indent_level < collections(old(self).context().stack),
        ensures
            final(self).context() == (Context {
                stack: old(self).context().stack,
                indent_level: old(self).context().indent_level + 1,
            }),
            final(self).indent_size() == old(self).indent_size(),
            final(self).cursor() == old(self).cursor(),
    {
        proof {
            lemma_collections_bounded(self.context().stack);
            self.state.states.lemma_depth_fits();
        }
        self.state.indent_level += 1;
    }

    /// Leaves one block level, unless the level is zero already.
    fn decrease_indent(&mut self)
        ensures
            final(self).context() == (Context {
                stack: old(self).context().stack,
                indent_level: decreased(old(self).context().indent_level),
            }),
            final(self).indent_size() == old(self).indent_size(),
            final(self).cursor() == old(self).cursor(),
    {
        if self.state.indent_level > 0 {
            self.state.indent_level -= 1;
        }
    }

    /// Lets a nested structure take the slot that the innermost frame, if
    /// it is a mapping, expects to fill. Returns whether that slot was the
    /// value of a key.
    fn take_slot(&mut self) -> (nested: bool)
        ensures
            nested == expects_value(old(self).context().stack),
            final(self).context() == (Context {
                stack: slot_taken(old(self).context().stack),
                indent_level: old(self).context().indent_level,
            }),
            final(self).indent_size() == old(self).indent_size(),
            final(self).cursor() == old(self).cursor(),
    {
        if self.state.states.is_empty() {
            return false;
        }
        match *self.state.states.current() {
            State::Mapping(phase) => {
                *self.state.states.current_mut() = State::Mapping(phase.flip());
                phase == Phase::ExpectingValue
            },
            _ => false,
        }
    }

    /// Writes the indent prefix of the current level.
    fn emit_indent(&self, writer: &mut String)
        ensures
            final(writer)@ == old(writer)@ + indent_prefix(
                self.indent_size(),
                self.context().indent_level,
            ),
    {
        let ghost size = self.indent_size();
        let mut level: usize = 0;
        assert(writer@ =~= old(writer)@ + spaces(0));
        while level < self.state.indent_level
            invariant
                level <= self.state.indent_level,
                size == self.options.indent_size,
                writer@ == old(writer)@ + spaces((size * level) as nat),
            decreases self.state.indent_level - level,
        {
            let mut column: usize = 0;
            assert(writer@ =~= old(writer)@ + spaces((size * level + 0) as nat));
            while column < self.options.indent_size
                invariant
                    column <= self.options.indent_size,
                    size == self.options.indent_size,
                    writer@ == old(writer)@ + spaces((size * level + column) as nat),
                decreases self.options.indent_size - column,
            {
                proof {
                    reveal_strlit(" ");
                }
                writer.append(" ");
                column += 1;
                assert(" "@ =~= seq![' ']);
                assert(writer@ =~= old(writer)@ + spaces((size * level + column) as nat));
            }
            level += 1;
            assert(size * (level - 1) + size == size * level) by (nonlinear_arith);
        }
        assert(writer@ =~= old(writer)@ + indent_prefix(size, level as int));
    }

    /// Ends the line.
    fn emit_newline(writer: &mut String)
        ensures
            final(writer)@ == old(writer)@ + "\n"@,
    {
        writer.append("\n");
    }

    /// `StreamStart`: opens the stream frame.
    fn emit_stream_start(&mut self) -> (result: Result<(), Error>)
        ensures
            old(self).moved_by(EventView::StreamStart, result, final(self), Seq::empty(), Seq::empty()),
    {
        self.state.states.push(State::Stream);
        Ok(())
    }

    /// `StreamEnd`: closes the stream frame if it is the only one left.
    fn emit_stream_end(&mut self) -> (result: Result<(), Error>)
        ensures
            old(self).moved_by(EventView::StreamEnd, result, final(self), Seq::empty(), Seq::empty()),
    {
        if self.state.states.is_empty() {
            return Err(Error::Malformed);
        }
        if self.state.depth() != 1 || *self.state.states.current() != State::Stream {
            return Err(Error::Malformed);
        }
        self.state.states.pop();
        assert(old(self).context().stack =~= seq![State::Stream]);
        assert(self.context().stack =~= Seq::<State>::empty());
        Ok(())
    }

    /// `DocumentStart`: writes the line `---` and opens a document frame.
    fn emit_document_start(&mut self, writer: &mut String) -> (result: Result<(), Error>)
        ensures
            old(self).moved_by(
                EventView::DocumentStart,
                result,
                final(self),
                old(writer)@,
                final(writer)@,
            ),
    {
        writer.append("---");
        Self::emit_newline(writer);
        self.state.states.push(State::Document);
        assert(writer@ =~= old(writer)@ + ("---"@ + "\n"@));
        Ok(())
    }

    /// `DocumentEnd`: writes the line `...` and closes the document frame.
    fn emit_document_end(&mut self, writer: &mut String) -> (result: Result<(), Error>)
        ensures
            old(self).moved_by(
                EventView::DocumentEnd,
                result,
                final(self),
                old(writer)@,
                final(writer)@,
            ),
    {
        if self.state.states.is_empty() {
            return Err(Error::Malformed);
        }
        if *self.state.states.current() != State::Document {
            return Err(Error::Malformed);
        }
        writer.append("...");
        Self::emit_newline(writer);
        self.state.states.pop();
        assert(writer@ =~= old(writer)@ + ("..."@ + "\n"@));
        Ok(())
    }

    /// `MappingStart`: opens a mapping frame. A mapping that is the value
    /// of a key enters one more indent level and writes the indent prefix
    /// for its first key.
    fn emit_mapping_start(&mut self, writer: &mut String) -> (result: Result<(), Error>)
        requires
            old(self).wf(),
        ensures
            old(self).moved_by(
                EventView::MappingStart,
                result,
                final(self),
                old(writer)@,
                final(writer)@,
            ),
    {
        let nested = self.take_slot();
        self.state.states.push(State::Mapping(Phase::ExpectingKey));
        if nested {
            proof {
                lemma_slot_taken(old(self).context().stack);
                lemma_collections_push(
                    slot_taken(old(self).context().stack),
                    State::Mapping(Phase::ExpectingKey),
                );
            }
            self.increase_indent();
            self.emit_indent(writer);
        } else {
            assert(writer@ =~= old(writer)@ + Seq::<char>::empty());
        }
        Ok(())
    }

    /// `MappingEnd`: leaves one indent level, if one is left, and closes
    /// the mapping frame.
    fn emit_mapping_end(&mut self) -> (result: Result<(), Error>)
        ensures
            old(self).moved_by(EventView::MappingEnd, result, final(self), Seq::empty(), Seq::empty()),
    {
        if self.state.states.is_empty() {
            return Err(Error::Malformed);
        }
        match *self.state.states.current() {
            State::Mapping(_) => {},
            _ => {
                return Err(Error::Malformed);
            },
        }
        self.decrease_indent();
        self.state.states.pop();
        Ok(())
    }

    /// `SequenceStart`: enters one more indent level and opens a sequence
    /// frame.
    fn emit_sequence_start(&mut self) -> (result: Result<(), Error>)
        requires
            old(self).wf(),
        ensures
            old(self).moved_by(
                EventView::SequenceStart,
                result,
                final(self),
                Seq::empty(),
                Seq::empty(),
            ),
    {
        self.take_slot();
        self.state.states.push(State::Sequence);
        proof {
            lemma_slot_taken(old(self).context().stack);
            lemma_collections_push(slot_taken(old(self).context().stack), State::Sequence);
        }
        self.increase_indent();
        Ok(())
    }

    /// `SequenceEnd`: leaves one indent level, if one is left, and closes
    /// the sequence frame.
    fn emit_sequence_end(&mut self) -> (result: Result<(), Error>)
        ensures
            old(self).moved_by(
                EventView::SequenceEnd,
                result,
                final(self),
                Seq::empty(),
                Seq::empty(),
            ),
    {
        if self.state.states.is_empty() {
            return Err(Error::Malformed);
        }
        if *self.state.states.current() != State::Sequence {
            return Err(Error::Malformed);
        }
        self.decrease_indent();
        self.state.states.pop();
        Ok(())
    }

    /// `Scalar`: writes the text as an item of a sequence, as a key or as a
    /// value, whichever the innermost frame expects.
    fn emit_scalar(&mut self, writer: &mut String, value: &str) -> (result: Result<(), Error>)
        ensures
            old(self).moved_by(
                EventView::Scalar(value@),
                result,
                final(self),
                old(writer)@,
                final(writer)@,
            ),
    {
        if self.state.states.is_empty() {
            return Err(Error::Malformed);
        }
        let ghost prefix = indent_prefix(self.indent_size(), self.context().indent_level);
        match *self.state.states.current() {
            State::Stream | State::Document => {
                return Err(Error::Unsupported(Feature::BareScalar));
            },
            State::Sequence => {
                self.emit_indent(writer);
                writer.append("- ");
                writer.append(value);
                Self::emit_newline(writer);
                assert(writer@ =~= old(writer)@ + (prefix + "- "@ + value@ + "\n"@));
            },
            State::Mapping(Phase::ExpectingKey) => {
                let breaks = self.events.peek_as(Event::SequenceStart).is_some()
                    || self.events.peek_as(Event::MappingStart).is_some();
                writer.append(value);
                writer.append(": ");
                if breaks {
                    Self::emit_newline(writer);
                    assert(writer@ =~= old(writer)@ + (value@ + ": "@ + "\n"@));
                } else {
                    assert(writer@ =~= old(writer)@ + (value@ + ": "@));
                }
                *self.state.states.current_mut() = State::Mapping(Phase::ExpectingValue);
            },
            State::Mapping(Phase::ExpectingValue) => {
                writer.append(value);
                Self::emit_newline(writer);
                assert(writer@ =~= old(writer)@ + (value@ + "\n"@));
                *self.state.states.current_mut() = State::Mapping(Phase::ExpectingKey);
            },
        }
        Ok(())
    }

    /// `Comment`: writes the comment as an indented line of its own.
    fn emit_comment(&mut self, writer: &mut String, content: &str) -> (result: Result<(), Error>)
        ensures
            old(self).moved_by(
                EventView::Comment(content@),
                result,
                final(self),
                old(writer)@,
                final(writer)@,
            ),
    {
        let ghost prefix = indent_prefix(self.indent_size(), self.context().indent_level);
        self.emit_indent(writer);
        writer.append("# ");
        writer.append(content);
        Self::emit_newline(writer);
        assert(writer@ =~= old(writer)@ + (prefix + "# "@ + content@ + "\n"@));
        Ok(())
    }
}

} // verus!
