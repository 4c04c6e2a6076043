//! The emitter as a state machine over mathematical values.
//!
//! The machine reads one event at a time, with the event after it as
//! lookahead. Its state is the stack of open frames and the indent level.
//! An event either fails and leaves the state as it was, or moves the state
//! and yields the text to write.
//!
//! # Keys and values
//!
//! Nothing in the events tells a key from a value. A mapping frame carries
//! the phase it is in: it expects a key, or it expects a value. Each scalar
//! that is read in a mapping flips the phase, and so does each nested
//! mapping or sequence that opens in it: the nested structure is the key or
//! the value that the mapping expected.
//!
//! # Line breaks
//!
//! A key is written as its text and `": "`. If the event after the key
//! opens a mapping or a sequence, the line ends there and the value follows
//! as a block on the next lines. A scalar value continues the line of its
//! key and ends it.
//!
//! # Indentation
//!
//! The indent level rises by one where a sequence opens, and where a
//! mapping opens as the value of a key. It falls by one where a sequence or
//! a mapping closes, but never below zero. The indent prefix is written
//! before each item of a sequence, before each comment, and once where a
//! mapping opens as the value of a key, before its first key.
//!
//! # Malformed input
//!
//! An end marker closes the innermost frame, which must be of its kind, and
//! `StreamEnd` closes the last frame left. A scalar needs a frame around
//! it. Where one of these fails the input is malformed.

use vstd::prelude::*;

use crate::emitter::iter::lookahead;
use crate::emitter::state::{Phase, State};
use crate::events::EventView;
use crate::{Error, Feature};

verus! {

/// The state of the machine between two events.
pub struct Context {
    /// The open frames, innermost last.
    pub stack: Seq<State>,
    /// The number of nested block levels.
    pub indent_level: int,
}

/// What one event does: the state after it and the text it writes.
pub struct Step {
    pub context: Context,
    pub text: Seq<char>,
}

/// How a pass over an event sequence ends.
pub struct Outcome {
    /// The state after the last event that was processed.
    pub context: Context,
    /// The text of all events that were processed.
    pub text: Seq<char>,
    /// The error of the event that stopped the pass, if one did.
    pub error: Option<Error>,
}

/// `count` spaces.
pub open spec fn spaces(count: nat) -> Seq<char> {
    Seq::new(count, |i: int| ' ')
}

/// The leading spaces of a line at `indent_level`: `indent_size` spaces for
/// each level.
pub open spec fn indent_prefix(indent_size: nat, indent_level: int) -> Seq<char> {
    if indent_level > 0 {
        spaces((indent_size * indent_level) as nat)
    } else {
        Seq::empty()
    }
}

/// The indent level after leaving a block: one less, but never below zero.
pub open spec fn decreased(indent_level: int) -> int {
    if indent_level > 0 {
        indent_level - 1
    } else {
        0
    }
}

/// Whether the frame is a sequence or a mapping.
pub open spec fn is_collection(frame: State) -> bool {
    frame is Sequence || frame is Mapping
}

/// How many of the frames are sequences or mappings.
pub open spec fn collections(stack: Seq<State>) -> nat
    decreases stack.len(),
{
    if stack.len() == 0 {
        0
    } else if is_collection(stack.last()) {
        collections(stack.drop_last()) + 1
    } else {
        collections(stack.drop_last())
    }
}

/// The stack with its innermost frame replaced by `frame`.
pub open spec fn with_current(stack: Seq<State>, frame: State) -> Seq<State> {
    stack.update(stack.len() - 1, frame)
}

/// The stack after a nested mapping or sequence has taken the slot that the
/// innermost frame, if it is a mapping, was expecting to fill.
pub open spec fn slot_taken(stack: Seq<State>) -> Seq<State> {
    if stack.len() == 0 {
        stack
    } else {
        match stack.last() {
            State::Mapping(phase) => with_current(stack, State::Mapping(phase.flipped())),
            _ => stack,
        }
    }
}

/// Whether the innermost frame is a mapping that expects a value, so that a
/// mapping that opens now is the value of a key.
pub open spec fn expects_value(stack: Seq<State>) -> bool {
    stack.len() > 0 && stack.last() == State::Mapping(Phase::ExpectingValue)
}

/// Whether the lookahead is the start of a nested mapping or sequence.
pub open spec fn opens_block(next: Option<EventView>) -> bool {
    next == Some(EventView::SequenceStart) || next == Some(EventView::MappingStart)
}

impl Context {
    /// The state before the first event: no open frame, no indentation.
    pub open spec fn initial() -> Context {
        Context { stack: Seq::empty(), indent_level: 0 }
    }

    /// The indent level is not negative and does not exceed the number of
    /// open sequences and mappings.
    pub open spec fn balanced(self) -> bool {
        0 <= self.indent_level <= collections(self.stack)
    }

    /// Whether the innermost frame exists and is `frame`.
    pub open spec fn current_is(self, frame: State) -> bool {
        self.stack.len() > 0 && self.stack.last() == frame
    }

    /// Whether the innermost frame exists and is a mapping.
    pub open spec fn in_mapping(self) -> bool {
        self.stack.len() > 0 && self.stack.last() is Mapping
    }

    /// Opens `frame` without writing anything.
    pub open spec fn opened(self, frame: State) -> Step {
        Step {
            context: Context { stack: self.stack.push(frame), indent_level: self.indent_level },
            text: Seq::empty(),
        }
    }

    /// Closes the innermost frame and leaves one block level, if any is
    /// left.
    pub open spec fn closed_block(self) -> Step {
        Step {
            context: Context {
                stack: self.stack.drop_last(),
                indent_level: decreased(self.indent_level),
            },
            text: Seq::empty(),
        }
    }

    /// `StreamStart`: opens the stream frame.
    pub open spec fn stream_start(self) -> Result<Step, Error> {
        Ok(self.opened(State::Stream))
    }

    /// `StreamEnd`: closes the stream frame, which must be the only open
    /// frame.
    pub open spec fn stream_end(self) -> Result<Step, Error> {
        if self.stack == seq![State::Stream] {
            Ok(
                Step {
                    context: Context { stack: Seq::empty(), indent_level: self.indent_level },
                    text: Seq::empty(),
                },
            )
        } else {
            Err(Error::Malformed)
        }
    }

    /// `DocumentStart`: writes the line `---` and opens a document frame.
    pub open spec fn document_start(self) -> Result<Step, Error> {
        Ok(Step { context: self.opened(State::Document).context, text: "---"@ + "\n"@ })
    }

    /// `DocumentEnd`: writes the line `...` and closes the document frame,
    /// which must be the innermost one.
    pub open spec fn document_end(self) -> Result<Step, Error> {
        if self.current_is(State::Document) {
            Ok(
                Step {
                    context: Context {
                        stack: self.stack.drop_last(),
                        indent_level: self.indent_level,
                    },
                    text: "..."@ + "\n"@,
                },
            )
        } else {
            Err(Error::Malformed)
        }
    }

    /// `MappingStart`: opens a mapping frame that expects a key. A mapping
    /// that is the value of a key is a nested block: it enters one more
    /// indent level and writes the indent prefix of that level, so that its
    /// first key starts indented.
    pub open spec fn mapping_start(self, indent_size: nat) -> Result<Step, Error> {
        let nested = expects_value(self.stack);
        let indent_level = if nested {
            self.indent_level + 1
        } else {
            self.indent_level
        };
        Ok(
            Step {
                context: Context {
                    stack: slot_taken(self.stack).push(State::Mapping(Phase::ExpectingKey)),
                    indent_level,
                },
                text: if nested {
                    indent_prefix(indent_size, indent_level)
                } else {
                    Seq::empty()
                },
            },
        )
    }

    /// `MappingEnd`: closes the mapping frame, which must be the innermost
    /// one, and leaves one indent level unless the level is zero already.
    pub open spec fn mapping_end(self) -> Result<Step, Error> {
        if self.in_mapping() {
            Ok(self.closed_block())
        } else {
            Err(Error::Malformed)
        }
    }

    /// `SequenceStart`: enters one more indent level and opens a sequence
    /// frame.
    pub open spec fn sequence_start(self) -> Result<Step, Error> {
        Ok(
            Step {
                context: Context {
                    stack: slot_taken(self.stack).push(State::Sequence),
                    indent_level: self.indent_level + 1,
                },
                text: Seq::empty(),
            },
        )
    }

    /// `SequenceEnd`: closes the sequence frame, which must be the innermost
    /// one, and leaves one indent level unless the level is zero already.
    pub open spec fn sequence_end(self) -> Result<Step, Error> {
        if self.current_is(State::Sequence) {
            Ok(self.closed_block())
        } else {
            Err(Error::Malformed)
        }
    }

    /// `Scalar`: what the text means follows from the innermost frame.
    ///
    /// - In a sequence it is an item: the indent prefix, `- `, the text and
    ///   a line break.
    /// - In a mapping that expects a key it is a key: the text and `: `,
    ///   and a line break if the value is a nested mapping or sequence. The
    ///   mapping then expects a value.
    /// - In a mapping that expects a value it is a value: the text and a
    ///   line break. The mapping then expects a key.
    /// - Directly in a stream or document it is a bare scalar, which is not
    ///   supported.
    /// - Outside any frame the input is malformed.
    pub open spec fn scalar(self, indent_size: nat, value: Seq<char>, next: Option<EventView>) -> Result<
        Step,
        Error,
    > {
        if self.stack.len() == 0 {
            Err(Error::Malformed)
        } else {
            match self.stack.last() {
                State::Stream | State::Document => Err(Error::Unsupported(Feature::BareScalar)),
                State::Sequence => Ok(
                    Step {
                        context: self,
                        text: indent_prefix(indent_size, self.indent_level) + "- "@ + value + "\n"@,
                    },
                ),
                State::Mapping(Phase::ExpectingKey) => Ok(
                    Step {
                        context: Context {
                            stack: with_current(self.stack, State::Mapping(Phase::ExpectingValue)),
                            indent_level: self.indent_level,
                        },
                        text: if opens_block(next) {
                            value + ": "@ + "\n"@
                        } else {
                            value + ": "@
                        },
                    },
                ),
                State::Mapping(Phase::ExpectingValue) => Ok(
                    Step {
                        context: Context {
                            stack: with_current(self.stack, State::Mapping(Phase::ExpectingKey)),
                            indent_level: self.indent_level,
                        },
                        text: value + "\n"@,
                    },
                ),
            }
        }
    }

    /// `Comment`: a line of its own, made of the indent prefix, `# `, the
    /// text and a line break. The frames do not change.
    pub open spec fn comment(self, indent_size: nat, content: Seq<char>) -> Result<Step, Error> {
        Ok(
            Step {
                context: self,
                text: indent_prefix(indent_size, self.indent_level) + "# "@ + content + "\n"@,
            },
        )
    }
}

/// What `event` does in `context`, with `next` as the event after it.
pub open spec fn step(
    context: Context,
    indent_size: nat,
    event: EventView,
    next: Option<EventView>,
) -> Result<Step, Error> {
    match event {
        EventView::StreamStart => context.stream_start(),
        EventView::StreamEnd => context.stream_end(),
        EventView::DocumentStart => context.document_start(),
        EventView::DocumentEnd => context.document_end(),
        EventView::MappingStart => context.mapping_start(indent_size),
        EventView::MappingEnd => context.mapping_end(),
        EventView::SequenceStart => context.sequence_start(),
        EventView::SequenceEnd => context.sequence_end(),
        EventView::Scalar(value) => context.scalar(indent_size, value, next),
        EventView::Comment(content) => context.comment(indent_size, content),
        EventView::Alias(_) => Err(Error::Unsupported(Feature::Alias)),
    }
}

/// The pass over `events` from `position` on, started in `context`. It
/// stops at the first event that fails and keeps the state and the text of
/// the events before it.
pub open spec fn run(context: Context, indent_size: nat, events: Seq<EventView>, position: int) -> Outcome
    decreases events.len() - position,
{
    if position < 0 || position >= events.len() {
        Outcome { context, text: Seq::empty(), error: None }
    } else {
        match step(context, indent_size, events[position], lookahead(events, position + 1)) {
            Err(error) => Outcome { context, text: Seq::empty(), error: Some(error) },
            Ok(done) => {
                let rest = run(done.context, indent_size, events, position + 1);
                Outcome { context: rest.context, text: done.text + rest.text, error: rest.error }
            },
        }
    }
}

/// The frames after `event`, or the error with which it fails. Both follow
/// from the frames before the event alone: the indent level, the indent
/// size and the lookahead decide about the text only.
pub open spec fn frames_after(stack: Seq<State>, event: EventView) -> Result<Seq<State>, Error> {
    match step(Context { stack, indent_level: 0 }, 0, event, None) {
        Ok(done) => Ok(done.context.stack),
        Err(error) => Err(error),
    }
}

/// The frames after all of `events`, read where the frames of `stack` are
/// open, or the error of the first event that fails.
pub open spec fn frames(stack: Seq<State>, events: Seq<EventView>) -> Result<Seq<State>, Error>
    decreases events.len(),
{
    if events.len() == 0 {
        Ok(stack)
    } else {
        match frames(stack, events.drop_last()) {
            Ok(before) => frames_after(before, events.last()),
            Err(error) => Err(error),
        }
    }
}

/// Whether an event fails, and the frames it leaves, do not depend on the
/// indent level, the indent size or the lookahead.
pub proof fn lemma_frames_alone_decide(
    context: Context,
    indent_size: nat,
    event: EventView,
    next: Option<EventView>,
)
    ensures
        match step(context, indent_size, event, next) {
            Ok(done) => frames_after(context.stack, event) == Ok::<Seq<State>, Error>(
                done.context.stack,
            ),
            Err(error) => frames_after(context.stack, event) == Err::<Seq<State>, Error>(error),
        },
{
}

/// The frames after two sequences, one after the other, are the frames
/// after the second, read where the first has ended.
pub proof fn lemma_frames_of_concatenation(
    stack: Seq<State>,
    first: Seq<EventView>,
    second: Seq<EventView>,
)
    ensures
        frames(stack, first + second) == match frames(stack, first) {
            Ok(between) => frames(between, second),
            Err(error) => Err(error),
        },
    decreases second.len(),
{
    if second.len() == 0 {
        assert(first + second =~= first);
    } else {
        assert((first + second).drop_last() =~= first + second.drop_last());
        assert((first + second).last() == second.last());
        lemma_frames_of_concatenation(stack, first, second.drop_last());
    }
}

/// If no event of a sequence fails, none of any beginning of it does.
pub proof fn lemma_frames_of_prefix(stack: Seq<State>, events: Seq<EventView>, length: int)
    requires
        0 <= length <= events.len(),
        frames(stack, events) is Ok,
    ensures
        frames(stack, events.take(length)) is Ok,
    decreases events.len(),
{
    if length == events.len() {
        assert(events.take(length) =~= events);
    } else {
        assert(events.drop_last().take(length) =~= events.take(length));
        lemma_frames_of_prefix(stack, events.drop_last(), length);
    }
}

/// A pass goes the way of the frames: where no event fails by the frames,
/// the rest of the pass, from a state that the events so far have led to,
/// ends without an error and with the frames that the whole sequence
/// leaves.
pub proof fn lemma_run_follows_frames(
    start: Seq<State>,
    context: Context,
    indent_size: nat,
    events: Seq<EventView>,
    position: int,
)
    requires
        0 <= position <= events.len(),
        frames(start, events) is Ok,
        frames(start, events.take(position)) == Ok::<Seq<State>, Error>(context.stack),
    ensures
        run(context, indent_size, events, position).error is None,
        frames(start, events) == Ok::<Seq<State>, Error>(
            run(context, indent_size, events, position).context.stack,
        ),
    decreases events.len() - position,
{
    if position == events.len() {
        assert(events.take(position) =~= events);
    } else {
        let event = events[position];
        let next = lookahead(events, position + 1);
        let longer = events.take(position + 1);
        assert(longer.drop_last() =~= events.take(position));
        assert(longer.last() == event);
        lemma_frames_of_prefix(start, events, position + 1);
        lemma_frames_alone_decide(context, indent_size, event, next);
        let done = step(context, indent_size, event, next)->Ok_0;
        lemma_run_follows_frames(start, done.context, indent_size, events, position + 1);
    }
}

/// The text goes into memory, which takes every write: no pass ends with
/// a write error.
pub proof fn lemma_pass_never_fails_to_write(
    context: Context,
    indent_size: nat,
    events: Seq<EventView>,
    position: int,
)
    ensures
        run(context, indent_size, events, position).error != Some(Error::Write),
    decreases events.len() - position,
{
    if 0 <= position < events.len() {
        if let Ok(done) = step(
            context,
            indent_size,
            events[position],
            lookahead(events, position + 1),
        ) {
            lemma_pass_never_fails_to_write(done.context, indent_size, events, position + 1);
        }
    }
}

/// A stack holds at least as many frames as it holds sequences and mappings.
pub proof fn lemma_collections_bounded(stack: Seq<State>)
    ensures
        collections(stack) <= stack.len(),
    decreases stack.len(),
{
    if stack.len() > 0 {
        lemma_collections_bounded(stack.drop_last());
    }
}

/// Opening a frame adds one to the count if the frame is a sequence or a
/// mapping.
pub proof fn lemma_collections_push(stack: Seq<State>, frame: State)
    ensures
        collections(stack.push(frame)) == collections(stack) + if is_collection(frame) {
            1nat
        } else {
            0nat
        },
{
    assert(stack.push(frame).drop_last() =~= stack);
}

/// Replacing a mapping frame by a mapping frame keeps the count.
pub proof fn lemma_collections_with_current(stack: Seq<State>, frame: State)
    requires
        stack.len() > 0,
        is_collection(stack.last()) == is_collection(frame),
    ensures
        collections(with_current(stack, frame)) == collections(stack),
{
    assert(with_current(stack, frame).drop_last() =~= stack.drop_last());
}

/// A nested structure that takes a slot changes no frame but the phase of
/// the innermost one.
pub proof fn lemma_slot_taken(stack: Seq<State>)
    ensures
        slot_taken(stack).len() == stack.len(),
        collections(slot_taken(stack)) == collections(stack),
{
    if stack.len() > 0 {
        match stack.last() {
            State::Mapping(phase) => {
                lemma_collections_with_current(stack, State::Mapping(phase.flipped()));
            },
            _ => {},
        }
    }
}

/// No event takes the indent level below zero or above the number of open
/// sequences and mappings.
pub proof fn lemma_step_keeps_balance(
    context: Context,
    indent_size: nat,
    event: EventView,
    next: Option<EventView>,
)
    requires
        context.balanced(),
    ensures
        step(context, indent_size, event, next) matches Ok(done) ==> done.context.balanced(),
{
    let stack = context.stack;
    lemma_slot_taken(stack);
    match event {
        EventView::StreamStart => {
            lemma_collections_push(stack, State::Stream);
        },
        EventView::StreamEnd => {
            if stack == seq![State::Stream] {
                assert(stack.drop_last() =~= Seq::<State>::empty());
            }
        },
        EventView::DocumentStart => {
            lemma_collections_push(stack, State::Document);
        },
        EventView::DocumentEnd => {},
        EventView::MappingStart => {
            lemma_collections_push(slot_taken(stack), State::Mapping(Phase::ExpectingKey));
        },
        EventView::MappingEnd => {},
        EventView::SequenceStart => {
            lemma_collections_push(slot_taken(stack), State::Sequence);
        },
        EventView::SequenceEnd => {},
        EventView::Scalar(_) => {
            if context.in_mapping() {
                lemma_collections_with_current(stack, State::Mapping(Phase::ExpectingKey));
                lemma_collections_with_current(stack, State::Mapping(Phase::ExpectingValue));
            }
        },
        EventView::Comment(_) => {},
        EventView::Alias(_) => {},
    }
}

/// The whole pass over `events`, from the initial state.
pub open spec fn rendering(events: Seq<EventView>, indent_size: nat) -> Outcome {
    run(Context::initial(), indent_size, events, 0)
}

} // verus!
