//! Well nested event sequences, and what the machine does with them.

use vstd::prelude::*;

use crate::emitter::iter::lookahead;
use crate::emitter::machine::{
    lemma_step_keeps_balance, rendering, run, slot_taken, step, Context, Step,
};
use crate::emitter::state::State;
use crate::events::EventView;
use crate::{Error, Feature};

verus! {

/// The four structures that a start marker opens and an end marker closes.
pub enum Bracket {
    Stream,
    Document,
    Mapping,
    Sequence,
}

/// The structure that the event opens, if it is a start marker.
pub open spec fn opens(event: EventView) -> Option<Bracket> {
    match event {
        EventView::StreamStart => Some(Bracket::Stream),
        EventView::DocumentStart => Some(Bracket::Document),
        EventView::MappingStart => Some(Bracket::Mapping),
        EventView::SequenceStart => Some(Bracket::Sequence),
        _ => None,
    }
}

/// The structure that the event closes, if it is an end marker.
pub open spec fn closes(event: EventView) -> Option<Bracket> {
    match event {
        EventView::StreamEnd => Some(Bracket::Stream),
        EventView::DocumentEnd => Some(Bracket::Document),
        EventView::MappingEnd => Some(Bracket::Mapping),
        EventView::SequenceEnd => Some(Bracket::Sequence),
        _ => None,
    }
}

/// The open structures after `event`, innermost last. A start marker opens
/// its structure. An end marker closes the innermost structure, which must
/// be of its kind: it is `None` where it is not. Any other event changes
/// nothing.
pub open spec fn bracket_step(open: Seq<Bracket>, event: EventView) -> Option<Seq<Bracket>> {
    match opens(event) {
        Some(bracket) => Some(open.push(bracket)),
        None => match closes(event) {
            Some(bracket) => if open.len() > 0 && open.last() == bracket {
                Some(open.drop_last())
            } else {
                None
            },
            None => Some(open),
        },
    }
}

/// The open structures after all of `events`, read where `open` are open
/// already. It is `None` where some end marker has no start marker of its
/// kind at its depth.
pub open spec fn nesting(open: Seq<Bracket>, events: Seq<EventView>) -> Option<Seq<Bracket>>
    decreases events.len(),
{
    if events.len() == 0 {
        Some(open)
    } else {
        match nesting(open, events.drop_last()) {
            Some(before) => bracket_step(before, events.last()),
            None => None,
        }
    }
}

/// Every start marker has its end marker at the same depth, and one
/// `StreamStart` and one `StreamEnd` bracket the whole sequence.
///
/// How many keys and values a mapping holds plays no part in this.
pub open spec fn well_nested(events: Seq<EventView>) -> bool {
    &&& events.len() >= 2
    &&& events.first() == EventView::StreamStart
    &&& events.last() == EventView::StreamEnd
    &&& forall|i: int|
        0 < i < events.len() - 1 ==> events[i] != EventView::StreamStart && events[i]
            != EventView::StreamEnd
    &&& nesting(Seq::empty(), events) == Some(Seq::<Bracket>::empty())
}

/// The structure that a frame stands for.
pub open spec fn bracket_of(frame: State) -> Bracket {
    match frame {
        State::Stream => Bracket::Stream,
        State::Document => Bracket::Document,
        State::Mapping(_) => Bracket::Mapping,
        State::Sequence => Bracket::Sequence,
    }
}

/// The structures that the frames of a stack stand for.
pub open spec fn brackets(stack: Seq<State>) -> Seq<Bracket> {
    stack.map_values(|frame: State| bracket_of(frame))
}

/// A nested structure that takes a slot leaves the open structures as they
/// are.
proof fn lemma_brackets_slot_taken(stack: Seq<State>)
    ensures
        brackets(slot_taken(stack)) == brackets(stack),
{
    assert(brackets(slot_taken(stack)) =~= brackets(stack));
}

/// Whenever an event moves the machine, the context stack moves as the
/// open structures do: the stack is in lock-step with the start and end
/// markers.
pub proof fn lemma_step_follows_brackets(
    context: Context,
    indent_size: nat,
    event: EventView,
    next: Option<EventView>,
)
    ensures
        step(context, indent_size, event, next) matches Ok(done) ==> bracket_step(
            brackets(context.stack),
            event,
        ) == Some(brackets(done.context.stack)),
{
    let stack = context.stack;
    if let Ok(done) = step(context, indent_size, event, next) {
        let after = done.context.stack;
        lemma_brackets_slot_taken(stack);
        match event {
            EventView::StreamStart => {
                assert(brackets(after) =~= brackets(stack).push(Bracket::Stream));
            },
            EventView::DocumentStart => {
                assert(brackets(after) =~= brackets(stack).push(Bracket::Document));
            },
            EventView::MappingStart => {
                assert(brackets(after) =~= brackets(slot_taken(stack)).push(Bracket::Mapping));
            },
            EventView::SequenceStart => {
                assert(brackets(after) =~= brackets(slot_taken(stack)).push(Bracket::Sequence));
            },
            EventView::StreamEnd | EventView::DocumentEnd | EventView::MappingEnd
            | EventView::SequenceEnd => {
                assert(brackets(after) =~= brackets(stack).drop_last());
            },
            EventView::Scalar(_) => {
                assert(brackets(after) =~= brackets(stack));
            },
            EventView::Comment(_) => {},
            EventView::Alias(_) => {},
        }
    }
}

/// The machine reports malformed input in three cases only: an end marker
/// that does not close the innermost open structure, a `StreamEnd` while
/// another frame is open, and a scalar outside any frame.
pub proof fn lemma_malformed_cases(
    context: Context,
    indent_size: nat,
    event: EventView,
    next: Option<EventView>,
)
    requires
        step(context, indent_size, event, next) == Err::<Step, Error>(
            Error::Malformed,
        ),
    ensures
        ({
            ||| bracket_step(brackets(context.stack), event) is None
            ||| event == EventView::StreamEnd && context.stack.len() != 1
            ||| event is Scalar && context.stack.len() == 0
        }),
{
    if event == EventView::StreamEnd && context.stack.len() == 1 {
        if context.stack[0] == State::Stream {
            assert(context.stack =~= seq![State::Stream]);
        }
    }
}

/// If the whole of a sequence is nested without fault, so is each of its
/// beginnings.
pub proof fn lemma_nesting_of_prefix(open: Seq<Bracket>, events: Seq<EventView>, length: int)
    requires
        0 <= length <= events.len(),
        nesting(open, events) is Some,
    ensures
        nesting(open, events.take(length)) is Some,
    decreases events.len(),
{
    if length == events.len() {
        assert(events.take(length) =~= events);
    } else {
        assert(events.drop_last().take(length) =~= events.take(length));
        lemma_nesting_of_prefix(open, events.drop_last(), length);
    }
}

/// Inside a well nested sequence the stream is open: after at least one
/// event, and before the last, the outermost open structure is the stream.
pub proof fn lemma_stream_stays_open(events: Seq<EventView>, length: int)
    requires
        well_nested(events),
        1 <= length <= events.len() - 1,
    ensures
        nesting(Seq::empty(), events.take(length)) matches Some(open) && open.len() >= 1
            && open[0] == Bracket::Stream,
    decreases length,
{
    let prefix = events.take(length);
    lemma_nesting_of_prefix(Seq::empty(), events, length);
    assert(prefix.drop_last() =~= events.take(length - 1));
    assert(prefix.last() == events[length - 1]);
    if length == 1 {
        assert(events.take(0) =~= Seq::<EventView>::empty());
        assert(nesting(Seq::empty(), events.take(0)) == Some(Seq::<Bracket>::empty()));
        assert(events[0] == EventView::StreamStart);
    } else {
        lemma_stream_stays_open(events, length - 1);
    }
}

/// The pass over the rest of a well nested sequence, from a state that the
/// events so far have led to, is never malformed; if no event fails, it
/// ends with no frame open and at indent level zero.
proof fn lemma_rest_of_well_nested(
    context: Context,
    indent_size: nat,
    events: Seq<EventView>,
    position: int,
)
    requires
        well_nested(events),
        0 <= position <= events.len(),
        context.balanced(),
        nesting(Seq::empty(), events.take(position)) == Some(brackets(context.stack)),
    ensures
        run(context, indent_size, events, position).error != Some(Error::Malformed),
        run(context, indent_size, events, position).error is None ==> {
            &&& run(context, indent_size, events, position).context.stack.len() == 0
            &&& run(context, indent_size, events, position).context.indent_level == 0
        },
    decreases events.len() - position,
{
    if position == events.len() {
        assert(events.take(position) =~= events);
        assert(brackets(context.stack).len() == 0);
        assert(context.stack =~= Seq::<State>::empty());
    } else {
        let event = events[position];
        let next = lookahead(events, position + 1);
        let longer = events.take(position + 1);
        assert(longer.drop_last() =~= events.take(position));
        assert(longer.last() == event);
        lemma_nesting_of_prefix(Seq::empty(), events, position + 1);
        assert(bracket_step(brackets(context.stack), event) is Some);
        if position >= 1 {
            lemma_stream_stays_open(events, position);
            assert(context.stack.len() >= 1);
        }
        if position == events.len() - 1 {
            assert(longer =~= events);
            assert(event == EventView::StreamEnd);
            assert(brackets(context.stack).drop_last() =~= Seq::<Bracket>::empty());
            assert(context.stack.len() == 1);
            assert(bracket_of(context.stack[0]) == Bracket::Stream);
            assert(context.stack =~= seq![State::Stream]);
        } else if position >= 1 {
            assert(event != EventView::StreamEnd);
        } else {
            assert(event == EventView::StreamStart);
        }
        match step(context, indent_size, event, next) {
            Ok(done) => {
                lemma_step_keeps_balance(context, indent_size, event, next);
                lemma_step_follows_brackets(context, indent_size, event, next);
                lemma_rest_of_well_nested(done.context, indent_size, events, position + 1);
            },
            Err(error) => {
                if error == Error::Malformed {
                    lemma_malformed_cases(context, indent_size, event, next);
                }
            },
        }
    }
}

/// Balance: the pass over a well nested sequence is never malformed, and
/// if no event of it fails, it ends, after `StreamEnd`, with no frame open
/// and at indent level zero.
///
/// An event that fails in a well nested sequence is one that is not
/// supported.
pub proof fn lemma_well_nested_pass_is_balanced(events: Seq<EventView>, indent_size: nat)
    requires
        well_nested(events),
    ensures
        rendering(events, indent_size).error != Some(Error::Malformed),
        rendering(events, indent_size).error is None ==> {
            &&& rendering(events, indent_size).context.stack.len() == 0
            &&& rendering(events, indent_size).context.indent_level == 0
        },
{
    assert(events.take(0) =~= Seq::<EventView>::empty());
    assert(brackets(Context::initial().stack) =~= Seq::<Bracket>::empty());
    lemma_rest_of_well_nested(Context::initial(), indent_size, events, 0);
}

/// Guarded decrement: whatever the events are, well nested or not, the
/// indent level never falls below zero and never exceeds the number of
/// open sequences and mappings. This holds of the state in which a pass
/// ends, with or without an error.
pub proof fn lemma_pass_keeps_balance(
    context: Context,
    indent_size: nat,
    events: Seq<EventView>,
    position: int,
)
    requires
        context.balanced(),
    ensures
        run(context, indent_size, events, position).context.balanced(),
    decreases events.len() - position,
{
    if 0 <= position < events.len() {
        let event = events[position];
        let next = lookahead(events, position + 1);
        lemma_step_keeps_balance(context, indent_size, event, next);
        if let Ok(done) = step(context, indent_size, event, next) {
            lemma_pass_keeps_balance(done.context, indent_size, events, position + 1);
        }
    }
}

/// An end marker with no open mapping or sequence to close is malformed
/// input, and the indent level stays where it is.
pub proof fn lemma_unmatched_end_is_malformed(
    context: Context,
    indent_size: nat,
    events: Seq<EventView>,
    position: int,
)
    requires
        0 <= position < events.len(),
        ({
            ||| events[position] == EventView::MappingEnd && !context.in_mapping()
            ||| events[position] == EventView::SequenceEnd && !context.current_is(State::Sequence)
        }),
    ensures
        run(context, indent_size, events, position).error == Some(Error::Malformed),
        run(context, indent_size, events, position).context == context,
        run(context, indent_size, events, position).text == Seq::<char>::empty(),
{
}

/// A pass that comes to an alias stops there with the error for an
/// unsupported feature. It keeps the state and writes nothing more.
pub proof fn lemma_alias_is_unsupported(
    context: Context,
    indent_size: nat,
    events: Seq<EventView>,
    position: int,
)
    requires
        0 <= position < events.len(),
        events[position] is Alias,
    ensures
        run(context, indent_size, events, position).error == Some(
            Error::Unsupported(Feature::Alias),
        ),
        run(context, indent_size, events, position).context == context,
        run(context, indent_size, events, position).text == Seq::<char>::empty(),
{
}

/// No pass over a sequence that holds an alias succeeds.
pub proof fn lemma_alias_fails_the_pass(
    context: Context,
    indent_size: nat,
    events: Seq<EventView>,
    position: int,
    alias: int,
)
    requires
        0 <= position <= alias < events.len(),
        events[alias] is Alias,
    ensures
        run(context, indent_size, events, position).error is Some,
    decreases alias - position,
{
    if position < alias {
        if let Ok(done) = step(
            context,
            indent_size,
            events[position],
            lookahead(events, position + 1),
        ) {
            lemma_alias_fails_the_pass(done.context, indent_size, events, position + 1, alias);
        }
    }
}

} // verus!
