//! What holds of the linearization and the rendering together.

use vstd::prelude::*;

use crate::emitter::machine::{
    frames, frames_after, is_collection, lemma_frames_of_concatenation,
    lemma_run_follows_frames, rendering, slot_taken, Context,
};
use crate::emitter::nesting::{
    closes, lemma_well_nested_pass_is_balanced, nesting, opens, well_nested, Bracket,
};
use crate::emitter::state::{Phase, State};
use crate::events::{EventView, IntoEvents};
use crate::nodes::{
    node_events, node_supported, nodes_events, nodes_supported, pairs_events, pairs_supported,
    NodeView,
};
use crate::{
    document_events, documents_events, documents_supported, stream_events, DocumentView, Error,
    Stream,
};

verus! {

/// Whether none of the events is `StreamStart` or `StreamEnd`.
pub open spec fn inside_stream(events: Seq<EventView>) -> bool {
    forall|i: int|
        0 <= i < events.len() ==> events[i] != EventView::StreamStart && events[i]
            != EventView::StreamEnd
}

/// Whether the events open no structure that they do not close, and close
/// none that they did not open: read where any structures are open, they
/// leave the same structures open.
pub open spec fn self_contained(events: Seq<EventView>) -> bool {
    forall|open: Seq<Bracket>| #[trigger] nesting(open, events) == Some(open)
}

/// The nesting of two sequences, one after the other, is the nesting of
/// the second read where the first has ended.
pub proof fn lemma_nesting_of_concatenation(
    open: Seq<Bracket>,
    first: Seq<EventView>,
    second: Seq<EventView>,
)
    ensures
        nesting(open, first + second) == match nesting(open, first) {
            Some(between) => nesting(between, second),
            None => None,
        },
    decreases second.len(),
{
    if second.len() == 0 {
        assert(first + second =~= first);
    } else {
        assert((first + second).drop_last() =~= first + second.drop_last());
        assert((first + second).last() == second.last());
        lemma_nesting_of_concatenation(open, first, second.drop_last());
    }
}

/// Two self-contained sequences inside a stream, one after the other, are
/// one.
proof fn lemma_concatenation_is_self_contained(first: Seq<EventView>, second: Seq<EventView>)
    requires
        self_contained(first),
        self_contained(second),
        inside_stream(first),
        inside_stream(second),
    ensures
        self_contained(first + second),
        inside_stream(first + second),
{
    assert forall|open: Seq<Bracket>| #[trigger]
        nesting(open, first + second) == Some(open) by {
        lemma_nesting_of_concatenation(open, first, second);
        assert(nesting(open, first) == Some(open));
        assert(nesting(open, second) == Some(open));
    }
}

/// A self-contained sequence between the start and the end marker of one
/// structure is self-contained.
proof fn lemma_bracketed_is_self_contained(
    start: EventView,
    body: Seq<EventView>,
    end: EventView,
    bracket: Bracket,
)
    requires
        self_contained(body),
        inside_stream(body),
        bracket != Bracket::Stream,
        opens(start) == Some(bracket),
        closes(end) == Some(bracket),
    ensures
        self_contained(seq![start] + body + seq![end]),
        inside_stream(seq![start] + body + seq![end]),
{
    let whole = seq![start] + body + seq![end];
    assert forall|open: Seq<Bracket>| #[trigger] nesting(open, whole) == Some(open) by {
        let inner = open.push(bracket);
        assert(seq![start].drop_last() =~= Seq::<EventView>::empty());
        assert(nesting(open, seq![start].drop_last()) == Some(open));
        assert(nesting(open, seq![start]) == Some(inner));
        lemma_nesting_of_concatenation(open, seq![start], body);
        assert(nesting(inner, body) == Some(inner));
        assert(whole.drop_last() =~= seq![start] + body);
        assert(whole.last() == end);
        assert(inner.drop_last() =~= open);
    }
}

/// One event that is no marker is self-contained.
proof fn lemma_payload_is_self_contained(event: EventView)
    requires
        opens(event) is None,
        closes(event) is None,
    ensures
        self_contained(seq![event]),
        inside_stream(seq![event]),
{
    assert forall|open: Seq<Bracket>| #[trigger] nesting(open, seq![event]) == Some(open) by {
        assert(seq![event].drop_last() =~= Seq::<EventView>::empty());
        assert(nesting(open, seq![event].drop_last()) == Some(open));
    }
}

/// No events are self-contained.
proof fn lemma_nothing_is_self_contained()
    ensures
        self_contained(Seq::<EventView>::empty()),
        inside_stream(Seq::<EventView>::empty()),
{
}

/// The events of a node close what they open, and hold no stream marker.
pub proof fn lemma_node_is_self_contained(node: NodeView)
    ensures
        self_contained(node_events(node)),
        inside_stream(node_events(node)),
    decreases node,
{
    match node {
        NodeView::Mapping(pairs) => {
            lemma_pairs_are_self_contained(pairs);
            lemma_bracketed_is_self_contained(
                EventView::MappingStart,
                pairs_events(pairs),
                EventView::MappingEnd,
                Bracket::Mapping,
            );
        },
        NodeView::Sequence(items) => {
            lemma_nodes_are_self_contained(items);
            lemma_bracketed_is_self_contained(
                EventView::SequenceStart,
                nodes_events(items),
                EventView::SequenceEnd,
                Bracket::Sequence,
            );
        },
        NodeView::FloatingPoint(_) => {
            lemma_nothing_is_self_contained();
        },
        _ => {
            lemma_payload_is_self_contained(node_events(node)[0]);
            assert(node_events(node) =~= seq![node_events(node)[0]]);
        },
    }
}

/// The events of a list of nodes close what they open, and hold no stream
/// marker.
pub proof fn lemma_nodes_are_self_contained(nodes: Seq<NodeView>)
    ensures
        self_contained(nodes_events(nodes)),
        inside_stream(nodes_events(nodes)),
    decreases nodes,
{
    if nodes.len() == 0 {
        lemma_nothing_is_self_contained();
    } else {
        lemma_nodes_are_self_contained(nodes.drop_last());
        lemma_node_is_self_contained(nodes.last());
        lemma_concatenation_is_self_contained(
            nodes_events(nodes.drop_last()),
            node_events(nodes.last()),
        );
    }
}

/// The events of a list of pairs close what they open, and hold no stream
/// marker.
pub proof fn lemma_pairs_are_self_contained(pairs: Seq<(NodeView, NodeView)>)
    ensures
        self_contained(pairs_events(pairs)),
        inside_stream(pairs_events(pairs)),
    decreases pairs,
{
    if pairs.len() == 0 {
        lemma_nothing_is_self_contained();
    } else {
        lemma_pairs_are_self_contained(pairs.drop_last());
        lemma_node_is_self_contained(pairs.last().0);
        lemma_node_is_self_contained(pairs.last().1);
        lemma_concatenation_is_self_contained(
            pairs_events(pairs.drop_last()),
            node_events(pairs.last().0),
        );
        lemma_concatenation_is_self_contained(
            pairs_events(pairs.drop_last()) + node_events(pairs.last().0),
            node_events(pairs.last().1),
        );
    }
}

/// The events of a list of documents close what they open, and hold no
/// stream marker.
pub proof fn lemma_documents_are_self_contained(documents: Seq<DocumentView>)
    ensures
        self_contained(documents_events(documents)),
        inside_stream(documents_events(documents)),
    decreases documents.len(),
{
    if documents.len() == 0 {
        lemma_nothing_is_self_contained();
    } else {
        lemma_documents_are_self_contained(documents.drop_last());
        lemma_nodes_are_self_contained(documents.last().nodes);
        lemma_bracketed_is_self_contained(
            EventView::DocumentStart,
            nodes_events(documents.last().nodes),
            EventView::DocumentEnd,
            Bracket::Document,
        );
        lemma_concatenation_is_self_contained(
            documents_events(documents.drop_last()),
            document_events(documents.last()),
        );
    }
}

/// Every stream is linearized into a well nested sequence of events.
pub proof fn lemma_stream_is_well_nested(documents: Seq<DocumentView>)
    ensures
        well_nested(stream_events(documents)),
{
    let body = documents_events(documents);
    let events = stream_events(documents);
    let none = Seq::<Bracket>::empty();
    let stream = none.push(Bracket::Stream);
    lemma_documents_are_self_contained(documents);
    assert(seq![EventView::StreamStart].drop_last() =~= Seq::<EventView>::empty());
    assert(nesting(none, seq![EventView::StreamStart].drop_last()) == Some(none));
    assert(nesting(none, seq![EventView::StreamStart]) == Some(stream));
    lemma_nesting_of_concatenation(none, seq![EventView::StreamStart], body);
    assert(nesting(stream, body) == Some(stream));
    assert(events.drop_last() =~= seq![EventView::StreamStart] + body);
    assert(events.last() == EventView::StreamEnd);
    assert(stream.drop_last() =~= none);
    assert forall|i: int| 0 < i < events.len() - 1 implies events[i] != EventView::StreamStart
        && events[i] != EventView::StreamEnd by {
        assert(events[i] == body[i - 1]);
    }
}

/// Rendering the events of a stream never finds them malformed. If every
/// event of them is supported, the pass ends with no frame open and at
/// indent level zero.
pub proof fn lemma_stream_is_rendered_in_balance(documents: Seq<DocumentView>, indent_size: nat)
    ensures
        rendering(stream_events(documents), indent_size).error != Some(Error::Malformed),
        rendering(stream_events(documents), indent_size).error is None ==> {
            &&& rendering(stream_events(documents), indent_size).context.stack.len() == 0
            &&& rendering(stream_events(documents), indent_size).context.indent_level == 0
        },
{
    lemma_stream_is_well_nested(documents);
    lemma_well_nested_pass_is_balanced(stream_events(documents), indent_size);
}

/// Whether the node is rendered as one scalar: a string, the null, a
/// boolean or a number.
pub open spec fn is_scalar(node: NodeView) -> bool {
    node is String || node is Null || node is Boolean || node is Integer || node is FloatingPoint
}

/// Whether the innermost frame is a sequence or a mapping, so that a
/// scalar can stand there.
pub open spec fn in_collection(stack: Seq<State>) -> bool {
    stack.len() > 0 && is_collection(stack.last())
}

/// Whether each node can stand where `stack` is open: a scalar needs a
/// sequence or a mapping around it.
pub open spec fn nodes_fit(stack: Seq<State>, nodes: Seq<NodeView>) -> bool {
    forall|i: int| 0 <= i < nodes.len() ==> (is_scalar(#[trigger] nodes[i]) ==> in_collection(stack))
}

/// Whether `after` is `before`, but for the phase of the innermost frame
/// if that is a mapping.
pub open spec fn same_but_phase(before: Seq<State>, after: Seq<State>) -> bool {
    ||| after == before
    ||| {
        &&& before.len() > 0
        &&& after.len() == before.len()
        &&& after.drop_last() == before.drop_last()
        &&& before.last() is Mapping
        &&& after.last() is Mapping
    }
}

/// The frames after one event.
proof fn lemma_frames_of_one(stack: Seq<State>, event: EventView)
    ensures
        frames(stack, seq![event]) == frames_after(stack, event),
{
    assert(seq![event].drop_last() =~= Seq::<EventView>::empty());
    assert(frames(stack, seq![event].drop_last()) == Ok::<Seq<State>, Error>(stack));
}

/// The events of a supported node that fits where it stands fail nowhere.
/// A comment leaves the frames as they are. Any other node takes the slot
/// that the innermost frame, if it is a mapping, expects to fill, and
/// leaves no frame of its own open.
pub proof fn lemma_node_passes(stack: Seq<State>, node: NodeView)
    requires
        node_supported(node),
        is_scalar(node) ==> in_collection(stack),
    ensures
        frames(stack, node_events(node)) == Ok::<Seq<State>, Error>(
            if node is Comment {
                stack
            } else {
                slot_taken(stack)
            },
        ),
    decreases node,
{
    match node {
        NodeView::Mapping(pairs) => {
            let inner = slot_taken(stack).push(State::Mapping(Phase::ExpectingKey));
            let body = pairs_events(pairs);
            lemma_frames_of_one(stack, EventView::MappingStart);
            lemma_pairs_pass(inner, pairs);
            lemma_frames_of_concatenation(stack, seq![EventView::MappingStart], body);
            let after = frames(inner, body)->Ok_0;
            lemma_frames_of_one(after, EventView::MappingEnd);
            lemma_frames_of_concatenation(
                stack,
                seq![EventView::MappingStart] + body,
                seq![EventView::MappingEnd],
            );
            assert(inner.drop_last() =~= slot_taken(stack));
        },
        NodeView::Sequence(items) => {
            let inner = slot_taken(stack).push(State::Sequence);
            let body = nodes_events(items);
            lemma_frames_of_one(stack, EventView::SequenceStart);
            assert(nodes_fit(inner, items));
            lemma_nodes_pass(inner, items);
            lemma_frames_of_concatenation(stack, seq![EventView::SequenceStart], body);
            let after = frames(inner, body)->Ok_0;
            assert(after == inner);
            lemma_frames_of_one(after, EventView::SequenceEnd);
            lemma_frames_of_concatenation(
                stack,
                seq![EventView::SequenceStart] + body,
                seq![EventView::SequenceEnd],
            );
            assert(inner.drop_last() =~= slot_taken(stack));
        },
        NodeView::FloatingPoint(_) => {},
        NodeView::Comment(comment) => {
            lemma_frames_of_one(stack, EventView::Comment(comment.content));
        },
        _ => {
            lemma_frames_of_one(stack, node_events(node)[0]);
            assert(node_events(node) =~= seq![node_events(node)[0]]);
        },
    }
}

/// The events of supported nodes that fit where they stand fail nowhere,
/// and leave the frames as they are, but for the phase of the innermost
/// frame if that is a mapping.
pub proof fn lemma_nodes_pass(stack: Seq<State>, nodes: Seq<NodeView>)
    requires
        nodes_supported(nodes),
        nodes_fit(stack, nodes),
    ensures
        frames(stack, nodes_events(nodes)) matches Ok(after) && same_but_phase(stack, after),
    decreases nodes,
{
    if nodes.len() > 0 {
        let before = nodes.drop_last();
        assert forall|i: int| 0 <= i < before.len() implies node_supported(
            #[trigger] before[i],
        ) by {
            assert(before[i] == nodes[i]);
        }
        assert forall|i: int| 0 <= i < before.len() && is_scalar(
            #[trigger] before[i],
        ) implies in_collection(stack) by {
            assert(before[i] == nodes[i]);
        }
        lemma_nodes_pass(stack, before);
        let between = frames(stack, nodes_events(before))->Ok_0;
        assert(node_supported(nodes[nodes.len() - 1]));
        assert(is_scalar(nodes[nodes.len() - 1]) ==> in_collection(stack));
        lemma_node_passes(between, nodes.last());
        lemma_frames_of_concatenation(stack, nodes_events(before), node_events(nodes.last()));
        let after = frames(between, node_events(nodes.last()))->Ok_0;
        if after != between {
            assert(after.drop_last() =~= between.drop_last());
        }
    }
}

/// The events of supported pairs inside a mapping or sequence fail
/// nowhere, and leave the frames as they are, but for the phase of the
/// innermost frame if that is a mapping.
pub proof fn lemma_pairs_pass(stack: Seq<State>, pairs: Seq<(NodeView, NodeView)>)
    requires
        pairs_supported(pairs),
        in_collection(stack),
    ensures
        frames(stack, pairs_events(pairs)) matches Ok(after) && same_but_phase(stack, after),
    decreases pairs,
{
    if pairs.len() > 0 {
        let before = pairs.drop_last();
        assert forall|i: int| 0 <= i < before.len() implies node_supported(
            (#[trigger] before[i]).0,
        ) && node_supported(before[i].1) by {
            assert(before[i] == pairs[i]);
        }
        lemma_pairs_pass(stack, before);
        let first = frames(stack, pairs_events(before))->Ok_0;
        let pair = pairs[pairs.len() - 1];
        assert(node_supported(pair.0) && node_supported(pair.1));
        lemma_node_passes(first, pair.0);
        let second = frames(first, node_events(pair.0))->Ok_0;
        if second != first {
            assert(second.drop_last() =~= first.drop_last());
        }
        lemma_node_passes(second, pair.1);
        let third = frames(second, node_events(pair.1))->Ok_0;
        if third != second {
            assert(third.drop_last() =~= second.drop_last());
        }
        lemma_frames_of_concatenation(stack, pairs_events(before), node_events(pair.0));
        lemma_frames_of_concatenation(
            stack,
            pairs_events(before) + node_events(pair.0),
            node_events(pair.1),
        );
    }
}

/// Whether every node of every document is supported, and no root of a
/// document is a scalar.
pub open spec fn renderable(documents: Seq<DocumentView>) -> bool {
    &&& documents_supported(documents)
    &&& forall|d: int, i: int|
        0 <= d < documents.len() && 0 <= i < documents[d].nodes.len() ==> !is_scalar(
            #[trigger] documents[d].nodes[i],
        )
}

/// The events of renderable documents fail nowhere where a stream is
/// open, and leave the frames as they are.
proof fn lemma_documents_pass(stack: Seq<State>, documents: Seq<DocumentView>)
    requires
        renderable(documents),
    ensures
        frames(stack, documents_events(documents)) == Ok::<Seq<State>, Error>(stack),
    decreases documents.len(),
{
    if documents.len() > 0 {
        let before = documents.drop_last();
        let last = documents.last();
        assert forall|d: int| 0 <= d < before.len() implies nodes_supported(
            (#[trigger] before[d]).nodes,
        ) by {
            assert(before[d] == documents[d]);
        }
        assert forall|d: int, i: int|
            0 <= d < before.len() && 0 <= i < before[d].nodes.len() implies !is_scalar(
            #[trigger] before[d].nodes[i],
        ) by {
            assert(before[d] == documents[d]);
            assert(!is_scalar(documents[d].nodes[i]));
        }
        lemma_documents_pass(stack, before);
        let inner = stack.push(State::Document);
        let body = nodes_events(last.nodes);
        assert(nodes_supported(documents[documents.len() - 1].nodes));
        assert forall|i: int| 0 <= i < last.nodes.len() && is_scalar(
            #[trigger] last.nodes[i],
        ) implies in_collection(inner) by {
            assert(!is_scalar(documents[documents.len() - 1].nodes[i]));
        }
        lemma_frames_of_one(stack, EventView::DocumentStart);
        lemma_nodes_pass(inner, last.nodes);
        lemma_frames_of_concatenation(stack, seq![EventView::DocumentStart], body);
        lemma_frames_of_one(inner, EventView::DocumentEnd);
        lemma_frames_of_concatenation(
            stack,
            seq![EventView::DocumentStart] + body,
            seq![EventView::DocumentEnd],
        );
        assert(inner.drop_last() =~= stack);
        lemma_frames_of_concatenation(stack, documents_events(before), document_events(last));
    }
}

/// Success: the events of a stream are rendered without an error if every
/// node of the stream is supported and every root of a document is a
/// mapping, a sequence or a comment. The pass then ends with no frame open
/// and at indent level zero.
pub proof fn lemma_renderable_stream_is_rendered(documents: Seq<DocumentView>, indent_size: nat)
    requires
        renderable(documents),
    ensures
        rendering(stream_events(documents), indent_size).error is None,
        rendering(stream_events(documents), indent_size).context == Context::initial(),
{
    let none = Seq::<State>::empty();
    let stream = none.push(State::Stream);
    let body = documents_events(documents);
    let events = stream_events(documents);
    lemma_frames_of_one(none, EventView::StreamStart);
    lemma_documents_pass(stream, documents);
    lemma_frames_of_concatenation(none, seq![EventView::StreamStart], body);
    assert(stream =~= seq![State::Stream]);
    lemma_frames_of_one(stream, EventView::StreamEnd);
    lemma_frames_of_concatenation(
        none,
        seq![EventView::StreamStart] + body,
        seq![EventView::StreamEnd],
    );
    assert(events.take(0) =~= Seq::<EventView>::empty());
    lemma_run_follows_frames(none, Context::initial(), indent_size, events, 0);
    lemma_stream_is_rendered_in_balance(documents, indent_size);
    assert(rendering(events, indent_size).context.stack =~= Context::initial().stack);
}

/// Determinism: two streams that hold the same documents are linearized
/// into the same events, and events of the same values are rendered, with
/// the same indent size, as the same text, with the same error if there is
/// one.
pub proof fn lemma_same_tree_same_text(first: Stream, second: Stream, indent_size: nat)
    requires
        first@ == second@,
    ensures
        first.linearizable() == second.linearizable(),
        first.linearized() == second.linearized(),
        rendering(first.linearized(), indent_size) == rendering(
            second.linearized(),
            indent_size,
        ),
{
}

} // verus!
