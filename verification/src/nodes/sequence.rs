//! Sequences: ordered lists of nodes.

use vstd::prelude::*;

use crate::events::{lemma_views_push, views, Event, EventView, IntoEvents};
use crate::nodes::{
    node_events, node_supported, node_views, nodes_events, nodes_supported, vec_from_array, Node,
    NodeView,
};
use crate::{Error, Feature};

verus! {

/// An ordered list of nodes.
#[derive(Debug)]
pub struct Sequence(Vec<Node>);

impl View for Sequence {
    type V = Seq<NodeView>;

    closed spec fn view(&self) -> Seq<NodeView>
        decreases self,
    {
        Seq::new(
            self.0@.len(),
            |i: int|
                if 0 <= i < self.0@.len() {
                    self.0@[i]@
                } else {
                    NodeView::Null
                },
        )
    }
}

impl<const N: usize> From<[Node; N]> for Sequence {
    /// The sequence of the given nodes, in their order.
    fn from(value: [Node; N]) -> (sequence: Self)
        ensures
            sequence@ == node_views(value@),
    {
        let sequence = Self(vec_from_array(value));
        assert(sequence@ =~= node_views(value@));
        sequence
    }
}

impl<const N: usize> vstd::std_specs::convert::FromSpecImpl<[Node; N]> for Sequence {
    /// What `from` returns is stated over the view, in its own contract.
    open spec fn obeys_from_spec() -> bool {
        false
    }

    open spec fn from_spec(value: [Node; N]) -> Self {
        arbitrary()
    }
}

impl Sequence {
    /// Appends the events of the sequence to `events`.
    pub(crate) fn append_events(&self, events: &mut Vec<Event>) -> (result: Result<(), Error>)
        ensures
            match result {
                Ok(()) => {
                    &&& nodes_supported(self@)
                    &&& views(final(events)@) == views(old(events)@) + node_events(
                        NodeView::Sequence(self@),
                    )
                },
                Err(error) => {
                    &&& !nodes_supported(self@)
                    &&& error == Error::Unsupported(Feature::FloatingPoint)
                },
            },
        decreases self,
    {
        let ghost before = views(events@);
        proof {
            lemma_views_push(events@, Event::SequenceStart);
        }
        events.push(Event::SequenceStart);
        let mut index: usize = 0;
        assert(self@.take(0) =~= Seq::<NodeView>::empty());
        assert(views(events@) =~= before + seq![EventView::SequenceStart] + nodes_events(
            self@.take(0),
        ));
        while index < self.0.len()
            invariant
                index <= self.0.len(),
                self@.len() == self.0.len(),
                nodes_supported(self@.take(index as int)),
                views(events@) == before + seq![EventView::SequenceStart] + nodes_events(
                    self@.take(index as int),
                ),
            decreases self.0.len() - index,
        {
            let ghost so_far = views(events@);
            let ghost done = self@.take(index as int);
            let ghost next = self@.take(index as int + 1);
            assert(next.drop_last() =~= done);
            assert(next.last() == self@[index as int]);
            match self.0[index].append_events(events) {
                Ok(()) => {},
                Err(error) => {
                    assert(!node_supported(self@[index as int]));
                    return Err(error);
                },
            }
            assert(views(events@) =~= before + seq![EventView::SequenceStart] + nodes_events(
                next,
            ));
            assert forall|i: int| 0 <= i < next.len() implies node_supported(
                #[trigger] next[i],
            ) by {
                if i < index {
                    assert(next[i] == done[i]);
                }
            }
            index += 1;
        }
        assert(self@.take(index as int) =~= self@);
        proof {
            lemma_views_push(events@, Event::SequenceEnd);
        }
        events.push(Event::SequenceEnd);
        Ok(())
    }
}

impl IntoEvents for Sequence {
    open spec fn linearized(&self) -> Seq<EventView> {
        node_events(NodeView::Sequence(self@))
    }

    open spec fn linearizable(&self) -> bool {
        nodes_supported(self@)
    }

    fn into_events(self) -> (result: Result<Vec<Event>, Error>) {
        let mut events = Vec::new();
        match self.append_events(&mut events) {
            Ok(()) => {
                assert(views(events@) =~= node_events(NodeView::Sequence(self@)));
                Ok(events)
            },
            Err(error) => Err(error),
        }
    }
}

} // verus!
