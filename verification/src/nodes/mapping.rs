//! Mappings: ordered lists of key/value pairs.
//!
//! A [`Mapping`] consists of entries, each a [`MappingPair`] of a key and a
//! value. Key and value can be any [`Node`]; the tree wraps the key node in
//! [`MappingKey`] and the value node in [`MappingValue`].
//!
//! Keys are not checked to be unique.

use vstd::prelude::*;

use crate::events::{lemma_views_push, views, Event, EventView, IntoEvents};
use crate::nodes::{
    node_events, node_supported, pairs_events, pairs_supported, vec_from_array, Node, NodeView,
};
use crate::{Error, Feature};

verus! {

/// The key of a mapping entry.
#[derive(Debug)]
pub struct MappingKey(pub(crate) Node);

/// The value of a mapping entry.
#[derive(Debug)]
pub struct MappingValue(pub(crate) Node);

/// One entry of a mapping: a key and its value.
#[derive(Debug)]
pub struct MappingPair(pub(crate) (MappingKey, MappingValue));

/// A list of key/value pairs, in the order in which they were given.
#[derive(Debug)]
pub struct Mapping(pub(crate) Vec<MappingPair>);

impl View for MappingKey {
    type V = NodeView;

    closed spec fn view(&self) -> NodeView
        decreases self,
    {
        self.0@
    }
}

impl View for MappingValue {
    type V = NodeView;

    closed spec fn view(&self) -> NodeView
        decreases self,
    {
        self.0@
    }
}

impl View for MappingPair {
    type V = (NodeView, NodeView);

    closed spec fn view(&self) -> (NodeView, NodeView)
        decreases self,
    {
        (self.0.0@, self.0.1@)
    }
}

impl View for Mapping {
    type V = Seq<(NodeView, NodeView)>;

    closed spec fn view(&self) -> Seq<(NodeView, NodeView)>
        decreases self,
    {
        Seq::new(
            self.0@.len(),
            |i: int|
                if 0 <= i < self.0@.len() {
                    self.0@[i]@
                } else {
                    (NodeView::Null, NodeView::Null)
                },
        )
    }
}

impl std::ops::Deref for Mapping {
    type Target = Vec<MappingPair>;

    /// The entries of the mapping, in order.
    fn deref(&self) -> (pairs: &Vec<MappingPair>)
        ensures
            pairs@.map_values(|pair: MappingPair| pair@) == self@,
    {
        assert(self.0@.map_values(|pair: MappingPair| pair@) =~= self@);
        &self.0
    }
}

impl IntoIterator for Mapping {
    type IntoIter = std::vec::IntoIter<MappingPair>;

    type Item = MappingPair;

    /// Walks the entries of the mapping, in order.
    fn into_iter(self) -> (entries: std::vec::IntoIter<MappingPair>)
        ensures
            vstd::std_specs::iter::IteratorSpec::remaining(&entries).map_values(
                |pair: MappingPair| pair@,
            ) == self@,
    {
        let entries = self.0.into_iter();
        assert(vstd::std_specs::iter::IteratorSpec::remaining(&entries).map_values(
            |pair: MappingPair| pair@,
        ) =~= self@);
        entries
    }
}

/// The mathematical values of a sequence of pairs of nodes, in order.
pub open spec fn pair_views(pairs: Seq<(Node, Node)>) -> Seq<(NodeView, NodeView)> {
    pairs.map_values(|pair: (Node, Node)| (pair.0@, pair.1@))
}

impl From<Node> for MappingKey {
    fn from(node: Node) -> (key: Self)
        ensures
            key@ == node@,
    {
        Self(node)
    }
}

impl vstd::std_specs::convert::FromSpecImpl<Node> for MappingKey {
    open spec fn obeys_from_spec() -> bool {
        true
    }

    closed spec fn from_spec(node: Node) -> Self {
        Self(node)
    }
}

impl From<Node> for MappingValue {
    fn from(node: Node) -> (value: Self)
        ensures
            value@ == node@,
    {
        Self(node)
    }
}

impl vstd::std_specs::convert::FromSpecImpl<Node> for MappingValue {
    open spec fn obeys_from_spec() -> bool {
        true
    }

    closed spec fn from_spec(node: Node) -> Self {
        Self(node)
    }
}

impl From<(MappingKey, MappingValue)> for MappingPair {
    fn from(pair: (MappingKey, MappingValue)) -> (entry: Self)
        ensures
            entry@ == (pair.0@, pair.1@),
    {
        Self(pair)
    }
}

impl vstd::std_specs::convert::FromSpecImpl<(MappingKey, MappingValue)> for MappingPair {
    open spec fn obeys_from_spec() -> bool {
        true
    }

    closed spec fn from_spec(pair: (MappingKey, MappingValue)) -> Self {
        Self(pair)
    }
}

impl From<(Node, Node)> for MappingPair {
    fn from(pair: (Node, Node)) -> (entry: Self)
        ensures
            entry@ == (pair.0@, pair.1@),
    {
        Self((MappingKey(pair.0), MappingValue(pair.1)))
    }
}

impl vstd::std_specs::convert::FromSpecImpl<(Node, Node)> for MappingPair {
    open spec fn obeys_from_spec() -> bool {
        true
    }

    closed spec fn from_spec(pair: (Node, Node)) -> Self {
        Self((MappingKey(pair.0), MappingValue(pair.1)))
    }
}

impl<const N: usize> From<[MappingPair; N]> for Mapping {
    /// The mapping of the given entries, in their order.
    fn from(pairs: [MappingPair; N]) -> (mapping: Self)
        ensures
            mapping@ == pairs@.map_values(|pair: MappingPair| pair@),
    {
        let mapping = Self(vec_from_array(pairs));
        assert(mapping@ =~= pairs@.map_values(|pair: MappingPair| pair@));
        mapping
    }
}

impl<const N: usize> vstd::std_specs::convert::FromSpecImpl<[MappingPair; N]> for Mapping {
    /// What `from` returns is stated over the view, in its own contract.
    open spec fn obeys_from_spec() -> bool {
        false
    }

    open spec fn from_spec(pairs: [MappingPair; N]) -> Self {
        arbitrary()
    }
}

impl<const N: usize> From<[(MappingKey, MappingValue); N]> for Mapping {
    /// The mapping of the given keys and values, in their order.
    fn from(pairs: [(MappingKey, MappingValue); N]) -> (mapping: Self)
        ensures
            mapping@ == pairs@.map_values(|pair: (MappingKey, MappingValue)| (pair.0@, pair.1@)),
    {
        let items = vec_from_array(pairs);
        let mut mappings: Vec<MappingPair> = Vec::new();
        for pair in rest: items
            invariant
                rest.seq() == pairs@,
                mappings@.len() == rest.index(),
                forall|i: int|
                    0 <= i < mappings@.len() ==> (#[trigger] mappings@[i])@ == (
                        pairs@[i].0@,
                        pairs@[i].1@,
                    ),
        {
            mappings.push(MappingPair::from(pair));
        }
        let mapping = Self(mappings);
        assert(mapping@ =~= pairs@.map_values(
            |pair: (MappingKey, MappingValue)| (pair.0@, pair.1@),
        ));
        mapping
    }
}

impl<const N: usize> vstd::std_specs::convert::FromSpecImpl<[(MappingKey, MappingValue); N]> for Mapping {
    /// What `from` returns is stated over the view, in its own contract.
    open spec fn obeys_from_spec() -> bool {
        false
    }

    open spec fn from_spec(pairs: [(MappingKey, MappingValue); N]) -> Self {
        arbitrary()
    }
}

impl<const N: usize> From<[(Node, Node); N]> for Mapping {
    /// The mapping of the given keys and values, in their order.
    fn from(pairs: [(Node, Node); N]) -> (mapping: Self)
        ensures
            mapping@ == pair_views(pairs@),
    {
        let items = vec_from_array(pairs);
        let mut mappings: Vec<MappingPair> = Vec::new();
        for pair in rest: items
            invariant
                rest.seq() == pairs@,
                mappings@.len() == rest.index(),
                forall|i: int|
                    0 <= i < mappings@.len() ==> (#[trigger] mappings@[i])@ == (
                        pairs@[i].0@,
                        pairs@[i].1@,
                    ),
        {
            mappings.push(MappingPair::from(pair));
        }
        let mapping = Self(mappings);
        assert(mapping@ =~= pair_views(pairs@));
        mapping
    }
}

impl<const N: usize> vstd::std_specs::convert::FromSpecImpl<[(Node, Node); N]> for Mapping {
    /// What `from` returns is stated over the view, in its own contract.
    open spec fn obeys_from_spec() -> bool {
        false
    }

    open spec fn from_spec(pairs: [(Node, Node); N]) -> Self {
        arbitrary()
    }
}

impl MappingPair {
    /// Appends the events of the key and then those of the value to
    /// `events`.
    pub(crate) fn append_events(&self, events: &mut Vec<Event>) -> (result: Result<(), Error>)
        ensures
            match result {
                Ok(()) => {
                    &&& node_supported(self@.0) && node_supported(self@.1)
                    &&& views(final(events)@) == views(old(events)@) + node_events(self@.0)
                        + node_events(self@.1)
                },
                Err(error) => {
                    &&& !(node_supported(self@.0) && node_supported(self@.1))
                    &&& error == Error::Unsupported(Feature::FloatingPoint)
                },
            },
        decreases self,
    {
        match self.0.0.0.append_events(events) {
            Ok(()) => {},
            Err(error) => {
                return Err(error);
            },
        }
        self.0.1.0.append_events(events)
    }
}

impl IntoEvents for MappingPair {
    open spec fn linearized(&self) -> Seq<EventView> {
        node_events(self@.0) + node_events(self@.1)
    }

    open spec fn linearizable(&self) -> bool {
        node_supported(self@.0) && node_supported(self@.1)
    }

    fn into_events(self) -> (result: Result<Vec<Event>, Error>) {
        let mut events = Vec::new();
        match self.append_events(&mut events) {
            Ok(()) => {
                assert(views(events@) =~= node_events(self@.0) + node_events(self@.1));
                Ok(events)
            },
            Err(error) => Err(error),
        }
    }
}

impl Mapping {
    /// Appends the events of the mapping to `events`.
    pub(crate) fn append_events(&self, events: &mut Vec<Event>) -> (result: Result<(), Error>)
        ensures
            match result {
                Ok(()) => {
                    &&& pairs_supported(self@)
                    &&& views(final(events)@) == views(old(events)@) + node_events(
                        NodeView::Mapping(self@),
                    )
                },
                Err(error) => {
                    &&& !pairs_supported(self@)
                    &&& error == Error::Unsupported(Feature::FloatingPoint)
                },
            },
        decreases self,
    {
        let ghost before = views(events@);
        proof {
            lemma_views_push(events@, Event::MappingStart);
        }
        events.push(Event::MappingStart);
        let mut index: usize = 0;
        assert(self@.take(0) =~= Seq::<(NodeView, NodeView)>::empty());
        assert(views(events@) =~= before + seq![EventView::MappingStart] + pairs_events(
            self@.take(0),
        ));
        while index < self.0.len()
            invariant
                index <= self.0.len(),
                self@.len() == self.0.len(),
                pairs_supported(self@.take(index as int)),
                views(events@) == before + seq![EventView::MappingStart] + pairs_events(
                    self@.take(index as int),
                ),
            decreases self.0.len() - index,
        {
            let ghost done = self@.take(index as int);
            let ghost next = self@.take(index as int + 1);
            assert(next.drop_last() =~= done);
            assert(next.last() == self@[index as int]);
            match self.0[index].append_events(events) {
                Ok(()) => {},
                Err(error) => {
                    assert(!(node_supported(self@[index as int].0) && node_supported(
                        self@[index as int].1,
                    )));
                    return Err(error);
                },
            }
            assert(views(events@) =~= before + seq![EventView::MappingStart] + pairs_events(
                next,
            ));
            assert forall|i: int| 0 <= i < next.len() implies node_supported(
                (#[trigger] next[i]).0,
            ) && node_supported(next[i].1) by {
                if i < index {
                    assert(next[i] == done[i]);
                }
            }
            index += 1;
        }
        assert(self@.take(index as int) =~= self@);
        proof {
            lemma_views_push(events@, Event::MappingEnd);
        }
        events.push(Event::MappingEnd);
        Ok(())
    }
}

impl IntoEvents for Mapping {
    open spec fn linearized(&self) -> Seq<EventView> {
        node_events(NodeView::Mapping(self@))
    }

    open spec fn linearizable(&self) -> bool {
        pairs_supported(self@)
    }

    fn into_events(self) -> (result: Result<Vec<Event>, Error>) {
        let mut events = Vec::new();
        match self.append_events(&mut events) {
            Ok(()) => {
                assert(views(events@) =~= node_events(NodeView::Mapping(self@)));
                Ok(events)
            },
            Err(error) => Err(error),
        }
    }
}

} // verus!
