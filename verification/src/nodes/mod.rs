//! The document tree: mappings, sequences, scalars and comments.

use vstd::prelude::*;
use vstd::string::StringExecFns;

pub mod mapping;
pub mod sequence;

pub use mapping::{Mapping, MappingKey, MappingPair, MappingValue};
pub use sequence::Sequence;

use crate::events::{lemma_views_push, views, Event, EventView, IntoEvents};
use crate::text::{boolean, decimal, decimal_string, null};
use crate::{Error, Feature};

verus! {

/// One value of the document tree.
///
/// YAML keeps nodes and tags apart as two concepts. Here the variant of a
/// node is its tag.
#[derive(Debug)]
pub enum Node {
    /// An ordered list of key/value pairs.
    Mapping(Mapping),
    /// An ordered list of nodes.
    Sequence(Sequence),
    /// A string of zero or more characters.
    String(String),
    /// The lack of a value.
    Null,
    /// A true/false value.
    Boolean(bool),
    /// An integer.
    Integer(i64),
    /// An approximation to a real number, kept as the text it was given in.
    FloatingPoint(String),
    /// A comment. Comments are no part of the data of a document; they are
    /// nodes so that they keep their place in the tree.
    Comment(Comment),
}

/// The mathematical value of a [`Node`].
pub enum NodeView {
    Mapping(Seq<(NodeView, NodeView)>),
    Sequence(Seq<NodeView>),
    String(Seq<char>),
    Null,
    Boolean(bool),
    Integer(int),
    FloatingPoint(Seq<char>),
    Comment(CommentView),
}

impl View for Node {
    type V = NodeView;

    open spec fn view(&self) -> NodeView
        decreases self,
    {
        match self {
            Node::Mapping(mapping) => NodeView::Mapping(mapping@),
            Node::Sequence(sequence) => NodeView::Sequence(sequence@),
            Node::String(text) => NodeView::String(text@),
            Node::Null => NodeView::Null,
            Node::Boolean(value) => NodeView::Boolean(*value),
            Node::Integer(value) => NodeView::Integer(*value as int),
            Node::FloatingPoint(text) => NodeView::FloatingPoint(text@),
            Node::Comment(comment) => NodeView::Comment(comment@),
        }
    }
}

impl Default for Node {
    fn default() -> (node: Self)
        ensures
            node@ == NodeView::Null,
    {
        Self::Null
    }
}

/// The three kinds of nodes.
#[derive(Clone, Copy, Debug, PartialEq, Eq, Structural)]
pub enum Kind {
    Sequence,
    Mapping,
    Scalar,
}

/// Where a comment stands.
#[derive(Clone, Copy, Debug, PartialEq, Eq, Structural)]
pub enum CommentKind {
    /// At the end of a line that holds something else.
    Inline,
    /// On a line of its own.
    Block,
}

/// A comment and its text, without the leading `#`.
#[derive(Debug)]
pub struct Comment {
    pub kind: CommentKind,
    pub content: String,
}

/// The mathematical value of a [`Comment`].
pub struct CommentView {
    pub kind: CommentKind,
    pub content: Seq<char>,
}

impl View for Comment {
    type V = CommentView;

    open spec fn view(&self) -> CommentView {
        CommentView { kind: self.kind, content: self.content@ }
    }
}

/// The mathematical values of a sequence of nodes, in order.
pub open spec fn node_views(nodes: Seq<Node>) -> Seq<NodeView> {
    nodes.map_values(|node: Node| node@)
}

/// The tag of a node as a URI. A comment has none.
pub open spec fn tag_uri(node: NodeView) -> Seq<char> {
    match node {
        NodeView::Mapping(_) => "tag:yaml.org,2002:map"@,
        NodeView::Sequence(_) => "tag:yaml.org,2002:seq"@,
        NodeView::String(_) => "tag:yaml.org,2002:str"@,
        NodeView::Null => "tag:yaml.org,2002:null"@,
        NodeView::Boolean(_) => "tag:yaml.org,2002:bool"@,
        NodeView::Integer(_) => "tag:yaml.org,2002:int"@,
        NodeView::FloatingPoint(_) => "tag:yaml.org,2002:float"@,
        NodeView::Comment(_) => ""@,
    }
}

/// The kind of a node. All that is neither a mapping nor a sequence is a
/// scalar.
pub open spec fn kind_of(node: NodeView) -> Kind {
    match node {
        NodeView::Mapping(_) => Kind::Mapping,
        NodeView::Sequence(_) => Kind::Sequence,
        _ => Kind::Scalar,
    }
}

/// Whether the node and all nodes below it can be linearized. Floating
/// point nodes cannot.
pub open spec fn node_supported(node: NodeView) -> bool
    decreases node,
{
    match node {
        NodeView::Mapping(pairs) => pairs_supported(pairs),
        NodeView::Sequence(items) => nodes_supported(items),
        NodeView::FloatingPoint(_) => false,
        _ => true,
    }
}

/// Whether each of the nodes can be linearized.
pub open spec fn nodes_supported(nodes: Seq<NodeView>) -> bool
    decreases nodes,
{
    forall|i: int| 0 <= i < nodes.len() ==> node_supported(#[trigger] nodes[i])
}

/// Whether the key and the value of each pair can be linearized.
pub open spec fn pairs_supported(pairs: Seq<(NodeView, NodeView)>) -> bool
    decreases pairs,
{
    forall|i: int|
        0 <= i < pairs.len() ==> node_supported((#[trigger] pairs[i]).0) && node_supported(
            pairs[i].1,
        )
}

/// The events of a node.
///
/// A mapping is `MappingStart`, then for each pair the events of the key
/// followed by those of the value, then `MappingEnd`. A sequence is
/// `SequenceStart`, the events of each item, `SequenceEnd`. A string, a
/// null, a boolean and an integer are one `Scalar` with their text, a
/// comment is one `Comment`. A floating point node has no events: it is not
/// supported.
pub open spec fn node_events(node: NodeView) -> Seq<EventView>
    decreases node,
{
    match node {
        NodeView::Mapping(pairs) => seq![EventView::MappingStart] + pairs_events(pairs)
            + seq![EventView::MappingEnd],
        NodeView::Sequence(items) => seq![EventView::SequenceStart] + nodes_events(items)
            + seq![EventView::SequenceEnd],
        NodeView::String(text) => seq![EventView::Scalar(text)],
        NodeView::Null => seq![EventView::Scalar(null())],
        NodeView::Boolean(value) => seq![EventView::Scalar(boolean(value))],
        NodeView::Integer(value) => seq![EventView::Scalar(decimal(value))],
        NodeView::FloatingPoint(_) => Seq::empty(),
        NodeView::Comment(comment) => seq![EventView::Comment(comment.content)],
    }
}

/// The events of each node, in order.
pub open spec fn nodes_events(nodes: Seq<NodeView>) -> Seq<EventView>
    decreases nodes,
{
    if nodes.len() == 0 {
        Seq::empty()
    } else {
        nodes_events(nodes.drop_last()) + node_events(nodes.last())
    }
}

/// The events of each pair, in order: those of its key, then those of its
/// value. Nothing separates one pair from the next.
pub open spec fn pairs_events(pairs: Seq<(NodeView, NodeView)>) -> Seq<EventView>
    decreases pairs,
{
    if pairs.len() == 0 {
        Seq::empty()
    } else {
        pairs_events(pairs.drop_last()) + node_events(pairs.last().0) + node_events(
            pairs.last().1,
        )
    }
}

/// `Vec::from` on an array. The vector holds the items of the array, in
/// the order of the array.
#[verifier::external_body]
pub(crate) fn vec_from_array<T, const N: usize>(items: [T; N]) -> (vector: Vec<T>)
    ensures
        vector@ == items@,
{
    Vec::from(items)
}

impl Node {
    /// The tag of the node as a URI.
    pub fn uri(&self) -> (uri: String)
        ensures
            uri@ == tag_uri(self@),
    {
        let uri = match self {
            Node::Mapping(_) => "tag:yaml.org,2002:map",
            Node::Sequence(_) => "tag:yaml.org,2002:seq",
            Node::String(_) => "tag:yaml.org,2002:str",
            Node::Null => "tag:yaml.org,2002:null",
            Node::Boolean(_) => "tag:yaml.org,2002:bool",
            Node::Integer(_) => "tag:yaml.org,2002:int",
            Node::FloatingPoint(_) => "tag:yaml.org,2002:float",
            Node::Comment(_) => "",
        };
        String::from_str(uri)
    }

    pub fn kind(&self) -> (kind: Kind)
        ensures
            kind == kind_of(self@),
    {
        match self {
            Node::Mapping(_) => Kind::Mapping,
            Node::Sequence(_) => Kind::Sequence,
            Node::String(_) => Kind::Scalar,
            Node::Null => Kind::Scalar,
            Node::Boolean(_) => Kind::Scalar,
            Node::Integer(_) => Kind::Scalar,
            Node::FloatingPoint(_) => Kind::Scalar,
            Node::Comment(_) => Kind::Scalar,
        }
    }

    /// The text of a string node, which can serve as a name. No other node
    /// has one.
    pub fn as_name(&self) -> (name: Option<&String>)
        ensures
            match self@ {
                NodeView::String(text) => name matches Some(found) && found@ == text,
                _ => name is None,
            },
    {
        match self {
            Node::String(name) => Some(name),
            _ => None,
        }
    }

    /// Appends the events of the node to `events`.
    pub(crate) fn append_events(&self, events: &mut Vec<Event>) -> (result: Result<(), Error>)
        ensures
            match result {
                Ok(()) => {
                    &&& node_supported(self@)
                    &&& views(final(events)@) == views(old(events)@) + node_events(self@)
                },
                Err(error) => {
                    &&& !node_supported(self@)
                    &&& error == Error::Unsupported(Feature::FloatingPoint)
                },
            },
        decreases self,
    {
        let ghost before = events@;
        match self {
            Node::Mapping(mapping) => mapping.append_events(events),
            Node::Sequence(sequence) => sequence.append_events(events),
            Node::String(text) => {
                events.push(Event::Scalar(text.clone()));
                proof {
                    lemma_views_push(before, Event::Scalar(*text));
                }
                Ok(())
            },
            Node::Null => {
                events.push(Event::Scalar(String::from_str("null")));
                proof {
                    lemma_views_push(before, events@.last());
                }
                Ok(())
            },
            Node::Boolean(value) => {
                let text = if *value {
                    "true"
                } else {
                    "false"
                };
                events.push(Event::Scalar(String::from_str(text)));
                proof {
                    lemma_views_push(before, events@.last());
                }
                Ok(())
            },
            Node::Integer(value) => {
                events.push(Event::Scalar(decimal_string(*value)));
                proof {
                    lemma_views_push(before, events@.last());
                }
                Ok(())
            },
            Node::FloatingPoint(_) => Err(Error::Unsupported(Feature::FloatingPoint)),
            Node::Comment(comment) => comment.append_events(events),
        }
    }
}

impl IntoEvents for Node {
    open spec fn linearized(&self) -> Seq<EventView> {
        node_events(self@)
    }

    open spec fn linearizable(&self) -> bool {
        node_supported(self@)
    }

    fn into_events(self) -> (result: Result<Vec<Event>, Error>) {
        let mut events = Vec::new();
        match self.append_events(&mut events) {
            Ok(()) => {
                assert(views(events@) =~= node_events(self@));
                Ok(events)
            },
            Err(error) => Err(error),
        }
    }
}

impl Comment {
    /// Appends the one event of the comment to `events`.
    pub(crate) fn append_events(&self, events: &mut Vec<Event>) -> (result: Result<(), Error>)
        ensures
            result is Ok,
            views(final(events)@) == views(old(events)@) + seq![EventView::Comment(self.content@)],
    {
        let ghost before = events@;
        events.push(Event::Comment(self.content.clone()));
        proof {
            lemma_views_push(before, Event::Comment(self.content));
        }
        Ok(())
    }
}

impl IntoEvents for Comment {
    open spec fn linearized(&self) -> Seq<EventView> {
        seq![EventView::Comment(self.content@)]
    }

    open spec fn linearizable(&self) -> bool {
        true
    }

    fn into_events(self) -> (result: Result<Vec<Event>, Error>) {
        let mut events = Vec::new();
        let _ = self.append_events(&mut events);
        assert(views(events@) =~= seq![EventView::Comment(self.content@)]);
        Ok(events)
    }
}

} // verus!
