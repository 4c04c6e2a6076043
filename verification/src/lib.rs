//! A document model for block-style YAML and an emitter that renders it as
//! indented text.
//!
//! A [`Stream`] of documents is linearized into a flat sequence of
//! [`events::Event`]s, which the [`emitter::Emitter`] renders as text.

use vstd::prelude::*;

pub mod emitter;
pub mod events;
pub mod laws;
pub mod nodes;
pub mod text;

use crate::events::{lemma_views_push, views, Event, EventView, IntoEvents};
use crate::nodes::{
    node_supported, node_views, nodes_events, nodes_supported, Mapping, Node, NodeView,
};

verus! {

/// A construct that the model can describe but that cannot be emitted.
#[derive(Clone, Copy, Debug, PartialEq, Eq, Structural)]
pub enum Feature {
    /// An alias to an anchored node.
    Alias,
    /// A floating point scalar.
    FloatingPoint,
    /// A scalar that is the root of a document, outside any mapping or
    /// sequence.
    BareScalar,
}

/// Why a tree could not be linearized or an event sequence not be rendered.
#[derive(Clone, Copy, Debug, PartialEq, Eq, Structural)]
pub enum Error {
    /// The output sink rejected a write. The in-memory sink of this crate
    /// never does; the variant is for drivers that forward the text to a
    /// sink that can fail.
    Write,
    /// The input uses a construct that is not supported.
    Unsupported(Feature),
    /// The event sequence is not well nested: an end marker that does not
    /// close the innermost open frame, a `StreamEnd` while another frame is
    /// open, or a scalar outside any frame.
    Malformed,
}

/// A document is one part of a larger [`Stream`].
///
/// Each document can have directives attached to it, which are kept as the
/// text they were given in. The content of the document is its nodes;
/// most documents have one, a mapping.
#[derive(Debug)]
pub struct Document {
    pub directives: Vec<String>,
    pub nodes: Vec<Node>,
}

/// The mathematical value of a [`Document`].
pub struct DocumentView {
    pub directives: Seq<Seq<char>>,
    pub nodes: Seq<NodeView>,
}

impl View for Document {
    type V = DocumentView;

    open spec fn view(&self) -> DocumentView {
        DocumentView {
            directives: self.directives@.map_values(|directive: String| directive@),
            nodes: node_views(self.nodes@),
        }
    }
}

/// The events of a document: `DocumentStart`, the events of each of its
/// nodes, `DocumentEnd`. Directives have no events.
pub open spec fn document_events(document: DocumentView) -> Seq<EventView> {
    seq![EventView::DocumentStart] + nodes_events(document.nodes) + seq![EventView::DocumentEnd]
}

/// The events of each document, in order.
pub open spec fn documents_events(documents: Seq<DocumentView>) -> Seq<EventView>
    decreases documents.len(),
{
    if documents.len() == 0 {
        Seq::empty()
    } else {
        documents_events(documents.drop_last()) + document_events(documents.last())
    }
}

/// Whether every node of every document can be linearized.
pub open spec fn documents_supported(documents: Seq<DocumentView>) -> bool {
    forall|i: int| 0 <= i < documents.len() ==> nodes_supported((#[trigger] documents[i]).nodes)
}

/// The events of a stream: `StreamStart`, the events of each document,
/// `StreamEnd`.
pub open spec fn stream_events(documents: Seq<DocumentView>) -> Seq<EventView> {
    seq![EventView::StreamStart] + documents_events(documents) + seq![EventView::StreamEnd]
}

impl Default for Document {
    fn default() -> (document: Self)
        ensures
            document@ == (DocumentView { directives: Seq::empty(), nodes: Seq::empty() }),
    {
        let document = Self { directives: Vec::new(), nodes: Vec::new() };
        assert(document@.directives =~= Seq::empty());
        assert(document@.nodes =~= Seq::empty());
        document
    }
}

impl Document {
    /// Creates a document without directives and without nodes.
    pub fn new() -> (document: Self)
        ensures
            document@ == (DocumentView { directives: Seq::empty(), nodes: Seq::empty() }),
    {
        Self::default()
    }

    /// Creates a document whose one node is the given mapping. Most YAML
    /// documents have a mapping node as their root node.
    pub fn from_mapping(mapping: Mapping) -> (document: Self)
        ensures
            document@ == (DocumentView {
                directives: Seq::empty(),
                nodes: seq![NodeView::Mapping(mapping@)],
            }),
    {
        let mut nodes = Vec::new();
        nodes.push(Node::Mapping(mapping));
        let document = Self { directives: Vec::new(), nodes };
        assert(document@.directives =~= Seq::empty());
        assert(document@.nodes =~= seq![NodeView::Mapping(mapping@)]);
        document
    }

    /// Appends a directive after those the document has.
    pub fn push_directive(&mut self, directive: String) -> (document: &mut Self)
        ensures
            document@ == (DocumentView {
                directives: old(self)@.directives.push(directive@),
                nodes: old(self)@.nodes,
            }),
            *final(self) == *final(document),
    {
        self.directives.push(directive);
        assert(self@.directives =~= old(self)@.directives.push(directive@));
        self
    }

    /// Appends a node after those the document has.
    pub fn push_node(&mut self, node: Node) -> (document: &mut Self)
        ensures
            document@ == (DocumentView {
                directives: old(self)@.directives,
                nodes: old(self)@.nodes.push(node@),
            }),
            *final(self) == *final(document),
    {
        self.nodes.push(node);
        assert(self@.nodes =~= old(self)@.nodes.push(node@));
        self
    }

    /// Appends the events of the document to `events`.
    fn append_events(&self, events: &mut Vec<Event>) -> (result: Result<(), Error>)
        ensures
            match result {
                Ok(()) => {
                    &&& nodes_supported(self@.nodes)
                    &&& views(final(events)@) == views(old(events)@) + document_events(self@)
                },
                Err(error) => {
                    &&& !nodes_supported(self@.nodes)
                    &&& error == Error::Unsupported(Feature::FloatingPoint)
                },
            },
    {
        let ghost before = views(events@);
        let ghost nodes = self@.nodes;
        proof {
            lemma_views_push(events@, Event::DocumentStart);
        }
        events.push(Event::DocumentStart);
        let mut index: usize = 0;
        assert(nodes.take(0) =~= Seq::<NodeView>::empty());
        assert(views(events@) =~= before + seq![EventView::DocumentStart] + nodes_events(
            nodes.take(0),
        ));
        while index < self.nodes.len()
            invariant
                index <= self.nodes.len(),
                nodes == self@.nodes,
                nodes_supported(nodes.take(index as int)),
                views(events@) == before + seq![EventView::DocumentStart] + nodes_events(
                    nodes.take(index as int),
                ),
            decreases self.nodes.len() - index,
        {
            let ghost done = nodes.take(index as int);
            let ghost next = nodes.take(index as int + 1);
            assert(next.drop_last() =~= done);
            assert(next.last() == nodes[index as int]);
            match self.nodes[index].append_events(events) {
                Ok(()) => {},
                Err(error) => {
                    assert(!node_supported(nodes[index as int]));
                    return Err(error);
                },
            }
            assert(views(events@) =~= before + seq![EventView::DocumentStart] + nodes_events(
                next,
            ));
            assert forall|i: int| 0 <= i < next.len() implies node_supported(
                #[trigger] next[i],
            ) by {
                if i < index {
                    assert(next[i] == done[i]);
                }
            }
            index += 1;
        }
        assert(nodes.take(index as int) =~= nodes);
        proof {
            lemma_views_push(events@, Event::DocumentEnd);
        }
        events.push(Event::DocumentEnd);
        Ok(())
    }
}

impl IntoEvents for Document {
    open spec fn linearized(&self) -> Seq<EventView> {
        document_events(self@)
    }

    open spec fn linearizable(&self) -> bool {
        nodes_supported(self@.nodes)
    }

    fn into_events(self) -> (result: Result<Vec<Event>, Error>) {
        let mut events = Vec::new();
        match self.append_events(&mut events) {
            Ok(()) => {
                assert(views(events@) =~= document_events(self@));
                Ok(events)
            },
            Err(error) => Err(error),
        }
    }
}

/// A stream is zero or more [`Document`]s, each between a line `---` and a
/// line `...`.
#[derive(Debug)]
pub struct Stream(Vec<Document>);

impl View for Stream {
    type V = Seq<DocumentView>;

    closed spec fn view(&self) -> Seq<DocumentView> {
        self.0@.map_values(|document: Document| document@)
    }
}

impl Default for Stream {
    fn default() -> (stream: Self)
        ensures
            stream@ == Seq::<DocumentView>::empty(),
    {
        let stream = Self(Vec::new());
        assert(stream@ =~= Seq::<DocumentView>::empty());
        stream
    }
}

impl Stream {
    /// Creates a new (empty) stream of YAML [`Document`]s.
    pub fn new() -> (stream: Self)
        ensures
            stream@ == Seq::<DocumentView>::empty(),
    {
        Self::default()
    }

    /// Appends one YAML [`Document`] at the end of the stream.
    pub fn push_document(&mut self, document: Document) -> (stream: &mut Self)
        ensures
            stream@ == old(self)@.push(document@),
            *final(self) == *final(stream),
    {
        self.0.push(document);
        assert(self@ =~= old(self)@.push(document@));
        self
    }

    /// Linearizes the stream. Fails if a document holds a node that is not
    /// supported.
    pub fn events(&self) -> (result: Result<Vec<Event>, Error>)
        ensures
            match result {
                Ok(events) => documents_supported(self@) && views(events@) == stream_events(self@),
                Err(error) => !documents_supported(self@) && error == Error::Unsupported(
                    Feature::FloatingPoint,
                ),
            },
    {
        let mut events = Vec::new();
        proof {
            lemma_views_push(events@, Event::StreamStart);
        }
        events.push(Event::StreamStart);
        let mut index: usize = 0;
        assert(self@.take(0) =~= Seq::<DocumentView>::empty());
        assert(views(events@) =~= seq![EventView::StreamStart] + documents_events(self@.take(0)));
        while index < self.0.len()
            invariant
                index <= self.0.len(),
                documents_supported(self@.take(index as int)),
                views(events@) == seq![EventView::StreamStart] + documents_events(
                    self@.take(index as int),
                ),
            decreases self.0.len() - index,
        {
            let ghost done = self@.take(index as int);
            let ghost next = self@.take(index as int + 1);
            assert(next.drop_last() =~= done);
            assert(next.last() == self@[index as int]);
            match self.0[index].append_events(&mut events) {
                Ok(()) => {},
                Err(error) => {
                    assert(!nodes_supported(self@[index as int].nodes));
                    return Err(error);
                },
            }
            assert(views(events@) =~= seq![EventView::StreamStart] + documents_events(next));
            assert forall|i: int| 0 <= i < next.len() implies nodes_supported(
                (#[trigger] next[i]).nodes,
            ) by {
                if i < index {
                    assert(next[i] == done[i]);
                }
            }
            index += 1;
        }
        assert(self@.take(index as int) =~= self@);
        proof {
            lemma_views_push(events@, Event::StreamEnd);
        }
        events.push(Event::StreamEnd);
        Ok(events)
    }
}

impl IntoEvents for Stream {
    open spec fn linearized(&self) -> Seq<EventView> {
        stream_events(self@)
    }

    open spec fn linearizable(&self) -> bool {
        documents_supported(self@)
    }

    fn into_events(self) -> (result: Result<Vec<Event>, Error>) {
        self.events()
    }
}

/// A node together with the scope of its tag.
#[derive(Debug)]
pub enum ScopedTag {
    /// The tag is known to every application.
    Global(Node),
    /// The tag is specific to one application.
    Local(Node),
}

impl Default for ScopedTag {
    fn default() -> (tag: Self)
        ensures
            tag matches ScopedTag::Global(node) && node@ == NodeView::Null,
    {
        Self::Global(Node::default())
    }
}

} // verus!
