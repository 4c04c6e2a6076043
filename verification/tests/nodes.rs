use yaml_emit::events::{Event, IntoEvents};
use yaml_emit::nodes::{
    Comment, CommentKind, Kind, Mapping, MappingKey, MappingPair, MappingValue, Node, Sequence,
};
use yaml_emit::text::decimal_string;
use yaml_emit::{Document, ScopedTag, Stream};

fn text(value: &str) -> Node {
    Node::String(value.to_string())
}

fn scalar(value: &str) -> Event {
    Event::Scalar(value.to_string())
}

#[test]
fn scalars_have_canonical_text() {
    assert_eq!(text("plain").into_events(), Ok(vec![scalar("plain")]));
    assert_eq!(text("").into_events(), Ok(vec![scalar("")]));
    assert_eq!(Node::Null.into_events(), Ok(vec![scalar("null")]));
    assert_eq!(Node::Boolean(true).into_events(), Ok(vec![scalar("true")]));
    assert_eq!(Node::Boolean(false).into_events(), Ok(vec![scalar("false")]));
    assert_eq!(Node::Integer(0).into_events(), Ok(vec![scalar("0")]));
    assert_eq!(Node::Integer(42).into_events(), Ok(vec![scalar("42")]));
    assert_eq!(Node::Integer(-1).into_events(), Ok(vec![scalar("-1")]));
}

#[test]
fn decimal_text() {
    assert_eq!(decimal_string(0), "0");
    assert_eq!(decimal_string(7), "7");
    assert_eq!(decimal_string(10), "10");
    assert_eq!(decimal_string(1234567890), "1234567890");
    assert_eq!(decimal_string(-10), "-10");
    assert_eq!(decimal_string(-305), "-305");
    assert_eq!(decimal_string(i64::MAX), "9223372036854775807");
    assert_eq!(decimal_string(i64::MIN), "-9223372036854775808");
    for value in [-1001_i64, -999, -1, 1, 9, 99, 100, 101, 65536] {
        assert_eq!(decimal_string(value), value.to_string());
    }
}

#[test]
fn comment_has_one_event() {
    let comment = Comment {
        kind: CommentKind::Inline,
        content: "note".to_string(),
    };
    assert_eq!(
        comment.into_events(),
        Ok(vec![Event::Comment("note".to_string())])
    );
    let node = Node::Comment(Comment {
        kind: CommentKind::Block,
        content: "note".to_string(),
    });
    assert_eq!(node.into_events(), Ok(vec![Event::Comment("note".to_string())]));
}

#[test]
fn sequence_events_keep_the_order() {
    let sequence = Sequence::from([text("a"), Node::Integer(2), Node::Null]);
    assert_eq!(
        sequence.into_events(),
        Ok(vec![
            Event::SequenceStart,
            scalar("a"),
            scalar("2"),
            scalar("null"),
            Event::SequenceEnd,
        ])
    );
    let empty = Sequence::from([] as [Node; 0]);
    assert_eq!(
        empty.into_events(),
        Ok(vec![Event::SequenceStart, Event::SequenceEnd])
    );
}

#[test]
fn mapping_events_are_flat() {
    let mapping = Mapping::from([
        (text("k"), Node::Sequence(Sequence::from([text("a")]))),
        (
            text("m"),
            Node::Mapping(Mapping::from([(text("x"), Node::Boolean(true))])),
        ),
    ]);
    assert_eq!(
        Node::Mapping(mapping).into_events(),
        Ok(vec![
            Event::MappingStart,
            scalar("k"),
            Event::SequenceStart,
            scalar("a"),
            Event::SequenceEnd,
            scalar("m"),
            Event::MappingStart,
            scalar("x"),
            scalar("true"),
            Event::MappingEnd,
            Event::MappingEnd,
        ])
    );
}

#[test]
fn mapping_from_pairs_and_from_keys_and_values() {
    let from_nodes = Mapping::from([(text("a"), Node::Integer(1)), (text("b"), Node::Null)]);
    let from_wrapped = Mapping::from([
        (MappingKey::from(text("a")), MappingValue::from(Node::Integer(1))),
        (MappingKey::from(text("b")), MappingValue::from(Node::Null)),
    ]);
    let from_pairs = Mapping::from([
        MappingPair::from((text("a"), Node::Integer(1))),
        MappingPair::from((MappingKey::from(text("b")), MappingValue::from(Node::Null))),
    ]);
    let expected = Ok(vec![
        Event::MappingStart,
        scalar("a"),
        scalar("1"),
        scalar("b"),
        scalar("null"),
        Event::MappingEnd,
    ]);
    assert_eq!(from_nodes.into_events(), expected);
    assert_eq!(from_wrapped.into_events(), expected);
    assert_eq!(from_pairs.into_events(), expected);
}

#[test]
fn mapping_gives_its_entries() {
    let mapping = Mapping::from([(text("a"), Node::Integer(1)), (text("b"), Node::Null)]);
    assert_eq!(mapping.len(), 2);
    assert!(!mapping.is_empty());
    let empty = Mapping::from([] as [(Node, Node); 0]);
    assert_eq!(empty.len(), 0);
}

#[test]
fn mapping_hands_out_its_entries_in_order() {
    let mapping = Mapping::from([(text("a"), Node::Integer(1)), (text("b"), Node::Null)]);
    let mut events = Vec::new();
    for pair in mapping {
        events.push(pair.into_events());
    }
    assert_eq!(
        events,
        vec![
            Ok(vec![scalar("a"), scalar("1")]),
            Ok(vec![scalar("b"), scalar("null")]),
        ]
    );
}

#[test]
fn pair_events_are_key_then_value() {
    let pair = MappingPair::from((text("key"), Node::Boolean(false)));
    assert_eq!(pair.into_events(), Ok(vec![scalar("key"), scalar("false")]));
}

#[test]
fn duplicate_keys_are_kept() {
    let mapping = Mapping::from([(text("a"), Node::Integer(1)), (text("a"), Node::Integer(2))]);
    assert_eq!(
        mapping.into_events(),
        Ok(vec![
            Event::MappingStart,
            scalar("a"),
            scalar("1"),
            scalar("a"),
            scalar("2"),
            Event::MappingEnd,
        ])
    );
}

#[test]
fn document_events() {
    let mut document = Document::new();
    assert!(document.directives.is_empty());
    assert!(document.nodes.is_empty());
    document
        .push_directive("%YAML 1.2".to_string())
        .push_node(Node::Comment(Comment {
            kind: CommentKind::Block,
            content: "head".to_string(),
        }))
        .push_node(Node::Sequence(Sequence::from([text("a")])));
    assert_eq!(document.directives, vec!["%YAML 1.2".to_string()]);
    assert_eq!(document.nodes.len(), 2);
    assert_eq!(
        document.into_events(),
        Ok(vec![
            Event::DocumentStart,
            Event::Comment("head".to_string()),
            Event::SequenceStart,
            scalar("a"),
            Event::SequenceEnd,
            Event::DocumentEnd,
        ])
    );
}

#[test]
fn document_from_mapping_has_one_node() {
    let document = Document::from_mapping(Mapping::from([(text("a"), text("b"))]));
    assert!(document.directives.is_empty());
    assert_eq!(document.nodes.len(), 1);
    assert_eq!(document.nodes[0].kind(), Kind::Mapping);
}

#[test]
fn stream_events_bracket_the_documents() {
    let mut stream = Stream::new();
    stream
        .push_document(Document::new())
        .push_document(Document::from_mapping(Mapping::from([(text("a"), text("b"))])));
    assert_eq!(
        stream.events(),
        Ok(vec![
            Event::StreamStart,
            Event::DocumentStart,
            Event::DocumentEnd,
            Event::DocumentStart,
            Event::MappingStart,
            scalar("a"),
            scalar("b"),
            Event::MappingEnd,
            Event::DocumentEnd,
            Event::StreamEnd,
        ])
    );
}

#[test]
fn node_uri() {
    assert_eq!(
        Node::Mapping(Mapping::from([] as [(Node, Node); 0])).uri(),
        "tag:yaml.org,2002:map"
    );
    assert_eq!(
        Node::Sequence(Sequence::from([] as [Node; 0])).uri(),
        "tag:yaml.org,2002:seq"
    );
    assert_eq!(text("a").uri(), "tag:yaml.org,2002:str");
    assert_eq!(Node::Null.uri(), "tag:yaml.org,2002:null");
    assert_eq!(Node::Boolean(true).uri(), "tag:yaml.org,2002:bool");
    assert_eq!(Node::Integer(1).uri(), "tag:yaml.org,2002:int");
    assert_eq!(
        Node::FloatingPoint("1.0".to_string()).uri(),
        "tag:yaml.org,2002:float"
    );
    assert_eq!(
        Node::Comment(Comment {
            kind: CommentKind::Block,
            content: "c".to_string()
        })
        .uri(),
        ""
    );
}

#[test]
fn node_kind() {
    assert_eq!(
        Node::Mapping(Mapping::from([] as [(Node, Node); 0])).kind(),
        Kind::Mapping
    );
    assert_eq!(
        Node::Sequence(Sequence::from([] as [Node; 0])).kind(),
        Kind::Sequence
    );
    assert_eq!(text("a").kind(), Kind::Scalar);
    assert_eq!(Node::Null.kind(), Kind::Scalar);
    assert_eq!(Node::Boolean(false).kind(), Kind::Scalar);
    assert_eq!(Node::Integer(1).kind(), Kind::Scalar);
    assert_eq!(Node::FloatingPoint("1.0".to_string()).kind(), Kind::Scalar);
}

#[test]
fn node_as_name() {
    assert_eq!(text("name").as_name(), Some(&"name".to_string()));
    assert_eq!(Node::Null.as_name(), None);
    assert_eq!(Node::Integer(1).as_name(), None);
    assert_eq!(Node::FloatingPoint("name".to_string()).as_name(), None);
}

#[test]
fn defaults() {
    assert!(matches!(Node::default(), Node::Null));
    assert!(matches!(ScopedTag::default(), ScopedTag::Global(Node::Null)));
    assert_eq!(Stream::default().events(), Stream::new().events());
    assert!(Document::default().nodes.is_empty());
}
