use yaml_emit::emitter::{Emitter, Options};
use yaml_emit::events::{Event, IntoEvents};
use yaml_emit::nodes::{Mapping, Node, Sequence};
use yaml_emit::{Document, Error, Feature, Stream};

fn text(value: &str) -> Node {
    Node::String(value.to_string())
}

fn scalar(value: &str) -> Event {
    Event::Scalar(value.to_string())
}

fn render(node: Node, indent_size: usize) -> String {
    let events = node.into_events().unwrap();
    Emitter::new(Options { indent_size })
        .from_events(events)
        .unwrap()
}

#[test]
fn flat_mapping() {
    let mapping = Mapping::from([(text("a"), Node::Integer(1)), (text("b"), text("x"))]);
    assert_eq!(render(Node::Mapping(mapping), 2), "a: 1\nb: x\n");
}

#[test]
fn flat_mapping_events() {
    let mapping = Mapping::from([(text("a"), Node::Integer(1)), (text("b"), text("x"))]);
    assert_eq!(
        mapping.into_events(),
        Ok(vec![
            Event::MappingStart,
            scalar("a"),
            scalar("1"),
            scalar("b"),
            scalar("x"),
            Event::MappingEnd,
        ])
    );
}

#[test]
fn flat_mapping_in_a_stream() {
    let events = vec![
        Event::StreamStart,
        Event::MappingStart,
        scalar("a"),
        scalar("1"),
        scalar("b"),
        scalar("x"),
        Event::MappingEnd,
        Event::StreamEnd,
    ];
    let mut emitter = Emitter::new(Options { indent_size: 2 });
    assert_eq!(emitter.from_events(events), Ok("a: 1\nb: x\n".to_string()));
}

#[test]
fn mapping_with_sequence_value() {
    let mapping = Mapping::from([(
        text("roles"),
        Node::Sequence(Sequence::from([text("master"), text("ingest")])),
    )]);
    assert_eq!(
        render(Node::Mapping(mapping), 2),
        "roles: \n  - master\n  - ingest\n"
    );
}

#[test]
fn mapping_with_sequence_value_indent_four() {
    let mapping = Mapping::from([(
        text("roles"),
        Node::Sequence(Sequence::from([text("master"), text("ingest")])),
    )]);
    assert_eq!(
        render(Node::Mapping(mapping), 4),
        "roles: \n    - master\n    - ingest\n"
    );
}

#[test]
fn nested_mapping_value() {
    let mapping = Mapping::from([(
        text("global"),
        Node::Mapping(Mapping::from([(text("registry"), text("test"))])),
    )]);
    assert_eq!(
        render(Node::Mapping(mapping), 2),
        "global: \n  registry: test\n"
    );
}

#[test]
fn key_after_a_nested_value_is_a_key_again() {
    let mapping = Mapping::from([
        (
            text("roles"),
            Node::Sequence(Sequence::from([text("master")])),
        ),
        (text("replicas"), Node::Integer(3)),
        (
            text("global"),
            Node::Mapping(Mapping::from([(text("registry"), text("test"))])),
        ),
        (text("last"), Node::Null),
    ]);
    assert_eq!(
        render(Node::Mapping(mapping), 2),
        "roles: \n  - master\nreplicas: 3\nglobal: \n  registry: test\nlast: null\n"
    );
}

#[test]
fn empty_stream() {
    let mut emitter = Emitter::new(Options::default());
    assert_eq!(
        emitter.from_events(vec![Event::StreamStart, Event::StreamEnd]),
        Ok(String::new())
    );
    assert_eq!(Stream::new().events(), Ok(vec![Event::StreamStart, Event::StreamEnd]));
    assert_eq!(
        emitter.from_events(Stream::new().events().unwrap()),
        Ok(String::new())
    );
}

#[test]
fn no_events_at_all() {
    let mut emitter = Emitter::new(Options::default());
    assert_eq!(emitter.from_events(Vec::new()), Ok(String::new()));
}

#[test]
fn document_markers() {
    let mut stream = Stream::new();
    stream.push_document(Document::from_mapping(Mapping::from([] as [(Node, Node); 0])));
    let events = stream.events().unwrap();
    assert_eq!(
        events,
        vec![
            Event::StreamStart,
            Event::DocumentStart,
            Event::MappingStart,
            Event::MappingEnd,
            Event::DocumentEnd,
            Event::StreamEnd,
        ]
    );
    let output = Emitter::new(Options::default())
        .from_events(events)
        .unwrap();
    assert!(output.starts_with("---\n"));
    assert!(output.ends_with("...\n"));
    assert_eq!(output, "---\n...\n");
}

#[test]
fn two_documents() {
    let mut stream = Stream::new();
    stream.push_document(Document::from_mapping(Mapping::from([(
        text("a"),
        Node::Boolean(true),
    )])));
    stream.push_document(Document::from_mapping(Mapping::from([(
        text("b"),
        Node::Integer(-7),
    )])));
    let output = Emitter::new(Options::default())
        .from_events(stream.events().unwrap())
        .unwrap();
    assert_eq!(output, "---\na: true\n...\n---\nb: -7\n...\n");
}

#[test]
fn alias_is_unsupported() {
    let mut emitter = Emitter::new(Options::default());
    assert_eq!(
        emitter.from_events(vec![Event::StreamStart, Event::Alias(0), Event::StreamEnd]),
        Err(Error::Unsupported(Feature::Alias))
    );
}

#[test]
fn alias_keeps_what_was_written_before_it() {
    let events = vec![
        Event::StreamStart,
        Event::DocumentStart,
        Event::MappingStart,
        scalar("a"),
        Event::Alias(3),
        Event::MappingEnd,
        Event::DocumentEnd,
        Event::StreamEnd,
    ];
    let mut emitter = Emitter::new(Options::default());
    let mut sink = String::from("before\n");
    assert_eq!(
        emitter.emit(events, &mut sink),
        Err(Error::Unsupported(Feature::Alias))
    );
    assert_eq!(sink, "before\n---\na: ");
}

#[test]
fn emit_appends_to_the_sink() {
    let events = vec![
        Event::StreamStart,
        Event::SequenceStart,
        scalar("x"),
        Event::SequenceEnd,
        Event::StreamEnd,
    ];
    let mut emitter = Emitter::new(Options { indent_size: 3 });
    let mut sink = String::from("# head\n");
    assert_eq!(emitter.emit(events, &mut sink), Ok(()));
    assert_eq!(sink, "# head\n   - x\n");
}

#[test]
fn bare_scalar_is_unsupported() {
    let mut emitter = Emitter::new(Options::default());
    assert_eq!(
        emitter.from_events(vec![
            Event::StreamStart,
            Event::DocumentStart,
            scalar("alone"),
            Event::DocumentEnd,
            Event::StreamEnd,
        ]),
        Err(Error::Unsupported(Feature::BareScalar))
    );
    assert_eq!(
        emitter.from_events(vec![Event::StreamStart, scalar("alone"), Event::StreamEnd]),
        Err(Error::Unsupported(Feature::BareScalar))
    );
}

#[test]
fn scalar_outside_any_frame_is_malformed() {
    let mut emitter = Emitter::new(Options::default());
    assert_eq!(emitter.from_events(vec![scalar("alone")]), Err(Error::Malformed));
}

#[test]
fn floating_point_is_unsupported() {
    let node = Node::FloatingPoint("1.5".to_string());
    assert_eq!(
        node.into_events(),
        Err(Error::Unsupported(Feature::FloatingPoint))
    );

    let mapping = Mapping::from([(
        text("pi"),
        Node::Sequence(Sequence::from([Node::FloatingPoint("3.14".to_string())])),
    )]);
    let mut stream = Stream::new();
    stream.push_document(Document::from_mapping(mapping));
    assert_eq!(
        stream.events(),
        Err(Error::Unsupported(Feature::FloatingPoint))
    );
}

#[test]
fn same_tree_same_text() {
    let build = || {
        let mut stream = Stream::new();
        stream.push_document(Document::from_mapping(Mapping::from([
            (text("a"), Node::Integer(1)),
            (
                text("list"),
                Node::Sequence(Sequence::from([text("x"), Node::Null])),
            ),
        ])));
        stream
    };
    let mut emitter = Emitter::new(Options { indent_size: 2 });
    let first = emitter.from_events(build().events().unwrap());
    let second = emitter.from_events(build().events().unwrap());
    let third = Emitter::new(Options { indent_size: 2 }).from_events(build().events().unwrap());
    assert_eq!(first, Ok("---\na: 1\nlist: \n  - x\n  - null\n...\n".to_string()));
    assert_eq!(first, second);
    assert_eq!(first, third);
}
