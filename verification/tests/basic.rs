use yaml_emit::emitter::{Emitter, Options};
use yaml_emit::events::IntoEvents;
use yaml_emit::nodes::{Comment, CommentKind, Mapping, Node, Sequence};
use yaml_emit::{Document, Stream};

fn cluster_document() -> Document {
    let map = Mapping::from([
        (
            Node::String("clusterName".into()),
            Node::String("opensearch-cluster".into()),
        ),
        (
            Node::String("nodeGroup".into()),
            Node::String("master".into()),
        ),
        (Node::String("singleNode".into()), Node::Boolean(false)),
        (
            Node::String("roles".into()),
            Node::Sequence(Sequence::from([
                Node::String("master".into()),
                Node::String("ingest".into()),
            ])),
        ),
        (Node::String("replicas".into()), Node::Integer(3)),
        (
            Node::String("global".into()),
            Node::Mapping(Mapping::from([(
                Node::String("dockerRegistry".into()),
                Node::String("test".into()),
            )])),
        ),
    ]);

    let mut doc = Document::new();
    doc.push_node(Node::Comment(Comment {
        kind: CommentKind::Block,
        content: String::from("my comment"),
    }));
    doc.push_node(Node::Mapping(map));
    doc
}

#[test]
fn basic() {
    let doc = cluster_document();

    let mut stream = Stream::new();
    stream.push_document(doc);

    let mut emitter = Emitter::new(Options::default());
    let output = emitter.from_events(stream.events().unwrap()).unwrap();

    println!("{output}")
}

#[test]
fn basic_renders_every_line() {
    let mut stream = Stream::new();
    stream.push_document(cluster_document());

    let mut emitter = Emitter::new(Options::default());
    let output = emitter.from_events(stream.events().unwrap()).unwrap();

    let expected = "---\n\
                    # my comment\n\
                    clusterName: opensearch-cluster\n\
                    nodeGroup: master\n\
                    singleNode: false\n\
                    roles: \n  - master\n  - ingest\n\
                    replicas: 3\n\
                    global: \n  dockerRegistry: test\n\
                    ...\n";
    assert_eq!(output, expected);
}

#[test]
fn basic_by_value_gives_the_same_events() {
    let mut by_reference = Stream::new();
    by_reference.push_document(cluster_document());
    let mut by_value = Stream::new();
    by_value.push_document(cluster_document());

    assert_eq!(by_reference.events(), by_value.into_events());
}
