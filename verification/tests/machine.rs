use yaml_emit::emitter::{Emitter, EventIter, Options, Phase, State, States};
use yaml_emit::events::Event;
use yaml_emit::Error;

fn scalar(value: &str) -> Event {
    Event::Scalar(value.to_string())
}

#[test]
fn balanced_pass_ends_clean() {
    let events = vec![
        Event::StreamStart,
        Event::DocumentStart,
        Event::MappingStart,
        scalar("outer"),
        Event::MappingStart,
        scalar("list"),
        Event::SequenceStart,
        scalar("a"),
        Event::SequenceStart,
        scalar("b"),
        Event::SequenceEnd,
        Event::SequenceEnd,
        Event::MappingEnd,
        Event::MappingEnd,
        Event::DocumentEnd,
        Event::StreamEnd,
    ];
    let mut emitter = Emitter::new(Options::default());
    assert!(emitter.from_events(events).is_ok());
    assert_eq!(emitter.state().indent_level(), 0);
    assert_eq!(emitter.state().depth(), 0);
}

#[test]
fn indent_level_follows_the_blocks() {
    let events = vec![
        Event::StreamStart,
        Event::MappingStart,
        scalar("k"),
        Event::SequenceStart,
        scalar("a"),
    ];
    let mut emitter = Emitter::new(Options::default());
    let mut sink = String::new();
    emitter.begin(events);
    assert_eq!(emitter.advance(&mut sink), Some(Ok(())));
    assert_eq!(emitter.state().depth(), 1);
    assert_eq!(emitter.advance(&mut sink), Some(Ok(())));
    assert_eq!(emitter.state().depth(), 2);
    assert_eq!(emitter.state().indent_level(), 0);
    assert_eq!(emitter.advance(&mut sink), Some(Ok(())));
    assert_eq!(sink, "k: \n");
    assert_eq!(emitter.advance(&mut sink), Some(Ok(())));
    assert_eq!(emitter.state().depth(), 3);
    assert_eq!(emitter.state().indent_level(), 1);
    assert_eq!(emitter.advance(&mut sink), Some(Ok(())));
    assert_eq!(sink, "k: \n  - a\n");
    assert_eq!(emitter.advance(&mut sink), None);
    assert_eq!(emitter.advance(&mut sink), None);
    assert_eq!(emitter.state().depth(), 3);
    assert_eq!(emitter.state().indent_level(), 1);
}

#[test]
fn extra_mapping_end_is_malformed() {
    let events = vec![
        Event::StreamStart,
        Event::MappingStart,
        Event::MappingEnd,
        Event::MappingEnd,
        Event::StreamEnd,
    ];
    let mut emitter = Emitter::new(Options::default());
    assert_eq!(emitter.from_events(events), Err(Error::Malformed));
    assert_eq!(emitter.state().indent_level(), 0);
    assert_eq!(emitter.state().depth(), 1);
}

#[test]
fn extra_sequence_end_is_malformed() {
    let events = vec![
        Event::StreamStart,
        Event::SequenceStart,
        scalar("a"),
        Event::SequenceEnd,
        Event::SequenceEnd,
        Event::StreamEnd,
    ];
    let mut emitter = Emitter::new(Options::default());
    let mut sink = String::new();
    assert_eq!(emitter.emit(events, &mut sink), Err(Error::Malformed));
    assert_eq!(sink, "  - a\n");
    assert_eq!(emitter.state().indent_level(), 0);
}

#[test]
fn end_without_any_frame_is_malformed() {
    for event in [
        Event::StreamEnd,
        Event::DocumentEnd,
        Event::MappingEnd,
        Event::SequenceEnd,
    ] {
        let mut emitter = Emitter::new(Options::default());
        assert_eq!(emitter.from_events(vec![event]), Err(Error::Malformed));
        assert_eq!(emitter.state().indent_level(), 0);
        assert_eq!(emitter.state().depth(), 0);
    }
}

#[test]
fn end_of_another_kind_is_malformed() {
    let mut emitter = Emitter::new(Options::default());
    assert_eq!(
        emitter.from_events(vec![Event::StreamStart, Event::SequenceStart, Event::MappingEnd]),
        Err(Error::Malformed)
    );
    assert_eq!(
        emitter.from_events(vec![Event::StreamStart, Event::MappingStart, Event::SequenceEnd]),
        Err(Error::Malformed)
    );
    assert_eq!(
        emitter.from_events(vec![Event::StreamStart, Event::MappingStart, Event::DocumentEnd]),
        Err(Error::Malformed)
    );
}

#[test]
fn stream_end_with_open_frames_is_malformed() {
    let mut emitter = Emitter::new(Options::default());
    let mut sink = String::new();
    assert_eq!(
        emitter.emit(
            vec![Event::StreamStart, Event::DocumentStart, Event::StreamEnd],
            &mut sink
        ),
        Err(Error::Malformed)
    );
    assert_eq!(sink, "---\n");
    assert_eq!(emitter.state().depth(), 2);
}

#[test]
fn mapping_end_leaves_a_level_only_if_one_is_left() {
    let events = vec![
        Event::StreamStart,
        Event::SequenceStart,
        Event::MappingStart,
        scalar("a"),
        scalar("1"),
        Event::MappingEnd,
        scalar("x"),
        Event::SequenceEnd,
        Event::StreamEnd,
    ];
    let mut emitter = Emitter::new(Options::default());
    assert_eq!(emitter.from_events(events), Ok("a: 1\n- x\n".to_string()));
    assert_eq!(emitter.state().indent_level(), 0);
}

#[test]
fn comment_is_indented() {
    let events = vec![
        Event::StreamStart,
        Event::Comment("top".to_string()),
        Event::SequenceStart,
        Event::Comment("inside".to_string()),
        Event::SequenceStart,
        Event::Comment("deeper".to_string()),
        Event::SequenceEnd,
        Event::SequenceEnd,
        Event::StreamEnd,
    ];
    let mut emitter = Emitter::new(Options { indent_size: 3 });
    assert_eq!(
        emitter.from_events(events),
        Ok("# top\n   # inside\n      # deeper\n".to_string())
    );
}

#[test]
fn comment_outside_any_frame() {
    let mut emitter = Emitter::new(Options::default());
    assert_eq!(
        emitter.from_events(vec![Event::Comment("alone".to_string())]),
        Ok("# alone\n".to_string())
    );
}

#[test]
fn indent_size_zero_writes_no_prefix() {
    let events = vec![
        Event::StreamStart,
        Event::SequenceStart,
        scalar("a"),
        Event::SequenceEnd,
        Event::StreamEnd,
    ];
    let mut emitter = Emitter::new(Options { indent_size: 0 });
    assert_eq!(emitter.from_events(events), Ok("- a\n".to_string()));
}

#[test]
fn mapping_as_key_takes_the_key_slot() {
    let events = vec![
        Event::StreamStart,
        Event::MappingStart,
        Event::MappingStart,
        scalar("a"),
        scalar("1"),
        Event::MappingEnd,
        scalar("value"),
        Event::MappingEnd,
        Event::StreamEnd,
    ];
    let mut emitter = Emitter::new(Options::default());
    assert_eq!(emitter.from_events(events), Ok("a: 1\nvalue\n".to_string()));
}

#[test]
fn cursor_reads_in_order() {
    let mut cursor = EventIter::new(vec![Event::StreamStart, scalar("a"), Event::StreamEnd]);
    assert_eq!(cursor.peek(), Some(&Event::StreamStart));
    assert_eq!(cursor.peek(), Some(&Event::StreamStart));
    assert_eq!(cursor.next(), Some(Event::StreamStart));
    assert_eq!(cursor.peek(), Some(&scalar("a")));
    assert_eq!(cursor.next(), Some(scalar("a")));
    assert_eq!(cursor.next(), Some(Event::StreamEnd));
    assert_eq!(cursor.peek(), None);
    assert_eq!(cursor.next(), None);
    assert_eq!(cursor.next(), None);
    assert_eq!(cursor.peek(), None);
}

#[test]
fn cursor_peek_as() {
    let mut cursor = EventIter::new(vec![Event::SequenceStart, scalar("a"), Event::Alias(4)]);
    assert_eq!(cursor.peek_as(Event::SequenceStart), Some(&Event::SequenceStart));
    assert_eq!(cursor.peek_as(Event::MappingStart), None);
    assert_eq!(cursor.peek(), Some(&Event::SequenceStart));
    cursor.next();
    assert_eq!(cursor.peek_as(scalar("a")), Some(&scalar("a")));
    assert_eq!(cursor.peek_as(scalar("")), Some(&scalar("a")));
    assert_eq!(cursor.peek_as(Event::Comment("a".to_string())), None);
    assert_eq!(cursor.peek_as(Event::SequenceStart), None);
    cursor.next();
    assert_eq!(cursor.peek_as(Event::Alias(4)), Some(&Event::Alias(4)));
    assert_eq!(cursor.peek_as(Event::Alias(0)), Some(&Event::Alias(4)));
    assert_eq!(cursor.peek_as(scalar("a")), None);
    cursor.next();
    assert_eq!(cursor.peek_as(Event::Alias(4)), None);
}

#[test]
fn events_of_one_kind() {
    assert!(scalar("a").same_kind(&scalar("b")));
    assert!(Event::Alias(1).same_kind(&Event::Alias(2)));
    assert!(Event::MappingStart.same_kind(&Event::MappingStart));
    assert!(!Event::MappingStart.same_kind(&Event::MappingEnd));
    assert!(!Event::MappingStart.same_kind(&Event::SequenceStart));
    assert!(!scalar("a").same_kind(&Event::Comment("a".to_string())));
    assert_ne!(scalar("a"), scalar("b"));
    assert_eq!(scalar("a"), scalar("a"));
    assert_eq!(scalar("a").clone(), scalar("a"));
    assert_ne!(Event::Alias(1), Event::Alias(2));
}

#[test]
fn cursor_over_nothing() {
    let mut cursor = EventIter::new(Vec::new());
    assert_eq!(cursor.peek(), None);
    assert_eq!(cursor.peek_as(Event::StreamStart), None);
    assert_eq!(cursor.next(), None);
}

#[test]
fn stack_pushes_and_pops() {
    let mut states = States::new();
    assert!(states.is_empty());
    assert_eq!(states.len(), 0);
    states.push(State::Stream);
    states.push(State::Mapping(Phase::ExpectingKey));
    assert!(!states.is_empty());
    assert_eq!(states.len(), 2);
    assert_eq!(*states.current(), State::Mapping(Phase::ExpectingKey));
    *states.current_mut() = State::Mapping(Phase::ExpectingValue);
    assert_eq!(*states.current(), State::Mapping(Phase::ExpectingValue));
    states.pop();
    assert_eq!(*states.current(), State::Stream);
    states.pop();
    assert!(states.is_empty());
}

#[test]
fn phase_flips() {
    assert_eq!(Phase::ExpectingKey.flip(), Phase::ExpectingValue);
    assert_eq!(Phase::ExpectingValue.flip(), Phase::ExpectingKey);
    assert_eq!(State::default(), State::Stream);
}

#[test]
fn options_default_and_builder() {
    assert_eq!(Options::default().indent_size, 2);
    assert_eq!(Options::builder().build(), Options { indent_size: 2 });
    assert_eq!(Options::builder().indent_size(4).build().indent_size, 4);
}
