use tracing_toolbox::capture::Storage;
use tracing_toolbox::consumer::{
    ConsumeError, DispatchAction, EventConsumer, PersistedMetadata, PersistedSpans, SpanInfo,
    MAX_VALUES,
};
use tracing_toolbox::types::{CallSiteData, CallSiteKind, TracedValue, TracingEvent, TracingLevel};
use tracing_toolbox::values::TracedValues;

fn create_call_site(fields: Vec<String>) -> CallSiteData {
    CallSiteData {
        kind: CallSiteKind::Span,
        name: "test".to_owned(),
        target: "tardigrade_tracing".to_owned(),
        level: TracingLevel::Error,
        module: Some("subscriber::tests".to_owned()),
        file: Some("tests".to_owned()),
        line: Some(42),
        fields,
    }
}

fn call_site_data() -> CallSiteData {
    create_call_site(Vec::new())
}

fn no_values() -> TracedValues {
    TracedValues::new()
}

/// Plays the part of the tracing dispatcher with a capturing layer: performs dispatch actions
/// on a capture storage. Local span IDs are the indices of the captured spans plus one.
struct Dispatcher {
    storage: Storage,
}

impl Dispatcher {
    fn new() -> Self {
        Self { storage: Storage::new() }
    }

    fn consume(&mut self, consumer: &mut EventConsumer, event: TracingEvent) {
        let action = consumer.try_consume_event(event).unwrap();
        self.perform(consumer, action);
    }

    fn perform(&mut self, consumer: &mut EventConsumer, action: DispatchAction) {
        match action {
            DispatchAction::NewSpan { id, metadata_id, metadata, parent, values } => {
                let mut named = Vec::new();
                for (idx, value) in values {
                    named.push((metadata.fields[idx].clone(), value));
                }
                let parent_index = parent.map(|local| (local - 1) as usize);
                let index = self.storage.push_span(
                    metadata,
                    TracedValues::from_iter(named),
                    parent_index,
                );
                consumer.on_span_created(id, metadata_id, index as u64 + 1);
            }
            DispatchAction::Enter { span } => self.storage.on_span_enter((span - 1) as usize),
            DispatchAction::Exit { span } => self.storage.on_span_exit((span - 1) as usize),
            DispatchAction::Close { span } => self.storage.on_span_closed((span - 1) as usize),
            DispatchAction::Record { span, metadata, values } => {
                let mut named = Vec::new();
                for (idx, value) in values {
                    named.push((metadata.fields[idx].clone(), value));
                }
                self.storage.on_record((span - 1) as usize, TracedValues::from_iter(named));
            }
            DispatchAction::Event { metadata, parent, values } => {
                let mut named = Vec::new();
                for (idx, value) in values {
                    named.push((metadata.fields[idx].clone(), value));
                }
                let parent_index = parent.map(|local| (local - 1) as usize);
                self.storage.push_event(metadata, TracedValues::from_iter(named), parent_index);
            }
            DispatchAction::FollowsFrom { span, follows } => {
                self.storage.on_follows_from((span - 1) as usize, (follows - 1) as usize);
            }
            DispatchAction::RegisterCallSite { .. } | DispatchAction::Nothing => {}
        }
    }
}

#[test]
fn replayed_spans_are_closed_if_entered_multiple_times() {
    let events = vec![
        TracingEvent::NewCallSite { id: 0, data: call_site_data() },
        TracingEvent::NewSpan { id: 0, parent_id: None, metadata_id: 0, values: no_values() },
        TracingEvent::SpanEntered { id: 0 },
        TracingEvent::SpanExited { id: 0 },
        TracingEvent::SpanEntered { id: 0 },
        TracingEvent::SpanExited { id: 0 },
        TracingEvent::SpanDropped { id: 0 },
    ];

    let mut dispatcher = Dispatcher::new();
    let mut consumer = EventConsumer::default();
    for event in events {
        dispatcher.consume(&mut consumer, event);
    }

    let spans = dispatcher.storage.all_spans();
    let span = spans[0];
    assert_eq!(span.stats().entered, 2);
    assert_eq!(span.stats().exited, 2);
    assert!(span.stats().is_closed);
}

#[test]
fn unknown_metadata_error() {
    let event =
        TracingEvent::NewSpan { id: 0, parent_id: None, metadata_id: 0, values: no_values() };
    let mut consumer = EventConsumer::default();
    let err = consumer.try_consume_event(event).unwrap_err();
    assert!(matches!(err, ConsumeError::UnknownMetadataId(0)));
}

#[test]
fn unknown_span_errors() {
    let bogus_events = vec![
        TracingEvent::SpanEntered { id: 1 },
        TracingEvent::SpanExited { id: 1 },
        TracingEvent::SpanDropped { id: 1 },
        TracingEvent::NewSpan { id: 42, parent_id: Some(1), metadata_id: 0, values: no_values() },
        TracingEvent::NewEvent { metadata_id: 0, parent: Some(1), values: no_values() },
        TracingEvent::ValuesRecorded { id: 1, values: no_values() },
    ];

    let mut consumer = EventConsumer::default();
    consumer.consume_event(TracingEvent::NewCallSite { id: 0, data: call_site_data() });
    for bogus_event in bogus_events {
        let err = consumer.try_consume_event(bogus_event).unwrap_err();
        assert!(matches!(err, ConsumeError::UnknownSpanId(1)));
    }
}

#[test]
fn spans_with_allowed_value_lengths() {
    for values_len in 0..=32_i64 {
        println!("values length: {values_len}");

        let mut dispatcher = Dispatcher::new();
        let mut consumer = EventConsumer::default();
        let fields = (0..values_len).map(|i| format!("field{i}")).collect();
        dispatcher.consume(
            &mut consumer,
            TracingEvent::NewCallSite { id: 0, data: create_call_site(fields) },
        );

        let values = (0..values_len)
            .map(|i| (format!("field{i}"), TracedValue::Int(i.into())))
            .collect();
        dispatcher.consume(
            &mut consumer,
            TracingEvent::NewSpan {
                id: 0,
                parent_id: None,
                metadata_id: 0,
                values: TracedValues::from_iter(values),
            },
        );
        dispatcher.consume(&mut consumer, TracingEvent::SpanDropped { id: 0 });
        assert_eq!(dispatcher.storage.all_spans()[0].values().len(), values_len as usize);
    }
}

#[test]
fn too_many_values_error() {
    let mut consumer = EventConsumer::default();
    consumer.consume_event(TracingEvent::NewCallSite { id: 0, data: call_site_data() });

    let values = (0..33_i64)
        .map(|i| (format!("field{i}"), TracedValue::Int(i.into())))
        .collect();
    let bogus_event = TracingEvent::NewSpan {
        id: 0,
        parent_id: None,
        metadata_id: 0,
        values: TracedValues::from_iter(values),
    };
    let err = consumer.try_consume_event(bogus_event).unwrap_err();
    assert_eq!(err, ConsumeError::TooManyValues { actual: 33, max: 32 });
    assert_eq!(MAX_VALUES, 32);
}

#[test]
fn duplicate_call_site_definitions_are_allowed() {
    let events = vec![
        TracingEvent::NewCallSite { id: 0, data: call_site_data() },
        TracingEvent::NewCallSite { id: 0, data: call_site_data() },
    ];

    let mut consumer = EventConsumer::default();
    for event in events {
        consumer.consume_event(event);
    }

    let mut metadata = PersistedMetadata::default();
    let mut spans = PersistedSpans::default();
    let _ = EventConsumer::new(&mut metadata, &mut spans);
    consumer.persist_metadata(&mut metadata);
    assert_eq!(metadata.len(), 1);
}

#[test]
fn receiver_does_not_panic_on_bogus_field() {
    let events = vec![
        TracingEvent::NewCallSite { id: 0, data: call_site_data() },
        TracingEvent::NewSpan {
            id: 0,
            parent_id: None,
            metadata_id: 0,
            values: TracedValues::from_iter(vec![("i".to_owned(), TracedValue::Int(42))]),
        },
    ];

    let mut dispatcher = Dispatcher::new();
    let mut consumer = EventConsumer::default();
    for event in events {
        dispatcher.consume(&mut consumer, event);
    }
    // The value for the unknown field is skipped.
    assert!(dispatcher.storage.all_spans()[0].values().is_empty());
}

fn restored_consumer(call_site: CallSiteData) -> (EventConsumer, Vec<(u64, CallSiteData)>) {
    let mut metadata = PersistedMetadata::default();
    metadata.insert(0, call_site);
    let mut spans = PersistedSpans::default();
    spans.insert(1, SpanInfo { local_id: 7, metadata_id: 0, ref_count: 1 });
    EventConsumer::new(&mut metadata, &mut spans)
}

fn visit_and_drop_span(consumer: &mut EventConsumer) {
    let action = consumer.try_consume_event(TracingEvent::SpanEntered { id: 1 }).unwrap();
    assert!(matches!(action, DispatchAction::Enter { span: 7 }));
    let action = consumer.try_consume_event(TracingEvent::SpanExited { id: 1 }).unwrap();
    assert!(matches!(action, DispatchAction::Exit { span: 7 }));
    let action = consumer.try_consume_event(TracingEvent::SpanDropped { id: 1 }).unwrap();
    assert!(matches!(action, DispatchAction::Close { span: 7 }));
    assert!(consumer.span(1).is_none());
}

#[test]
fn restoring_spans() {
    let (mut consumer, to_register) = restored_consumer(call_site_data());
    assert_eq!(to_register.len(), 1);
    assert_eq!(to_register[0].0, 0);
    visit_and_drop_span(&mut consumer);
}

#[test]
fn restoring_span_after_recording_values() {
    let (mut consumer, _) = restored_consumer(create_call_site(vec!["i".to_owned()]));
    let action = consumer
        .try_consume_event(TracingEvent::ValuesRecorded {
            id: 1,
            values: TracedValues::from_iter(vec![("i".to_owned(), TracedValue::Int(42))]),
        })
        .unwrap();
    match action {
        DispatchAction::Record { span, metadata, values } => {
            assert_eq!(span, 7);
            assert_eq!(metadata.fields, vec!["i".to_owned()]);
            assert_eq!(values, vec![(0, TracedValue::Int(42))]);
        }
        _ => panic!("unexpected action"),
    }
    visit_and_drop_span(&mut consumer);
}

#[test]
fn injected_metadata_is_registered_once() {
    let mut metadata = PersistedMetadata::default();
    metadata.insert(0, call_site_data());
    metadata.insert(5, create_call_site(vec!["x".to_owned()]));
    let mut spans = PersistedSpans::default();
    let (_, to_register) = EventConsumer::new(&mut metadata, &mut spans);
    assert_eq!(to_register.len(), 2);
    let (_, to_register) = EventConsumer::new(&mut metadata, &mut spans);
    assert!(to_register.is_empty());
}

#[test]
fn clone_then_drop_keeps_span_alive() {
    let mut dispatcher = Dispatcher::new();
    let mut consumer = EventConsumer::default();
    dispatcher.consume(&mut consumer, TracingEvent::NewCallSite { id: 0, data: call_site_data() });
    dispatcher.consume(
        &mut consumer,
        TracingEvent::NewSpan { id: 3, parent_id: None, metadata_id: 0, values: no_values() },
    );
    let before = consumer.span(3).unwrap();
    let action = consumer.try_consume_event(TracingEvent::SpanCloned { id: 3 }).unwrap();
    assert!(matches!(action, DispatchAction::Nothing));
    assert_eq!(consumer.span(3).unwrap().ref_count, 2);
    let action = consumer.try_consume_event(TracingEvent::SpanDropped { id: 3 }).unwrap();
    assert!(matches!(action, DispatchAction::Nothing));
    assert_eq!(consumer.span(3).unwrap(), before);
    let action = consumer.try_consume_event(TracingEvent::SpanDropped { id: 3 }).unwrap();
    assert!(matches!(action, DispatchAction::Close { span: 1 }));
    let err = consumer.try_consume_event(TracingEvent::SpanEntered { id: 3 }).unwrap_err();
    assert_eq!(err, ConsumeError::UnknownSpanId(3));
}

#[test]
fn event_values_are_keyed_by_field_index_and_parented() {
    let mut dispatcher = Dispatcher::new();
    let mut consumer = EventConsumer::default();
    let mut event_site = create_call_site(vec!["a".to_owned(), "b".to_owned()]);
    event_site.kind = CallSiteKind::Event;
    dispatcher.consume(&mut consumer, TracingEvent::NewCallSite { id: 0, data: call_site_data() });
    dispatcher.consume(&mut consumer, TracingEvent::NewCallSite { id: 1, data: event_site });
    dispatcher.consume(
        &mut consumer,
        TracingEvent::NewSpan { id: 9, parent_id: None, metadata_id: 0, values: no_values() },
    );
    let values = TracedValues::from_iter(vec![
        ("b".to_owned(), TracedValue::Bool(true)),
        ("zz".to_owned(), TracedValue::UInt(1)),
        ("a".to_owned(), TracedValue::String("x".to_owned())),
    ]);
    let action = consumer
        .try_consume_event(TracingEvent::NewEvent { metadata_id: 1, parent: Some(9), values })
        .unwrap();
    match &action {
        DispatchAction::Event { parent, values, .. } => {
            assert_eq!(*parent, Some(1));
            assert_eq!(
                *values,
                vec![(1, TracedValue::Bool(true)), (0, TracedValue::String("x".to_owned()))]
            );
        }
        _ => panic!("unexpected action"),
    }
    dispatcher.perform(&mut consumer, action);
    let span = dispatcher.storage.all_spans()[0];
    assert_eq!(span.events().len(), 1);
    assert_eq!(dispatcher.storage.root_events().len(), 0);
}

#[test]
fn error_messages() {
    assert_eq!(ConsumeError::UnknownMetadataId(5).message(), "unknown metadata ID: 5");
    assert_eq!(ConsumeError::UnknownSpanId(3).message(), "unknown span ID: 3");
    assert_eq!(
        ConsumeError::TooManyValues { max: 32, actual: 40 }.message(),
        "too many values provided (40), should be no more than 32"
    );
}

fn fib_events() -> Vec<TracingEvent> {
    let mut fib_site = create_call_site(vec!["approx".to_owned()]);
    fib_site.name = "fib".to_owned();
    let mut compute_site = create_call_site(vec!["count".to_owned()]);
    compute_site.name = "compute".to_owned();
    let mut event_site = create_call_site(vec!["message".to_owned(), "i".to_owned()]);
    event_site.kind = CallSiteKind::Event;
    event_site.name = "event".to_owned();

    let mut events = vec![
        TracingEvent::NewCallSite { id: 10, data: fib_site },
        TracingEvent::NewCallSite { id: 20, data: compute_site },
        TracingEvent::NewCallSite { id: 30, data: event_site },
        TracingEvent::NewSpan {
            id: 1,
            parent_id: None,
            metadata_id: 10,
            values: TracedValues::from_iter(vec![("approx".to_owned(), TracedValue::UInt(8))]),
        },
        TracingEvent::SpanEntered { id: 1 },
    ];
    for i in 0..3_i64 {
        events.push(TracingEvent::NewSpan {
            id: 2 + i as u64,
            parent_id: Some(1),
            metadata_id: 20,
            values: TracedValues::from_iter(vec![("count".to_owned(), TracedValue::Int(i.into()))]),
        });
        events.push(TracingEvent::SpanEntered { id: 2 + i as u64 });
        events.push(TracingEvent::NewEvent {
            metadata_id: 30,
            parent: None,
            values: TracedValues::from_iter(vec![
                ("message".to_owned(), TracedValue::debug("performing iteration".to_owned())),
                ("i".to_owned(), TracedValue::Int(i.into())),
            ]),
        });
        events.push(TracingEvent::SpanExited { id: 2 + i as u64 });
        events.push(TracingEvent::SpanDropped { id: 2 + i as u64 });
    }
    events.push(TracingEvent::SpanExited { id: 1 });
    events.push(TracingEvent::SpanDropped { id: 1 });
    events
}

#[test]
fn persisting_metadata() {
    let events = fib_events();
    let mut dispatcher = Dispatcher::new();
    let mut consumer = EventConsumer::default();
    for event in events.clone() {
        dispatcher.consume(&mut consumer, event);
    }
    let mut metadata = PersistedMetadata::default();
    let mut spans = PersistedSpans::default();
    let _ = EventConsumer::new(&mut metadata, &mut spans);
    consumer.persist_metadata(&mut metadata);
    let names: Vec<_> = metadata.iter().into_iter().map(|(_, data)| data.name.clone()).collect();
    assert!(names.contains(&"fib".to_owned()), "{names:?}");
    assert!(names.contains(&"compute".to_owned()), "{names:?}");

    // The consumer functions after restoring the persisted metadata (e.g., in another run).
    let mut restored_metadata = PersistedMetadata::default();
    for (id, data) in metadata.call_sites() {
        restored_metadata.insert(id, data);
    }
    assert!(!restored_metadata.is_injected());
    let (mut restored, to_register) =
        EventConsumer::new(&mut restored_metadata, &mut PersistedSpans::default());
    assert!(restored_metadata.is_injected());
    assert_eq!(to_register.len(), 3);
    for event in events {
        if !matches!(event, TracingEvent::NewCallSite { .. }) {
            dispatcher.consume(&mut restored, event);
        }
    }
}

#[test]
fn persisting_spans() {
    let events = fib_events();
    let mut split_positions = vec![0];
    for (i, event) in events.iter().enumerate() {
        if matches!(event, TracingEvent::NewSpan { .. } | TracingEvent::SpanExited { .. }) {
            split_positions.push(i + 1);
        }
    }
    split_positions.push(events.len());

    let mut dispatcher = Dispatcher::new();
    let mut metadata = PersistedMetadata::default();
    let mut spans = PersistedSpans::default();
    for window in split_positions.windows(2) {
        let (mut consumer, _) = EventConsumer::new(&mut metadata, &mut spans);
        for event in &events[window[0]..window[1]] {
            dispatcher.consume(&mut consumer, event.clone());
        }
        consumer.persist_metadata(&mut metadata);
        spans = consumer.persist_spans();
    }
    assert!(spans.iter().is_empty());
    assert_eq!(metadata.len(), 3);
    let captured = dispatcher.storage.all_spans();
    assert_eq!(captured.len(), 4);
    assert!(captured.iter().all(|span| span.stats().is_closed));
    assert_eq!(dispatcher.storage.span(0).children().len(), 3);
}
