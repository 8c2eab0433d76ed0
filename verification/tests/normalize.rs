use tracing_toolbox::arena::MetadataArena;
use tracing_toolbox::sync::{CallSiteRegistry, Synced};
use tracing_toolbox::types::{CallSiteData, CallSiteKind, TracingEvent, TracingLevel};
use tracing_toolbox::values::TracedValues;

fn site(kind: CallSiteKind, name: &str, file: &str) -> CallSiteData {
    CallSiteData {
        kind,
        name: name.to_owned(),
        target: "app".to_owned(),
        level: TracingLevel::Info,
        module: Some("app".to_owned()),
        file: Some(file.to_owned()),
        line: Some(17),
        fields: vec!["x".to_owned()],
    }
}

fn events(first: u64, second: u64) -> Vec<TracingEvent> {
    vec![
        TracingEvent::NewCallSite { id: first, data: site(CallSiteKind::Span, "compute", "src\\lib.rs") },
        TracingEvent::NewSpan { id: 1, parent_id: None, metadata_id: first, values: TracedValues::new() },
        TracingEvent::NewCallSite {
            id: second,
            data: site(CallSiteKind::Event, "event src/lib.rs:17", "src\\lib.rs"),
        },
        TracingEvent::NewEvent { metadata_id: second, parent: Some(1), values: TracedValues::new() },
        TracingEvent::NewEvent { metadata_id: first, parent: None, values: TracedValues::new() },
        TracingEvent::SpanDropped { id: 1 },
    ]
}

#[test]
fn normalizing_events() {
    let mut normalized = events(1000, 2000);
    TracingEvent::normalize_with_separator(&mut normalized, '\\');
    match &normalized[0] {
        TracingEvent::NewCallSite { id, data } => {
            assert_eq!(*id, 0);
            assert_eq!(data.line, None);
            assert_eq!(data.name, "compute");
            assert_eq!(data.file.as_deref(), Some("src/lib.rs"));
        }
        _ => panic!("unexpected event"),
    }
    assert!(matches!(normalized[1], TracingEvent::NewSpan { metadata_id: 0, .. }));
    match &normalized[2] {
        TracingEvent::NewCallSite { id, data } => {
            assert_eq!(*id, 1);
            assert_eq!(data.name, "event");
        }
        _ => panic!("unexpected event"),
    }
    assert!(matches!(normalized[3], TracingEvent::NewEvent { metadata_id: 1, .. }));
    assert!(matches!(normalized[4], TracingEvent::NewEvent { metadata_id: 0, .. }));
    assert!(matches!(normalized[5], TracingEvent::SpanDropped { id: 1 }));
}

#[test]
fn normalized_events_do_not_depend_on_metadata_ids() {
    let mut first = events(1000, 2000);
    let mut second = events(7, 3);
    TracingEvent::normalize_with_separator(&mut first, '/');
    TracingEvent::normalize_with_separator(&mut second, '/');
    let first_ids: Vec<_> = first.iter().map(metadata_id).collect();
    let second_ids: Vec<_> = second.iter().map(metadata_id).collect();
    assert_eq!(first_ids, second_ids);
    assert_eq!(first_ids, [Some(0), Some(0), Some(1), Some(1), Some(0), None]);
}

#[test]
fn unknown_metadata_gets_next_id() {
    let mut events = vec![
        TracingEvent::NewEvent { metadata_id: 55, parent: None, values: TracedValues::new() },
        TracingEvent::NewEvent { metadata_id: 66, parent: None, values: TracedValues::new() },
        TracingEvent::NewEvent { metadata_id: 55, parent: None, values: TracedValues::new() },
    ];
    TracingEvent::normalize(&mut events);
    let ids: Vec<_> = events.iter().map(metadata_id).collect();
    assert_eq!(ids, [Some(0), Some(1), Some(0)]);
}

fn metadata_id(event: &TracingEvent) -> Option<u64> {
    match event {
        TracingEvent::NewCallSite { id, .. } => Some(*id),
        TracingEvent::NewSpan { metadata_id, .. } | TracingEvent::NewEvent { metadata_id, .. } => {
            Some(*metadata_id)
        }
        _ => None,
    }
}

#[test]
fn call_sites_are_announced_once() {
    let mut synced = Synced::new();
    assert!(!synced.is_registered(5));
    let data = site(CallSiteKind::Span, "s", "f.rs");
    let event = synced.ensure_callsite_registered(5, data.clone());
    match event {
        Some(TracingEvent::NewCallSite { id, data: announced }) => {
            assert_eq!(id, 5);
            assert_eq!(announced, data);
        }
        _ => panic!("call site not announced"),
    }
    assert!(synced.is_registered(5));
    assert!(synced.ensure_callsite_registered(5, data).is_none());
}

#[test]
fn metadata_arena_deduplicates_call_sites() {
    let mut arena = MetadataArena::new();
    let (first, is_new) = arena.alloc_metadata(site(CallSiteKind::Span, "a", "f.rs"));
    assert!(is_new);
    let (second, is_new) = arena.alloc_metadata(site(CallSiteKind::Span, "b", "f.rs"));
    assert!(is_new);
    let (again, is_new) = arena.alloc_metadata(site(CallSiteKind::Span, "a", "f.rs"));
    assert!(!is_new);
    assert_eq!(again, first);
    assert_ne!(first, second);
    assert_eq!(arena.len(), 2);
    assert_eq!(arena.get(second).name, "b");
}

#[test]
fn call_sites_get_sequential_ids() {
    let mut registry = CallSiteRegistry::new();
    assert_eq!(registry.register_site(0xdead), 0);
    assert_eq!(registry.register_site(0xbeef), 1);
    assert_eq!(registry.metadata_id(0xdead), Some(0));
    assert_eq!(registry.metadata_id(0xbeef), Some(1));
    assert_eq!(registry.metadata_id(7), None);
    assert_eq!(registry.next_id(), 2);
    registry.check_valid();
}

#[test]
fn normalizing_normalized_events_changes_nothing() {
    let mut once = events(1000, 2000);
    TracingEvent::normalize_with_separator(&mut once, '\\');
    let mut twice = events(1000, 2000);
    TracingEvent::normalize_with_separator(&mut twice, '\\');
    TracingEvent::normalize_with_separator(&mut twice, '\\');
    assert_eq!(format!("{once:?}"), format!("{twice:?}"));
}

#[test]
fn redefined_call_sites_are_renumbered_again() {
    let mut events = vec![
        TracingEvent::NewCallSite { id: 5, data: site(CallSiteKind::Span, "a", "f.rs") },
        TracingEvent::NewCallSite { id: 5, data: site(CallSiteKind::Span, "a", "f.rs") },
        TracingEvent::NewCallSite { id: 6, data: site(CallSiteKind::Span, "b", "f.rs") },
    ];
    TracingEvent::normalize_with_separator(&mut events, '/');
    let once: Vec<_> = events.iter().map(metadata_id).collect();
    assert_eq!(once, [Some(0), Some(1), Some(1)]);
    TracingEvent::normalize_with_separator(&mut events, '/');
    let twice: Vec<_> = events.iter().map(metadata_id).collect();
    assert_eq!(twice, [Some(0), Some(1), Some(2)]);
}

#[test]
fn each_call_site_is_announced_on_its_first_registration() {
    let mut synced = Synced::new();
    let calls = [3_u64, 4, 3, 3, 5, 4];
    let announced: Vec<bool> = calls
        .iter()
        .map(|&id| synced.ensure_callsite_registered(id, site(CallSiteKind::Span, "s", "f.rs")).is_some())
        .collect();
    assert_eq!(announced, [true, true, false, false, true, false]);
    for id in [3, 4, 5] {
        assert!(synced.is_registered(id));
    }
    assert!(!synced.is_registered(6));
}
