use tracing_toolbox::capture::{
    filter_enabled, nearest_captured, validate_span_id, Captured, CapturedSpan, SimpleFilter, SpanIdError,
    SpanStats, Storage,
};
use tracing_toolbox::predicates::{
    ancestor, into_fn, level, name, parent, target, And, ItemPredicate, LevelAtMost, LevelEq, Or,
    ScannerExt, StrEndsWith, StrEq, StrStartsWith, TargetStrPredicate,
};
use tracing_toolbox::types::{CallSiteData, CallSiteKind, TracedValue, TracingLevel};
use tracing_toolbox::values::TracedValues;

fn span_site(name: &str) -> CallSiteData {
    CallSiteData {
        kind: CallSiteKind::Span,
        name: name.to_owned(),
        target: "tracing_capture::predicate".to_owned(),
        level: TracingLevel::Info,
        module: Some("predicate".to_owned()),
        file: Some("predicate.rs".to_owned()),
        line: Some(42),
        fields: vec!["val".to_owned()],
    }
}

fn event_site() -> CallSiteData {
    CallSiteData {
        kind: CallSiteKind::Event,
        name: "event at tracing_capture/predicates.rs:42".to_owned(),
        target: "tracing_capture::predicate".to_owned(),
        level: TracingLevel::Debug,
        module: Some("predicate".to_owned()),
        file: Some("predicate.rs".to_owned()),
        line: Some(42),
        fields: vec!["val".to_owned(), "message".to_owned()],
    }
}

fn eq_str(value: &str) -> StrEq {
    StrEq { value: value.to_owned() }
}

#[test]
fn level_predicates() {
    let mut storage = Storage::new();
    let span_id = storage.push_span(span_site("test_span"), TracedValues::new(), None);
    let span = storage.span(span_id);

    let predicate = level(LevelEq { level: TracingLevel::Info });
    assert!(predicate.eval(&span));
    let predicate = level(LevelEq { level: TracingLevel::Debug });
    assert!(!predicate.eval(&span));
    let predicate = level(LevelEq { level: TracingLevel::Warn });
    assert!(!predicate.eval(&span));

    let predicate = level(LevelAtMost { level: Some(TracingLevel::Info) });
    assert!(predicate.eval(&span));
    let predicate = level(LevelAtMost { level: Some(TracingLevel::Debug) });
    assert!(predicate.eval(&span));
    let predicate = level(LevelAtMost { level: Some(TracingLevel::Warn) });
    assert!(!predicate.eval(&span));
    let predicate = level(LevelAtMost { level: None });
    assert!(!predicate.eval(&span));
}

#[test]
fn target_predicates() {
    let mut storage = Storage::new();
    let span_id = storage.push_span(span_site("test_span"), TracedValues::new(), None);
    let span = storage.span(span_id);

    let predicate = target("tracing_capture");
    assert!(predicate.eval(&span));
    let predicate = target("tracing");
    assert!(!predicate.eval(&span));
    let predicate = target("tracing_capture::predicate");
    assert!(predicate.eval(&span));
    let predicate = target("tracing_capture::pred");
    assert!(!predicate.eval(&span));
    let predicate = target(eq_str("tracing_capture::predicate"));
    assert!(predicate.eval(&span));
}

#[test]
fn target_prefix_rule() {
    let prefix = TargetStrPredicate { prefix: "tracing" };
    assert!(prefix.eval(&"tracing".to_owned()));
    assert!(prefix.eval(&"tracing::predicate".to_owned()));
    assert!(!prefix.eval(&"tracing_capture".to_owned()));
    assert!(!prefix.eval(&"tracing:".to_owned()));
    assert!(!prefix.eval(&"trac".to_owned()));
    assert!(TargetStrPredicate { prefix: "" }.eval(&"".to_owned()));
}

#[test]
fn name_predicates() {
    let mut storage = Storage::new();
    let span_id = storage.push_span(span_site("test_span"), TracedValues::new(), None);
    let span = storage.span(span_id);

    let predicate = name(eq_str("test_span"));
    assert!(predicate.eval(&span));
    let predicate = name(StrStartsWith { prefix: "test".to_owned() });
    assert!(predicate.eval(&span));
    let predicate = name(StrEndsWith { suffix: "test".to_owned() });
    assert!(!predicate.eval(&span));
    let predicate = name(StrEndsWith { suffix: "span".to_owned() });
    assert!(predicate.eval(&span));
}

#[test]
fn combining_predicates_with_and_or() {
    let mut storage = Storage::new();
    let values = TracedValues::from_iter(vec![(
        "val".to_owned(),
        TracedValue::String("str".to_owned()),
    )]);
    let span_id = storage.push_span(span_site("test_span"), values, None);
    let span = storage.span(span_id);

    let predicate = And::new(
        Or::new(target("tracing_capture"), name(eq_str("other"))),
        level(LevelEq { level: TracingLevel::Info }),
    );
    assert!(predicate.eval(&span));

    let predicate = And::new(
        Or::new(target("tracing"), name(eq_str("other"))),
        level(LevelEq { level: TracingLevel::Info }),
    );
    assert!(!predicate.eval(&span));
}

#[test]
fn parent_and_ancestor_predicates() {
    let mut storage = Storage::new();
    let wrapper = storage.push_span(span_site("wrapper"), TracedValues::new(), None);
    let compute = storage.push_span(span_site("compute"), TracedValues::new(), Some(wrapper));
    let event = storage.push_event(event_site(), TracedValues::new(), Some(compute));
    let root_event = storage.push_event(event_site(), TracedValues::new(), None);
    let event = storage.event(event);
    let root_event = storage.event(root_event);

    let info = level(LevelEq { level: TracingLevel::Info });
    assert!(parent(And::new(info, name(eq_str("compute")))).eval(&event));
    assert!(!parent(And::new(info, name(eq_str("wrapper")))).eval(&event));
    assert!(ancestor(And::new(info, name(eq_str("wrapper")))).eval(&event));
    assert!(ancestor(name(eq_str("compute"))).eval(&event));
    assert!(!ancestor(name(eq_str("other"))).eval(&event));
    assert!(!parent(name(eq_str("compute"))).eval(&root_event));
    assert!(!ancestor(name(eq_str("compute"))).eval(&root_event));

    let compute_span = storage.span(compute);
    assert!(parent(name(eq_str("wrapper"))).eval(&compute_span));
    assert!(!parent(name(eq_str("wrapper"))).eval(&storage.span(wrapper)));
}

#[test]
fn using_extensions() {
    let mut storage = Storage::new();
    for val in 0_i64..5 {
        let values = TracedValues::from_iter(vec![
            ("val".to_owned(), TracedValue::Int(val.into())),
            ("message".to_owned(), TracedValue::debug("completed computations".to_owned())),
        ]);
        // The event with `val == 1` comes from a call site of its own, so that a predicate on
        // call sites singles it out.
        let mut site = event_site();
        if val == 1 {
            site.target = "tracing_capture::predicate::single".to_owned();
        }
        storage.push_event(site, values, None);
    }
    let info = LevelAtMost { level: Some(TracingLevel::Info) };
    let debug = LevelAtMost { level: Some(TracingLevel::Debug) };

    let predicate = And::new(level(debug), target("tracing_capture::predicate::single"));
    let event = storage.all_events().scanner().single(&predicate);
    assert_eq!(*event.index("val"), TracedValue::Int(1));
    let event = storage.all_events().scanner().first(&target("tracing_capture"));
    assert_eq!(*event.index("val"), TracedValue::Int(0));
    let event = storage.all_events().scanner().last(&predicate);
    assert_eq!(*event.index("val"), TracedValue::Int(1));

    storage.all_events().scanner().all(&target("tracing_capture"));
    storage.all_events().scanner().none(&level(info));
    assert!(storage.all_events().scanner().all_match(&target("tracing_capture")));
    assert!(!storage.all_events().scanner().all_match(&predicate));
    assert!(storage.all_events().scanner().none_match(&level(info)));
    assert!(!storage.all_events().scanner().none_match(&level(debug)));
}

#[test]
fn scanner_finds_single_match() {
    let mut storage = Storage::new();
    storage.push_span(span_site("a"), TracedValues::new(), None);
    storage.push_span(span_site("b"), TracedValues::new(), None);
    storage.push_span(span_site("c"), TracedValues::new(), None);
    let span = storage.all_spans().scanner().single(&name(eq_str("b")));
    assert_eq!(span.id(), 1);
    assert_eq!(span.metadata().name, "b");
}

#[test]
fn capturing_span_hierarchy() {
    let mut storage = Storage::new();
    let root = storage.push_span(span_site("root"), TracedValues::new(), None);
    let child = storage.push_span(span_site("child"), TracedValues::new(), Some(root));
    let grandchild = storage.push_span(span_site("grandchild"), TracedValues::new(), Some(child));
    let sibling = storage.push_span(span_site("sibling"), TracedValues::new(), Some(root));
    let other_root = storage.push_span(span_site("other"), TracedValues::new(), None);
    let e0 = storage.push_event(event_site(), TracedValues::new(), Some(grandchild));
    let e1 = storage.push_event(event_site(), TracedValues::new(), Some(root));
    let e2 = storage.push_event(event_site(), TracedValues::new(), Some(sibling));
    let e3 = storage.push_event(event_site(), TracedValues::new(), None);

    let ids = |spans: Vec<CapturedSpan<'_>>| spans.iter().map(|s| s.id()).collect::<Vec<_>>();
    assert_eq!(ids(storage.root_spans()), vec![root, other_root]);
    assert_eq!(ids(storage.span(root).children()), vec![child, sibling]);
    assert_eq!(ids(storage.span(root).descendants()), vec![child, grandchild, sibling]);
    assert_eq!(ids(storage.span(grandchild).ancestors()), vec![child, root]);
    assert!(storage.span(root).parent().is_none());
    assert_eq!(storage.span(grandchild).parent().unwrap().id(), child);

    let event_ids = |events: Vec<tracing_toolbox::capture::CapturedEvent<'_>>| {
        events.iter().map(|e| e.id()).collect::<Vec<_>>()
    };
    assert_eq!(event_ids(storage.span(root).events()), vec![e1]);
    assert_eq!(event_ids(storage.span(root).descendant_events()), vec![e1, e0, e2]);
    assert_eq!(event_ids(storage.root_events()), vec![e3]);
    assert_eq!(event_ids(storage.all_events()), vec![e0, e1, e2, e3]);
    assert_eq!(ids(storage.event(e0).ancestors()), vec![grandchild, child, root]);
    assert_eq!(ids(Captured::ancestors(&storage.event(e2))), vec![sibling, root]);
}

#[test]
fn capturing_wide_span_graph() {
    let mut storage = Storage::new();
    let root = storage.push_span(span_site("root"), TracedValues::new(), None);
    let mut children = vec![];
    for _ in 0..5 {
        let child = storage.push_span(span_site("child"), TracedValues::new(), Some(root));
        children.push(child);
        for _ in 0..3 {
            storage.push_span(span_site("leaf"), TracedValues::new(), Some(child));
        }
    }
    let root_span = storage.span(root);
    assert_eq!(root_span.children().len(), 5);
    let descendants = root_span.descendants();
    assert_eq!(descendants.len(), 20);
    // Depth-first: each child is followed by its three leaves.
    let ids: Vec<_> = descendants.iter().map(|s| s.id()).collect();
    assert_eq!(ids, (1..=20).collect::<Vec<_>>());
    for child in children {
        let leaves = storage.span(child).children();
        assert_eq!(leaves.len(), 3);
        for leaf in leaves {
            assert_eq!(leaf.parent().unwrap().id(), child);
            assert!(leaf.descendants().is_empty());
        }
    }
}

#[test]
fn span_stats_and_values() {
    let mut storage = Storage::new();
    let values = TracedValues::from_iter(vec![("val".to_owned(), TracedValue::Int(42))]);
    let id = storage.push_span(span_site("test"), values, None);
    storage.on_span_enter(id);
    storage.on_span_exit(id);
    storage.on_span_enter(id);
    storage.on_record(
        id,
        TracedValues::from_iter(vec![
            ("val".to_owned(), TracedValue::Int(23)),
            ("other".to_owned(), TracedValue::Bool(true)),
        ]),
    );
    storage.on_span_closed(id);
    let span = storage.span(id);
    assert_eq!(span.stats(), SpanStats { entered: 2, exited: 1, is_closed: true });
    assert_eq!(span.value("val"), Some(&TracedValue::Int(23)));
    assert_eq!(*span.index("other"), TracedValue::Bool(true));
    assert_eq!(span.value("missing"), None);
    assert_eq!(span.values().len(), 2);
    assert_eq!(span.values()[0].0, "val");
}

#[test]
fn recording_follows_from_relations() {
    let mut storage = Storage::new();
    let first = storage.push_span(span_site("first"), TracedValues::new(), None);
    let second = storage.push_span(span_site("second"), TracedValues::new(), None);
    storage.on_follows_from(second, first);
    let spans = storage.all_spans();
    assert_eq!(spans.len(), 2);
    assert_eq!(spans[1].metadata().name, "second");
}

#[test]
fn simple_filter() {
    let filter = SimpleFilter { target: "app".to_owned(), level: Some(TracingLevel::Info) };
    let mut site = span_site("x");
    site.target = "app".to_owned();
    assert!(filter.enabled(&site));
    site.level = TracingLevel::Debug;
    assert!(!filter.enabled(&site));
    site.level = TracingLevel::Error;
    assert!(filter.enabled(&site));
    site.target = "app::inner".to_owned();
    assert!(!filter.enabled(&site));
    let off = SimpleFilter { target: "app".to_owned(), level: None };
    site.target = "app".to_owned();
    assert!(!off.enabled(&site));
    assert!(filter_enabled(&None, &site));
    assert!(filter_enabled(&Some(filter), &site));
}

#[test]
fn span_serialization() {
    let id = validate_span_id(42).unwrap();
    let mut wrapper = serde_json::Map::new();
    wrapper.insert("id".to_owned(), serde_json::Value::from(id));
    let serialized = serde_json::Value::Object(wrapper);
    let expected: serde_json::Value = serde_json::from_str(r#"{ "id": 42 }"#).unwrap();
    assert_eq!(serialized, expected);

    let raw: u64 = serde_json::from_value(serialized["id"].clone()).unwrap();
    assert_eq!(validate_span_id(raw), Ok(id));
}

#[test]
fn zero_span_deserialization() {
    let serialized: serde_json::Value = serde_json::from_str(r#"{ "id": 0 }"#).unwrap();
    let raw: u64 = serde_json::from_value(serialized["id"].clone()).unwrap();
    let err = validate_span_id(raw).unwrap_err();
    assert_eq!(err, SpanIdError::Zero);
    assert!(err.message().contains("span IDs must be positive"));
}

#[test]
fn predicates_as_closures() {
    let mut storage = Storage::new();
    let first = storage.push_span(span_site("first"), TracedValues::new(), None);
    storage.push_event(event_site(), TracedValues::new(), Some(first));
    storage.push_event(event_site(), TracedValues::new(), None);
    let mut info_site = event_site();
    info_site.level = TracingLevel::Info;
    storage.push_event(info_site, TracedValues::new(), None);

    let is_info = into_fn(level(LevelEq { level: TracingLevel::Info }));
    let events = storage.all_events();
    let matching: Vec<_> = events.iter().filter(|event| is_info(*event)).map(|e| e.id()).collect();
    assert_eq!(matching, [2]);
    let has_parent = into_fn(parent(name(eq_str("first"))));
    let matching: Vec<_> = events.iter().filter(|event| has_parent(*event)).map(|e| e.id()).collect();
    assert_eq!(matching, [0]);
}

#[test]
fn events_are_tied_to_nearest_captured_span() {
    assert_eq!(nearest_captured(&vec![]), None);
    assert_eq!(nearest_captured(&vec![None, None]), None);
    assert_eq!(nearest_captured(&vec![None, Some(3), Some(1)]), Some(3));
    assert_eq!(nearest_captured(&vec![Some(0), Some(5)]), Some(0));
}
