use std::collections::HashMap;

use tracing_toolbox::capture::Storage;
use tracing_toolbox::labels::{is_whitespace, parse_labels_inner, read_str, trim_chars};
use tracing_toolbox::metrics::{MetricKind, MetricUpdateEvent};
use tracing_toolbox::recorder::{MetricData, MetricKey, MetricMaps, MetricMetadata, SameKey};
use tracing_toolbox::types::{CallSiteData, CallSiteKind, TracedValue, TracingLevel};
use tracing_toolbox::values::TracedValues;

fn labels_map(labels: &str) -> HashMap<String, String> {
    parse_labels_inner(labels).unwrap().into_iter().collect()
}

#[test]
fn parsing_labels() {
    let labels = labels_map("{}");
    assert!(labels.is_empty());
    let labels = labels_map("{  }");
    assert!(labels.is_empty());

    let single_label_variants = [
        r#"{"stage": "init"}"#,
        r#"{"stage":"init"}"#,
        r#"{"stage" : "init" }"#,
        r#"{ "stage": "init", }"#,
    ];
    for labels in single_label_variants {
        let labels = labels_map(labels);
        assert_eq!(labels.len(), 1);
        assert_eq!(labels["stage"], "init");
    }

    let multi_label_variants = [
        r#"{"stage": "init", "location": "UK"}"#,
        r#"{"stage":"init","location":"UK"}"#,
        r#"{"stage" : "init"  , "location"  : "UK"  }"#,
        r#"{ "stage": "init", "location": "UK", }"#,
    ];
    for labels in multi_label_variants {
        let labels = labels_map(labels);
        assert_eq!(labels.len(), 2);
        assert_eq!(labels["stage"], "init");
        assert_eq!(labels["location"], "UK");
    }
}

#[test]
fn parsing_labels_errors_and_escapes() {
    assert!(parse_labels_inner("").is_none());
    assert!(parse_labels_inner("{").is_none());
    assert!(parse_labels_inner("stage").is_none());
    assert!(parse_labels_inner(r#"{"stage" "init"}"#).is_none());
    assert!(parse_labels_inner(r#"{"stage": init}"#).is_none());
    assert!(parse_labels_inner(r#"{"stage": "init" "x": "y"}"#).is_none());
    assert!(parse_labels_inner(r#"{"stage": "init}"#).is_none());
    // Escape sequences are not supported: no labels.
    assert_eq!(parse_labels_inner(r#"{"sta\"ge": "init"}"#), Some(vec![]));
    // Surrounding whitespace, including non-ASCII whitespace, is trimmed.
    let labels = labels_map("\u{a0} {\t\"a\":\"b\"\n} \u{3000}");
    assert_eq!(labels["a"], "b");
    // Pairs come in their order of appearance.
    assert_eq!(
        parse_labels_inner(r#"{"b": "1", "a": "2"}"#).unwrap(),
        vec![("b".to_owned(), "1".to_owned()), ("a".to_owned(), "2".to_owned())]
    );
    // A repeated key is kept once, at its first place, with its last value.
    assert_eq!(
        parse_labels_inner(r#"{"b": "1", "a": "2", "b": "3"}"#).unwrap(),
        vec![("b".to_owned(), "3".to_owned()), ("a".to_owned(), "2".to_owned())]
    );
}

#[test]
fn label_helpers() {
    assert!(is_whitespace(' '));
    assert!(is_whitespace('\u{2009}'));
    assert!(!is_whitespace('a'));
    let text: Vec<char> = "  ab c ".chars().collect();
    assert_eq!(trim_chars(&text), vec!['a', 'b', ' ', 'c']);
    let text: Vec<char> = r#""key" : rest"#.chars().collect();
    assert_eq!(read_str(&text, 0), Some((1, 4, 6)));
    assert_eq!(read_str(&text, 1), None);
    let unterminated: Vec<char> = r#""key"#.chars().collect();
    assert_eq!(read_str(&unterminated, 0), None);
}

#[test]
fn metric_kind_names() {
    for kind in [MetricKind::Counter, MetricKind::Gauge, MetricKind::Histogram] {
        assert_eq!(MetricKind::from_str(kind.as_str()), Some(kind));
    }
    assert_eq!(MetricKind::Counter.as_str(), "counter");
    assert_eq!(MetricKind::Gauge.as_str(), "gauge");
    assert_eq!(MetricKind::Histogram.as_str(), "histogram");
    assert_eq!(MetricKind::from_str("summary"), None);
}

fn metric_site(target: &str) -> CallSiteData {
    CallSiteData {
        kind: CallSiteKind::Event,
        name: "event".to_owned(),
        target: target.to_owned(),
        level: TracingLevel::Info,
        module: None,
        file: None,
        line: None,
        fields: ["kind", "name", "labels", "prev_value", "value", "unit", "description", "message"]
            .iter()
            .map(|s| s.to_string())
            .collect(),
    }
}

fn update_values(labels: Option<&str>) -> Vec<(String, TracedValue)> {
    let mut values = vec![
        ("kind".to_owned(), TracedValue::String("histogram".to_owned())),
        ("name".to_owned(), TracedValue::String("greeting.latency".to_owned())),
        ("prev_value".to_owned(), TracedValue::Float(0.0_f64.to_bits())),
        ("value".to_owned(), TracedValue::Float(0.01_f64.to_bits())),
        ("unit".to_owned(), TracedValue::String("seconds".to_owned())),
    ];
    if let Some(labels) = labels {
        values.push(("labels".to_owned(), TracedValue::debug(labels.to_owned())));
    }
    values
}

#[test]
fn recording_metrics_as_events() {
    let mut storage = Storage::new();
    storage.push_event(
        metric_site(MetricUpdateEvent::target()),
        TracedValues::from_iter(update_values(Some(r#"{"oddity": "1"}"#))),
        None,
    );
    storage.push_event(
        metric_site("other"),
        TracedValues::from_iter(update_values(None)),
        None,
    );
    storage.push_event(
        metric_site(MetricUpdateEvent::target()),
        TracedValues::from_iter(vec![
            ("kind".to_owned(), TracedValue::String("counter".to_owned())),
            ("name".to_owned(), TracedValue::String("greeting.count".to_owned())),
            ("prev_value".to_owned(), TracedValue::UInt(1)),
            ("value".to_owned(), TracedValue::UInt(2)),
        ]),
        None,
    );
    let events = storage.all_events();

    let update = MetricUpdateEvent::new(&events[0]).unwrap();
    assert_eq!(update.metric.kind, MetricKind::Histogram);
    assert_eq!(update.metric.name, "greeting.latency");
    assert_eq!(update.metric.unit, "seconds");
    assert_eq!(update.metric.description, "");
    assert_eq!(update.metric.labels, vec![("oddity".to_owned(), "1".to_owned())]);
    assert_eq!(f64::from_bits(update.value.as_float_bits().unwrap()), 0.01);

    assert!(MetricUpdateEvent::new(&events[1]).is_none());

    let update = MetricUpdateEvent::new(&events[2]).unwrap();
    assert_eq!(update.metric.kind, MetricKind::Counter);
    assert!(update.metric.labels.is_empty());
    assert_eq!((update.prev_value.as_uint(), update.value.as_uint()), (Some(1), Some(2)));
}

#[test]
fn malformed_metric_updates_are_skipped() {
    let mut storage = Storage::new();
    let mut bad_kind = update_values(None);
    bad_kind[0].1 = TracedValue::String("summary".to_owned());
    storage.push_event(metric_site(MetricUpdateEvent::target()), TracedValues::from_iter(bad_kind), None);
    let mut bad_unit = update_values(None);
    bad_unit[4].1 = TracedValue::Int(1);
    storage.push_event(metric_site(MetricUpdateEvent::target()), TracedValues::from_iter(bad_unit), None);
    let bad_labels = update_values(Some("not labels"));
    storage.push_event(
        metric_site(MetricUpdateEvent::target()),
        TracedValues::from_iter(bad_labels),
        None,
    );
    let mut no_value = update_values(None);
    no_value.remove(3);
    storage.push_event(metric_site(MetricUpdateEvent::target()), TracedValues::from_iter(no_value), None);
    for event in storage.all_events() {
        assert!(MetricUpdateEvent::new(&event).is_none());
    }
}

#[test]
fn optional_strings_and_labels() {
    assert_eq!(MetricUpdateEvent::get_optional_str(None), Some(""));
    let value = TracedValue::String("s".to_owned());
    assert_eq!(MetricUpdateEvent::get_optional_str(Some(&value)), Some("s"));
    assert_eq!(MetricUpdateEvent::get_optional_str(Some(&TracedValue::Bool(true))), None);
    assert_eq!(MetricUpdateEvent::parse_labels(None), Some(vec![]));
    assert_eq!(MetricUpdateEvent::parse_labels(Some(&value)), None);
}

fn key(name: &str, labels: &[(&str, &str)]) -> MetricKey {
    MetricKey {
        name: name.to_owned(),
        labels: labels.iter().map(|(k, v)| (k.to_string(), v.to_string())).collect(),
    }
}

#[test]
fn metric_maps() {
    let mut maps: MetricMaps<String, u32> = MetricMaps::new();
    maps.insert(MetricKind::Counter, "a".to_owned(), 1);
    maps.insert(MetricKind::Gauge, "a".to_owned(), 2);
    maps.insert(MetricKind::Counter, "a".to_owned(), 3);
    assert_eq!(maps.get(MetricKind::Counter, &"a".to_owned()), Some(&3));
    assert_eq!(maps.get(MetricKind::Gauge, &"a".to_owned()), Some(&2));
    assert_eq!(maps.get(MetricKind::Histogram, &"a".to_owned()), None);
    assert_eq!(maps.get(MetricKind::Counter, &"b".to_owned()), None);

    let mut data_maps: MetricMaps<MetricKey, u32> = MetricMaps::new();
    data_maps.insert(MetricKind::Histogram, key("lat", &[("x", "1")]), 5);
    assert_eq!(data_maps.get(MetricKind::Histogram, &key("lat", &[("x", "1")])), Some(&5));
    assert_eq!(data_maps.get(MetricKind::Histogram, &key("lat", &[("x", "2")])), None);
    assert_eq!(data_maps.get(MetricKind::Histogram, &key("lat", &[])), None);
    assert!(key("a", &[]).same_key(&key("a", &[])));
    assert!(!key("a", &[]).same_key(&key("b", &[])));
}

#[test]
fn counter_updates() {
    let mut data = MetricData::new_counter(key("greeting.count", &[]));
    let updates: Vec<_> = (0..5).map(|_| data.increment_counter(1)).collect();
    assert_eq!(updates, [(0, 1), (1, 2), (2, 3), (3, 4), (4, 5)]);
    assert_eq!(data.absolute_counter(3), (5, 3));
    assert_eq!(data.value, 5);
    assert_eq!(data.absolute_counter(9), (5, 9));
    assert_eq!(data.value, 9);
    data.value = u64::MAX;
    assert_eq!(data.increment_counter(2), (u64::MAX, 1));
}

#[test]
fn gauge_updates() {
    let mut data = MetricData::new_gauge(key("greeting.oddity", &[]));
    assert_eq!(f64::from_bits(data.value), 0.0);
    let prev = data.swap_value(1.0_f64.to_bits());
    assert_eq!(f64::from_bits(prev), 0.0);
    assert_eq!(f64::from_bits(data.value), 1.0);
    let data = MetricData::for_kind(MetricKind::Histogram, key("h", &[]));
    assert_eq!(data.value, 0);
}

#[test]
fn metric_reports() {
    let mut metadata: MetricMaps<String, MetricMetadata> = MetricMaps::new();
    metadata.insert(
        MetricKind::Histogram,
        "greeting.latency".to_owned(),
        MetricMetadata::new(Some("seconds".to_owned()), "time spent on a greeting".to_owned()),
    );
    metadata.insert(
        MetricKind::Counter,
        "greeting.count".to_owned(),
        MetricMetadata::new(Some("count".to_owned()), String::new()),
    );

    let data = MetricData::new_gauge(key("greeting.latency", &[("oddity", "1")]));
    let report = data.report(MetricKind::Histogram, &metadata);
    assert_eq!(report.kind, "histogram");
    assert_eq!(report.name, "greeting.latency");
    assert_eq!(report.labels, Some(vec![("oddity".to_owned(), "1".to_owned())]));
    assert_eq!(report.unit.as_deref(), Some("seconds"));
    assert_eq!(report.description.as_deref(), Some("time spent on a greeting"));
    assert_eq!((report.unit_spacing, report.unit_str.as_str()), (" ", "seconds"));

    let data = MetricData::new_counter(key("greeting.count", &[]));
    let report = data.report(MetricKind::Counter, &metadata);
    assert_eq!(report.labels, None);
    assert_eq!(report.unit.as_deref(), Some("count"));
    assert_eq!(report.description, None);
    assert_eq!((report.unit_spacing, report.unit_str.as_str()), ("", ""));

    // Metadata is looked up by the kind too.
    let report = data.report(MetricKind::Gauge, &metadata);
    assert_eq!(report.unit, None);
    assert_eq!((report.unit_spacing, report.unit_str.as_str()), ("", ""));
}

#[test]
fn histogram_records_report_previous_values() {
    let mut data = MetricData::new_gauge(key("spawned.latency", &[]));
    let first = data.swap_value(0.5_f64.to_bits());
    assert_eq!(f64::from_bits(first), 0.0);
    let second = data.swap_value(2.25_f64.to_bits());
    assert_eq!(f64::from_bits(second), 0.5);
    assert_eq!(f64::from_bits(data.value), 2.25);
}

#[test]
fn inserting_absent_metrics_only() {
    let mut maps: MetricMaps<String, u32> = MetricMaps::new();
    assert!(maps.insert_if_absent(MetricKind::Gauge, "a".to_owned(), 1));
    assert!(!maps.insert_if_absent(MetricKind::Gauge, "a".to_owned(), 2));
    assert!(maps.insert_if_absent(MetricKind::Counter, "a".to_owned(), 3));
    assert_eq!(maps.get(MetricKind::Gauge, &"a".to_owned()), Some(&1));
    assert_eq!(maps.get(MetricKind::Counter, &"a".to_owned()), Some(&3));
    assert_eq!(maps.get(MetricKind::Histogram, &"a".to_owned()), None);
}
