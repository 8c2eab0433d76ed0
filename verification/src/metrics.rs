//! Metric update events: tracing events that report updates of metrics (counters, gauges
//! and histograms).
use vstd::prelude::*;

use crate::capture::{CapturedEvent, EventRecord};
use crate::labels::{labels_of, pairs_view, parse_labels_inner};
use crate::text::str_eq;
use crate::types::TracedValue;
use crate::values::{value_of, ValuesView};

verus! {

/// Kind of a metric.
#[derive(Debug, Clone, Copy, PartialEq, Eq, Hash, Structural)]
pub enum MetricKind {
    /// Counter metric.
    Counter,
    /// Gauge metric.
    Gauge,
    /// Histogram metric.
    Histogram,
}

/// Name of a metric kind as used in metric update events.
pub open spec fn kind_name(kind: MetricKind) -> Seq<char> {
    match kind {
        MetricKind::Counter => seq!['c', 'o', 'u', 'n', 't', 'e', 'r'],
        MetricKind::Gauge => seq!['g', 'a', 'u', 'g', 'e'],
        MetricKind::Histogram => seq!['h', 'i', 's', 't', 'o', 'g', 'r', 'a', 'm'],
    }
}

/// Metric kind with the specified name, if any.
pub open spec fn kind_from_name(name: Seq<char>) -> Option<MetricKind> {
    if name == kind_name(MetricKind::Counter) {
        Some(MetricKind::Counter)
    } else if name == kind_name(MetricKind::Gauge) {
        Some(MetricKind::Gauge)
    } else if name == kind_name(MetricKind::Histogram) {
        Some(MetricKind::Histogram)
    } else {
        None
    }
}

impl MetricKind {
    /// Returns the name of this kind: `counter`, `gauge` or `histogram`.
    pub fn as_str(self) -> (r: &'static str)
        ensures
            r@ == kind_name(self),
    {
        match self {
            MetricKind::Counter => {
                let s = "counter";
                proof {
                    reveal_strlit("counter");
                }
                assert(s@ =~= kind_name(self));
                s
            },
            MetricKind::Gauge => {
                let s = "gauge";
                proof {
                    reveal_strlit("gauge");
                }
                assert(s@ =~= kind_name(self));
                s
            },
            MetricKind::Histogram => {
                let s = "histogram";
                proof {
                    reveal_strlit("histogram");
                }
                assert(s@ =~= kind_name(self));
                s
            },
        }
    }

    /// Parses a kind from its name; returns `None` for an unknown name.
    pub fn from_str(s: &str) -> (r: Option<MetricKind>)
        ensures
            r == kind_from_name(s@),
    {
        proof {
            reveal_strlit("counter");
            reveal_strlit("gauge");
            reveal_strlit("histogram");
            assert("counter"@ =~= kind_name(MetricKind::Counter));
            assert("gauge"@ =~= kind_name(MetricKind::Gauge));
            assert("histogram"@ =~= kind_name(MetricKind::Histogram));
        }
        if str_eq(s, "counter") {
            Some(MetricKind::Counter)
        } else if str_eq(s, "gauge") {
            Some(MetricKind::Gauge)
        } else if str_eq(s, "histogram") {
            Some(MetricKind::Histogram)
        } else {
            None
        }
    }
}

/// The name of each kind parses back into that kind.
pub proof fn law_kind_name_round_trip(kind: MetricKind)
    ensures
        kind_from_name(kind_name(kind)) == Some(kind),
{
    assert(kind_name(MetricKind::Counter) != kind_name(MetricKind::Gauge));
    assert(kind_name(MetricKind::Counter) != kind_name(MetricKind::Histogram));
    assert(kind_name(MetricKind::Gauge) != kind_name(MetricKind::Histogram));
}

/// Information about a metric.
#[derive(Debug)]
pub struct Metric<'a> {
    /// Metric kind (a counter, gauge or histogram).
    pub kind: MetricKind,
    /// Name of the metric.
    pub name: &'a str,
    /// Metric labels as key-value pairs: each key once, at the place of its first appearance
    /// in the presentation, with the value of its last appearance.
    pub labels: Vec<(String, String)>,
    /// String presentation of the measurement unit of the metric.
    pub unit: &'a str,
    /// Human-readable metric description.
    pub description: &'a str,
}

/// Update event for a metric, parsed from a captured event.
#[derive(Debug)]
pub struct MetricUpdateEvent<'a> {
    /// Information about the updated metric.
    pub metric: Metric<'a>,
    /// The metric value after the update. Counter metrics have unsigned integer values,
    /// while gauges and histograms have floating-point values.
    pub value: &'a TracedValue,
    /// The metric value before the update.
    pub prev_value: &'a TracedValue,
}

/// View of a [`MetricUpdateEvent`].
pub struct MetricUpdateView {
    pub kind: MetricKind,
    pub name: Seq<char>,
    pub labels: Seq<(Seq<char>, Seq<char>)>,
    pub unit: Seq<char>,
    pub description: Seq<char>,
    pub value: TracedValue,
    pub prev_value: TracedValue,
}

/// String value of a field, if the field is set to a string.
pub open spec fn str_field(values: ValuesView, name: Seq<char>) -> Option<Seq<char>> {
    match value_of(values, name) {
        Some(TracedValue::String(s)) => Some(s@),
        _ => None,
    }
}

/// String value of an optional field: empty if the field is not set, `None` if it is set
/// to something other than a string.
pub open spec fn optional_str_field(values: ValuesView, name: Seq<char>) -> Option<Seq<char>> {
    match value_of(values, name) {
        None => Some(Seq::empty()),
        Some(TracedValue::String(s)) => Some(s@),
        Some(_) => None,
    }
}

/// Labels in an optional field: none if the field is not set, parsed from the `Debug`
/// presentation of an object value otherwise.
pub open spec fn labels_field(values: ValuesView, name: Seq<char>) -> Option<
    Seq<(Seq<char>, Seq<char>)>,
> {
    match value_of(values, name) {
        None => Some(Seq::empty()),
        Some(TracedValue::Object(o)) => labels_of(o.0@),
        Some(_) => None,
    }
}

/// The metric update that an event reports, if it reports one: the event must have the
/// metric update target, string `kind` (naming a kind) and `name` fields, optional string
/// `unit` and `description` fields, optional parsable `labels`, and `value` and
/// `prev_value` fields.
pub open spec fn metric_update_of(event: EventRecord) -> Option<MetricUpdateView> {
    let values = event.values;
    if event.metadata.target != "tracing_metrics_recorder"@ {
        None
    } else {
        match (
            str_field(values, "kind"@),
            str_field(values, "name"@),
            optional_str_field(values, "unit"@),
            optional_str_field(values, "description"@),
            labels_field(values, "labels"@),
            value_of(values, "value"@),
            value_of(values, "prev_value"@),
        ) {
            (
                Some(kind),
                Some(name),
                Some(unit),
                Some(description),
                Some(labels),
                Some(value),
                Some(prev_value),
            ) => match kind_from_name(kind) {
                Some(kind) => Some(
                    MetricUpdateView { kind, name, labels, unit, description, value, prev_value },
                ),
                None => None,
            },
            _ => None,
        }
    }
}

impl<'a> MetricUpdateEvent<'a> {
    /// View of this update.
    pub open spec fn view(&self) -> MetricUpdateView {
        MetricUpdateView {
            kind: self.metric.kind,
            name: self.metric.name@,
            labels: pairs_view(self.metric.labels@),
            unit: self.metric.unit@,
            description: self.metric.description@,
            value: *self.value,
            prev_value: *self.prev_value,
        }
    }

    /// The target used by metric update events: `tracing_metrics_recorder`.
    pub fn target() -> (r: &'static str)
        ensures
            r@ == "tracing_metrics_recorder"@,
    {
        "tracing_metrics_recorder"
    }

    /// Parses a metric update from a captured event; returns `None` if the event does not
    /// report a metric update.
    pub fn new(event: &CapturedEvent<'a>) -> (r: Option<Self>)
        ensures
            match metric_update_of(event.record_view()) {
                Some(update) => r is Some && r->0.view() == update,
                None => r is None,
            },
            r is Some ==> match value_of(event.record_view().values, "description"@) {
                None => r->0.metric.description@.len() == 0,
                Some(TracedValue::String(d)) => r->0.metric.description@ == d@,
                _ => false,
            },
            r is Some ==> match value_of(event.record_view().values, "unit"@) {
                None => r->0.metric.unit@.len() == 0,
                Some(TracedValue::String(unit)) => r->0.metric.unit@ == unit@,
                _ => false,
            },
            r is Some ==> match value_of(event.record_view().values, "name"@) {
                Some(TracedValue::String(n)) => r->0.metric.name@ == n@,
                _ => false,
            },
    {
        proof {
            law_metric_update_fields(event.record_view());
        }
        let metadata = event.metadata();
        if !str_eq(metadata.target.as_str(), Self::target()) {
            return None;
        }
        let kind = match event.value("kind") {
            Some(value) => value.as_str(),
            None => None,
        };
        let kind = match kind {
            Some(kind) => MetricKind::from_str(kind),
            None => None,
        };
        let name = match event.value("name") {
            Some(value) => value.as_str(),
            None => None,
        };
        let unit = Self::get_optional_str(event.value("unit"));
        let description = Self::get_optional_str(event.value("description"));
        let labels = Self::parse_labels(event.value("labels"));
        let value = event.value("value");
        let prev_value = event.value("prev_value");
        proof {
            let values = event.record_view().values;
            assert(match str_field(values, "kind"@) {
                Some(k) => kind == kind_from_name(k),
                None => kind is None,
            });
            assert(match str_field(values, "name"@) {
                Some(n) => name is Some && name->0@ == n,
                None => name is None,
            });
            assert(match optional_str_field(values, "unit"@) {
                Some(u) => unit is Some && unit->0@ == u,
                None => unit is None,
            });
            assert(match optional_str_field(values, "description"@) {
                Some(d) => description is Some && description->0@ == d,
                None => description is None,
            });
            assert(match labels_field(values, "labels"@) {
                Some(l) => labels is Some && pairs_view(labels->0@) == l,
                None => labels is None,
            }) by {
                if labels is Some && value_of(values, "labels"@) is None {
                    assert(pairs_view(labels->0@) =~= Seq::<(Seq<char>, Seq<char>)>::empty());
                }
            }
        }
        match (kind, name, unit, description, labels, value, prev_value) {
            (
                Some(kind),
                Some(name),
                Some(unit),
                Some(description),
                Some(labels),
                Some(value),
                Some(prev_value),
            ) => {
                let metric = Metric { kind, name, labels, unit, description };
                Some(MetricUpdateEvent { metric, value, prev_value })
            },
            _ => None,
        }
    }

    /// Gets the string in an optional value: an empty string if there is no value, `None`
    /// if the value is not a string.
    pub fn get_optional_str(value: Option<&'a TracedValue>) -> (r: Option<&'a str>)
        ensures
            match value {
                None => r is Some && r->0@ == Seq::<char>::empty(),
                Some(TracedValue::String(s)) => r is Some && r->0@ == s@,
                Some(_) => r is None,
            },
    {
        match value {
            Some(value) => value.as_str(),
            None => {
                let s = "";
                proof {
                    reveal_strlit("");
                }
                Some(s)
            },
        }
    }

    /// Parses labels from an optional value: no labels if there is no value, the labels
    /// parsed from the `Debug` presentation of an object value otherwise.
    pub fn parse_labels(labels: Option<&TracedValue>) -> (r: Option<Vec<(String, String)>>)
        ensures
            match labels {
                None => r is Some && r->0@.len() == 0,
                Some(TracedValue::Object(o)) => match labels_of(o.0@) {
                    Some(pairs) => r is Some && pairs_view(r->0@) == pairs,
                    None => r is None,
                },
                Some(_) => r is None,
            },
    {
        match labels {
            Some(labels) => match labels.as_debug_str() {
                Some(presentation) => parse_labels_inner(presentation),
                None => None,
            },
            None => Some(Vec::new()),
        }
    }
}

/// A metric update is read from the fields of the event: the event has the metric update
/// target; `kind` is a string naming the kind; `name` is a string giving the name; `unit` and
/// `description` are strings giving the unit and the description, or are unset (giving empty
/// ones); `labels` is unset (no labels) or an object whose presentation gives the labels;
/// `value` and `prev_value` are set and give the values. An event that meets all of these
/// reports an update, and no other event does.
pub proof fn law_metric_update_fields(event: EventRecord)
    ensures
        match metric_update_of(event) {
            Some(u) => {
                &&& event.metadata.target == "tracing_metrics_recorder"@
                &&& match value_of(event.values, "kind"@) {
                    Some(TracedValue::String(k)) => kind_name(u.kind) == k@,
                    _ => false,
                }
                &&& match value_of(event.values, "name"@) {
                    Some(TracedValue::String(n)) => u.name == n@,
                    _ => false,
                }
                &&& match value_of(event.values, "unit"@) {
                    None => u.unit.len() == 0,
                    Some(TracedValue::String(unit)) => u.unit == unit@,
                    _ => false,
                }
                &&& match value_of(event.values, "description"@) {
                    None => u.description.len() == 0,
                    Some(TracedValue::String(d)) => u.description == d@,
                    _ => false,
                }
                &&& match value_of(event.values, "labels"@) {
                    None => u.labels.len() == 0,
                    Some(TracedValue::Object(o)) => labels_of(o.0@) == Some(u.labels),
                    _ => false,
                }
                &&& value_of(event.values, "value"@) == Some(u.value)
                &&& value_of(event.values, "prev_value"@) == Some(u.prev_value)
            },
            None => !{
                &&& event.metadata.target == "tracing_metrics_recorder"@
                &&& match value_of(event.values, "kind"@) {
                    Some(TracedValue::String(k)) => kind_from_name(k@) is Some,
                    _ => false,
                }
                &&& match value_of(event.values, "name"@) {
                    Some(TracedValue::String(n)) => true,
                    _ => false,
                }
                &&& match value_of(event.values, "unit"@) {
                    None => true,
                    Some(TracedValue::String(unit)) => true,
                    _ => false,
                }
                &&& match value_of(event.values, "description"@) {
                    None => true,
                    Some(TracedValue::String(d)) => true,
                    _ => false,
                }
                &&& match value_of(event.values, "labels"@) {
                    None => true,
                    Some(TracedValue::Object(o)) => labels_of(o.0@) is Some,
                    _ => false,
                }
                &&& value_of(event.values, "value"@) is Some
                &&& value_of(event.values, "prev_value"@) is Some
            },
        },
{
}

} // verus!
