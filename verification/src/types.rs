//! Types carrying tracing events over an API boundary.
use vstd::prelude::*;

use crate::values::TracedValues;

verus! {

/// ID of a call site (metadata record) as used in [`TracingEvent`]s.
pub type MetadataId = u64;

/// ID of a tracing span as used in [`TracingEvent`]s.
pub type RawSpanId = u64;

/// Tracing level of a call site; the levels are listed from the least to the most verbose.
#[derive(Debug, Clone, Copy, PartialEq, Eq, Hash, Structural)]
pub enum TracingLevel {
    /// "ERROR" level.
    Error,
    /// "WARN" level.
    Warn,
    /// "INFO" level.
    Info,
    /// "DEBUG" level.
    Debug,
    /// "TRACE" level.
    Trace,
}

impl TracingLevel {
    /// Verbosity rank of the level: `Error` is the least verbose level (0),
    /// `Trace` the most verbose one (4). Levels are ordered by this rank.
    pub open spec fn rank(self) -> int {
        match self {
            TracingLevel::Error => 0,
            TracingLevel::Warn => 1,
            TracingLevel::Info => 2,
            TracingLevel::Debug => 3,
            TracingLevel::Trace => 4,
        }
    }

    /// Returns the verbosity rank of this level.
    pub fn verbosity(&self) -> (r: u8)
        ensures
            r == self.rank(),
    {
        match self {
            TracingLevel::Error => 0,
            TracingLevel::Warn => 1,
            TracingLevel::Info => 2,
            TracingLevel::Debug => 3,
            TracingLevel::Trace => 4,
        }
    }

    /// Checks whether this level is at most as verbose as `other`
    /// (e.g., `Info` is at most as verbose as `Debug`).
    pub fn is_at_most(&self, other: &TracingLevel) -> (r: bool)
        ensures
            r == (self.rank() <= other.rank()),
    {
        self.verbosity() <= other.verbosity()
    }
}

/// Kind of a [`CallSiteData`] location: either a span, or an event.
#[derive(Debug, Clone, Copy, PartialEq, Eq, Hash, Structural)]
pub enum CallSiteKind {
    /// Call site is a span.
    Span,
    /// Call site is an event.
    Event,
}

/// Data for a single tracing call site: either a span definition, or an event definition.
#[derive(Debug, PartialEq, Eq, Hash)]
pub struct CallSiteData {
    /// Kind of the call site.
    pub kind: CallSiteKind,
    /// Name of the call site.
    pub name: String,
    /// Tracing target.
    pub target: String,
    /// Tracing level.
    pub level: TracingLevel,
    /// Path to the module where this call site is defined.
    pub module: Option<String>,
    /// Path to the file where this call site is defined.
    pub file: Option<String>,
    /// Line number for this call site.
    pub line: Option<u32>,
    /// Fields defined by this call site.
    pub fields: Vec<String>,
}

/// Mathematical view of the string data of a call site.
#[verifier::ext_equal]
pub struct CallSiteView {
    pub kind: CallSiteKind,
    pub name: Seq<char>,
    pub target: Seq<char>,
    pub level: TracingLevel,
    pub module: Option<Seq<char>>,
    pub file: Option<Seq<char>>,
    pub line: Option<u32>,
    pub fields: Seq<Seq<char>>,
}

/// View of an optional string.
pub open spec fn opt_str_view(s: Option<String>) -> Option<Seq<char>> {
    match s {
        Some(s) => Some(s@),
        None => None,
    }
}

impl View for CallSiteData {
    type V = CallSiteView;

    open spec fn view(&self) -> CallSiteView {
        CallSiteView {
            kind: self.kind,
            name: self.name@,
            target: self.target@,
            level: self.level,
            module: opt_str_view(self.module),
            file: opt_str_view(self.file),
            line: self.line,
            fields: self.fields@.map_values(|f: String| f@),
        }
    }
}

/// Clones an optional string.
pub fn clone_opt_string(s: &Option<String>) -> (r: Option<String>)
    ensures
        r == *s,
{
    match s {
        Some(s) => Some(s.clone()),
        None => None,
    }
}

/// Clones a list of strings.
pub fn clone_strings(v: &Vec<String>) -> (r: Vec<String>)
    ensures
        r@ == v@,
{
    let mut r: Vec<String> = Vec::new();
    let mut i: usize = 0;
    while i < v.len()
        invariant
            i <= v@.len(),
            r@ == v@.take(i as int),
        decreases v@.len() - i,
    {
        r.push(v[i].clone());
        proof {
            assert(v@.take(i + 1) =~= v@.take(i as int).push(v@[i as int]));
        }
        i += 1;
    }
    assert(v@.take(v@.len() as int) =~= v@);
    r
}

impl Clone for CallSiteData {
    fn clone(&self) -> (r: Self)
        ensures
            r@ == self@,
            r.fields@ == self.fields@,
    {
        CallSiteData {
            kind: self.kind,
            name: self.name.clone(),
            target: self.target.clone(),
            level: self.level,
            module: clone_opt_string(&self.module),
            file: clone_opt_string(&self.file),
            line: self.line,
            fields: clone_strings(&self.fields),
        }
    }
}

/// Error captured in a [`TracedValue`].
#[derive(Debug, PartialEq, Eq)]
pub struct TracedError {
    /// Error message produced by its `Display` implementation.
    pub message: String,
    /// Error source, if any.
    pub source: Option<Box<TracedError>>,
}

impl Clone for TracedError {
    fn clone(&self) -> (r: Self)
        ensures
            r == *self,
        decreases self,
    {
        let source = match &self.source {
            Some(s) => Some(Box::new((**s).clone())),
            None => None,
        };
        TracedError { message: self.message.clone(), source }
    }
}

impl TracedError {
    /// Creates an error with the specified message and source.
    pub fn new(message: String, source: Option<TracedError>) -> (r: Self)
        ensures
            r.message == message,
            match source {
                Some(s) => r.source == Some(Box::new(s)),
                None => r.source is None,
            },
    {
        match source {
            Some(s) => TracedError { message, source: Some(Box::new(s)) },
            None => TracedError { message, source: None },
        }
    }
}

/// Opaque wrapper for a `Debug`gable object recorded as a value in a tracing span or event.
#[derive(Debug, PartialEq, Eq)]
pub struct DebugObject(pub String);

impl Clone for DebugObject {
    fn clone(&self) -> (r: Self)
        ensures
            r == *self,
    {
        DebugObject(self.0.clone())
    }
}

/// Value recorded in a tracing span or event.
///
/// Floating-point values are held by their IEEE 754 bit pattern (as produced by `f64::to_bits`).
#[derive(Debug, PartialEq, Eq)]
pub enum TracedValue {
    /// Boolean value.
    Bool(bool),
    /// Signed integer value.
    Int(i128),
    /// Unsigned integer value.
    UInt(u128),
    /// Floating-point value, as its bit pattern.
    Float(u64),
    /// String value.
    String(String),
    /// Opaque object implementing the `Debug` trait.
    Object(DebugObject),
    /// Opaque error.
    Error(TracedError),
}

impl Clone for TracedValue {
    fn clone(&self) -> (r: Self)
        ensures
            r == *self,
    {
        match self {
            TracedValue::Bool(v) => TracedValue::Bool(*v),
            TracedValue::Int(v) => TracedValue::Int(*v),
            TracedValue::UInt(v) => TracedValue::UInt(*v),
            TracedValue::Float(v) => TracedValue::Float(*v),
            TracedValue::String(v) => TracedValue::String(v.clone()),
            TracedValue::Object(v) => TracedValue::Object(v.clone()),
            TracedValue::Error(v) => TracedValue::Error(v.clone()),
        }
    }
}

impl TracedValue {
    /// Creates an object value from its `Debug` presentation.
    pub fn debug(presentation: String) -> (r: Self)
        ensures
            r == TracedValue::Object(DebugObject(presentation)),
    {
        TracedValue::Object(DebugObject(presentation))
    }

    /// Creates an error value.
    pub fn error(err: TracedError) -> (r: Self)
        ensures
            r == TracedValue::Error(err),
    {
        TracedValue::Error(err)
    }

    /// Returns the value as a Boolean, if it is one.
    pub fn as_bool(&self) -> (r: Option<bool>)
        ensures
            r == (match self {
                TracedValue::Bool(b) => Some(*b),
                _ => None::<bool>,
            }),
    {
        match self {
            TracedValue::Bool(value) => Some(*value),
            _ => None,
        }
    }

    /// Returns the value as a signed integer, if it is one.
    pub fn as_int(&self) -> (r: Option<i128>)
        ensures
            r == (match self {
                TracedValue::Int(v) => Some(*v),
                _ => None::<i128>,
            }),
    {
        match self {
            TracedValue::Int(value) => Some(*value),
            _ => None,
        }
    }

    /// Returns the value as an unsigned integer, if it is one.
    pub fn as_uint(&self) -> (r: Option<u128>)
        ensures
            r == (match self {
                TracedValue::UInt(v) => Some(*v),
                _ => None::<u128>,
            }),
    {
        match self {
            TracedValue::UInt(value) => Some(*value),
            _ => None,
        }
    }

    /// Returns the bit pattern of a floating-point value, if the value is one.
    pub fn as_float_bits(&self) -> (r: Option<u64>)
        ensures
            r == (match self {
                TracedValue::Float(v) => Some(*v),
                _ => None::<u64>,
            }),
    {
        match self {
            TracedValue::Float(value) => Some(*value),
            _ => None,
        }
    }

    /// Returns the value as a string, if it is one.
    pub fn as_str(&self) -> (r: Option<&str>)
        ensures
            match self {
                TracedValue::String(s) => r is Some && r->0@ == s@,
                _ => r is None,
            },
    {
        match self {
            TracedValue::String(value) => Some(value.as_str()),
            _ => None,
        }
    }

    /// Returns the `Debug` presentation of an object value, if the value is one.
    pub fn as_debug_str(&self) -> (r: Option<&str>)
        ensures
            match self {
                TracedValue::Object(o) => r is Some && r->0@ == o.0@,
                _ => r is None,
            },
    {
        match self {
            TracedValue::Object(value) => Some(value.0.as_str()),
            _ => None,
        }
    }

    /// Checks whether this value is an object with the specified `Debug` presentation.
    pub fn is_debug(&self, presentation: &str) -> (r: bool)
        ensures
            r == (match self {
                TracedValue::Object(o) => o.0@ == presentation@,
                _ => false,
            }),
    {
        match self {
            TracedValue::Object(value) => crate::text::str_eq(value.0.as_str(), presentation),
            _ => false,
        }
    }
}

impl From<bool> for TracedValue {
    fn from(value: bool) -> (r: Self) {
        TracedValue::Bool(value)
    }
}

impl vstd::std_specs::convert::FromSpecImpl<bool> for TracedValue {
    open spec fn obeys_from_spec() -> bool {
        true
    }

    open spec fn from_spec(v: bool) -> TracedValue {
        TracedValue::Bool(v)
    }
}

impl From<i64> for TracedValue {
    fn from(value: i64) -> (r: Self) {
        TracedValue::Int(value as i128)
    }
}

impl vstd::std_specs::convert::FromSpecImpl<i64> for TracedValue {
    open spec fn obeys_from_spec() -> bool {
        true
    }

    open spec fn from_spec(v: i64) -> TracedValue {
        TracedValue::Int(v as i128)
    }
}

impl From<u64> for TracedValue {
    fn from(value: u64) -> (r: Self) {
        TracedValue::UInt(value as u128)
    }
}

impl vstd::std_specs::convert::FromSpecImpl<u64> for TracedValue {
    open spec fn obeys_from_spec() -> bool {
        true
    }

    open spec fn from_spec(v: u64) -> TracedValue {
        TracedValue::UInt(v as u128)
    }
}

impl From<i128> for TracedValue {
    fn from(value: i128) -> (r: Self) {
        TracedValue::Int(value)
    }
}

impl vstd::std_specs::convert::FromSpecImpl<i128> for TracedValue {
    open spec fn obeys_from_spec() -> bool {
        true
    }

    open spec fn from_spec(v: i128) -> TracedValue {
        TracedValue::Int(v)
    }
}

impl From<u128> for TracedValue {
    fn from(value: u128) -> (r: Self) {
        TracedValue::UInt(value)
    }
}

impl vstd::std_specs::convert::FromSpecImpl<u128> for TracedValue {
    open spec fn obeys_from_spec() -> bool {
        true
    }

    open spec fn from_spec(v: u128) -> TracedValue {
        TracedValue::UInt(v)
    }
}

impl From<String> for TracedValue {
    fn from(value: String) -> (r: Self) {
        TracedValue::String(value)
    }
}

impl vstd::std_specs::convert::FromSpecImpl<String> for TracedValue {
    open spec fn obeys_from_spec() -> bool {
        true
    }

    open spec fn from_spec(v: String) -> TracedValue {
        TracedValue::String(v)
    }
}

/// Event produced during tracing.
#[derive(Debug, Clone)]
pub enum TracingEvent {
    /// New call site.
    NewCallSite {
        /// Unique ID of the call site that will be used to refer to it in the following events.
        id: MetadataId,
        /// Information about the call site.
        data: CallSiteData,
    },
    /// New tracing span.
    NewSpan {
        /// Unique ID of the span that will be used to refer to it in the following events.
        id: RawSpanId,
        /// Parent span ID. `None` means using the contextual parent (i.e., the current span).
        parent_id: Option<RawSpanId>,
        /// ID of the span metadata.
        metadata_id: MetadataId,
        /// Values associated with the span.
        values: TracedValues,
    },
    /// New "follows from" relation between spans.
    FollowsFrom {
        /// ID of the follower span.
        id: RawSpanId,
        /// ID of the source span.
        follows_from: RawSpanId,
    },
    /// Span was entered.
    SpanEntered {
        /// ID of the span.
        id: RawSpanId,
    },
    /// Span was exited.
    SpanExited {
        /// ID of the span.
        id: RawSpanId,
    },
    /// Span was cloned.
    SpanCloned {
        /// ID of the span.
        id: RawSpanId,
    },
    /// Span was dropped (aka closed).
    SpanDropped {
        /// ID of the span.
        id: RawSpanId,
    },
    /// New values recorded for a span.
    ValuesRecorded {
        /// ID of the span.
        id: RawSpanId,
        /// Recorded values.
        values: TracedValues,
    },
    /// New event.
    NewEvent {
        /// ID of the event metadata.
        metadata_id: MetadataId,
        /// Parent span ID. `None` means using the contextual parent (i.e., the current span).
        parent: Option<RawSpanId>,
        /// Values associated with the event.
        values: TracedValues,
    },
}

} // verus!
