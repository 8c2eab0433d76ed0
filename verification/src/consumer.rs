//! `TracingEvent` consumer: the decisions of relaying received events to the tracing
//! infrastructure.
//!
//! The consumer validates each event against its state (known call sites and alive spans),
//! updates the state and returns a [`DispatchAction`] that the caller performs on the tracing
//! dispatcher.
use vstd::prelude::*;

use std::collections::HashMap;
use vstd::std_specs::iter::IteratorSpec;

use crate::text::{decimal, too_many_values_message, unknown_metadata_message, unknown_span_message};
use crate::types::{CallSiteData, CallSiteView, MetadataId, RawSpanId, TracedValue, TracingEvent};
use crate::values::{TracedValues, ValuesView};

verus! {

broadcast use vstd::std_specs::hash::group_hash_axioms;

/// Maximum supported number of values in a span or event.
pub const MAX_VALUES: usize = 32;

/// Information about an alive span.
#[derive(Debug, Clone, Copy, PartialEq, Eq, Structural)]
pub struct SpanInfo {
    /// ID of the span as assigned by the local tracing dispatcher.
    pub local_id: u64,
    /// ID of the span call site.
    pub metadata_id: MetadataId,
    /// Number of alive references to the span.
    pub ref_count: usize,
}

/// Errors that can occur when consuming tracing events.
#[derive(Debug, Clone, Copy, PartialEq, Eq, Structural)]
pub enum ConsumeError {
    /// Event mentions an unknown metadata ID.
    UnknownMetadataId(MetadataId),
    /// Event mentions an unknown span ID.
    UnknownSpanId(RawSpanId),
    /// Event contains too many values.
    TooManyValues {
        /// Maximum supported number of values.
        max: usize,
        /// Actual number of values.
        actual: usize,
    },
}

impl ConsumeError {
    /// Human-readable description of the error.
    pub fn message(&self) -> (r: String)
        ensures
            r@ == match self {
                ConsumeError::UnknownMetadataId(id) => "unknown metadata ID: "@ + decimal(
                    *id as nat,
                ),
                ConsumeError::UnknownSpanId(id) => "unknown span ID: "@ + decimal(*id as nat),
                ConsumeError::TooManyValues { max, actual } => "too many values provided ("@
                    + decimal(*actual as nat) + "), should be no more than "@ + decimal(
                    *max as nat,
                ),
            },
    {
        match self {
            ConsumeError::UnknownMetadataId(id) => unknown_metadata_message(*id),
            ConsumeError::UnknownSpanId(id) => unknown_span_message(*id),
            ConsumeError::TooManyValues { max, actual } => too_many_values_message(*max, *actual),
        }
    }
}

/// Action that relays a consumed event to the tracing dispatcher.
#[derive(Debug)]
pub enum DispatchAction {
    /// Nothing is dispatched.
    Nothing,
    /// Register a new call site.
    RegisterCallSite {
        /// Call site data.
        data: CallSiteData,
    },
    /// Create a new span; the local ID that the dispatcher assigns to it is to be reported
    /// back with [`EventConsumer::on_span_created()`].
    NewSpan {
        /// Remote ID of the span.
        id: RawSpanId,
        /// ID of the span call site.
        metadata_id: MetadataId,
        /// Span call site.
        metadata: CallSiteData,
        /// Local ID of the explicit parent span.
        parent: Option<u64>,
        /// Span values keyed by the index of the call site field.
        values: Vec<(usize, TracedValue)>,
    },
    /// Record a "follows from" relation between local spans.
    FollowsFrom {
        /// Local ID of the follower span.
        span: u64,
        /// Local ID of the source span.
        follows: u64,
    },
    /// Enter a local span.
    Enter {
        /// Local ID of the span.
        span: u64,
    },
    /// Exit a local span.
    Exit {
        /// Local ID of the span.
        span: u64,
    },
    /// Try to close a local span.
    Close {
        /// Local ID of the span.
        span: u64,
    },
    /// Record values for a local span.
    Record {
        /// Local ID of the span.
        span: u64,
        /// Span call site.
        metadata: CallSiteData,
        /// Values keyed by the index of the call site field.
        values: Vec<(usize, TracedValue)>,
    },
    /// Emit an event.
    Event {
        /// Event call site.
        metadata: CallSiteData,
        /// Local ID of the explicit parent span.
        parent: Option<u64>,
        /// Values keyed by the index of the call site field.
        values: Vec<(usize, TracedValue)>,
    },
}

/// Is `i` the first position of `name` among `fields`?
pub open spec fn is_first_position(fields: Seq<Seq<char>>, name: Seq<char>, i: int) -> bool {
    &&& 0 <= i < fields.len()
    &&& fields[i] == name
    &&& forall|j: int| 0 <= j < i ==> fields[j] != name
}

/// Index of the first field with the specified name, or -1 if there is no such field.
pub open spec fn field_index(fields: Seq<Seq<char>>, name: Seq<char>) -> int {
    if exists|i: int| is_first_position(fields, name, i) {
        choose|i: int| is_first_position(fields, name, i)
    } else {
        -1
    }
}

/// Values keyed by the indices of call site fields; values with names that are not fields
/// of the call site are skipped.
pub open spec fn field_values(fields: Seq<Seq<char>>, values: ValuesView) -> Seq<(int, TracedValue)>
    decreases values.len(),
{
    if values.len() == 0 {
        Seq::empty()
    } else {
        let rest = field_values(fields, values.drop_last());
        let idx = field_index(fields, values.last().0);
        if idx >= 0 {
            rest.push((idx, values.last().1))
        } else {
            rest
        }
    }
}

/// View of indexed values.
pub open spec fn indexed_view(values: Seq<(usize, TracedValue)>) -> Seq<(int, TracedValue)> {
    values.map_values(|p: (usize, TracedValue)| (p.0 as int, p.1))
}

/// Finds the index of the first field with the specified name.
pub fn find_field(fields: &Vec<String>, name: &str) -> (r: Option<usize>)
    ensures
        match r {
            Some(i) => field_index(fields@.map_values(|f: String| f@), name@) == i,
            None => field_index(fields@.map_values(|f: String| f@), name@) == -1,
        },
{
    let ghost fv = fields@.map_values(|f: String| f@);
    let mut i: usize = 0;
    while i < fields.len()
        invariant
            i <= fields@.len(),
            fv == fields@.map_values(|f: String| f@),
            forall|j: int| 0 <= j < i ==> fv[j] != name@,
        decreases fields@.len() - i,
    {
        if crate::text::str_eq(fields[i].as_str(), name) {
            assert(is_first_position(fv, name@, i as int));
            return Some(i);
        }
        i += 1;
    }
    assert(!exists|k: int| is_first_position(fv, name@, k));
    None
}

/// Keys the values by the indices of the call site fields.
pub fn generate_fields(metadata: &CallSiteData, values: TracedValues) -> (r: Vec<
    (usize, TracedValue),
>)
    ensures
        indexed_view(r@) == field_values(metadata@.fields, values@),
{
    let ghost fields = metadata@.fields;
    let ghost vv = values@;
    let pairs = values.into_inner();
    let ghost pv = pairs@.map_values(|e: (String, TracedValue)| crate::values::entry_view(e));
    let mut r: Vec<(usize, TracedValue)> = Vec::new();
    proof {
        assert(vv.take(0) =~= Seq::<(Seq<char>, TracedValue)>::empty());
        assert(indexed_view(r@) =~= Seq::<(int, TracedValue)>::empty());
    }
    for pair in it: pairs.into_iter()
        invariant
            it.seq() == pairs@,
            pv == vv,
            pv == pairs@.map_values(|e: (String, TracedValue)| crate::values::entry_view(e)),
            fields == metadata@.fields,
            indexed_view(r@) == field_values(fields, vv.take(it.index() as int)),
    {
        let ghost i = it.index();
        proof {
            assert(vv.take(i + 1).drop_last() =~= vv.take(i as int));
            assert(vv.take(i + 1).last() == vv[i as int]);
        }
        let (name, value) = pair;
        match find_field(&metadata.fields, name.as_str()) {
            Some(idx) => {
                r.push((idx, value));
                assert(indexed_view(r@) =~= field_values(fields, vv.take(i + 1)));
            },
            None => {},
        }
    }
    proof {
        assert(vv.take(vv.len() as int) =~= vv);
    }
    r
}

/// Checks that the number of values is within the supported limit.
pub fn ensure_values_len(values: &TracedValues) -> (r: Result<(), ConsumeError>)
    ensures
        values@.len() <= MAX_VALUES ==> r is Ok,
        values@.len() > MAX_VALUES ==> r == Err::<(), ConsumeError>(
            ConsumeError::TooManyValues { max: MAX_VALUES, actual: values@.len() as usize },
        ),
{
    let len = values.len();
    if len > MAX_VALUES {
        Err(ConsumeError::TooManyValues { max: MAX_VALUES, actual: len })
    } else {
        Ok(())
    }
}

/// Abstract state of a consumer: known call sites and alive spans.
pub struct ConsumerView {
    pub metadata: Map<MetadataId, CallSiteView>,
    pub spans: Map<RawSpanId, SpanInfo>,
}

/// Error (if any) with which an event is rejected in the specified state.
pub open spec fn consume_error(state: ConsumerView, event: TracingEvent) -> Option<ConsumeError> {
    match event {
        TracingEvent::NewCallSite { .. } => None,
        TracingEvent::NewSpan { parent_id, metadata_id, values, .. } => {
            if values@.len() > MAX_VALUES {
                Some(ConsumeError::TooManyValues { max: MAX_VALUES, actual: values@.len() as usize })
            } else if !state.metadata.contains_key(metadata_id) {
                Some(ConsumeError::UnknownMetadataId(metadata_id))
            } else {
                match parent_id {
                    Some(p) => if state.spans.contains_key(p) {
                        None
                    } else {
                        Some(ConsumeError::UnknownSpanId(p))
                    },
                    None => None,
                }
            }
        },
        TracingEvent::FollowsFrom { id, follows_from } => {
            if !state.spans.contains_key(id) {
                Some(ConsumeError::UnknownSpanId(id))
            } else if !state.spans.contains_key(follows_from) {
                Some(ConsumeError::UnknownSpanId(follows_from))
            } else {
                None
            }
        },
        TracingEvent::SpanEntered { id }
        | TracingEvent::SpanExited { id }
        | TracingEvent::SpanCloned { id }
        | TracingEvent::SpanDropped { id } => {
            if state.spans.contains_key(id) {
                None
            } else {
                Some(ConsumeError::UnknownSpanId(id))
            }
        },
        TracingEvent::ValuesRecorded { id, values } => {
            if values@.len() > MAX_VALUES {
                Some(ConsumeError::TooManyValues { max: MAX_VALUES, actual: values@.len() as usize })
            } else if !state.spans.contains_key(id) {
                Some(ConsumeError::UnknownSpanId(id))
            } else if !state.metadata.contains_key(state.spans[id].metadata_id) {
                Some(ConsumeError::UnknownMetadataId(state.spans[id].metadata_id))
            } else {
                None
            }
        },
        TracingEvent::NewEvent { metadata_id, parent, values } => {
            if values@.len() > MAX_VALUES {
                Some(ConsumeError::TooManyValues { max: MAX_VALUES, actual: values@.len() as usize })
            } else if !state.metadata.contains_key(metadata_id) {
                Some(ConsumeError::UnknownMetadataId(metadata_id))
            } else {
                match parent {
                    Some(p) => if state.spans.contains_key(p) {
                        None
                    } else {
                        Some(ConsumeError::UnknownSpanId(p))
                    },
                    None => None,
                }
            }
        },
    }
}

/// Does consuming the event in the specified state overflow or underflow a reference counter?
/// (The counter of a span must not be at its maximum when the span is cloned, and must be
/// positive when the span is dropped.)
pub open spec fn ref_count_in_range(state: ConsumerView, event: TracingEvent) -> bool {
    match event {
        TracingEvent::SpanCloned { id } => state.spans.contains_key(id) ==> state.spans[id].ref_count
            < usize::MAX,
        TracingEvent::SpanDropped { id } => state.spans.contains_key(id) ==> state.spans[id].ref_count
            >= 1,
        _ => true,
    }
}

/// State after successfully consuming an event.
pub open spec fn next_state(state: ConsumerView, event: TracingEvent) -> ConsumerView {
    match event {
        TracingEvent::NewCallSite { id, data } => ConsumerView {
            metadata: state.metadata.insert(id, data@),
            spans: state.spans,
        },
        TracingEvent::SpanCloned { id } => ConsumerView {
            metadata: state.metadata,
            spans: state.spans.insert(
                id,
                SpanInfo { ref_count: (state.spans[id].ref_count + 1) as usize, ..state.spans[id] },
            ),
        },
        TracingEvent::SpanDropped { id } => ConsumerView {
            metadata: state.metadata,
            spans: if state.spans[id].ref_count == 1 {
                state.spans.remove(id)
            } else {
                state.spans.insert(
                    id,
                    SpanInfo {
                        ref_count: (state.spans[id].ref_count - 1) as usize,
                        ..state.spans[id]
                    },
                )
            },
        },
        _ => state,
    }
}

/// Local ID of an optional remote span.
pub open spec fn local_parent(state: ConsumerView, parent: Option<RawSpanId>) -> Option<u64> {
    match parent {
        Some(p) => Some(state.spans[p].local_id),
        None => None,
    }
}

/// The action relaying a successfully consumed event.
pub open spec fn action_matches(
    state: ConsumerView,
    event: TracingEvent,
    action: DispatchAction,
) -> bool {
    match event {
        TracingEvent::NewCallSite { data, .. } => {
            &&& action matches DispatchAction::RegisterCallSite { data: a_data }
            &&& a_data@ == data@
        },
        TracingEvent::NewSpan { id, parent_id, metadata_id, values } => {
            &&& action matches DispatchAction::NewSpan {
                id: a_id,
                metadata_id: a_metadata_id,
                metadata,
                parent,
                values: a_values,
            }
            &&& a_id == id
            &&& a_metadata_id == metadata_id
            &&& metadata@ == state.metadata[metadata_id]
            &&& parent == local_parent(state, parent_id)
            &&& indexed_view(a_values@) == field_values(metadata@.fields, values@)
        },
        TracingEvent::FollowsFrom { id, follows_from } => action == DispatchAction::FollowsFrom {
            span: state.spans[id].local_id,
            follows: state.spans[follows_from].local_id,
        },
        TracingEvent::SpanEntered { id } => action == DispatchAction::Enter {
            span: state.spans[id].local_id,
        },
        TracingEvent::SpanExited { id } => action == DispatchAction::Exit {
            span: state.spans[id].local_id,
        },
        TracingEvent::SpanCloned { .. } => action == DispatchAction::Nothing,
        TracingEvent::SpanDropped { id } => if state.spans[id].ref_count == 1 {
            action == DispatchAction::Close { span: state.spans[id].local_id }
        } else {
            action == DispatchAction::Nothing
        },
        TracingEvent::ValuesRecorded { id, values } => {
            &&& action matches DispatchAction::Record { span, metadata, values: a_values }
            &&& span == state.spans[id].local_id
            &&& metadata@ == state.metadata[state.spans[id].metadata_id]
            &&& indexed_view(a_values@) == field_values(metadata@.fields, values@)
        },
        TracingEvent::NewEvent { metadata_id, parent, values } => {
            &&& action matches DispatchAction::Event { metadata, parent: a_parent, values: a_values }
            &&& metadata@ == state.metadata[metadata_id]
            &&& a_parent == local_parent(state, parent)
            &&& indexed_view(a_values@) == field_values(metadata@.fields, values@)
        },
    }
}

/// Persisted call sites after persisting the call sites `own` of a consumer into the
/// persisted call sites `persisted`: call sites persisted before are kept as they are.
pub open spec fn persisted_call_sites(
    own: Map<MetadataId, CallSiteView>,
    persisted: Map<MetadataId, CallSiteView>,
) -> Map<MetadataId, CallSiteView> {
    own.union_prefer_right(persisted)
}

/// State of a consumer restored from persisted call sites and spans.
pub open spec fn restored_state(
    metadata: Map<MetadataId, CallSiteView>,
    spans: Map<RawSpanId, SpanInfo>,
) -> ConsumerView {
    ConsumerView { metadata, spans }
}

/// View of call sites keyed by their IDs.
pub open spec fn map_view(m: Map<MetadataId, CallSiteData>) -> Map<MetadataId, CallSiteView> {
    m.map_values(|d: CallSiteData| d@)
}

/// Call site data persisted between program runs.
#[derive(Debug)]
pub struct PersistedMetadata {
    inner: HashMap<MetadataId, CallSiteData>,
    /// Was this metadata injected into the tracing infrastructure? This happens the first time
    /// the metadata is used.
    is_injected: bool,
}

impl PersistedMetadata {
    /// Persisted call sites keyed by their IDs.
    pub closed spec fn entries(&self) -> Map<MetadataId, CallSiteView> {
        map_view(self.inner@)
    }

    /// Were the persisted call sites injected into the tracing infrastructure?
    pub closed spec fn injected(&self) -> bool {
        self.is_injected
    }

    /// Checks whether the persisted call sites were injected into the tracing infrastructure.
    pub fn is_injected(&self) -> (r: bool)
        ensures
            r == self.injected(),
    {
        self.is_injected
    }

    /// Creates empty metadata that was not injected yet.
    pub fn default() -> (r: Self)
        ensures
            r.entries() == Map::<MetadataId, CallSiteView>::empty(),
            !r.injected(),
    {
        let r = PersistedMetadata { inner: HashMap::new(), is_injected: false };
        assert(map_view(r.inner@) =~= Map::<MetadataId, CallSiteView>::empty());
        r
    }

    /// Adds a persisted call site (e.g., when restoring persisted data).
    pub fn insert(&mut self, id: MetadataId, data: CallSiteData)
        ensures
            final(self).entries() == old(self).entries().insert(id, data@),
            final(self).injected() == old(self).injected(),
    {
        let ghost data_view = data@;
        self.inner.insert(id, data);
        assert(map_view(self.inner@) =~= old(self).entries().insert(id, data_view));
    }

    /// Number of persisted call sites.
    pub fn len(&self) -> (r: usize)
        ensures
            r == self.entries().len(),
    {
        proof {
            assert(self.entries().dom() =~= self.inner@.dom());
        }
        self.inner.len()
    }

    /// Lists the persisted call sites with their IDs (in no particular order).
    pub fn iter(&self) -> (r: Vec<(MetadataId, &CallSiteData)>)
        ensures
            r@.len() == self.entries().len(),
            forall|i: int|
                0 <= i < r@.len() ==> self.entries().contains_key(#[trigger] r@[i].0)
                    && r@[i].1@ == self.entries()[r@[i].0],
            forall|id: MetadataId|
                #[trigger] self.entries().contains_key(id) ==> exists|i: int|
                    0 <= i < r@.len() && r@[i].0 == id,
            forall|i: int, j: int| 0 <= i < j < r@.len() ==> r@[i].0 != r@[j].0,
    {
        let mut r: Vec<(MetadataId, &CallSiteData)> = Vec::new();
        let entries_iter = self.inner.iter();
        let ghost seq = entries_iter.remaining();
        assert(seq.no_duplicates());
        for (id, data) in it: entries_iter
            invariant
                r@.len() == it.index(),
                it.seq() == seq,
                forall|i: int| 0 <= i < it.index() ==> r@[i].0 == *it.seq()[i].0 && r@[i].1 == it.seq()[i].1,
        {
            r.push((*id, data));
        }
        proof {
            assert(self.entries().dom() =~= self.inner@.dom());
            assert forall|i: int, j: int| 0 <= i < j < r@.len() implies r@[i].0 != r@[j].0 by {
                if r@[i].0 == r@[j].0 {
                    assert(*seq[i].1 == self.inner@[*seq[i].0]);
                    assert(*seq[j].1 == self.inner@[*seq[j].0]);
                    assert(seq[i] == seq[j]);
                }
            }
            assert forall|id: MetadataId| #[trigger] self.entries().contains_key(id) implies exists|i: int|
                0 <= i < r@.len() && r@[i].0 == id by {
                let k = seq.index_of((&id, &self.inner@[id]));
                assert(r@[k].0 == id);
            }
        }
        r
    }
}

impl PersistedMetadata {
    /// Lists the persisted call sites with their IDs (in no particular order).
    pub fn call_sites(&self) -> (r: Vec<(MetadataId, CallSiteData)>)
        ensures
            r@.len() == self.entries().len(),
            forall|i: int|
                0 <= i < r@.len() ==> self.entries().contains_key(#[trigger] r@[i].0)
                    && r@[i].1@ == self.entries()[r@[i].0],
            forall|id: MetadataId|
                #[trigger] self.entries().contains_key(id) ==> exists|i: int|
                    0 <= i < r@.len() && r@[i].0 == id,
    {
        let entries = self.iter();
        let mut r: Vec<(MetadataId, CallSiteData)> = Vec::new();
        let mut i: usize = 0;
        while i < entries.len()
            invariant
                i <= entries@.len(),
                r@.len() == i,
                forall|j: int| 0 <= j < i ==> r@[j].0 == entries@[j].0 && r@[j].1@ == entries@[j].1@,
            decreases entries@.len() - i,
        {
            r.push((entries[i].0, entries[i].1.clone()));
            i += 1;
        }
        proof {
            assert forall|id: MetadataId| #[trigger] self.entries().contains_key(id) implies exists|j: int|
                0 <= j < r@.len() && r@[j].0 == id by {
                let j = choose|j: int| 0 <= j < entries@.len() && entries@[j].0 == id;
                assert(r@[j].0 == id);
            }
        }
        r
    }
}

/// Spans persisted between program runs.
#[derive(Debug)]
pub struct PersistedSpans {
    inner: HashMap<RawSpanId, SpanInfo>,
    /// Were these spans injected into the tracing infrastructure?
    is_injected: bool,
}

impl PersistedSpans {
    /// Persisted spans keyed by their IDs.
    pub closed spec fn entries(&self) -> Map<RawSpanId, SpanInfo> {
        self.inner@
    }

    /// Were the persisted spans injected into the tracing infrastructure?
    pub closed spec fn injected(&self) -> bool {
        self.is_injected
    }

    /// Creates empty spans that were not injected yet.
    pub fn default() -> (r: Self)
        ensures
            r.entries() == Map::<RawSpanId, SpanInfo>::empty(),
            !r.injected(),
    {
        PersistedSpans { inner: HashMap::new(), is_injected: false }
    }

    /// Adds a persisted span (e.g., when restoring persisted data).
    pub fn insert(&mut self, id: RawSpanId, info: SpanInfo)
        ensures
            final(self).entries() == old(self).entries().insert(id, info),
            final(self).injected() == old(self).injected(),
    {
        self.inner.insert(id, info);
    }

    /// Information about a persisted span.
    pub fn get(&self, id: RawSpanId) -> (r: Option<SpanInfo>)
        ensures
            self.entries().contains_key(id) ==> r == Some(self.entries()[id]),
            !self.entries().contains_key(id) ==> r is None,
    {
        match self.inner.get(&id) {
            Some(info) => Some(*info),
            None => None,
        }
    }

    /// Lists the persisted spans with their IDs (in no particular order).
    pub fn iter(&self) -> (r: Vec<(RawSpanId, SpanInfo)>)
        ensures
            r@.len() == self.entries().len(),
            forall|i: int|
                0 <= i < r@.len() ==> self.entries().contains_key(#[trigger] r@[i].0)
                    && r@[i].1 == self.entries()[r@[i].0],
            forall|id: RawSpanId|
                #[trigger] self.entries().contains_key(id) ==> exists|i: int|
                    0 <= i < r@.len() && r@[i].0 == id,
    {
        let mut r: Vec<(RawSpanId, SpanInfo)> = Vec::new();
        let ghost seq = vstd::std_specs::hash::spec_hash_map_iter(&self.inner).remaining();
        for (id, info) in it: self.inner.iter()
            invariant
                r@.len() == it.index(),
                it.seq() == seq,
                forall|i: int| 0 <= i < it.index() ==> r@[i].0 == *it.seq()[i].0 && r@[i].1 == *it.seq()[i].1,
        {
            r.push((*id, *info));
        }
        proof {
            assert forall|id: RawSpanId| #[trigger] self.entries().contains_key(id) implies exists|i: int|
                0 <= i < r@.len() && r@[i].0 == id by {
                let k = seq.index_of((&id, &self.inner@[id]));
                assert(r@[k].0 == id);
            }
        }
        r
    }
}

/// Consumer of [`TracingEvent`]s.
#[derive(Debug)]
pub struct EventConsumer {
    metadata: HashMap<MetadataId, CallSiteData>,
    spans: HashMap<RawSpanId, SpanInfo>,
}

impl View for EventConsumer {
    type V = ConsumerView;

    closed spec fn view(&self) -> ConsumerView {
        ConsumerView { metadata: map_view(self.metadata@), spans: self.spans@ }
    }
}

impl EventConsumer {
    /// Creates a consumer without known call sites and spans.
    pub fn default() -> (r: Self)
        ensures
            r@.metadata == Map::<MetadataId, CallSiteView>::empty(),
            r@.spans == Map::<RawSpanId, SpanInfo>::empty(),
    {
        let r = EventConsumer { metadata: HashMap::new(), spans: HashMap::new() };
        assert(map_view(r.metadata@) =~= Map::<MetadataId, CallSiteView>::empty());
        r
    }

    /// Local ID of a span.
    fn map_span_id(&self, remote_id: RawSpanId) -> (r: Result<u64, ConsumeError>)
        ensures
            self@.spans.contains_key(remote_id) ==> r == Ok::<u64, ConsumeError>(
                self@.spans[remote_id].local_id,
            ),
            !self@.spans.contains_key(remote_id) ==> r == Err::<u64, ConsumeError>(
                ConsumeError::UnknownSpanId(remote_id),
            ),
    {
        match self.spans.get(&remote_id) {
            Some(span) => Ok(span.local_id),
            None => Err(ConsumeError::UnknownSpanId(remote_id)),
        }
    }

    /// Call site with the specified ID.
    pub fn call_site(&self, id: MetadataId) -> (r: Result<&CallSiteData, ConsumeError>)
        ensures
            self@.metadata.contains_key(id) ==> r is Ok && r->Ok_0@ == self@.metadata[id],
            !self@.metadata.contains_key(id) ==> r == Err::<&CallSiteData, ConsumeError>(
                ConsumeError::UnknownMetadataId(id),
            ),
    {
        match self.metadata.get(&id) {
            Some(data) => Ok(data),
            None => Err(ConsumeError::UnknownMetadataId(id)),
        }
    }

    /// Information about an alive span.
    pub fn span(&self, id: RawSpanId) -> (r: Option<SpanInfo>)
        ensures
            self@.spans.contains_key(id) ==> r == Some(self@.spans[id]),
            !self@.spans.contains_key(id) ==> r is None,
    {
        match self.spans.get(&id) {
            Some(span) => Some(*span),
            None => None,
        }
    }

    /// Local ID of an optional parent span.
    fn map_parent(&self, parent: Option<RawSpanId>) -> (r: Result<Option<u64>, ConsumeError>)
        ensures
            match parent {
                Some(p) => if self@.spans.contains_key(p) {
                    r == Ok::<Option<u64>, ConsumeError>(Some(self@.spans[p].local_id))
                } else {
                    r == Err::<Option<u64>, ConsumeError>(ConsumeError::UnknownSpanId(p))
                },
                None => r == Ok::<Option<u64>, ConsumeError>(None),
            },
    {
        match parent {
            Some(p) => match self.map_span_id(p) {
                Ok(local) => Ok(Some(local)),
                Err(e) => Err(e),
            },
            None => Ok(None),
        }
    }

    /// Validates an event against the state of this consumer, updates the state and returns
    /// the action relaying the event to the tracing dispatcher.
    pub fn try_consume_event(&mut self, event: TracingEvent) -> (r: Result<
        DispatchAction,
        ConsumeError,
    >)
        requires
            ref_count_in_range(old(self)@, event),
        ensures
            match consume_error(old(self)@, event) {
                Some(e) => r == Err::<DispatchAction, ConsumeError>(e) && final(self)@ == old(
                    self,
                )@,
                None => {
                    &&& r is Ok
                    &&& action_matches(old(self)@, event, r->Ok_0)
                    &&& final(self)@ == next_state(old(self)@, event)
                },
            },
            r is Err ==> final(self)@ == old(self)@,
            match event {
                TracingEvent::FollowsFrom { id, follows_from } => r is Ok ==> r->Ok_0
                    == DispatchAction::FollowsFrom {
                    span: old(self)@.spans[id].local_id,
                    follows: old(self)@.spans[follows_from].local_id,
                },
                TracingEvent::SpanEntered { id } => r is Ok ==> r->Ok_0 == DispatchAction::Enter {
                    span: old(self)@.spans[id].local_id,
                },
                TracingEvent::SpanExited { id } => r is Ok ==> r->Ok_0 == DispatchAction::Exit {
                    span: old(self)@.spans[id].local_id,
                },
                _ => true,
            },
    {
        let ghost ev = event;
        match event {
            TracingEvent::NewCallSite { id, data } => {
                let action = DispatchAction::RegisterCallSite { data: data.clone() };
                let ghost data_view = data@;
                self.metadata.insert(id, data);
                assert(map_view(self.metadata@) =~= old(self)@.metadata.insert(id, data_view));
                Ok(action)
            },
            TracingEvent::NewSpan { id, parent_id, metadata_id, values } => {
                ensure_values_len(&values)?;
                let metadata = self.call_site(metadata_id)?.clone();
                let parent = self.map_parent(parent_id)?;
                let values = generate_fields(&metadata, values);
                Ok(DispatchAction::NewSpan { id, metadata_id, metadata, parent, values })
            },
            TracingEvent::FollowsFrom { id, follows_from } => {
                let span = self.map_span_id(id)?;
                let follows = self.map_span_id(follows_from)?;
                Ok(DispatchAction::FollowsFrom { span, follows })
            },
            TracingEvent::SpanEntered { id } => {
                let span = self.map_span_id(id)?;
                Ok(DispatchAction::Enter { span })
            },
            TracingEvent::SpanExited { id } => {
                let span = self.map_span_id(id)?;
                Ok(DispatchAction::Exit { span })
            },
            TracingEvent::SpanCloned { id } => {
                match self.spans.get(&id) {
                    Some(info) => {
                        let info = *info;
                        self.spans.insert(
                            id,
                            SpanInfo { ref_count: info.ref_count + 1, ..info },
                        );
                        // The dispatcher is intentionally not called: reference counting is local.
                        Ok(DispatchAction::Nothing)
                    },
                    None => Err(ConsumeError::UnknownSpanId(id)),
                }
            },
            TracingEvent::SpanDropped { id } => {
                match self.spans.get(&id) {
                    Some(info) => {
                        let info = *info;
                        if info.ref_count == 1 {
                            self.spans.remove(&id);
                            Ok(DispatchAction::Close { span: info.local_id })
                        } else {
                            self.spans.insert(
                                id,
                                SpanInfo { ref_count: info.ref_count - 1, ..info },
                            );
                            Ok(DispatchAction::Nothing)
                        }
                    },
                    None => Err(ConsumeError::UnknownSpanId(id)),
                }
            },
            TracingEvent::ValuesRecorded { id, values } => {
                ensure_values_len(&values)?;
                let span = match self.spans.get(&id) {
                    Some(info) => *info,
                    None => {
                        return Err(ConsumeError::UnknownSpanId(id));
                    },
                };
                let metadata = self.call_site(span.metadata_id)?.clone();
                let values = generate_fields(&metadata, values);
                Ok(DispatchAction::Record { span: span.local_id, metadata, values })
            },
            TracingEvent::NewEvent { metadata_id, parent, values } => {
                ensure_values_len(&values)?;
                let metadata = self.call_site(metadata_id)?.clone();
                let parent = self.map_parent(parent)?;
                let values = generate_fields(&metadata, values);
                Ok(DispatchAction::Event { metadata, parent, values })
            },
        }
    }

    /// Creates a consumer restoring the persisted call sites and spans. Returns the consumer
    /// together with the call sites to register with the tracing dispatcher: all the persisted
    /// ones if they were not injected yet, and none otherwise. Both persisted parts are marked
    /// as injected.
    pub fn new(metadata: &mut PersistedMetadata, spans: &mut PersistedSpans) -> (r: (
        Self,
        Vec<(MetadataId, CallSiteData)>,
    ))
        ensures
            r.0@ == restored_state(old(metadata).entries(), old(spans).entries()),
            final(metadata).entries() == old(metadata).entries(),
            final(metadata).injected(),
            final(spans).entries() == old(spans).entries(),
            final(spans).injected(),
            old(metadata).injected() ==> r.1@.len() == 0,
            !old(metadata).injected() ==> {
                &&& r.1@.len() == old(metadata).entries().len()
                &&& forall|i: int|
                    0 <= i < r.1@.len() ==> old(metadata).entries().contains_key(#[trigger] r.1@[i].0)
                        && r.1@[i].1@ == old(metadata).entries()[r.1@[i].0]
                &&& forall|id: MetadataId|
                    #[trigger] old(metadata).entries().contains_key(id) ==> exists|i: int|
                        0 <= i < r.1@.len() && r.1@[i].0 == id
            },
    {
        let to_register = if !metadata.is_injected {
            metadata.call_sites()
        } else {
            Vec::new()
        };
        let this = EventConsumer { metadata: metadata.inner.clone(), spans: spans.inner.clone() };
        metadata.is_injected = true;
        spans.is_injected = true;
        (this, to_register)
    }

    /// Adds the call sites known to this consumer to the persisted metadata; call sites
    /// already present there are kept as they are.
    pub fn persist_metadata(&self, persisted: &mut PersistedMetadata)
        requires
            old(persisted).injected(),
        ensures
            final(persisted).entries() == persisted_call_sites(
                self@.metadata,
                old(persisted).entries(),
            ),
            final(persisted).injected(),
    {
        let ghost old_entries = persisted.entries();
        let ghost own = self@.metadata;
        let entries_iter = self.metadata.iter();
        let ghost seq = entries_iter.remaining();
        for (id, data) in it: entries_iter
            invariant
                it.seq() == seq,
                persisted.injected(),
                own == map_view(self.metadata@),
                forall|i: int| 0 <= i < seq.len() ==> #[trigger] own.contains_key(*seq[i].0) && own[*seq[i].0] == seq[i].1@,
                persisted.entries() == own.restrict(
                    Set::new(|k: MetadataId| exists|i: int| 0 <= i < it.index() && *seq[i].0 == k),
                ).union_prefer_right(old_entries),
        {
            let ghost idx = it.index();
            let ghost before = persisted.entries();
            assert(*id == *seq[idx].0 && data == seq[idx].1);
            assert(own.contains_key(*seq[idx].0));
            let ghost done = Set::new(|k: MetadataId| exists|i: int| 0 <= i < idx && *seq[i].0 == k);
            let ghost done2 = Set::new(|k: MetadataId| exists|i: int| 0 <= i < idx + 1 && *seq[i].0 == k);
            assert(done2 =~= done.insert(*id));
            assert(before == own.restrict(done).union_prefer_right(old_entries));
            if !persisted.inner.contains_key(id) {
                assert(!before.contains_key(*id));
                let cloned = data.clone();
                assert(cloned@ == own[*id]);
                persisted.insert(*id, cloned);
                assert(!old_entries.contains_key(*id));
                assert(own.restrict(done2).union_prefer_right(old_entries) =~= before.insert(*id, own[*id]));
            } else {
                assert(before.contains_key(*id));
                assert(own.restrict(done2).union_prefer_right(old_entries) =~= before);
            }
        }
        proof {
            let done = Set::new(|k: MetadataId| exists|i: int| 0 <= i < seq.len() && *seq[i].0 == k);
            assert forall|k: MetadataId| own.contains_key(k) implies done.contains(k) by {
                assert(self.metadata@.contains_key(k));
                let i = seq.index_of((&k, &self.metadata@[k]));
                assert(*seq[i].0 == k);
            }
            assert(own.restrict(done) =~= own);
        }
    }

    /// Converts the alive spans of this consumer into persisted spans.
    pub fn persist_spans(self) -> (r: PersistedSpans)
        ensures
            r.entries() == self@.spans,
            r.injected(),
    {
        PersistedSpans { inner: self.spans, is_injected: true }
    }

    /// Consumes an event that is known to be valid.
    pub fn consume_event(&mut self, event: TracingEvent) -> (r: DispatchAction)
        requires
            ref_count_in_range(old(self)@, event),
            consume_error(old(self)@, event) is None,
        ensures
            action_matches(old(self)@, event, r),
            final(self)@ == next_state(old(self)@, event),
    {
        match self.try_consume_event(event) {
            Ok(action) => action,
            Err(_) => {
                assert(false);
                DispatchAction::Nothing
            },
        }
    }

    /// Records a span created by the dispatcher for a consumed `NewSpan` event.
    pub fn on_span_created(&mut self, id: RawSpanId, metadata_id: MetadataId, local_id: u64)
        ensures
            final(self)@.metadata == old(self)@.metadata,
            final(self)@.spans == old(self)@.spans.insert(
                id,
                SpanInfo { local_id, metadata_id, ref_count: 1 },
            ),
    {
        self.spans.insert(id, SpanInfo { local_id, metadata_id, ref_count: 1 });
    }
}

/// Cloning an alive span and then dropping the clone is accepted, dispatches nothing and
/// restores the consumer state.
pub proof fn law_clone_then_drop_restores(state: ConsumerView, id: RawSpanId)
    requires
        state.spans.contains_key(id),
        1 <= state.spans[id].ref_count < usize::MAX,
    ensures
        consume_error(state, TracingEvent::SpanCloned { id }) is None,
        ref_count_in_range(state, TracingEvent::SpanCloned { id }),
        ({
            let cloned = next_state(state, TracingEvent::SpanCloned { id });
            &&& consume_error(cloned, TracingEvent::SpanDropped { id }) is None
            &&& ref_count_in_range(cloned, TracingEvent::SpanDropped { id })
            &&& action_matches(cloned, TracingEvent::SpanDropped { id }, DispatchAction::Nothing)
            &&& next_state(cloned, TracingEvent::SpanDropped { id }) == state
        }),
{
    let cloned = next_state(state, TracingEvent::SpanCloned { id });
    assert(cloned.spans[id].ref_count == state.spans[id].ref_count + 1);
    let restored = next_state(cloned, TracingEvent::SpanDropped { id });
    assert(cloned.spans[id].ref_count != 1);
    assert(restored.spans[id].ref_count == state.spans[id].ref_count);
    assert(restored.spans[id].local_id == state.spans[id].local_id);
    assert(restored.spans[id].metadata_id == state.spans[id].metadata_id);
    assert(restored.spans[id] == state.spans[id]);
    assert(restored.spans =~= state.spans);
}

/// Dropping the last reference to a span closes it; afterwards, the span is unknown and
/// events referring to it are refused.
pub proof fn law_last_drop_closes(state: ConsumerView, id: RawSpanId)
    requires
        state.spans.contains_key(id),
        state.spans[id].ref_count == 1,
    ensures
        consume_error(state, TracingEvent::SpanDropped { id }) is None,
        action_matches(
            state,
            TracingEvent::SpanDropped { id },
            DispatchAction::Close { span: state.spans[id].local_id },
        ),
        ({
            let after = next_state(state, TracingEvent::SpanDropped { id });
            &&& !after.spans.contains_key(id)
            &&& after.metadata == state.metadata
            &&& consume_error(after, TracingEvent::SpanEntered { id }) == Some(
                ConsumeError::UnknownSpanId(id),
            )
            &&& consume_error(after, TracingEvent::SpanDropped { id }) == Some(
                ConsumeError::UnknownSpanId(id),
            )
        }),
{
}

/// Defining the same call site twice is allowed and has the effect of defining it once.
pub proof fn law_call_site_redefinition(state: ConsumerView, id: MetadataId, data: CallSiteData)
    ensures
        ({
            let event = TracingEvent::NewCallSite { id, data };
            let once = next_state(state, event);
            &&& consume_error(state, event) is None
            &&& consume_error(once, event) is None
            &&& next_state(once, event) == once
            &&& once.metadata[id] == data@
        }),
{
    let event = TracingEvent::NewCallSite { id, data };
    let once = next_state(state, event);
    assert(next_state(once, event).metadata =~= once.metadata);
}

/// Persisting a consumer (its call sites into empty persisted metadata, and its spans) and
/// restoring a consumer from what was persisted gives back the same state: the restored
/// consumer refuses and accepts the same events, with the same actions and the same next
/// states. Persisting into metadata that holds call sites already keeps those call sites and
/// adds the consumer's other ones.
pub proof fn law_persist_restore(state: ConsumerView, earlier: Map<MetadataId, CallSiteView>)
    ensures
        restored_state(persisted_call_sites(state.metadata, Map::empty()), state.spans) == state,
        forall|event: TracingEvent|
            consume_error(
                #[trigger] restored_state(
                    persisted_call_sites(state.metadata, Map::empty()),
                    state.spans,
                ),
                event,
            ) == consume_error(state, event),
        forall|event: TracingEvent, action: DispatchAction|
            action_matches(
                #[trigger] restored_state(
                    persisted_call_sites(state.metadata, Map::empty()),
                    state.spans,
                ),
                event,
                action,
            ) == action_matches(state, event, action),
        forall|id: MetadataId| #[trigger]
            persisted_call_sites(state.metadata, earlier).contains_key(id) <==> (
            state.metadata.contains_key(id) || earlier.contains_key(id)),
        forall|id: MetadataId| #[trigger]
            earlier.contains_key(id) ==> persisted_call_sites(state.metadata, earlier)[id]
                == earlier[id],
        forall|id: MetadataId|
            state.metadata.contains_key(id) && !earlier.contains_key(id) ==> #[trigger]
            persisted_call_sites(state.metadata, earlier)[id] == state.metadata[id],
{
    assert(state.metadata.union_prefer_right(Map::empty()) =~= state.metadata);
    assert(restored_state(persisted_call_sites(state.metadata, Map::empty()), state.spans)
        == state);
}

/// A span is known to the consumer after the dispatcher reports its creation, with a single
/// reference; events on it are then accepted.
pub proof fn law_created_span_is_alive(
    state: ConsumerView,
    id: RawSpanId,
    metadata_id: MetadataId,
    local_id: u64,
)
    ensures
        ({
            let after = ConsumerView {
                metadata: state.metadata,
                spans: state.spans.insert(id, SpanInfo { local_id, metadata_id, ref_count: 1 }),
            };
            &&& consume_error(after, TracingEvent::SpanEntered { id }) is None
            &&& action_matches(after, TracingEvent::SpanEntered { id }, DispatchAction::Enter { span: local_id })
            &&& action_matches(after, TracingEvent::SpanDropped { id }, DispatchAction::Close { span: local_id })
        }),
{
}

/// An accepted `FollowsFrom { id, follows_from }` event relays that the span `id` follows
/// from the span `follows_from`: both spans are alive, the action's span is the local span
/// of `id`, and the span it follows is the local span of `follows_from`. Entering and
/// exiting a span act on the local span of the event's span.
pub proof fn law_span_relations_keep_direction(
    state: ConsumerView,
    id: RawSpanId,
    follows_from: RawSpanId,
    action: DispatchAction,
)
    ensures
        consume_error(state, TracingEvent::FollowsFrom { id, follows_from }) is None ==> (
        state.spans.contains_key(id) && state.spans.contains_key(follows_from)),
        consume_error(state, TracingEvent::FollowsFrom { id, follows_from }) is None
            && action_matches(state, TracingEvent::FollowsFrom { id, follows_from }, action)
            ==> (action == (DispatchAction::FollowsFrom {
            span: state.spans[id].local_id,
            follows: state.spans[follows_from].local_id,
        })),
        action_matches(state, TracingEvent::SpanEntered { id }, action) ==> (action == (
        DispatchAction::Enter { span: state.spans[id].local_id })),
        action_matches(state, TracingEvent::SpanExited { id }, action) ==> (action == (
        DispatchAction::Exit { span: state.spans[id].local_id })),
        consume_error(state, TracingEvent::FollowsFrom { id, follows_from }) is None ==> (
        next_state(state, TracingEvent::FollowsFrom { id, follows_from }) == state),
{
}

/// The actions of accepted events refer to the local spans of the spans that the events
/// name: dropping the last reference closes the local span of the dropped span, recorded
/// values go to the local span of the span they are recorded for (with the call site of that
/// span), and a new span or event gets the local span of its explicit parent as its parent
/// (and no parent when it names none).
pub proof fn law_actions_name_event_spans(state: ConsumerView, event: TracingEvent, action: DispatchAction)
    requires
        consume_error(state, event) is None,
        action_matches(state, event, action),
    ensures
        event matches TracingEvent::SpanDropped { id } ==> (state.spans[id].ref_count == 1
            <==> action == (DispatchAction::Close { span: state.spans[id].local_id })),
        event matches TracingEvent::ValuesRecorded { id, .. } ==> (action matches DispatchAction::Record {
            span,
            metadata,
            ..
        } && span == state.spans[id].local_id && state.spans.contains_key(id) && metadata@
            == state.metadata[state.spans[id].metadata_id]),
        event matches TracingEvent::NewSpan { parent_id, metadata_id, .. } ==> (action matches DispatchAction::NewSpan {
            parent,
            metadata,
            ..
        } && metadata@ == state.metadata[metadata_id] && match parent_id {
            Some(p) => state.spans.contains_key(p) && parent == Some(state.spans[p].local_id),
            None => parent is None,
        }),
        event matches TracingEvent::NewEvent { parent: parent_id, metadata_id, .. } ==> (action matches DispatchAction::Event {
            parent,
            metadata,
            ..
        } && metadata@ == state.metadata[metadata_id] && match parent_id {
            Some(p) => state.spans.contains_key(p) && parent == Some(state.spans[p].local_id),
            None => parent is None,
        }),
{
}

/// Values are keyed by the indices of call site fields: every keyed value is the value of an
/// input value whose name is the field at its index, and every input value named like a field
/// of the call site is passed on under the index of its first field with that name.
pub proof fn law_field_values(fields: Seq<Seq<char>>, values: ValuesView)
    ensures
        field_values(fields, values).len() <= values.len(),
        forall|k: int|
            0 <= k < field_values(fields, values).len() ==> {
                let (idx, v) = #[trigger] field_values(fields, values)[k];
                &&& 0 <= idx < fields.len()
                &&& forall|j: int| 0 <= j < idx ==> fields[j] != fields[idx]
                &&& exists|j: int| 0 <= j < values.len() && values[j] == (fields[idx], v)
            },
        forall|j: int, i: int|
            0 <= j < values.len() && 0 <= i < fields.len() && #[trigger] fields[i]
                == #[trigger] values[j].0 ==> exists|k: int|
                0 <= k < field_values(fields, values).len() && fields[field_values(
                    fields,
                    values,
                )[k].0] == values[j].0 && field_values(fields, values)[k].1 == values[j].1,
    decreases values.len(),
{
    if values.len() > 0 {
        let init = values.drop_last();
        law_field_values(fields, init);
        let rest = field_values(fields, init);
        let fv = field_values(fields, values);
        let last = values.last();
        let idx = field_index(fields, last.0);
        assert forall|k: int| 0 <= k < fv.len() implies {
            let (idx, v) = #[trigger] fv[k];
            &&& 0 <= idx < fields.len()
            &&& forall|j: int| 0 <= j < idx ==> fields[j] != fields[idx]
            &&& exists|j: int| 0 <= j < values.len() && values[j] == (fields[idx], v)
        } by {
            if k < rest.len() {
                assert(fv[k] == rest[k]);
                let (ri, rv) = rest[k];
                let j = choose|j: int| 0 <= j < init.len() && init[j] == (fields[ri], rv);
                assert(values[j] == init[j]);
            } else {
                assert(idx >= 0);
                let i0 = choose|i: int| is_first_position(fields, last.0, i);
                assert(values[values.len() - 1] == last);
            }
        }
        assert forall|j: int, i: int|
            0 <= j < values.len() && 0 <= i < fields.len() && #[trigger] fields[i]
                == #[trigger] values[j].0 implies exists|k: int|
                0 <= k < fv.len() && fields[fv[k].0] == values[j].0 && fv[k].1 == values[j].1 by {
            if j < init.len() {
                assert(init[j] == values[j]);
                assert(fields[i] == init[j].0);
                let k = choose|k: int|
                    0 <= k < rest.len() && fields[rest[k].0] == init[j].0 && rest[k].1 == init[j].1;
                if idx >= 0 {
                    assert(fv[k] == rest[k]);
                } else {
                    assert(fv[k] == rest[k]);
                }
            } else {
                assert(values[j] == last);
                lemma_first_position_exists(fields, last.0, i);
                let k = rest.len() as int;
                assert(fv[k] == (idx, last.1));
            }
        }
    }
}

/// A name that is a field has a first position among the fields.
proof fn lemma_first_position_exists(fields: Seq<Seq<char>>, name: Seq<char>, i: int)
    requires
        0 <= i < fields.len(),
        fields[i] == name,
    ensures
        field_index(fields, name) >= 0,
        is_first_position(fields, name, field_index(fields, name)),
    decreases i,
{
    if exists|j: int| 0 <= j < i && fields[j] == name {
        let j = choose|j: int| 0 <= j < i && fields[j] == name;
        lemma_first_position_exists(fields, name, j);
    } else {
        assert(is_first_position(fields, name, i));
    }
}

/// Which events are refused, and with which error: spans and events with more than 32
/// values are refused for that in any state; otherwise a span or event naming an unknown
/// call site is refused for its metadata ID, and one naming an unknown span for that span's
/// ID. Call site definitions are never refused.
pub proof fn law_refusals(state: ConsumerView, event: TracingEvent)
    ensures
        event is NewCallSite ==> consume_error(state, event) is None,
        match event {
            TracingEvent::NewSpan { values, .. }
            | TracingEvent::NewEvent { values, .. }
            | TracingEvent::ValuesRecorded { values, .. } => values@.len() > 32 ==> consume_error(
                state,
                event,
            ) == Some(ConsumeError::TooManyValues { max: 32, actual: values@.len() as usize }),
            _ => true,
        },
        match event {
            TracingEvent::NewSpan { metadata_id, values, .. }
            | TracingEvent::NewEvent { metadata_id, values, .. } => values@.len() <= 32
                && !state.metadata.contains_key(metadata_id) ==> consume_error(state, event)
                == Some(ConsumeError::UnknownMetadataId(metadata_id)),
            _ => true,
        },
        match event {
            TracingEvent::SpanEntered { id }
            | TracingEvent::SpanExited { id }
            | TracingEvent::SpanCloned { id }
            | TracingEvent::SpanDropped { id } => consume_error(state, event) == (if state.spans.contains_key(id) {
                None
            } else {
                Some(ConsumeError::UnknownSpanId(id))
            }),
            TracingEvent::FollowsFrom { id, follows_from } => consume_error(state, event) is None
                <==> state.spans.contains_key(id) && state.spans.contains_key(follows_from),
            _ => true,
        },
        consume_error(state, event) is None ==> match event {
            TracingEvent::NewSpan { metadata_id, parent_id, .. }
            | TracingEvent::NewEvent { metadata_id, parent: parent_id, .. } => {
                &&& state.metadata.contains_key(metadata_id)
                &&& parent_id matches Some(p) ==> state.spans.contains_key(p)
            },
            TracingEvent::ValuesRecorded { id, .. } => state.spans.contains_key(id)
                && state.metadata.contains_key(state.spans[id].metadata_id),
            _ => true,
        },
{
}

/// A new span is relayed under its own ID and metadata ID.
pub proof fn law_new_span_ids(state: ConsumerView, event: TracingEvent, action: DispatchAction)
    requires
        action_matches(state, event, action),
    ensures
        event matches TracingEvent::NewSpan { id, metadata_id, .. } ==> (action matches DispatchAction::NewSpan {
            id: a_id,
            metadata_id: a_metadata_id,
            ..
        } && a_id == id && a_metadata_id == metadata_id),
        event matches TracingEvent::NewCallSite { data, .. } ==> (action matches DispatchAction::RegisterCallSite {
            data: a_data,
        } && a_data@ == data@),
{
}

} // verus!
