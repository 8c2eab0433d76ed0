//! Normalization of captured event sequences, e.g. for snapshot testing.
use vstd::prelude::*;

use std::collections::HashMap;

use crate::types::{CallSiteData, CallSiteKind, CallSiteView, MetadataId, TracingEvent};

verus! {

broadcast use vstd::std_specs::hash::group_hash_axioms;

/// The path separator of the platform: `std::path::MAIN_SEPARATOR`.
///
/// Trusted: nothing is stated of the returned character; it depends on the platform that the
/// library is built for.
#[verifier::external_body]
fn main_separator() -> char {
    std::path::MAIN_SEPARATOR
}

/// Replaces every occurrence of `from` with `to`.
pub open spec fn replace_char(s: Seq<char>, from: char, to: char) -> Seq<char> {
    s.map_values(|c: char| if c == from { to } else { c })
}

/// Replaces every occurrence of `from` in the string with `to`.
pub fn replace_all(s: &str, from: char, to: char) -> (r: String)
    ensures
        r@ == replace_char(s@, from, to),
{
    let chars = crate::text::str_chars(s);
    let mut r = String::new();
    let mut i: usize = 0;
    while i < chars.len()
        invariant
            chars@ == s@,
            i <= chars@.len(),
            r@ == replace_char(s@, from, to).take(i as int),
        decreases chars@.len() - i,
    {
        let c = chars[i];
        crate::text::push_char(&mut r, if c == from { to } else { c });
        proof {
            assert(replace_char(s@, from, to).take(i + 1) =~= replace_char(s@, from, to).take(
                i as int,
            ).push(if c == from { to } else { c }));
        }
        i += 1;
    }
    assert(replace_char(s@, from, to).take(chars@.len() as int) =~= replace_char(s@, from, to));
    r
}

/// Mapping of metadata IDs after processing one more event: a call site gets the next ID
/// (the number of IDs mapped so far); a span or event referring to an unmapped ID maps it
/// to the next ID as well.
pub open spec fn step_mapping(m: Map<MetadataId, MetadataId>, e: TracingEvent) -> Map<
    MetadataId,
    MetadataId,
> {
    match e {
        TracingEvent::NewCallSite { id, .. } => m.insert(id, m.len() as MetadataId),
        TracingEvent::NewSpan { metadata_id, .. } | TracingEvent::NewEvent { metadata_id, .. } => {
            if m.contains_key(metadata_id) {
                m
            } else {
                m.insert(metadata_id, m.len() as MetadataId)
            }
        },
        _ => m,
    }
}

/// Mapping of metadata IDs after processing all the events.
pub open spec fn mapping_after(events: Seq<TracingEvent>) -> Map<MetadataId, MetadataId>
    decreases events.len(),
{
    if events.len() == 0 {
        Map::empty()
    } else {
        step_mapping(mapping_after(events.drop_last()), events.last())
    }
}

/// Normalized call site data: no line, `event` as the name of event call sites, and (on platforms
/// whose path separator is `sep`) `/` as the path separator.
pub open spec fn normalized_call_site(data: CallSiteView, sep: char) -> CallSiteView {
    CallSiteView {
        line: None,
        name: if data.kind == CallSiteKind::Event {
            seq!['e', 'v', 'e', 'n', 't']
        } else {
            data.name
        },
        file: if sep != '/' {
            match data.file {
                Some(f) => Some(replace_char(f, sep, '/')),
                None => None,
            }
        } else {
            data.file
        },
        ..data
    }
}

/// Is `new` the normalized form of `old`, given the ID mapping `m` built from the preceding events?
pub open spec fn normalized_event(
    m: Map<MetadataId, MetadataId>,
    old: TracingEvent,
    new: TracingEvent,
    sep: char,
) -> bool {
    match old {
        TracingEvent::NewCallSite { id, data } => {
            &&& new matches TracingEvent::NewCallSite { id: new_id, data: new_data }
            &&& new_id == m.len() as MetadataId
            &&& new_data@ == normalized_call_site(data@, sep)
        },
        TracingEvent::NewSpan { id, parent_id, metadata_id, values } => new
            == TracingEvent::NewSpan {
            id,
            parent_id,
            metadata_id: step_mapping(m, old)[metadata_id],
            values,
        },
        TracingEvent::NewEvent { metadata_id, parent, values } => new == TracingEvent::NewEvent {
            metadata_id: step_mapping(m, old)[metadata_id],
            parent,
            values,
        },
        _ => new == old,
    }
}

/// Is every event of `new` the normalized form of the event of `old` at the same position?
pub open spec fn all_normalized(old: Seq<TracingEvent>, new: Seq<TracingEvent>, sep: char) -> bool {
    &&& new.len() == old.len()
    &&& forall|i: int|
        0 <= i < old.len() ==> normalized_event(
            mapping_after(old.take(i)),
            #[trigger] old[i],
            new[i],
            sep,
        )
}

/// Is `new` what normalization may make of `old`: the same kind of event, with every field
/// equal except metadata IDs, and except the line (dropped), the name (`event` for event call
/// sites) and the file (with `/` as the path separator) of call sites?
pub open spec fn keeps_other_fields(old: TracingEvent, new: TracingEvent, sep: char) -> bool {
    match (old, new) {
        (
            TracingEvent::NewCallSite { data: a, .. },
            TracingEvent::NewCallSite { data: b, .. },
        ) => {
            &&& b@.kind == a@.kind
            &&& b@.target == a@.target
            &&& b@.level == a@.level
            &&& b@.module == a@.module
            &&& b@.fields == a@.fields
            &&& b@.line is None
            &&& b@.name == (if a@.kind == CallSiteKind::Event {
                seq!['e', 'v', 'e', 'n', 't']
            } else {
                a@.name
            })
            &&& b@.file == (match a@.file {
                Some(f) => Some(if sep != '/' { replace_char(f, sep, '/') } else { f }),
                None => None,
            })
        },
        (
            TracingEvent::NewSpan { id: a_id, parent_id: a_parent, values: a_values, .. },
            TracingEvent::NewSpan { id: b_id, parent_id: b_parent, values: b_values, .. },
        ) => a_id == b_id && a_parent == b_parent && a_values == b_values,
        (
            TracingEvent::NewEvent { parent: a_parent, values: a_values, .. },
            TracingEvent::NewEvent { parent: b_parent, values: b_values, .. },
        ) => a_parent == b_parent && a_values == b_values,
        _ => old == new,
    }
}

/// Normalizes call site data.
fn normalize_call_site(data: CallSiteData, sep: char) -> (r: CallSiteData)
    ensures
        r@ == normalized_call_site(data@, sep),
{
    let file = if sep != '/' {
        match &data.file {
            Some(f) => Some(replace_all(f.as_str(), sep, '/')),
            None => None,
        }
    } else {
        data.file
    };
    let name = match data.kind {
        CallSiteKind::Event => {
            let mut name = String::new();
            crate::text::push_char(&mut name, 'e');
            crate::text::push_char(&mut name, 'v');
            crate::text::push_char(&mut name, 'e');
            crate::text::push_char(&mut name, 'n');
            crate::text::push_char(&mut name, 't');
            name
        },
        CallSiteKind::Span => data.name,
    };
    let r = CallSiteData {
        kind: data.kind,
        name,
        target: data.target,
        level: data.level,
        module: data.module,
        file,
        line: None,
        fields: data.fields,
    };
    assert(r@ =~= normalized_call_site(data@, sep));
    r
}

impl TracingEvent {
    /// Normalizes a captured sequence of events so that it does not contain information that
    /// changes between program runs (metadata IDs) or due to minor refactoring (source code lines).
    /// Normalized events can be used for snapshot testing and other purposes when reproducibility
    /// is important.
    ///
    /// File paths are rewritten with the path separator of the platform that the library is
    /// built for, read from `std::path::MAIN_SEPARATOR`. Which character that is, is not stated
    /// here: the contract says that the result is the normalization for some separator, and
    /// [`Self::normalize_with_separator()`] states the result for each one.
    pub fn normalize(events: &mut Vec<TracingEvent>)
        ensures
            final(events)@.len() == old(events)@.len(),
            exists|sep: char| all_normalized(old(events)@, final(events)@, sep),
    {
        let sep = main_separator();
        Self::normalize_with_separator(events, sep);
    }

    /// Normalizes events as [`Self::normalize()`] does on a platform whose path separator is
    /// `sep`.
    pub fn normalize_with_separator(events: &mut Vec<TracingEvent>, sep: char)
        ensures
            all_normalized(old(events)@, final(events)@, sep),
            final(events)@.len() == old(events)@.len(),
            forall|i: int|
                0 <= i < old(events)@.len() ==> keeps_other_fields(
                    #[trigger] old(events)@[i],
                    final(events)@[i],
                    sep,
                ),
    {
        let mut mapping: HashMap<MetadataId, MetadataId> = HashMap::new();
        let mut source: Vec<TracingEvent> = Vec::new();
        std::mem::swap(&mut source, events);
        let ghost orig = source@;
        let mut normalized: Vec<TracingEvent> = Vec::new();
        proof {
            assert(orig.take(0) =~= Seq::<TracingEvent>::empty());
        }
        for event in it: source.into_iter()
            invariant
                it.seq() == orig,
                normalized@.len() == it.index(),
                mapping@ == mapping_after(orig.take(it.index() as int)),
                forall|i: int|
                    0 <= i < it.index() ==> normalized_event(
                        mapping_after(orig.take(i)),
                        #[trigger] orig[i],
                        normalized@[i],
                        sep,
                    ),
        {
            let ghost idx = it.index();
            let ghost before = mapping@;
            proof {
                assert(orig.take(idx + 1).drop_last() =~= orig.take(idx as int));
                assert(orig.take(idx + 1).last() == event);
            }
            let next_id = mapping.len() as MetadataId;
            let new_event = match event {
                TracingEvent::NewCallSite { id, data } => {
                    mapping.insert(id, next_id);
                    TracingEvent::NewCallSite { id: next_id, data: normalize_call_site(data, sep) }
                },
                TracingEvent::NewSpan { id, parent_id, metadata_id, values } => {
                    let mapped = match mapping.get(&metadata_id) {
                        Some(mapped) => *mapped,
                        None => {
                            mapping.insert(metadata_id, next_id);
                            next_id
                        },
                    };
                    TracingEvent::NewSpan { id, parent_id, metadata_id: mapped, values }
                },
                TracingEvent::NewEvent { metadata_id, parent, values } => {
                    let mapped = match mapping.get(&metadata_id) {
                        Some(mapped) => *mapped,
                        None => {
                            mapping.insert(metadata_id, next_id);
                            next_id
                        },
                    };
                    TracingEvent::NewEvent { metadata_id: mapped, parent, values }
                },
                other => other,
            };
            normalized.push(new_event);
        }
        std::mem::swap(&mut normalized, events);
        assert(all_normalized(orig, events@, sep));
        proof {
            law_normalize_keeps_other_fields(orig, events@, sep);
        }
    }
}

/// The event with the metadata IDs it mentions renamed by `f`.
pub open spec fn renamed(e: TracingEvent, f: spec_fn(MetadataId) -> MetadataId) -> TracingEvent {
    match e {
        TracingEvent::NewCallSite { id, data } => TracingEvent::NewCallSite { id: f(id), data },
        TracingEvent::NewSpan { id, parent_id, metadata_id, values } => TracingEvent::NewSpan {
            id,
            parent_id,
            metadata_id: f(metadata_id),
            values,
        },
        TracingEvent::NewEvent { metadata_id, parent, values } => TracingEvent::NewEvent {
            metadata_id: f(metadata_id),
            parent,
            values,
        },
        other => other,
    }
}

/// Is the renaming injective (no two IDs are renamed to the same ID)?
pub open spec fn injective(f: spec_fn(MetadataId) -> MetadataId) -> bool {
    forall|a: MetadataId, b: MetadataId| #[trigger] f(a) == #[trigger] f(b) ==> a == b
}

/// The mapping `m2` is the mapping `m1` with keys renamed by `f`.
pub open spec fn corresponds(
    m1: Map<MetadataId, MetadataId>,
    m2: Map<MetadataId, MetadataId>,
    f: spec_fn(MetadataId) -> MetadataId,
) -> bool {
    &&& m1.dom().finite()
    &&& m2.dom().finite()
    &&& m1.len() == m2.len()
    &&& forall|k: MetadataId| #[trigger] m1.contains_key(k) <==> m2.contains_key(f(k))
    &&& forall|k2: MetadataId| #[trigger]
        m2.contains_key(k2) ==> exists|k: MetadataId| f(k) == k2 && m1.contains_key(k)
    &&& forall|k: MetadataId| #[trigger] m1.contains_key(k) ==> m2[f(k)] == m1[k]
}

/// One more event keeps the correspondence of the mappings built for the given and the
/// renamed events.
proof fn lemma_step_corresponds(
    m1: Map<MetadataId, MetadataId>,
    m2: Map<MetadataId, MetadataId>,
    e: TracingEvent,
    f: spec_fn(MetadataId) -> MetadataId,
)
    requires
        injective(f),
        corresponds(m1, m2, f),
    ensures
        corresponds(step_mapping(m1, e), step_mapping(m2, renamed(e, f)), f),
        match e {
            TracingEvent::NewSpan { metadata_id, .. } | TracingEvent::NewEvent { metadata_id, .. } =>
                step_mapping(m1, e)[metadata_id] == step_mapping(m2, renamed(e, f))[f(metadata_id)],
            _ => true,
        },
{
    let key = match e {
        TracingEvent::NewCallSite { id, .. } => id,
        TracingEvent::NewSpan { metadata_id, .. } => metadata_id,
        TracingEvent::NewEvent { metadata_id, .. } => metadata_id,
        _ => 0,
    };
    let inserts = match e {
        TracingEvent::NewCallSite { .. } => true,
        TracingEvent::NewSpan { .. } | TracingEvent::NewEvent { .. } => !m1.contains_key(key),
        _ => false,
    };
    let n1 = step_mapping(m1, e);
    let n2 = step_mapping(m2, renamed(e, f));
    if inserts {
        assert(n1 == m1.insert(key, m1.len() as MetadataId));
        assert(n2 == m2.insert(f(key), m2.len() as MetadataId));
        assert(m1.contains_key(key) == m2.contains_key(f(key)));
        assert(n1.dom() == m1.dom().insert(key));
        assert(n2.dom() == m2.dom().insert(f(key)));
        assert forall|k: MetadataId| #[trigger] n1.contains_key(k) implies n2[f(k)] == n1[k] by {
            if k != key {
                assert(f(k) != f(key));
            }
        }
        assert forall|k2: MetadataId| #[trigger] n2.contains_key(k2) implies exists|k: MetadataId|
            f(k) == k2 && n1.contains_key(k) by {
            if k2 != f(key) {
                assert(m2.contains_key(k2));
                let k = choose|k: MetadataId| f(k) == k2 && m1.contains_key(k);
                assert(n1.contains_key(k));
            } else {
                assert(n1.contains_key(key));
            }
        }
        assert forall|k: MetadataId| #[trigger] n1.contains_key(k) <==> n2.contains_key(f(k)) by {
            if k != key {
                assert(f(k) != f(key));
            }
        }
    } else {
        assert(n1 == m1);
        assert(n2 == m2);
    }
}

/// The mappings built for events and for the same events with renamed IDs correspond.
proof fn lemma_mapping_renamed(events: Seq<TracingEvent>, f: spec_fn(MetadataId) -> MetadataId)
    requires
        injective(f),
    ensures
        corresponds(
            mapping_after(events),
            mapping_after(events.map_values(|e: TracingEvent| renamed(e, f))),
            f,
        ),
    decreases events.len(),
{
    let renamed_events = events.map_values(|e: TracingEvent| renamed(e, f));
    if events.len() == 0 {
        assert(mapping_after(events) =~= Map::empty());
        assert(mapping_after(renamed_events) =~= Map::empty());
    } else {
        let init = events.drop_last();
        lemma_mapping_renamed(init, f);
        assert(renamed_events.drop_last() =~= init.map_values(|e: TracingEvent| renamed(e, f)));
        assert(renamed_events.last() == renamed(events.last(), f));
        lemma_step_corresponds(
            mapping_after(init),
            mapping_after(renamed_events.drop_last()),
            events.last(),
            f,
        );
    }
}

/// Are two normalized events the same (call site data compared by their views)?
pub open spec fn same_normalized(a: TracingEvent, b: TracingEvent) -> bool {
    match (a, b) {
        (
            TracingEvent::NewCallSite { id: id_a, data: data_a },
            TracingEvent::NewCallSite { id: id_b, data: data_b },
        ) => id_a == id_b && data_a@ == data_b@,
        _ => a == b,
    }
}

/// Normalized events do not depend on metadata IDs: renaming the IDs of a sequence of events
/// (consistently, and without merging IDs) does not change the normalized sequence.
pub proof fn law_normalize_ignores_metadata_ids(
    events: Seq<TracingEvent>,
    normalized: Seq<TracingEvent>,
    f: spec_fn(MetadataId) -> MetadataId,
    renamed_normalized: Seq<TracingEvent>,
    sep: char,
)
    requires
        injective(f),
        all_normalized(events, normalized, sep),
        all_normalized(
            events.map_values(|e: TracingEvent| renamed(e, f)),
            renamed_normalized,
            sep,
        ),
    ensures
        normalized.len() == renamed_normalized.len(),
        forall|i: int|
            0 <= i < normalized.len() ==> same_normalized(
                #[trigger] normalized[i],
                renamed_normalized[i],
            ),
{
    let renamed_events = events.map_values(|e: TracingEvent| renamed(e, f));
    assert forall|i: int| 0 <= i < normalized.len() implies same_normalized(
        #[trigger] normalized[i],
        renamed_normalized[i],
    ) by {
        let prefix = events.take(i);
        assert(renamed_events.take(i) =~= prefix.map_values(|e: TracingEvent| renamed(e, f)));
        lemma_mapping_renamed(prefix, f);
        let m1 = mapping_after(prefix);
        let m2 = mapping_after(renamed_events.take(i));
        assert(renamed_events[i] == renamed(events[i], f));
        assert(normalized_event(m1, events[i], normalized[i], sep));
        assert(normalized_event(m2, renamed_events[i], renamed_normalized[i], sep));
        lemma_step_corresponds(m1, m2, events[i], f);
    }
}

/// Does the event mention the metadata ID (as the ID of a new call site, or as the metadata
/// of a span or an event)?
pub open spec fn mentions(e: TracingEvent, id: MetadataId) -> bool {
    match e {
        TracingEvent::NewCallSite { id: defined, .. } => defined == id,
        TracingEvent::NewSpan { metadata_id, .. } | TracingEvent::NewEvent { metadata_id, .. } =>
            metadata_id == id,
        _ => false,
    }
}

/// If the event at position `k` defines a call site, does no earlier event mention its ID?
pub open spec fn fresh_at(events: Seq<TracingEvent>, k: int) -> bool {
    match events[k] {
        TracingEvent::NewCallSite { id, .. } => forall|j: int|
            0 <= j < k ==> !mentions(#[trigger] events[j], id),
        _ => true,
    }
}

/// Is every call site of the sequence defined with an ID that no earlier event mentions?
pub open spec fn call_sites_fresh(events: Seq<TracingEvent>) -> bool {
    forall|k: int| 0 <= k < events.len() ==> #[trigger] fresh_at(events, k)
}

/// The mapping built for events has a finite domain, no larger than the number of events.
proof fn lemma_mapping_size(s: Seq<TracingEvent>)
    ensures
        mapping_after(s).dom().finite(),
        mapping_after(s).len() <= s.len(),
    decreases s.len(),
{
    if s.len() > 0 {
        lemma_mapping_size(s.drop_last());
    }
}

/// An ID is mapped after some events iff one of these events mentions it.
proof fn lemma_mapping_mentions(s: Seq<TracingEvent>, x: MetadataId)
    ensures
        mapping_after(s).contains_key(x) <==> exists|j: int|
            0 <= j < s.len() && mentions(#[trigger] s[j], x),
    decreases s.len(),
{
    if s.len() > 0 {
        let init = s.drop_last();
        lemma_mapping_mentions(init, x);
        if exists|j: int| 0 <= j < init.len() && mentions(#[trigger] init[j], x) {
            let j = choose|j: int| 0 <= j < init.len() && mentions(#[trigger] init[j], x);
            assert(s[j] == init[j]);
        }
        if exists|j: int| 0 <= j < s.len() && mentions(#[trigger] s[j], x) {
            let j = choose|j: int| 0 <= j < s.len() && mentions(#[trigger] s[j], x);
            if j < init.len() {
                assert(init[j] == s[j]);
            }
        }
    }
}

/// The mapping after one more event.
proof fn lemma_mapping_step(s: Seq<TracingEvent>, k: int)
    requires
        0 <= k < s.len(),
    ensures
        mapping_after(s.take(k + 1)) == step_mapping(mapping_after(s.take(k)), s[k]),
{
    assert(s.take(k + 1).drop_last() =~= s.take(k));
    assert(s.take(k + 1).last() == s[k]);
}

/// Normalizing call site data twice gives the same as normalizing it once.
proof fn lemma_call_site_idempotent(data: CallSiteView, sep: char)
    ensures
        normalized_call_site(normalized_call_site(data, sep), sep) == normalized_call_site(data, sep),
{
    if sep != '/' {
        match data.file {
            Some(f) => {
                assert(replace_char(replace_char(f, sep, '/'), sep, '/') =~= replace_char(f, sep, '/'));
            },
            None => {},
        }
    }
}

/// State of the two passes when normalizing normalized events again: the mapping `m2` of the
/// second pass maps the IDs below `b` to themselves, `b` exceeds the size of the mapping
/// `m1` of the first pass by at most one and bounds the IDs that `m1` maps to.
#[verifier::opaque]
spec fn again_inv(m1: Map<MetadataId, MetadataId>, m2: Map<MetadataId, MetadataId>, b: nat) -> bool {
    &&& m1.dom().finite()
    &&& m2.dom().finite()
    &&& b == m2.len()
    &&& (b == m1.len() || b == m1.len() + 1)
    &&& forall|v: MetadataId| #[trigger] m2.contains_key(v) <==> v < b
    &&& forall|v: MetadataId| #[trigger] m2.contains_key(v) ==> m2[v] == v
    &&& forall|x: MetadataId| #[trigger] m1.contains_key(x) ==> m1[x] < b
}

/// One more event of both passes: the state is kept, and the second pass leaves the event as
/// it is iff it is not a call site whose ID the second pass has mapped already.
proof fn lemma_again_step(
    m1: Map<MetadataId, MetadataId>,
    m2: Map<MetadataId, MetadataId>,
    b: nat,
    e: TracingEvent,
    o: TracingEvent,
    t: TracingEvent,
    sep: char,
) -> (b2: nat)
    requires
        again_inv(m1, m2, b),
        m1.len() < u64::MAX,
        normalized_event(m1, e, o, sep),
        normalized_event(m2, o, t, sep),
    ensures
        match o {
            TracingEvent::NewCallSite { id, .. } => same_normalized(o, t) <==> !m2.contains_key(id),
            _ => same_normalized(o, t),
        },
        match o {
            TracingEvent::NewCallSite { id, .. } => !m2.contains_key(id),
            _ => true,
        } ==> again_inv(step_mapping(m1, e), step_mapping(m2, o), b2),
{
    reveal(again_inv);
    let n = m1.len();
    assert(n as MetadataId == n);
    assert(b as MetadataId == b);
    let m1n = step_mapping(m1, e);
    let m2n = step_mapping(m2, o);
    match e {
        TracingEvent::NewCallSite { id, data } => {
            let nid = n as MetadataId;
            match o {
                TracingEvent::NewCallSite { id: oid, data: odata } => {
                    assert(oid == nid);
                    lemma_call_site_idempotent(data@, sep);
                    assert(t matches TracingEvent::NewCallSite { id: tid, data: tdata } && tid
                        == b && tdata@ == odata@);
                    if !m2.contains_key(nid) {
                        assert(b == n);
                        assert(m2n == m2.insert(nid, nid));
                        assert(m1n == m1.insert(id, nid));
                    } else {
                        assert(nid < b);
                    }
                },
                _ => {},
            }
            (n + 1) as nat
        },
        TracingEvent::NewSpan { metadata_id, .. } | TracingEvent::NewEvent { metadata_id, .. } => {
            if m1.contains_key(metadata_id) {
                let target = m1[metadata_id];
                assert(m1n == m1);
                assert(m2.contains_key(target));
                assert(m2n == m2);
                assert(t == o);
                b
            } else {
                let target = n as MetadataId;
                assert(m1n == m1.insert(metadata_id, target));
                if b == n {
                    assert(!m2.contains_key(target));
                    assert(m2n == m2.insert(target, target));
                    assert(t == o);
                    (n + 1) as nat
                } else {
                    assert(m2.contains_key(target));
                    assert(m2n == m2);
                    assert(t == o);
                    b
                }
            }
        },
        _ => {
            assert(o == e);
            assert(t == o);
            b
        },
    }
}

/// State of normalizing the normalized events again, after `k` events, as long as the call
/// sites of the normalized events are fresh: the normalized events are left as they are.
proof fn lemma_normalize_again(
    events: Seq<TracingEvent>,
    normalized: Seq<TracingEvent>,
    twice: Seq<TracingEvent>,
    sep: char,
    k: int,
) -> (b: nat)
    requires
        events.len() <= u64::MAX,
        all_normalized(events, normalized, sep),
        all_normalized(normalized, twice, sep),
        0 <= k <= events.len(),
        forall|j: int| 0 <= j < k ==> #[trigger] fresh_at(normalized, j),
    ensures
        mapping_after(events.take(k)).len() <= k,
        again_inv(mapping_after(events.take(k)), mapping_after(normalized.take(k)), b),
        forall|j: int| 0 <= j < k ==> same_normalized(#[trigger] normalized[j], twice[j]),
    decreases k,
{
    lemma_mapping_size(events.take(k));
    lemma_mapping_size(normalized.take(k));
    if k == 0 {
        assert(mapping_after(events.take(0)) =~= Map::empty());
        assert(mapping_after(normalized.take(0)) =~= Map::empty());
        reveal(again_inv);
        0
    } else {
        let i = k - 1;
        let b0 = lemma_normalize_again(events, normalized, twice, sep, i);
        let m1 = mapping_after(events.take(i));
        let m2 = mapping_after(normalized.take(i));
        lemma_mapping_step(events, i);
        lemma_mapping_step(normalized, i);
        assert(normalized_event(m1, events[i], normalized[i], sep));
        assert(normalized_event(m2, normalized[i], twice[i], sep));
        assert(fresh_at(normalized, i));
        match normalized[i] {
            TracingEvent::NewCallSite { id, .. } => {
                assert forall|j: int| 0 <= j < normalized.take(i).len() implies !mentions(
                    #[trigger] normalized.take(i)[j],
                    id,
                ) by {
                    assert(normalized.take(i)[j] == normalized[j]);
                }
                lemma_mapping_mentions(normalized.take(i), id);
            },
            _ => {},
        }
        let b = lemma_again_step(m1, m2, b0, events[i], normalized[i], twice[i], sep);
        assert forall|j: int| 0 <= j < k implies same_normalized(
            #[trigger] normalized[j],
            twice[j],
        ) by {}
        b
    }
}

/// Normalizing normalized events again changes nothing exactly when every call site of the
/// normalized events is defined with an ID that no earlier event mentions. (It is otherwise
/// not so: defining the same call site ID twice and then another call site gives two
/// normalized call site definitions with the same ID, and normalizing again renumbers
/// the second of them.)
pub proof fn law_normalize_idempotent(
    events: Seq<TracingEvent>,
    normalized: Seq<TracingEvent>,
    twice: Seq<TracingEvent>,
    sep: char,
)
    requires
        events.len() <= u64::MAX,
        all_normalized(events, normalized, sep),
        all_normalized(normalized, twice, sep),
    ensures
        twice.len() == normalized.len(),
        call_sites_fresh(normalized) <==> forall|i: int|
            0 <= i < normalized.len() ==> same_normalized(#[trigger] normalized[i], twice[i]),
{
    if call_sites_fresh(normalized) {
        lemma_normalize_again(events, normalized, twice, sep, events.len() as int);
    }
    if forall|i: int|
        0 <= i < normalized.len() ==> same_normalized(#[trigger] normalized[i], twice[i]) {
        lemma_fresh_if_unchanged(events, normalized, twice, sep, events.len() as int);
    }
}

/// If normalizing again changes nothing, the call sites of the normalized events are fresh.
#[verifier::rlimit(30)]
proof fn lemma_fresh_if_unchanged(
    events: Seq<TracingEvent>,
    normalized: Seq<TracingEvent>,
    twice: Seq<TracingEvent>,
    sep: char,
    k: int,
)
    requires
        events.len() <= u64::MAX,
        all_normalized(events, normalized, sep),
        all_normalized(normalized, twice, sep),
        0 <= k <= events.len(),
        forall|i: int|
            0 <= i < normalized.len() ==> same_normalized(#[trigger] normalized[i], twice[i]),
    ensures
        forall|j: int| 0 <= j < k ==> #[trigger] fresh_at(normalized, j),
    decreases k,
{
    if k > 0 {
        let i = k - 1;
        lemma_fresh_if_unchanged(events, normalized, twice, sep, i);
        let b = lemma_normalize_again(events, normalized, twice, sep, i);
        let m1 = mapping_after(events.take(i));
        let m2 = mapping_after(normalized.take(i));
        assert(normalized_event(m1, events[i], normalized[i], sep));
        assert(normalized_event(m2, normalized[i], twice[i], sep));
        assert(same_normalized(normalized[i], twice[i]));
        lemma_again_step(m1, m2, b, events[i], normalized[i], twice[i], sep);
        match normalized[i] {
            TracingEvent::NewCallSite { id, .. } => {
                lemma_mapping_mentions(normalized.take(i), id);
                assert forall|j: int| 0 <= j < i implies !mentions(#[trigger] normalized[j], id) by {
                    assert(normalized.take(i)[j] == normalized[j]);
                }
            },
            _ => {},
        }
        assert(fresh_at(normalized, i));
        assert forall|j: int| 0 <= j < k implies #[trigger] fresh_at(normalized, j) by {}
    }
}

/// Normalization changes nothing but metadata IDs and the line, name and file of call sites:
/// every normalized event is of the same kind as its original, and all its other fields (a
/// span's ID, parent and values; an event's parent and values; a call site's kind, target,
/// level, module and fields) equal the original's. Call sites lose their line, event call
/// sites are named `event`, and `sep` in file paths becomes `/`.
pub proof fn law_normalize_keeps_other_fields(
    events: Seq<TracingEvent>,
    normalized: Seq<TracingEvent>,
    sep: char,
)
    requires
        all_normalized(events, normalized, sep),
    ensures
        normalized.len() == events.len(),
        forall|i: int|
            0 <= i < events.len() ==> keeps_other_fields(#[trigger] events[i], normalized[i], sep),
{
    assert forall|i: int| 0 <= i < events.len() implies keeps_other_fields(
        #[trigger] events[i],
        normalized[i],
        sep,
    ) by {
        lemma_event_keeps_other_fields(mapping_after(events.take(i)), events[i], normalized[i], sep);
    }
}

/// A normalized event keeps the fields that normalization does not touch.
proof fn lemma_event_keeps_other_fields(
    m: Map<MetadataId, MetadataId>,
    old: TracingEvent,
    new: TracingEvent,
    sep: char,
)
    requires
        normalized_event(m, old, new, sep),
    ensures
        keeps_other_fields(old, new, sep),
{
    match (old, new) {
        (TracingEvent::NewCallSite { data: a, .. }, TracingEvent::NewCallSite { data: b, .. }) => {
            assert(b@ == normalized_call_site(a@, sep));
        },
        _ => {},
    }
}

/// Mapped IDs are at most the number of mapped IDs.
proof fn lemma_mapping_values(s: Seq<TracingEvent>)
    requires
        s.len() <= u64::MAX,
    ensures
        mapping_after(s).dom().finite(),
        mapping_after(s).len() <= s.len(),
        forall|x: MetadataId| #[trigger]
            mapping_after(s).contains_key(x) ==> mapping_after(s)[x] <= mapping_after(s).len(),
    decreases s.len(),
{
    lemma_mapping_size(s);
    if s.len() > 0 {
        let init = s.drop_last();
        lemma_mapping_values(init);
        lemma_mapping_size(init);
        let m = mapping_after(init);
        assert(m.len() as MetadataId == m.len());
    }
}

/// Once mapped, an ID keeps its mapping until a call site with that ID is defined again.
proof fn lemma_mapping_kept(s: Seq<TracingEvent>, i: int, j: int, x: MetadataId)
    requires
        0 <= i <= j <= s.len(),
        mapping_after(s.take(i)).contains_key(x),
        forall|k: int| i <= k < j ==> !(#[trigger] s[k] matches TracingEvent::NewCallSite { id, .. } && id == x),
    ensures
        mapping_after(s.take(j)).contains_key(x),
        mapping_after(s.take(j))[x] == mapping_after(s.take(i))[x],
    decreases j - i,
{
    if i < j {
        lemma_mapping_kept(s, i, j - 1, x);
        lemma_mapping_step(s, j - 1);
    }
}

/// Normalized metadata IDs are numbered from 0 in the order of first appearance: the event at
/// position `i` mentions no ID above `i` (so the first event mentioning an ID mentions 0), and
/// spans and events referring to the same metadata ID, with no call site redefining it between
/// them, refer to the same normalized ID.
pub proof fn law_normalized_ids(
    events: Seq<TracingEvent>,
    normalized: Seq<TracingEvent>,
    sep: char,
)
    requires
        events.len() <= u64::MAX,
        all_normalized(events, normalized, sep),
    ensures
        forall|i: int, x: MetadataId|
            0 <= i < normalized.len() && #[trigger] mentions(normalized[i], x) ==> x <= i,
        forall|i: int, j: int, x: MetadataId|
            0 <= i < j < events.len() && !(events[i] is NewCallSite) && !(events[j] is NewCallSite)
                && #[trigger] mentions(events[i], x) && #[trigger] mentions(events[j], x)
                && (forall|k: int|
                i < k < j ==> !(#[trigger] events[k] matches TracingEvent::NewCallSite { id, .. }
                    && id == x)) ==> forall|y: MetadataId|
                mentions(normalized[i], y) ==> mentions(normalized[j], y),
{
    assert forall|i: int, x: MetadataId|
        0 <= i < normalized.len() && #[trigger] mentions(normalized[i], x) implies x <= i by {
        let m = mapping_after(events.take(i));
        lemma_mapping_values(events.take(i));
        assert(normalized_event(m, events[i], normalized[i], sep));
        assert(m.len() as MetadataId == m.len());
    }
    assert forall|i: int, j: int, x: MetadataId|
        0 <= i < j < events.len() && !(events[i] is NewCallSite) && !(events[j] is NewCallSite)
            && #[trigger] mentions(events[i], x) && #[trigger] mentions(events[j], x)
            && (forall|k: int|
            i < k < j ==> !(#[trigger] events[k] matches TracingEvent::NewCallSite { id, .. } && id
                == x)) implies forall|y: MetadataId|
            mentions(normalized[i], y) ==> mentions(normalized[j], y) by {
        let mi = mapping_after(events.take(i));
        let mi1 = mapping_after(events.take(i + 1));
        let mj = mapping_after(events.take(j));
        lemma_mapping_step(events, i);
        assert(normalized_event(mi, events[i], normalized[i], sep));
        assert(normalized_event(mj, events[j], normalized[j], sep));
        assert(mi1.contains_key(x));
        lemma_mapping_kept(events, i + 1, j, x);
        assert(mj.contains_key(x));
        assert(mj[x] == mi1[x]);
    }
}

} // verus!
