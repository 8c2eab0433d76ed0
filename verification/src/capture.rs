//! Storage of captured tracing spans and events, e.g. for test assertions.
use vstd::prelude::*;

use id_arena::{Arena, ArenaBehavior, DefaultArenaBehavior};

use crate::types::{CallSiteData, CallSiteView};
use crate::text::str_eq;
use crate::types::{TracedValue, TracingLevel};
use crate::values::{entry_view, has_name, insert_all, value_of, TracedValues, ValuesView};

verus! {

#[verifier::external_type_specification]
#[verifier::external_body]
#[verifier::reject_recursive_types(T)]
#[verifier::reject_recursive_types(A)]
pub struct ExArena<T, A>(Arena<T, A>);

#[verifier::external_type_specification]
#[verifier::external_body]
#[verifier::reject_recursive_types(T)]
pub struct ExDefaultArenaBehavior<T>(DefaultArenaBehavior<T>);

/// Statistics about a [`CapturedSpan`].
#[derive(Debug, Clone, Copy, Default, PartialEq, Eq, Structural)]
pub struct SpanStats {
    /// Number of times the span was entered.
    pub entered: usize,
    /// Number of times the span was exited.
    pub exited: usize,
    /// Is the span closed (dropped)?
    pub is_closed: bool,
}

/// Captured span as stored in a [`Storage`].
#[derive(Debug)]
pub struct CapturedSpanInner {
    metadata: CallSiteData,
    values: TracedValues,
    stats: SpanStats,
    id: usize,
    parent_id: Option<usize>,
    child_ids: Vec<usize>,
    event_ids: Vec<usize>,
    follows_from_ids: Vec<usize>,
}

/// Captured event as stored in a [`Storage`].
#[derive(Debug)]
pub struct CapturedEventInner {
    metadata: CallSiteData,
    values: TracedValues,
    id: usize,
    parent_id: Option<usize>,
}

/// Captured spans of a span arena, in the order of their allocation.
pub uninterp spec fn span_arena_items(arena: Arena<CapturedSpanInner>) -> Seq<CapturedSpanInner>;

/// Captured events of an event arena, in the order of their allocation.
pub uninterp spec fn event_arena_items(arena: Arena<CapturedEventInner>) -> Seq<
    CapturedEventInner,
>;

/// Creates an empty span arena: `id_arena::Arena::new`.
///
/// Trusted: the new arena holds no items.
#[verifier::external_body]
fn span_arena_new() -> (r: Arena<CapturedSpanInner>)
    ensures
        span_arena_items(r) == Seq::<CapturedSpanInner>::empty(),
{
    Arena::new()
}

/// Creates an empty event arena: `id_arena::Arena::new`.
///
/// Trusted: the new arena holds no items.
#[verifier::external_body]
fn event_arena_new() -> (r: Arena<CapturedEventInner>)
    ensures
        event_arena_items(r) == Seq::<CapturedEventInner>::empty(),
{
    Arena::new()
}

/// Allocates a span in the arena: `id_arena::Arena::alloc`, followed by `Id::index`.
///
/// Trusted: the item is appended to the arena items, and the index of its ID is the number of
/// items that preceded it (the arena stores items in a `Vec` and builds IDs from their
/// positions).
#[verifier::external_body]
fn span_arena_alloc(arena: &mut Arena<CapturedSpanInner>, item: CapturedSpanInner) -> (r: usize)
    requires
        span_arena_items(*old(arena)).len() < usize::MAX,
    ensures
        span_arena_items(*final(arena)) == span_arena_items(*old(arena)).push(item),
        r == span_arena_items(*old(arena)).len(),
{
    arena.alloc(item).index()
}

/// Allocates an event in the arena: `id_arena::Arena::alloc`, followed by `Id::index`.
///
/// Trusted: the item is appended to the arena items, and the index of its ID is the number of
/// items that preceded it.
#[verifier::external_body]
fn event_arena_alloc(arena: &mut Arena<CapturedEventInner>, item: CapturedEventInner) -> (r: usize)
    requires
        event_arena_items(*old(arena)).len() < usize::MAX,
    ensures
        event_arena_items(*final(arena)) == event_arena_items(*old(arena)).push(item),
        r == event_arena_items(*old(arena)).len(),
{
    arena.alloc(item).index()
}

/// Reads a span of the arena by its index: `<Arena as Index<Id>>::index` with the ID built by
/// `DefaultArenaBehavior::new_id` from the arena's own ID (taken from `Arena::next_id`).
///
/// Trusted: the result is the item at the index.
#[verifier::external_body]
fn span_arena_get(arena: &Arena<CapturedSpanInner>, index: usize) -> (r: &CapturedSpanInner)
    requires
        index < span_arena_items(*arena).len(),
    ensures
        *r == span_arena_items(*arena)[index as int],
{
    let arena_id = DefaultArenaBehavior::<CapturedSpanInner>::arena_id(arena.next_id());
    &arena[DefaultArenaBehavior::<CapturedSpanInner>::new_id(arena_id, index)]
}

/// Mutably borrows a span of the arena by its index: `<Arena as IndexMut<Id>>::index_mut`
/// with the ID built as in `span_arena_get`.
///
/// Trusted: the result is the item at the index, and what is written through it becomes
/// the item at the index, all other items staying as they are.
#[verifier::external_body]
fn span_arena_get_mut(arena: &mut Arena<CapturedSpanInner>, index: usize) -> (r: &mut CapturedSpanInner)
    requires
        index < span_arena_items(*old(arena)).len(),
    ensures
        *r == span_arena_items(*old(arena))[index as int],
        span_arena_items(*final(arena)) == span_arena_items(*old(arena)).update(
            index as int,
            *final(r),
        ),
{
    let arena_id = DefaultArenaBehavior::<CapturedSpanInner>::arena_id(arena.next_id());
    &mut arena[DefaultArenaBehavior::<CapturedSpanInner>::new_id(arena_id, index)]
}

/// Reads an event of the arena by its index, as `span_arena_get` does for spans.
///
/// Trusted: the result is the item at the index.
#[verifier::external_body]
fn event_arena_get(arena: &Arena<CapturedEventInner>, index: usize) -> (r: &CapturedEventInner)
    requires
        index < event_arena_items(*arena).len(),
    ensures
        *r == event_arena_items(*arena)[index as int],
{
    let arena_id = DefaultArenaBehavior::<CapturedEventInner>::arena_id(arena.next_id());
    &arena[DefaultArenaBehavior::<CapturedEventInner>::new_id(arena_id, index)]
}

/// Number of spans in the arena: `id_arena::Arena::len`.
///
/// Trusted: the result is the number of items.
#[verifier::external_body]
fn span_arena_len(arena: &Arena<CapturedSpanInner>) -> (r: usize)
    ensures
        r == span_arena_items(*arena).len(),
{
    arena.len()
}

/// Number of events in the arena: `id_arena::Arena::len`.
///
/// Trusted: the result is the number of items.
#[verifier::external_body]
fn event_arena_len(arena: &Arena<CapturedEventInner>) -> (r: usize)
    ensures
        r == event_arena_items(*arena).len(),
{
    arena.len()
}

} // verus!

verus! {

/// View of a captured span.
pub struct SpanRecord {
    /// Call site of the span.
    pub metadata: CallSiteView,
    /// Values that the span was created with or which were recorded later.
    pub values: ValuesView,
    /// Statistics about span operations.
    pub stats: SpanStats,
    /// Index of the parent span, if it was captured.
    pub parent: Option<usize>,
    /// Indices of the direct children, in the order of capture.
    pub children: Seq<usize>,
    /// Indices of the events attached to the span, in the order of capture.
    pub events: Seq<usize>,
    /// Indices of the spans that this span follows from.
    pub follows_from: Seq<usize>,
}

/// View of a captured event.
pub struct EventRecord {
    /// Call site of the event.
    pub metadata: CallSiteView,
    /// Values of the event.
    pub values: ValuesView,
    /// Index of the nearest captured span that the event belongs to.
    pub parent: Option<usize>,
}

/// View of a [`Storage`].
pub struct StorageView {
    /// Captured spans in the order of capture.
    pub spans: Seq<SpanRecord>,
    /// Captured events in the order of capture.
    pub events: Seq<EventRecord>,
    /// Indices of the spans without a captured parent, in the order of capture.
    pub root_spans: Seq<usize>,
    /// Indices of the events without a captured parent, in the order of capture.
    pub root_events: Seq<usize>,
}

/// View of a stored span.
pub closed spec fn span_record(s: CapturedSpanInner) -> SpanRecord {
    SpanRecord {
        metadata: s.metadata@,
        values: s.values@,
        stats: s.stats,
        parent: s.parent_id,
        children: s.child_ids@,
        events: s.event_ids@,
        follows_from: s.follows_from_ids@,
    }
}

/// View of a stored event.
pub closed spec fn event_record(e: CapturedEventInner) -> EventRecord {
    EventRecord { metadata: e.metadata@, values: e.values@, parent: e.parent_id }
}

/// `s` lists, in increasing order, exactly the indices below `bound` that satisfy `pred`.
pub open spec fn lists_exactly(s: Seq<usize>, pred: spec_fn(int) -> bool, bound: int) -> bool {
    &&& forall|a: int, b: int| 0 <= a < b < s.len() ==> s[a] < s[b]
    &&& forall|a: int| 0 <= a < s.len() ==> s[a] < bound && pred(s[a] as int)
    &&& forall|j: int| 0 <= j < bound && #[trigger] pred(j) ==> s.contains(j as usize)
}

/// Structural invariant of a storage: parents precede their children, and the child, event
/// and root lists hold exactly the matching spans and events in the order of capture.
pub open spec fn storage_wf(v: StorageView) -> bool {
    &&& forall|i: int|
        0 <= i < v.spans.len() ==> match #[trigger] v.spans[i].parent {
            Some(p) => p < i,
            None => true,
        }
    &&& forall|i: int|
        0 <= i < v.spans.len() ==> lists_exactly(
            #[trigger] v.spans[i].children,
            |j: int| v.spans[j].parent == Some(i as usize),
            v.spans.len() as int,
        )
    &&& forall|i: int|
        0 <= i < v.spans.len() ==> lists_exactly(
            #[trigger] v.spans[i].events,
            |j: int| v.events[j].parent == Some(i as usize),
            v.events.len() as int,
        )
    &&& forall|i: int|
        0 <= i < v.spans.len() ==> forall|k: int|
            0 <= k < #[trigger] v.spans[i].follows_from.len() ==> v.spans[i].follows_from[k]
                < v.spans.len()
    &&& forall|e: int|
        0 <= e < v.events.len() ==> match #[trigger] v.events[e].parent {
            Some(p) => p < v.spans.len(),
            None => true,
        }
    &&& lists_exactly(v.root_spans, |j: int| v.spans[j].parent is None, v.spans.len() as int)
    &&& lists_exactly(v.root_events, |j: int| v.events[j].parent is None, v.events.len() as int)
}

/// Storage of captured tracing information.
#[derive(Debug)]
pub struct Storage {
    spans: Arena<CapturedSpanInner>,
    events: Arena<CapturedEventInner>,
    root_span_ids: Vec<usize>,
    root_event_ids: Vec<usize>,
}

impl View for Storage {
    type V = StorageView;

    closed spec fn view(&self) -> StorageView {
        StorageView {
            spans: span_arena_items(self.spans).map_values(|s: CapturedSpanInner| span_record(s)),
            events: event_arena_items(self.events).map_values(
                |e: CapturedEventInner| event_record(e),
            ),
            root_spans: self.root_span_ids@,
            root_events: self.root_event_ids@,
        }
    }
}

impl Storage {
    #[verifier::type_invariant]
    closed spec fn inv(&self) -> bool {
        &&& storage_wf(self@)
        &&& span_arena_items(self.spans).len() <= usize::MAX
        &&& forall|i: int|
            0 <= i < span_arena_items(self.spans).len() ==> #[trigger] span_arena_items(
                self.spans,
            )[i].id == i
        &&& forall|i: int|
            0 <= i < event_arena_items(self.events).len() ==> #[trigger] event_arena_items(
                self.events,
            )[i].id == i
    }

    /// Creates an empty storage.
    pub fn new() -> (r: Self)
        ensures
            r@.spans == Seq::<SpanRecord>::empty(),
            r@.events == Seq::<EventRecord>::empty(),
            r@.root_spans == Seq::<usize>::empty(),
            r@.root_events == Seq::<usize>::empty(),
    {
        let r = Storage {
            spans: span_arena_new(),
            events: event_arena_new(),
            root_span_ids: Vec::new(),
            root_event_ids: Vec::new(),
        };
        assert(r@.spans =~= Seq::<SpanRecord>::empty());
        assert(r@.events =~= Seq::<EventRecord>::empty());
        r
    }
}


impl Storage {
    /// Takes the contents out of this storage, leaving an empty one.
    fn take(&mut self) -> (r: Storage)
        ensures
            r == *old(self),
            final(self)@.spans.len() == 0,
    {
        let mut r = Storage::new();
        std::mem::swap(self, &mut r);
        r
    }

    /// Captures a span with the specified call site, values and (optionally) the parent span.
    /// Returns the index of the span, which is the number of previously captured spans.
    pub fn push_span(
        &mut self,
        metadata: CallSiteData,
        values: TracedValues,
        parent_id: Option<usize>,
    ) -> (r: usize)
        requires
            old(self)@.spans.len() < usize::MAX,
            match parent_id {
                Some(p) => p < old(self)@.spans.len(),
                None => true,
            },
        ensures
            r == old(self)@.spans.len(),
            final(self)@.spans == (match parent_id {
                Some(p) => old(self)@.spans.update(
                    p as int,
                    SpanRecord {
                        children: old(self)@.spans[p as int].children.push(r),
                        ..old(self)@.spans[p as int]
                    },
                ),
                None => old(self)@.spans,
            }).push(
                SpanRecord {
                    metadata: metadata@,
                    values: values@,
                    stats: SpanStats { entered: 0, exited: 0, is_closed: false },
                    parent: parent_id,
                    children: Seq::empty(),
                    events: Seq::empty(),
                    follows_from: Seq::empty(),
                },
            ),
            final(self)@.events == old(self)@.events,
            final(self)@.root_spans == (if parent_id is None {
                old(self)@.root_spans.push(r)
            } else {
                old(self)@.root_spans
            }),
            final(self)@.root_events == old(self)@.root_events,
    {
        let this = self.take();
        proof {
            use_type_invariant(&this);
        }
        let ghost v = this@;
        let Storage { mut spans, events, mut root_span_ids, root_event_ids } = this;
        let id = span_arena_len(&spans);
        let ghost new_record = SpanRecord {
            metadata: metadata@,
            values: values@,
            stats: SpanStats { entered: 0, exited: 0, is_closed: false },
            parent: parent_id,
            children: Seq::empty(),
            events: Seq::empty(),
            follows_from: Seq::empty(),
        };
        let inner = CapturedSpanInner {
            metadata,
            values,
            stats: SpanStats { entered: 0, exited: 0, is_closed: false },
            id,
            parent_id,
            child_ids: Vec::new(),
            event_ids: Vec::new(),
            follows_from_ids: Vec::new(),
        };
        assert(span_record(inner) =~= new_record);
        let ghost items0 = span_arena_items(spans);
        let allocated = span_arena_alloc(&mut spans, inner);
        match parent_id {
            Some(p) => {
                let parent = span_arena_get_mut(&mut spans, p);
                parent.child_ids.push(allocated);
            },
            None => {
                root_span_ids.push(allocated);
            },
        }
        proof {
            let w = StorageView {
                spans: span_arena_items(spans).map_values(|s: CapturedSpanInner| span_record(s)),
                events: event_arena_items(events).map_values(|e: CapturedEventInner| event_record(e)),
                root_spans: root_span_ids@,
                root_events: root_event_ids@,
            };
            let expected = (match parent_id {
                Some(p) => v.spans.update(
                    p as int,
                    SpanRecord { children: v.spans[p as int].children.push(id), ..v.spans[p as int] },
                ),
                None => v.spans,
            }).push(new_record);
            assert(w.spans =~= expected);
            assert(w.events == v.events);
            lemma_push_span_wf(v, w, id, parent_id, new_record);
            assert forall|i: int| 0 <= i < span_arena_items(spans).len() implies #[trigger] span_arena_items(
                spans,
            )[i].id == i by {
                if i < id {
                    assert(span_arena_items(spans)[i].id == items0[i].id);
                }
            }
        }
        let r = Storage { spans, events, root_span_ids, root_event_ids };
        *self = r;
        id
    }
}

/// Extending the bound of a listing by one index that satisfies the new predicate appends it.
proof fn lemma_lists_push(s: Seq<usize>, p: spec_fn(int) -> bool, q: spec_fn(int) -> bool, b: usize)
    requires
        lists_exactly(s, p, b as int),
        forall|j: int| 0 <= j < b ==> #[trigger] q(j) == p(j),
        q(b as int),
    ensures
        lists_exactly(s.push(b), q, b + 1),
{
    let t = s.push(b);
    assert forall|j: int| 0 <= j < b + 1 && #[trigger] q(j) implies t.contains(j as usize) by {
        if j < b {
            assert(p(j));
            assert(s.contains(j as usize));
            let k = choose|k: int| 0 <= k < s.len() && s[k] == j as usize;
            assert(t[k] == j as usize);
        } else {
            assert(t[s.len() as int] == j as usize);
        }
    }
    assert forall|a: int| 0 <= a < t.len() implies t[a] < b + 1 && q(t[a] as int) by {
        if a < s.len() {
            assert(p(s[a] as int));
        }
    }
}

/// Extending the bound of a listing by one index that does not satisfy the new predicate
/// keeps the listing.
proof fn lemma_lists_skip(s: Seq<usize>, p: spec_fn(int) -> bool, q: spec_fn(int) -> bool, b: usize)
    requires
        lists_exactly(s, p, b as int),
        forall|j: int| 0 <= j < b ==> #[trigger] q(j) == p(j),
        !q(b as int),
    ensures
        lists_exactly(s, q, b + 1),
{
    assert forall|j: int| 0 <= j < b + 1 && #[trigger] q(j) implies s.contains(j as usize) by {
        assert(p(j));
    }
    assert forall|a: int| 0 <= a < s.len() implies s[a] < b + 1 && q(s[a] as int) by {
        assert(p(s[a] as int));
    }
}

/// A listing stays valid for a predicate that agrees below the bound.
proof fn lemma_lists_same(s: Seq<usize>, p: spec_fn(int) -> bool, q: spec_fn(int) -> bool, b: int)
    requires
        lists_exactly(s, p, b),
        forall|j: int| 0 <= j < b ==> #[trigger] q(j) == p(j),
    ensures
        lists_exactly(s, q, b),
{
    assert forall|j: int| 0 <= j < b && #[trigger] q(j) implies s.contains(j as usize) by {
        assert(p(j));
    }
    assert forall|a: int| 0 <= a < s.len() implies s[a] < b && q(s[a] as int) by {
        assert(p(s[a] as int));
    }
}

/// Capturing a span keeps the structural invariant.
proof fn lemma_push_span_wf(
    v: StorageView,
    w: StorageView,
    id: usize,
    parent_id: Option<usize>,
    rec: SpanRecord,
)
    requires
        storage_wf(v),
        id == v.spans.len(),
        match parent_id {
            Some(p) => p < v.spans.len(),
            None => true,
        },
        rec.parent == parent_id,
        rec.children == Seq::<usize>::empty(),
        rec.events == Seq::<usize>::empty(),
        rec.follows_from == Seq::<usize>::empty(),
        w.events == v.events,
        w.root_events == v.root_events,
        w.spans == (match parent_id {
            Some(p) => v.spans.update(
                p as int,
                SpanRecord { children: v.spans[p as int].children.push(id), ..v.spans[p as int] },
            ),
            None => v.spans,
        }).push(rec),
        w.root_spans == (if parent_id is None {
            v.root_spans.push(id)
        } else {
            v.root_spans
        }),
    ensures
        storage_wf(w),
{
    assert(w.spans.len() == id + 1);
    assert forall|j: int| 0 <= j < id implies #[trigger] w.spans[j].parent == v.spans[j].parent
        && w.spans[j].events == v.spans[j].events
        && w.spans[j].follows_from == v.spans[j].follows_from by {}
    assert(w.spans[id as int] == rec);
    assert forall|i: int| 0 <= i < w.spans.len() implies lists_exactly(
        #[trigger] w.spans[i].children,
        |j: int| w.spans[j].parent == Some(i as usize),
        w.spans.len() as int,
    ) by {
        let q = |j: int| w.spans[j].parent == Some(i as usize);
        if i < id {
            let p = |j: int| v.spans[j].parent == Some(i as usize);
            assert(lists_exactly(v.spans[i].children, p, id as int));
            assert forall|j: int| 0 <= j < id implies #[trigger] q(j) == p(j) by {
                assert(w.spans[j].parent == v.spans[j].parent);
            }
            if parent_id == Some(i as usize) {
                assert(w.spans[i].children == v.spans[i].children.push(id));
                lemma_lists_push(v.spans[i].children, p, q, id);
            } else {
                assert(w.spans[i].children == v.spans[i].children);
                lemma_lists_skip(v.spans[i].children, p, q, id);
            }
        } else {
            assert(i == id);
            assert forall|j: int| 0 <= j < w.spans.len() && #[trigger] q(j) implies w.spans[i].children.contains(
                j as usize,
            ) by {
                if j < id {
                    assert(w.spans[j].parent == v.spans[j].parent);
                }
            }
        }
    }
    assert forall|i: int| 0 <= i < w.spans.len() implies lists_exactly(
        #[trigger] w.spans[i].events,
        |j: int| w.events[j].parent == Some(i as usize),
        w.events.len() as int,
    ) by {
        let q = |j: int| w.events[j].parent == Some(i as usize);
        if i < id {
            let p = |j: int| v.events[j].parent == Some(i as usize);
            assert(lists_exactly(v.spans[i].events, p, v.events.len() as int));
            lemma_lists_same(v.spans[i].events, p, q, v.events.len() as int);
        } else {
            assert forall|j: int| 0 <= j < w.events.len() && #[trigger] q(j) implies w.spans[i].events.contains(
                j as usize,
            ) by {
                assert(v.events[j].parent == Some(i as usize));
            }
        }
    }
    assert forall|i: int| 0 <= i < w.spans.len() implies forall|k: int|
        0 <= k < #[trigger] w.spans[i].follows_from.len() ==> w.spans[i].follows_from[k]
            < w.spans.len() by {
        if i < id {
            assert(w.spans[i].follows_from == v.spans[i].follows_from);
        }
    }
    let pr = |j: int| v.spans[j].parent is None;
    let qr = |j: int| w.spans[j].parent is None;
    assert forall|j: int| 0 <= j < id implies #[trigger] qr(j) == pr(j) by {
        assert(w.spans[j].parent == v.spans[j].parent);
    }
    if parent_id is None {
        lemma_lists_push(v.root_spans, pr, qr, id);
    } else {
        lemma_lists_skip(v.root_spans, pr, qr, id);
    }
    assert forall|i: int| 0 <= i < w.spans.len() implies match #[trigger] w.spans[i].parent {
        Some(p) => p < i,
        None => true,
    } by {
        if i < id {
            assert(w.spans[i].parent == v.spans[i].parent);
        }
    }
}

/// Keeping the parents, children and event lists of all spans keeps the structural invariant,
/// provided the follows-from lists still point to captured spans.
proof fn lemma_same_structure(v: StorageView, w: StorageView)
    requires
        storage_wf(v),
        w.events == v.events,
        w.root_spans == v.root_spans,
        w.root_events == v.root_events,
        w.spans.len() == v.spans.len(),
        forall|i: int| 0 <= i < v.spans.len() ==> #[trigger] w.spans[i].parent == v.spans[i].parent,
        forall|i: int|
            0 <= i < v.spans.len() ==> #[trigger] w.spans[i].children == v.spans[i].children,
        forall|i: int| 0 <= i < v.spans.len() ==> #[trigger] w.spans[i].events == v.spans[i].events,
        forall|i: int, k: int|
            0 <= i < w.spans.len() && 0 <= k < w.spans[i].follows_from.len()
                ==> #[trigger] w.spans[i].follows_from[k] < w.spans.len(),
    ensures
        storage_wf(w),
{
    let n = v.spans.len() as int;
    assert forall|i: int| 0 <= i < w.spans.len() implies lists_exactly(
        #[trigger] w.spans[i].children,
        |j: int| w.spans[j].parent == Some(i as usize),
        n,
    ) by {
        let p = |j: int| v.spans[j].parent == Some(i as usize);
        let q = |j: int| w.spans[j].parent == Some(i as usize);
        assert(lists_exactly(v.spans[i].children, p, n));
        assert(w.spans[i].children == v.spans[i].children);
        assert forall|j: int| 0 <= j < n implies #[trigger] q(j) == p(j) by {
            assert(w.spans[j].parent == v.spans[j].parent);
        }
        lemma_lists_same(v.spans[i].children, p, q, n);
    }
    assert forall|i: int| 0 <= i < w.spans.len() implies lists_exactly(
        #[trigger] w.spans[i].events,
        |j: int| w.events[j].parent == Some(i as usize),
        w.events.len() as int,
    ) by {
        assert(w.spans[i].events == v.spans[i].events);
    }
    let pr = |j: int| v.spans[j].parent is None;
    let qr = |j: int| w.spans[j].parent is None;
    assert forall|j: int| 0 <= j < n implies #[trigger] qr(j) == pr(j) by {
        assert(w.spans[j].parent == v.spans[j].parent);
    }
    lemma_lists_same(v.root_spans, pr, qr, n);
    assert forall|i: int| 0 <= i < w.spans.len() implies match #[trigger] w.spans[i].parent {
        Some(p) => p < i,
        None => true,
    } by {
        assert(w.spans[i].parent == v.spans[i].parent);
    }
    assert forall|e: int| 0 <= e < w.events.len() implies match #[trigger] w.events[e].parent {
        Some(p) => p < w.spans.len(),
        None => true,
    } by {
        assert(w.events[e] == v.events[e]);
    }
}

impl Storage {
    /// The storage view with the span at the specified index replaced.
    pub open spec fn updated(v: StorageView, id: usize, rec: SpanRecord) -> StorageView {
        StorageView { spans: v.spans.update(id as int, rec), ..v }
    }

    /// Records that the span with the specified index was entered.
    pub fn on_span_enter(&mut self, id: usize)
        requires
            id < old(self)@.spans.len(),
            old(self)@.spans[id as int].stats.entered < usize::MAX,
        ensures
            final(self)@ == Self::updated(
                old(self)@,
                id,
                SpanRecord {
                    stats: SpanStats {
                        entered: (old(self)@.spans[id as int].stats.entered + 1) as usize,
                        ..old(self)@.spans[id as int].stats
                    },
                    ..old(self)@.spans[id as int]
                },
            ),
    {
        let this = self.take();
        proof {
            use_type_invariant(&this);
        }
        let ghost v = this@;
        let Storage { mut spans, events, root_span_ids, root_event_ids } = this;
        let ghost items0 = span_arena_items(spans);
        let span = span_arena_get_mut(&mut spans, id);
        span.stats.entered = span.stats.entered + 1;
        proof {
            Self::lemma_span_update(v, items0, span_arena_items(spans), events, root_span_ids@, root_event_ids@, id);
        }
        *self = Storage { spans, events, root_span_ids, root_event_ids };
    }

    /// Records that the span with the specified index was exited.
    pub fn on_span_exit(&mut self, id: usize)
        requires
            id < old(self)@.spans.len(),
            old(self)@.spans[id as int].stats.exited < usize::MAX,
        ensures
            final(self)@ == Self::updated(
                old(self)@,
                id,
                SpanRecord {
                    stats: SpanStats {
                        exited: (old(self)@.spans[id as int].stats.exited + 1) as usize,
                        ..old(self)@.spans[id as int].stats
                    },
                    ..old(self)@.spans[id as int]
                },
            ),
    {
        let this = self.take();
        proof {
            use_type_invariant(&this);
        }
        let ghost v = this@;
        let Storage { mut spans, events, root_span_ids, root_event_ids } = this;
        let ghost items0 = span_arena_items(spans);
        let span = span_arena_get_mut(&mut spans, id);
        span.stats.exited = span.stats.exited + 1;
        proof {
            Self::lemma_span_update(v, items0, span_arena_items(spans), events, root_span_ids@, root_event_ids@, id);
        }
        *self = Storage { spans, events, root_span_ids, root_event_ids };
    }

    /// Records that the span with the specified index was closed.
    pub fn on_span_closed(&mut self, id: usize)
        requires
            id < old(self)@.spans.len(),
        ensures
            final(self)@ == Self::updated(
                old(self)@,
                id,
                SpanRecord {
                    stats: SpanStats { is_closed: true, ..old(self)@.spans[id as int].stats },
                    ..old(self)@.spans[id as int]
                },
            ),
    {
        let this = self.take();
        proof {
            use_type_invariant(&this);
        }
        let ghost v = this@;
        let Storage { mut spans, events, root_span_ids, root_event_ids } = this;
        let ghost items0 = span_arena_items(spans);
        let span = span_arena_get_mut(&mut spans, id);
        span.stats.is_closed = true;
        proof {
            Self::lemma_span_update(v, items0, span_arena_items(spans), events, root_span_ids@, root_event_ids@, id);
        }
        *self = Storage { spans, events, root_span_ids, root_event_ids };
    }

    /// Records values for the span with the specified index; values with the names already
    /// present are overwritten in place.
    pub fn on_record(&mut self, id: usize, values: TracedValues)
        requires
            id < old(self)@.spans.len(),
        ensures
            final(self)@ == Self::updated(
                old(self)@,
                id,
                SpanRecord {
                    values: insert_all(old(self)@.spans[id as int].values, values@),
                    ..old(self)@.spans[id as int]
                },
            ),
    {
        let this = self.take();
        proof {
            use_type_invariant(&this);
        }
        let ghost v = this@;
        let Storage { mut spans, events, root_span_ids, root_event_ids } = this;
        let ghost items0 = span_arena_items(spans);
        let pairs = values.into_inner();
        let span = span_arena_get_mut(&mut spans, id);
        span.values.extend(pairs);
        proof {
            Self::lemma_span_update(v, items0, span_arena_items(spans), events, root_span_ids@, root_event_ids@, id);
        }
        *self = Storage { spans, events, root_span_ids, root_event_ids };
    }

    /// Records that the span with index `id` follows from the span with index `follows_id`.
    pub fn on_follows_from(&mut self, id: usize, follows_id: usize)
        requires
            id < old(self)@.spans.len(),
            follows_id < old(self)@.spans.len(),
        ensures
            final(self)@ == Self::updated(
                old(self)@,
                id,
                SpanRecord {
                    follows_from: old(self)@.spans[id as int].follows_from.push(follows_id),
                    ..old(self)@.spans[id as int]
                },
            ),
    {
        let this = self.take();
        proof {
            use_type_invariant(&this);
        }
        let ghost v = this@;
        let Storage { mut spans, events, root_span_ids, root_event_ids } = this;
        let ghost items0 = span_arena_items(spans);
        let span = span_arena_get_mut(&mut spans, id);
        span.follows_from_ids.push(follows_id);
        proof {
            Self::lemma_span_update(v, items0, span_arena_items(spans), events, root_span_ids@, root_event_ids@, id);
        }
        *self = Storage { spans, events, root_span_ids, root_event_ids };
    }

    /// Replacing one span of a valid storage by one with the same ID, parent, children and
    /// events, and follows-from links to captured spans, gives a valid storage whose view
    /// differs in that span alone.
    proof fn lemma_span_update(
        v: StorageView,
        items0: Seq<CapturedSpanInner>,
        items1: Seq<CapturedSpanInner>,
        events: Arena<CapturedEventInner>,
        root_spans: Seq<usize>,
        root_events: Seq<usize>,
        id: usize,
    )
        requires
            storage_wf(v),
            v == (StorageView {
                spans: items0.map_values(|s: CapturedSpanInner| span_record(s)),
                events: event_arena_items(events).map_values(|e: CapturedEventInner| event_record(e)),
                root_spans: root_spans,
                root_events: root_events,
            }),
            forall|i: int| 0 <= i < items0.len() ==> #[trigger] items0[i].id == i,
            id < items0.len(),
            items1 == items0.update(id as int, items1[id as int]),
            items1[id as int].id == items0[id as int].id,
            items1[id as int].parent_id == items0[id as int].parent_id,
            items1[id as int].child_ids@ == items0[id as int].child_ids@,
            items1[id as int].event_ids@ == items0[id as int].event_ids@,
            forall|k: int|
                0 <= k < items1[id as int].follows_from_ids@.len()
                    ==> #[trigger] items1[id as int].follows_from_ids@[k] < items0.len(),
        ensures
            ({
                let w = StorageView {
                    spans: items1.map_values(|s: CapturedSpanInner| span_record(s)),
                    events: event_arena_items(events).map_values(|e: CapturedEventInner| event_record(e)),
                    root_spans: root_spans,
                    root_events: root_events,
                };
                &&& storage_wf(w)
                &&& w == Self::updated(v, id, span_record(items1[id as int]))
            }),
            forall|i: int| 0 <= i < items1.len() ==> #[trigger] items1[i].id == i,
    {
        let w = StorageView {
            spans: items1.map_values(|s: CapturedSpanInner| span_record(s)),
            events: event_arena_items(events).map_values(|e: CapturedEventInner| event_record(e)),
            root_spans: root_spans,
            root_events: root_events,
        };
        assert(w.spans =~= v.spans.update(id as int, span_record(items1[id as int])));
        assert forall|i: int, k: int|
            0 <= i < w.spans.len() && 0 <= k < w.spans[i].follows_from.len()
                implies #[trigger] w.spans[i].follows_from[k] < w.spans.len() by {
            if i != id {
                assert(w.spans[i] == v.spans[i]);
            }
        }
        lemma_same_structure(v, w);
        assert forall|i: int| 0 <= i < items1.len() implies #[trigger] items1[i].id == i by {
            if i != id {
                assert(items1[i] == items0[i]);
            }
        }
    }
}

impl Storage {
    /// Captures an event with the specified call site, values and (optionally) the parent span.
    /// Returns the index of the event, which is the number of previously captured events.
    pub fn push_event(
        &mut self,
        metadata: CallSiteData,
        values: TracedValues,
        parent_id: Option<usize>,
    ) -> (r: usize)
        requires
            old(self)@.events.len() < usize::MAX,
            match parent_id {
                Some(p) => p < old(self)@.spans.len(),
                None => true,
            },
        ensures
            r == old(self)@.events.len(),
            final(self)@.events == old(self)@.events.push(
                EventRecord { metadata: metadata@, values: values@, parent: parent_id },
            ),
            final(self)@.spans == (match parent_id {
                Some(p) => old(self)@.spans.update(
                    p as int,
                    SpanRecord {
                        events: old(self)@.spans[p as int].events.push(r),
                        ..old(self)@.spans[p as int]
                    },
                ),
                None => old(self)@.spans,
            }),
            final(self)@.root_spans == old(self)@.root_spans,
            final(self)@.root_events == (if parent_id is None {
                old(self)@.root_events.push(r)
            } else {
                old(self)@.root_events
            }),
    {
        let this = self.take();
        proof {
            use_type_invariant(&this);
        }
        let ghost v = this@;
        let Storage { mut spans, mut events, root_span_ids, mut root_event_ids } = this;
        let id = event_arena_len(&events);
        let ghost new_record = EventRecord { metadata: metadata@, values: values@, parent: parent_id };
        let inner = CapturedEventInner { metadata, values, id, parent_id };
        assert(event_record(inner) == new_record);
        let ghost span_items0 = span_arena_items(spans);
        let ghost event_items0 = event_arena_items(events);
        let allocated = event_arena_alloc(&mut events, inner);
        match parent_id {
            Some(p) => {
                let parent = span_arena_get_mut(&mut spans, p);
                parent.event_ids.push(allocated);
            },
            None => {
                root_event_ids.push(allocated);
            },
        }
        proof {
            let w = StorageView {
                spans: span_arena_items(spans).map_values(|s: CapturedSpanInner| span_record(s)),
                events: event_arena_items(events).map_values(|e: CapturedEventInner| event_record(e)),
                root_spans: root_span_ids@,
                root_events: root_event_ids@,
            };
            let expected_spans = match parent_id {
                Some(p) => v.spans.update(
                    p as int,
                    SpanRecord { events: v.spans[p as int].events.push(id), ..v.spans[p as int] },
                ),
                None => v.spans,
            };
            assert(w.spans =~= expected_spans);
            assert(w.events =~= v.events.push(new_record));
            lemma_push_event_wf(v, w, id, parent_id, new_record);
            assert forall|i: int| 0 <= i < span_arena_items(spans).len() implies #[trigger] span_arena_items(
                spans,
            )[i].id == i by {
                assert(span_arena_items(spans)[i].id == span_items0[i].id);
            }
            assert forall|i: int| 0 <= i < event_arena_items(events).len() implies #[trigger] event_arena_items(
                events,
            )[i].id == i by {
                if i < id {
                    assert(event_arena_items(events)[i] == event_items0[i]);
                }
            }
        }
        *self = Storage { spans, events, root_span_ids, root_event_ids };
        id
    }
}

/// Capturing an event keeps the structural invariant.
proof fn lemma_push_event_wf(
    v: StorageView,
    w: StorageView,
    id: usize,
    parent_id: Option<usize>,
    rec: EventRecord,
)
    requires
        storage_wf(v),
        v.spans.len() <= usize::MAX,
        id == v.events.len(),
        match parent_id {
            Some(p) => p < v.spans.len(),
            None => true,
        },
        rec.parent == parent_id,
        w.events == v.events.push(rec),
        w.root_spans == v.root_spans,
        w.spans == (match parent_id {
            Some(p) => v.spans.update(
                p as int,
                SpanRecord { events: v.spans[p as int].events.push(id), ..v.spans[p as int] },
            ),
            None => v.spans,
        }),
        w.root_events == (if parent_id is None {
            v.root_events.push(id)
        } else {
            v.root_events
        }),
    ensures
        storage_wf(w),
{
    let n = v.spans.len() as int;
    assert forall|i: int| 0 <= i < n implies #[trigger] w.spans[i].parent == v.spans[i].parent
        && w.spans[i].children == v.spans[i].children
        && w.spans[i].follows_from == v.spans[i].follows_from by {}
    assert forall|j: int| 0 <= j < id implies #[trigger] w.events[j] == v.events[j] by {}
    assert forall|i: int| 0 <= i < w.spans.len() implies lists_exactly(
        #[trigger] w.spans[i].children,
        |j: int| w.spans[j].parent == Some(i as usize),
        n,
    ) by {
        let p = |j: int| v.spans[j].parent == Some(i as usize);
        let q = |j: int| w.spans[j].parent == Some(i as usize);
        assert(lists_exactly(v.spans[i].children, p, n));
        assert(w.spans[i].children == v.spans[i].children);
        assert forall|j: int| 0 <= j < n implies #[trigger] q(j) == p(j) by {
            assert(w.spans[j].parent == v.spans[j].parent);
        }
        lemma_lists_same(v.spans[i].children, p, q, n);
    }
    assert forall|i: int| 0 <= i < w.spans.len() implies lists_exactly(
        #[trigger] w.spans[i].events,
        |j: int| w.events[j].parent == Some(i as usize),
        w.events.len() as int,
    ) by {
        let p = |j: int| v.events[j].parent == Some(i as usize);
        let q = |j: int| w.events[j].parent == Some(i as usize);
        assert(lists_exactly(v.spans[i].events, p, id as int));
        assert forall|j: int| 0 <= j < id implies #[trigger] q(j) == p(j) by {
            assert(w.events[j] == v.events[j]);
        }
        if parent_id is Some && parent_id->0 as int == i {
            assert(w.spans[i].events == v.spans[i].events.push(id));
            lemma_lists_push(v.spans[i].events, p, q, id);
        } else {
            assert(w.spans[i].events == v.spans[i].events);
            lemma_lists_skip(v.spans[i].events, p, q, id);
        }
    }
    assert forall|i: int| 0 <= i < w.spans.len() implies forall|k: int|
        0 <= k < #[trigger] w.spans[i].follows_from.len() ==> w.spans[i].follows_from[k]
            < w.spans.len() by {
        assert(w.spans[i].follows_from == v.spans[i].follows_from);
    }
    let pr = |j: int| v.spans[j].parent is None;
    let qr = |j: int| w.spans[j].parent is None;
    assert forall|j: int| 0 <= j < n implies #[trigger] qr(j) == pr(j) by {
        assert(w.spans[j].parent == v.spans[j].parent);
    }
    lemma_lists_same(v.root_spans, pr, qr, n);
    let pe = |j: int| v.events[j].parent is None;
    let qe = |j: int| w.events[j].parent is None;
    assert forall|j: int| 0 <= j < id implies #[trigger] qe(j) == pe(j) by {
        assert(w.events[j] == v.events[j]);
    }
    if parent_id is None {
        lemma_lists_push(v.root_events, pe, qe, id);
    } else {
        lemma_lists_skip(v.root_events, pe, qe, id);
    }
    assert forall|i: int| 0 <= i < w.spans.len() implies match #[trigger] w.spans[i].parent {
        Some(p) => p < i,
        None => true,
    } by {
        assert(w.spans[i].parent == v.spans[i].parent);
    }
    assert forall|e: int| 0 <= e < w.events.len() implies match #[trigger] w.events[e].parent {
        Some(p) => p < w.spans.len(),
        None => true,
    } by {
        if e < id {
            assert(w.events[e] == v.events[e]);
        }
    }
}

/// Ancestors reached from an optional parent, starting from that parent and following parent
/// links up to a root span.
pub open spec fn ancestor_chain(v: StorageView, parent: Option<usize>) -> Seq<usize>
    decreases (match parent {
        Some(p) => p + 1,
        None => 0,
    }),
{
    match parent {
        Some(p) => if p < v.spans.len() && (match v.spans[p as int].parent {
            Some(q) => q < p,
            None => true,
        }) {
            seq![p] + ancestor_chain(v, v.spans[p as int].parent)
        } else {
            seq![p]
        },
        None => Seq::empty(),
    }
}

/// Depth-first listing of the spans in the subtrees rooted at `roots` (children of the span
/// `above`): each root is followed by its own descendants.
pub open spec fn subtree_list(v: StorageView, roots: Seq<usize>, above: int) -> Seq<usize>
    decreases v.spans.len() - above, 0int, roots.len(),
{
    if roots.len() == 0 {
        Seq::empty()
    } else {
        let head = roots[0];
        let below = if above < head < v.spans.len() {
            descendants_of(v, head as int)
        } else {
            Seq::empty()
        };
        seq![head] + below + subtree_list(v, roots.drop_first(), above)
    }
}

/// Depth-first listing of the descendants of a span, children in the order of capture.
pub open spec fn descendants_of(v: StorageView, i: int) -> Seq<usize>
    decreases v.spans.len() - i, 1int, 0int,
{
    if 0 <= i < v.spans.len() {
        subtree_list(v, v.spans[i].children, i)
    } else {
        Seq::empty()
    }
}

/// Events attached to the listed spans, span after span.
pub open spec fn events_of_spans(v: StorageView, ids: Seq<usize>) -> Seq<usize>
    decreases ids.len(),
{
    if ids.len() == 0 {
        Seq::empty()
    } else {
        events_of_spans(v, ids.drop_last()) + v.spans[ids.last() as int].events
    }
}

/// Pending part of a depth-first walk: for each layer from the top of the stack, the
/// subtrees of the not yet visited children.
spec fn pending(v: StorageView, layers: Seq<(usize, usize)>) -> Seq<usize>
    decreases layers.len(),
{
    if layers.len() == 0 {
        Seq::empty()
    } else {
        let (p, k) = layers.last();
        subtree_list(v, v.spans[p as int].children.skip(k as int), p as int) + pending(
            v,
            layers.drop_last(),
        )
    }
}

/// Captured tracing span: a reference into a [`Storage`].
#[derive(Debug, Clone, Copy)]
pub struct CapturedSpan<'a> {
    storage: &'a Storage,
    index: usize,
}

/// Captured tracing event: a reference into a [`Storage`].
#[derive(Debug, Clone, Copy)]
pub struct CapturedEvent<'a> {
    storage: &'a Storage,
    index: usize,
}

/// The handles refer, in order, to the spans of `v` with the listed indices.
pub open spec fn spans_at(r: Seq<CapturedSpan>, v: StorageView, ids: Seq<usize>) -> bool {
    &&& r.len() == ids.len()
    &&& forall|k: int|
        0 <= k < r.len() ==> (#[trigger] r[k]).storage_view() == v && r[k].position() == ids[k]
}

/// The handles refer, in order, to the events of `v` with the listed indices.
pub open spec fn events_at(r: Seq<CapturedEvent>, v: StorageView, ids: Seq<usize>) -> bool {
    &&& r.len() == ids.len()
    &&& forall|k: int|
        0 <= k < r.len() ==> (#[trigger] r[k]).storage_view() == v && r[k].position() == ids[k]
}

impl<'a> CapturedSpan<'a> {
    #[verifier::type_invariant]
    closed spec fn inv(&self) -> bool {
        &&& self.index < self.storage@.spans.len()
        &&& storage_wf(self.storage@)
    }

    /// View of the storage that the span belongs to.
    pub closed spec fn storage_view(&self) -> StorageView {
        self.storage@
    }

    /// Index of the span in its storage, i.e., its position in the capture order.
    pub closed spec fn position(&self) -> usize {
        self.index
    }

    /// Record of this span.
    pub open spec fn record_view(&self) -> SpanRecord {
        self.storage_view().spans[self.position() as int]
    }

    /// Call site data of this span.
    pub closed spec fn call_site_data(&self) -> CallSiteData {
        span_arena_items(self.storage.spans)[self.index as int].metadata
    }

    /// Handle of the span with the specified index in the same storage.
    pub closed spec fn span_at(&self, index: usize) -> CapturedSpan<'a> {
        CapturedSpan { storage: self.storage, index }
    }

    /// Handles of the ancestor spans, starting from the direct parent.
    pub open spec fn ancestor_spans(&self) -> Seq<CapturedSpan<'a>> {
        ancestor_chain(self.storage_view(), self.record_view().parent).map_values(
            |i: usize| self.span_at(i),
        )
    }

    /// Handle of the parent span, if any.
    pub open spec fn parent_span(&self) -> Option<CapturedSpan<'a>> {
        match self.record_view().parent {
            Some(p) => Some(self.span_at(p)),
            None => None,
        }
    }

    /// A handle of a span in the same storage refers to that storage and index.
    pub proof fn lemma_span_at(&self, index: usize)
        ensures
            self.span_at(index).storage_view() == self.storage_view(),
            self.span_at(index).position() == index,
    {
    }

    /// Index of the span in its storage, i.e., its position in the capture order.
    pub fn id(&self) -> (r: usize)
        ensures
            r == self.position(),
            r < self.storage_view().spans.len(),
            storage_wf(self.storage_view()),
    {
        proof {
            use_type_invariant(self);
        }
        self.index
    }

    fn inner(&self) -> (r: &'a CapturedSpanInner)
        ensures
            span_record(*r) == self.record_view(),
            r.id == self.position(),
            r.metadata == self.call_site_data(),
    {
        proof {
            use_type_invariant(self);
            use_type_invariant(self.storage);
        }
        span_arena_get(&self.storage.spans, self.index)
    }

    /// Provides a reference to the span call site.
    pub fn metadata(&self) -> (r: &'a CallSiteData)
        ensures
            r@ == self.record_view().metadata,
            *r == self.call_site_data(),
    {
        &self.inner().metadata
    }

    /// Returns the values that the span was created with, or which were recorded later.
    pub fn values(&self) -> (r: &'a [(String, TracedValue)])
        ensures
            r@.map_values(|e: (String, TracedValue)| entry_view(e)) == self.record_view().values,
    {
        self.inner().values.iter()
    }

    /// Returns a value for the specified field, or `None` if the value is not defined.
    pub fn value(&self, name: &str) -> (r: Option<&'a TracedValue>)
        ensures
            match value_of(self.record_view().values, name@) {
                Some(v) => r is Some && *r->0 == v,
                None => r is None,
            },
    {
        self.inner().values.get(name)
    }

    /// Returns the value of the specified field, which must be defined.
    pub fn index(&self, name: &str) -> (r: &'a TracedValue)
        requires
            has_name(self.record_view().values, name@),
        ensures
            value_of(self.record_view().values, name@) == Some(*r),
    {
        self.inner().values.index(name)
    }

    /// Returns statistics about span operations.
    pub fn stats(&self) -> (r: SpanStats)
        ensures
            r == self.record_view().stats,
    {
        self.inner().stats
    }

    /// Returns events attached to this span, in the order of capture.
    pub fn events(&self) -> (r: Vec<CapturedEvent<'a>>)
        ensures
            events_at(r@, self.storage_view(), self.record_view().events),
    {
        proof {
            use_type_invariant(self);
        }
        let inner = self.inner();
        proof {
            let v = self.storage_view();
            let i = self.position() as int;
            assert(lists_exactly(
                v.spans[i].events,
                |j: int| v.events[j].parent == Some(i as usize),
                v.events.len() as int,
            ));
            assert(inner.event_ids@ == v.spans[i].events);
        }
        self.storage.events_by_ids(&inner.event_ids)
    }

    /// Returns the parent span, if it was captured.
    pub fn parent(&self) -> (r: Option<CapturedSpan<'a>>)
        ensures
            r == self.parent_span(),
            match self.record_view().parent {
                Some(p) => r is Some && r->0.storage_view() == self.storage_view()
                    && r->0.position() == p,
                None => r is None,
            },
    {
        proof {
            use_type_invariant(self);
        }
        match self.inner().parent_id {
            Some(p) => Some(CapturedSpan { storage: self.storage, index: p }),
            None => None,
        }
    }

    /// Returns the ancestor spans, starting from the direct parent and ending in a root span.
    pub fn ancestors(&self) -> (r: Vec<CapturedSpan<'a>>)
        ensures
            spans_at(r@, self.storage_view(), ancestor_chain(self.storage_view(), self.record_view().parent)),
            r@ == self.ancestor_spans(),
    {
        proof {
            use_type_invariant(self);
        }
        let r = self.storage.ancestors_from(self.inner().parent_id);
        proof {
            let chain = ancestor_chain(self.storage_view(), self.record_view().parent);
            assert forall|k: int| 0 <= k < r@.len() implies r@[k] == self.span_at(chain[k]) by {
                assert(r@[k].storage == self.storage);
            }
            assert(r@ =~= self.ancestor_spans());
        }
        r
    }

    /// Returns the direct children of this span, in the order of their capture.
    pub fn children(&self) -> (r: Vec<CapturedSpan<'a>>)
        ensures
            spans_at(r@, self.storage_view(), self.record_view().children),
    {
        proof {
            use_type_invariant(self);
        }
        let inner = self.inner();
        proof {
            let v = self.storage_view();
            let i = self.position() as int;
            assert(lists_exactly(
                v.spans[i].children,
                |j: int| v.spans[j].parent == Some(i as usize),
                v.spans.len() as int,
            ));
            assert(inner.child_ids@ == v.spans[i].children);
        }
        self.storage.spans_by_ids(&inner.child_ids)
    }

    /// Returns the descendants of this span, depth-first: each child, in the order of capture,
    /// is followed by its own descendants.
    pub fn descendants(&self) -> (r: Vec<CapturedSpan<'a>>)
        ensures
            spans_at(r@, self.storage_view(), descendants_of(self.storage_view(), self.position() as int)),
    {
        proof {
            use_type_invariant(self);
        }
        self.storage.descendants_of_span(self.index)
    }

    /// Returns the events attached to this span and then those attached to its descendants,
    /// in the order of [`Self::descendants()`].
    pub fn descendant_events(&self) -> (r: Vec<CapturedEvent<'a>>)
        ensures
            events_at(
                r@,
                self.storage_view(),
                self.record_view().events + events_of_spans(
                    self.storage_view(),
                    descendants_of(self.storage_view(), self.position() as int),
                ),
            ),
    {
        proof {
            use_type_invariant(self);
        }
        let descendants = self.descendants();
        let mut r = self.events();
        let ghost v = self.storage_view();
        let ghost ids = descendants_of(v, self.index as int);
        let ghost own = self.record_view().events;
        let mut k: usize = 0;
        while k < descendants.len()
            invariant
                spans_at(descendants@, v, ids),
                k <= descendants.len(),
                events_at(r@, v, own + events_of_spans(v, ids.take(k as int))),
            decreases descendants.len() - k,
        {
            let events = descendants[k].events();
            let ghost before = r@;
            let mut j: usize = 0;
            while j < events.len()
                invariant
                    events_at(events@, v, v.spans[ids[k as int] as int].events),
                    j <= events.len(),
                    r@ == before + events@.take(j as int),
                decreases events.len() - j,
            {
                r.push(events[j]);
                j += 1;
                assert(r@ =~= before + events@.take(j as int));
            }
            proof {
                assert(events@.take(j as int) =~= events@);
                assert(ids.take(k + 1).drop_last() =~= ids.take(k as int));
                let target = own + events_of_spans(v, ids.take(k + 1));
                assert(target =~= own + events_of_spans(v, ids.take(k as int)) + v.spans[ids[k as int] as int].events);
                assert forall|m: int| 0 <= m < r@.len() implies (#[trigger] r@[m]).storage_view() == v
                    && r@[m].position() == target[m] by {
                    if m < before.len() {
                        assert(r@[m] == before[m]);
                    } else {
                        assert(r@[m] == events@[m - before.len()]);
                    }
                }
            }
            k += 1;
        }
        proof {
            assert(ids.take(k as int) =~= ids);
        }
        r
    }
}

impl<'a> CapturedEvent<'a> {
    #[verifier::type_invariant]
    closed spec fn inv(&self) -> bool {
        &&& self.index < self.storage@.events.len()
        &&& storage_wf(self.storage@)
    }

    /// View of the storage that the event belongs to.
    pub closed spec fn storage_view(&self) -> StorageView {
        self.storage@
    }

    /// Index of the event in its storage, i.e., its position in the capture order.
    pub closed spec fn position(&self) -> usize {
        self.index
    }

    /// Record of this event.
    pub open spec fn record_view(&self) -> EventRecord {
        self.storage_view().events[self.position() as int]
    }

    /// Call site data of this event.
    pub closed spec fn call_site_data(&self) -> CallSiteData {
        event_arena_items(self.storage.events)[self.index as int].metadata
    }

    /// Handle of the span with the specified index in the same storage.
    pub closed spec fn span_at(&self, index: usize) -> CapturedSpan<'a> {
        CapturedSpan { storage: self.storage, index }
    }

    /// Handles of the ancestor spans, starting from the direct parent.
    pub open spec fn ancestor_spans(&self) -> Seq<CapturedSpan<'a>> {
        ancestor_chain(self.storage_view(), self.record_view().parent).map_values(
            |i: usize| self.span_at(i),
        )
    }

    /// Handle of the parent span, if any.
    pub open spec fn parent_span(&self) -> Option<CapturedSpan<'a>> {
        match self.record_view().parent {
            Some(p) => Some(self.span_at(p)),
            None => None,
        }
    }

    /// A handle of a span in the same storage refers to that storage and index.
    pub proof fn lemma_span_at(&self, index: usize)
        ensures
            self.span_at(index).storage_view() == self.storage_view(),
            self.span_at(index).position() == index,
    {
    }

    /// Index of the event in its storage, i.e., its position in the capture order.
    pub fn id(&self) -> (r: usize)
        ensures
            r == self.position(),
            r < self.storage_view().events.len(),
            storage_wf(self.storage_view()),
    {
        proof {
            use_type_invariant(self);
        }
        self.index
    }

    fn inner(&self) -> (r: &'a CapturedEventInner)
        ensures
            event_record(*r) == self.record_view(),
            r.metadata == self.call_site_data(),
    {
        proof {
            use_type_invariant(self);
            use_type_invariant(self.storage);
        }
        event_arena_get(&self.storage.events, self.index)
    }

    /// Provides a reference to the event call site.
    pub fn metadata(&self) -> (r: &'a CallSiteData)
        ensures
            r@ == self.record_view().metadata,
            *r == self.call_site_data(),
    {
        &self.inner().metadata
    }

    /// Returns the values of the event.
    pub fn values(&self) -> (r: &'a [(String, TracedValue)])
        ensures
            r@.map_values(|e: (String, TracedValue)| entry_view(e)) == self.record_view().values,
    {
        self.inner().values.iter()
    }

    /// Returns a value for the specified field, or `None` if the value is not defined.
    pub fn value(&self, name: &str) -> (r: Option<&'a TracedValue>)
        ensures
            match value_of(self.record_view().values, name@) {
                Some(v) => r is Some && *r->0 == v,
                None => r is None,
            },
    {
        self.inner().values.get(name)
    }

    /// Returns the value of the specified field, which must be defined.
    pub fn index(&self, name: &str) -> (r: &'a TracedValue)
        requires
            has_name(self.record_view().values, name@),
        ensures
            value_of(self.record_view().values, name@) == Some(*r),
    {
        self.inner().values.index(name)
    }

    /// Returns the parent span for this event, or `None` if is not tied to a captured span.
    pub fn parent(&self) -> (r: Option<CapturedSpan<'a>>)
        ensures
            r == self.parent_span(),
            match self.record_view().parent {
                Some(p) => r is Some && r->0.storage_view() == self.storage_view()
                    && r->0.position() == p,
                None => r is None,
            },
    {
        proof {
            use_type_invariant(self);
        }
        match self.inner().parent_id {
            Some(p) => Some(CapturedSpan { storage: self.storage, index: p }),
            None => None,
        }
    }

    /// Returns the ancestor spans, starting from the direct parent and ending in a root span.
    pub fn ancestors(&self) -> (r: Vec<CapturedSpan<'a>>)
        ensures
            spans_at(r@, self.storage_view(), ancestor_chain(self.storage_view(), self.record_view().parent)),
            r@ == self.ancestor_spans(),
    {
        proof {
            use_type_invariant(self);
        }
        let r = self.storage.ancestors_from(self.inner().parent_id);
        proof {
            let chain = ancestor_chain(self.storage_view(), self.record_view().parent);
            assert forall|k: int| 0 <= k < r@.len() implies r@[k] == self.span_at(chain[k]) by {
                assert(r@[k].storage == self.storage);
            }
            assert(r@ =~= self.ancestor_spans());
        }
        r
    }
}

impl Storage {
    /// Number of captured spans.
    pub fn span_count(&self) -> (r: usize)
        ensures
            r == self@.spans.len(),
    {
        span_arena_len(&self.spans)
    }

    /// Number of captured events.
    pub fn event_count(&self) -> (r: usize)
        ensures
            r == self@.events.len(),
    {
        event_arena_len(&self.events)
    }

    /// Returns the span with the specified index.
    pub fn span(&self, id: usize) -> (r: CapturedSpan<'_>)
        requires
            id < self@.spans.len(),
        ensures
            r.storage_view() == self@,
            r.position() == id,
    {
        proof {
            use_type_invariant(self);
        }
        CapturedSpan { storage: self, index: id }
    }

    /// Returns the event with the specified index.
    pub fn event(&self, id: usize) -> (r: CapturedEvent<'_>)
        requires
            id < self@.events.len(),
        ensures
            r.storage_view() == self@,
            r.position() == id,
    {
        proof {
            use_type_invariant(self);
        }
        CapturedEvent { storage: self, index: id }
    }

    fn spans_by_ids(&self, ids: &Vec<usize>) -> (r: Vec<CapturedSpan<'_>>)
        requires
            forall|k: int| 0 <= k < ids.len() ==> #[trigger] ids[k] < self@.spans.len(),
        ensures
            spans_at(r@, self@, ids@),
    {
        let mut r: Vec<CapturedSpan<'_>> = Vec::new();
        let mut k: usize = 0;
        while k < ids.len()
            invariant
                k <= ids.len(),
                forall|m: int| 0 <= m < ids.len() ==> #[trigger] ids[m] < self@.spans.len(),
                spans_at(r@, self@, ids@.take(k as int)),
            decreases ids.len() - k,
        {
            r.push(self.span(ids[k]));
            k += 1;
        }
        assert(ids@.take(k as int) =~= ids@);
        r
    }

    fn events_by_ids(&self, ids: &Vec<usize>) -> (r: Vec<CapturedEvent<'_>>)
        requires
            forall|k: int| 0 <= k < ids.len() ==> #[trigger] ids[k] < self@.events.len(),
        ensures
            events_at(r@, self@, ids@),
    {
        let mut r: Vec<CapturedEvent<'_>> = Vec::new();
        let mut k: usize = 0;
        while k < ids.len()
            invariant
                k <= ids.len(),
                forall|m: int| 0 <= m < ids.len() ==> #[trigger] ids[m] < self@.events.len(),
                events_at(r@, self@, ids@.take(k as int)),
            decreases ids.len() - k,
        {
            r.push(self.event(ids[k]));
            k += 1;
        }
        assert(ids@.take(k as int) =~= ids@);
        r
    }

    /// Returns all captured spans in the order of capture.
    pub fn all_spans(&self) -> (r: Vec<CapturedSpan<'_>>)
        ensures
            r.len() == self@.spans.len(),
            forall|k: int|
                0 <= k < r.len() ==> (#[trigger] r[k]).storage_view() == self@ && r[k].position()
                    == k,
    {
        proof {
            use_type_invariant(self);
        }
        let n = span_arena_len(&self.spans);
        let mut r: Vec<CapturedSpan<'_>> = Vec::new();
        let mut k: usize = 0;
        while k < n
            invariant
                k <= n,
                n == self@.spans.len(),
                r.len() == k,
                forall|m: int|
                    0 <= m < k ==> (#[trigger] r[m]).storage_view() == self@ && r[m].position() == m,
            decreases n - k,
        {
            r.push(self.span(k));
            k += 1;
        }
        r
    }

    /// Returns the root spans (i.e., spans that do not have a captured parent span)
    /// in the order of capture.
    pub fn root_spans(&self) -> (r: Vec<CapturedSpan<'_>>)
        ensures
            spans_at(r@, self@, self@.root_spans),
    {
        proof {
            use_type_invariant(self);
        }
        self.spans_by_ids(&self.root_span_ids)
    }

    /// Returns all captured events in the order of capture.
    pub fn all_events(&self) -> (r: Vec<CapturedEvent<'_>>)
        ensures
            r.len() == self@.events.len(),
            forall|k: int|
                0 <= k < r.len() ==> (#[trigger] r[k]).storage_view() == self@ && r[k].position()
                    == k,
    {
        proof {
            use_type_invariant(self);
        }
        let n = event_arena_len(&self.events);
        let mut r: Vec<CapturedEvent<'_>> = Vec::new();
        let mut k: usize = 0;
        while k < n
            invariant
                k <= n,
                n == self@.events.len(),
                r.len() == k,
                forall|m: int|
                    0 <= m < k ==> (#[trigger] r[m]).storage_view() == self@ && r[m].position() == m,
            decreases n - k,
        {
            r.push(self.event(k));
            k += 1;
        }
        r
    }

    /// Returns the root events (i.e., events that do not have a captured parent span)
    /// in the order of capture.
    pub fn root_events(&self) -> (r: Vec<CapturedEvent<'_>>)
        ensures
            events_at(r@, self@, self@.root_events),
    {
        proof {
            use_type_invariant(self);
        }
        self.events_by_ids(&self.root_event_ids)
    }

    fn ancestors_from(&self, parent: Option<usize>) -> (r: Vec<CapturedSpan<'_>>)
        requires
            match parent {
                Some(p) => p < self@.spans.len(),
                None => true,
            },
        ensures
            spans_at(r@, self@, ancestor_chain(self@, parent)),
            forall|k: int| 0 <= k < r@.len() ==> (#[trigger] r@[k]).storage == self,
    {
        proof {
            use_type_invariant(self);
        }
        let ghost v = self@;
        let mut r: Vec<CapturedSpan<'_>> = Vec::new();
        let mut current = parent;
        while current.is_some()
            invariant
                v == self@,
                storage_wf(v),
                match current {
                    Some(p) => p < v.spans.len(),
                    None => true,
                },
                spans_at(r@, v, ancestor_chain(v, parent).take(r.len() as int)),
                forall|k: int| 0 <= k < r@.len() ==> (#[trigger] r@[k]).storage == self,
                ancestor_chain(v, parent) == ancestor_chain(v, parent).take(r.len() as int)
                    + ancestor_chain(v, current),
            decreases (match current {
                Some(p) => p + 1,
                None => 0,
            }),
        {
            let p = current.unwrap();
            let span = CapturedSpan { storage: self, index: p };
            let ghost before = r@;
            let ghost chain = ancestor_chain(v, parent);
            let next = span_arena_get(&self.spans, p).parent_id;
            assert(v.spans[p as int].parent == next);
            assert(match next {
                Some(q) => q < p,
                None => true,
            });
            assert(ancestor_chain(v, current) == seq![p] + ancestor_chain(v, next));
            r.push(span);
            current = next;
            proof {
                assert(chain.take(r.len() as int) =~= chain.take(before.len() as int).push(p));
                assert(chain =~= chain.take(r.len() as int) + ancestor_chain(v, current));
            }
        }
        assert(ancestor_chain(v, parent).take(r.len() as int) =~= ancestor_chain(v, parent));
        r
    }

    fn descendants_of_span(&self, index: usize) -> (r: Vec<CapturedSpan<'_>>)
        requires
            index < self@.spans.len(),
        ensures
            spans_at(r@, self@, descendants_of(self@, index as int)),
    {
        proof {
            use_type_invariant(self);
        }
        let ghost v = self@;
        let mut r: Vec<CapturedSpan<'_>> = Vec::new();
        let mut layers: Vec<(usize, usize)> = Vec::new();
        layers.push((index, 0));
        proof {
            assert(v.spans[index as int].children.skip(0) =~= v.spans[index as int].children);
            assert(pending(v, layers@.drop_last()) =~= Seq::<usize>::empty());
            assert(pending(v, layers@) =~= descendants_of(v, index as int));
        }
        while layers.len() > 0
            invariant
                v == self@,
                storage_wf(v),
                forall|m: int|
                    0 <= m < layers.len() ==> (#[trigger] layers[m]).0 < v.spans.len()
                        && layers[m].1 <= v.spans[layers[m].0 as int].children.len(),
                spans_at(r@, v, descendants_of(v, index as int).take(r.len() as int)),
                descendants_of(v, index as int) == descendants_of(v, index as int).take(
                    r.len() as int,
                ) + pending(v, layers@),
            decreases pending(v, layers@).len(), layers.len(),
        {
            let last = layers.len() - 1;
            let (p, k) = layers[last];
            let ghost all = descendants_of(v, index as int);
            let ghost before = r@;
            let ghost old_layers = layers@;
            let children = &span_arena_get(&self.spans, p).child_ids;
            assert(children@ == v.spans[p as int].children);
            if k < children.len() {
                let head = children[k];
                proof {
                    let ch = v.spans[p as int].children;
                    assert(lists_exactly(ch, |j: int| v.spans[j].parent == Some(p), v.spans.len() as int));
                    assert(ch[k as int] == head);
                    assert(head < v.spans.len());
                    assert(v.spans[head as int].parent == Some(p));
                    assert(ch.skip(k as int)[0] == head);
                    assert(ch.skip(k as int).drop_first() =~= ch.skip(k + 1));
                    assert(subtree_list(v, ch.skip(k as int), p as int) == seq![head]
                        + descendants_of(v, head as int) + subtree_list(v, ch.skip(k + 1), p as int));
                }
                layers.set(last, (p, k + 1));
                r.push(self.span(head));
                let head_children = &span_arena_get(&self.spans, head).child_ids;
                if head_children.len() > 0 {
                    layers.push((head, 0));
                }
                proof {
                    let ch = v.spans[p as int].children;
                    let hc = v.spans[head as int].children;
                    assert(hc.skip(0) =~= hc);
                    let rest = pending(v, old_layers.drop_last());
                    assert(pending(v, old_layers) == subtree_list(v, ch.skip(k as int), p as int) + rest);
                    let mid = subtree_list(v, ch.skip(k + 1), p as int) + rest;
                    if hc.len() > 0 {
                        assert(layers@.drop_last() =~= old_layers.drop_last().push((p, (k + 1) as usize)));
                        assert(pending(v, layers@.drop_last()) == mid) by {
                            assert(layers@.drop_last().drop_last() =~= old_layers.drop_last());
                        }
                        assert(pending(v, layers@) == descendants_of(v, head as int) + mid);
                    } else {
                        assert(descendants_of(v, head as int) =~= Seq::<usize>::empty());
                        assert(layers@ =~= old_layers.drop_last().push((p, (k + 1) as usize)));
                        assert(layers@.drop_last() =~= old_layers.drop_last());
                        assert(pending(v, layers@) == mid);
                    }
                    assert(all.take(r.len() as int) =~= all.take(before.len() as int).push(head));
                    assert(all =~= all.take(r.len() as int) + pending(v, layers@));
                    assert forall|m: int| 0 <= m < layers.len() implies (#[trigger] layers[m]).0 < v.spans.len()
                        && layers[m].1 <= v.spans[layers[m].0 as int].children.len() by {
                        if m < old_layers.len() - 1 {
                            assert(layers[m] == old_layers[m]);
                        }
                    }
                }
            } else {
                layers.pop();
                proof {
                    let ch = v.spans[p as int].children;
                    assert(ch.skip(k as int) =~= Seq::<usize>::empty());
                    assert(layers@ =~= old_layers.drop_last());
                    assert(pending(v, old_layers) =~= pending(v, layers@));
                    assert forall|m: int| 0 <= m < layers.len() implies (#[trigger] layers[m]).0 < v.spans.len()
                        && layers[m].1 <= v.spans[layers[m].0 as int].children.len() by {
                        assert(layers[m] == old_layers[m]);
                    }
                }
            }
        }
        proof {
            assert(pending(v, layers@) =~= Seq::<usize>::empty());
            assert(descendants_of(v, index as int).take(r.len() as int) =~= descendants_of(v, index as int));
        }
        r
    }
}

/// Marker of the types implementing [`Captured`]; no other type can implement it.
pub trait Sealed {}

impl Sealed for CapturedSpan<'_> {}

impl Sealed for CapturedEvent<'_> {}

/// Common interface of [`CapturedSpan`]s and [`CapturedEvent`]s.
pub trait Captured<'a>: Sealed {
    /// Call site data of the span or event.
    spec fn call_site(&self) -> CallSiteData;

    /// Handle of the parent span, if any.
    spec fn parent_handle(&self) -> Option<CapturedSpan<'a>>;

    /// Handles of the ancestor spans, starting from the direct parent.
    spec fn ancestor_handles(&self) -> Seq<CapturedSpan<'a>>;

    /// Provides a reference to the call site data.
    fn metadata(&self) -> (r: &'a CallSiteData)
        ensures
            *r == self.call_site(),
    ;

    /// Returns the parent span, if any.
    fn parent(&self) -> (r: Option<CapturedSpan<'a>>)
        ensures
            r == self.parent_handle(),
    ;

    /// Returns the ancestor spans, starting from the direct parent and ending in a root span.
    fn ancestors(&self) -> (r: Vec<CapturedSpan<'a>>)
        ensures
            r@ == self.ancestor_handles(),
    ;

    /// The parent span is the first ancestor, and there are no ancestors without a parent.
    proof fn lemma_parent_first_ancestor(&self)
        ensures
            match self.parent_handle() {
                Some(span) => self.ancestor_handles().len() > 0 && self.ancestor_handles()[0]
                    == span,
                None => self.ancestor_handles().len() == 0,
            },
    ;
}

impl<'a> Captured<'a> for CapturedSpan<'a> {
    open spec fn call_site(&self) -> CallSiteData {
        self.call_site_data()
    }

    open spec fn parent_handle(&self) -> Option<CapturedSpan<'a>> {
        self.parent_span()
    }

    open spec fn ancestor_handles(&self) -> Seq<CapturedSpan<'a>> {
        self.ancestor_spans()
    }

    fn metadata(&self) -> (r: &'a CallSiteData) {
        CapturedSpan::metadata(self)
    }

    fn parent(&self) -> (r: Option<CapturedSpan<'a>>) {
        CapturedSpan::parent(self)
    }

    fn ancestors(&self) -> (r: Vec<CapturedSpan<'a>>) {
        CapturedSpan::ancestors(self)
    }

    proof fn lemma_parent_first_ancestor(&self) {
        match self.record_view().parent {
            Some(p) => {
                let chain = ancestor_chain(self.storage_view(), self.record_view().parent);
                assert(chain.len() > 0 && chain[0] == p);
            },
            None => {},
        }
    }
}

impl<'a> Captured<'a> for CapturedEvent<'a> {
    open spec fn call_site(&self) -> CallSiteData {
        self.call_site_data()
    }

    open spec fn parent_handle(&self) -> Option<CapturedSpan<'a>> {
        self.parent_span()
    }

    open spec fn ancestor_handles(&self) -> Seq<CapturedSpan<'a>> {
        self.ancestor_spans()
    }

    fn metadata(&self) -> (r: &'a CallSiteData) {
        CapturedEvent::metadata(self)
    }

    fn parent(&self) -> (r: Option<CapturedSpan<'a>>) {
        CapturedEvent::parent(self)
    }

    fn ancestors(&self) -> (r: Vec<CapturedSpan<'a>>) {
        CapturedEvent::ancestors(self)
    }

    proof fn lemma_parent_first_ancestor(&self) {
        match self.record_view().parent {
            Some(p) => {
                let chain = ancestor_chain(self.storage_view(), self.record_view().parent);
                assert(chain.len() > 0 && chain[0] == p);
            },
            None => {},
        }
    }
}

/// Filter of captured spans and events: a call site passes if its target is the filter target
/// and its level is at most as verbose as the filter level; a filter without a level (that
/// is, turned off) passes nothing.
#[derive(Debug)]
pub struct SimpleFilter {
    /// Target of the captured call sites.
    pub target: String,
    /// Most verbose level of the captured call sites, or `None` to capture nothing.
    pub level: Option<TracingLevel>,
}

impl SimpleFilter {
    /// Checks whether a call site passes the filter.
    pub fn enabled(&self, metadata: &CallSiteData) -> (r: bool)
        ensures
            r == (metadata.target@ == self.target@ && match self.level {
                Some(level) => metadata.level.rank() <= level.rank(),
                None => false,
            }),
    {
        let level_passes = match &self.level {
            Some(level) => metadata.level.is_at_most(level),
            None => false,
        };
        str_eq(metadata.target.as_str(), self.target.as_str()) && level_passes
    }
}

/// Checks whether a call site passes an optional filter (no filter passes everything).
pub fn filter_enabled(filter: &Option<SimpleFilter>, metadata: &CallSiteData) -> (r: bool)
    ensures
        r == match filter {
            Some(f) => metadata.target@ == f.target@ && match f.level {
                Some(level) => metadata.level.rank() <= level.rank(),
                None => false,
            },
            None => true,
        },
{
    match filter {
        Some(f) => f.enabled(metadata),
        None => true,
    }
}

/// Error of a span ID that cannot be used.
#[derive(Debug, Clone, Copy, PartialEq, Eq, Structural)]
pub enum SpanIdError {
    /// Span IDs must be positive.
    Zero,
}

impl SpanIdError {
    /// Human-readable description of the error.
    pub fn message(&self) -> (r: &'static str)
        ensures
            r@ == "span IDs must be positive"@,
    {
        "span IDs must be positive"
    }
}

/// Checks a span ID read from a serialized event: span IDs must be positive.
pub fn validate_span_id(value: u64) -> (r: Result<u64, SpanIdError>)
    ensures
        value == 0 ==> r == Err::<u64, SpanIdError>(SpanIdError::Zero),
        value != 0 ==> r == Ok::<u64, SpanIdError>(value),
{
    if value == 0 {
        Err(SpanIdError::Zero)
    } else {
        Ok(value)
    }
}

/// Index of the first captured span in a scope listed from the innermost span outwards
/// (`None` for a span that was not captured), if any.
pub open spec fn first_captured(scope: Seq<Option<usize>>) -> Option<usize>
    decreases scope.len(),
{
    if scope.len() == 0 {
        None
    } else if scope[0] is Some {
        scope[0]
    } else {
        first_captured(scope.drop_first())
    }
}

/// Finds the nearest captured span in a scope listed from the innermost span outwards: this is
/// the span that a new span or event is tied to. `None` means that the new span or event is a
/// root one.
pub fn nearest_captured(scope: &Vec<Option<usize>>) -> (r: Option<usize>)
    ensures
        r == first_captured(scope@),
{
    let mut k: usize = 0;
    assert(scope@.skip(0) =~= scope@);
    while k < scope.len()
        invariant
            k <= scope.len(),
            first_captured(scope@) == first_captured(scope@.skip(k as int)),
        decreases scope.len() - k,
    {
        assert(scope@.skip(k as int)[0] == scope@[k as int]);
        assert(scope@.skip(k as int).drop_first() =~= scope@.skip(k + 1));
        if scope[k].is_some() {
            return scope[k];
        }
        k += 1;
    }
    assert(scope@.skip(k as int).len() == 0);
    None
}

} // verus!
