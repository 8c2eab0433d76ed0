//! Registration of call sites on the sending side: each call site is announced once, before
//! the first span or event that refers to it.
use vstd::prelude::*;

use std::collections::{HashMap, HashSet};

use crate::types::{CallSiteData, MetadataId, TracingEvent};

verus! {

broadcast use vstd::std_specs::hash::group_hash_axioms;

/// Set of call sites that were announced with a `NewCallSite` event.
#[derive(Debug)]
pub struct Synced {
    registered: HashSet<MetadataId>,
}

impl View for Synced {
    type V = Set<MetadataId>;

    closed spec fn view(&self) -> Set<MetadataId> {
        self.registered@
    }
}

impl Synced {
    /// Creates a set with no announced call sites.
    pub fn new() -> (r: Self)
        ensures
            r@ == Set::<MetadataId>::empty(),
    {
        Synced { registered: HashSet::new() }
    }

    /// Checks whether the call site was announced.
    pub fn is_registered(&self, metadata_id: MetadataId) -> (r: bool)
        ensures
            r == self@.contains(metadata_id),
    {
        self.registered.contains(&metadata_id)
    }

    /// Ensures that the call site is registered: returns the `NewCallSite` event to send
    /// before any span or event of the call site if it was not announced yet (and records it
    /// as announced), or `None` if it was.
    pub fn ensure_callsite_registered(&mut self, metadata_id: MetadataId, data: CallSiteData) -> (r:
        Option<TracingEvent>)
        ensures
            final(self)@ == old(self)@.insert(metadata_id),
            old(self)@.contains(metadata_id) ==> r is None,
            !old(self)@.contains(metadata_id) ==> r == Some(
                TracingEvent::NewCallSite { id: metadata_id, data },
            ),
            final(self)@ == announced_after(old(self)@, seq![metadata_id]),
            r is Some <==> announces(old(self)@, seq![metadata_id], 0),
    {
        proof {
            let call = seq![metadata_id];
            assert(call.drop_last() =~= Seq::<MetadataId>::empty());
            assert(call.take(0) =~= Seq::<MetadataId>::empty());
            assert(call.last() == metadata_id);
            assert(announced_after(old(self)@, call.drop_last()) == old(self)@);
            assert(announced_after(old(self)@, call) == old(self)@.insert(metadata_id));
        }
        if self.registered.contains(&metadata_id) {
            assert(old(self)@.insert(metadata_id) =~= old(self)@);
            None
        } else {
            self.registered.insert(metadata_id);
            Some(TracingEvent::NewCallSite { id: metadata_id, data })
        }
    }
}

/// Announced call sites after registering the call sites `calls`, one by one, starting from
/// the announced set `start` (each registration adds its call site, as
/// [`Synced::ensure_callsite_registered()`] does).
pub open spec fn announced_after(start: Set<MetadataId>, calls: Seq<MetadataId>) -> Set<MetadataId>
    decreases calls.len(),
{
    if calls.len() == 0 {
        start
    } else {
        announced_after(start, calls.drop_last()).insert(calls.last())
    }
}

/// Does the registration at position `k` of `calls` send a `NewCallSite` event? It does when
/// its call site is not announced yet (see [`Synced::ensure_callsite_registered()`]).
pub open spec fn announces(start: Set<MetadataId>, calls: Seq<MetadataId>, k: int) -> bool {
    !announced_after(start, calls.take(k)).contains(calls[k])
}

/// A call site is announced after registrations iff it was announced before or registered.
proof fn lemma_announced_after(start: Set<MetadataId>, calls: Seq<MetadataId>, id: MetadataId)
    ensures
        announced_after(start, calls).contains(id) <==> (start.contains(id) || exists|j: int|
            0 <= j < calls.len() && calls[j] == id),
    decreases calls.len(),
{
    if calls.len() > 0 {
        let init = calls.drop_last();
        lemma_announced_after(start, init, id);
        if exists|j: int| 0 <= j < calls.len() && calls[j] == id {
            let j = choose|j: int| 0 <= j < calls.len() && calls[j] == id;
            if j < calls.len() - 1 {
                assert(init[j] == id);
            }
        }
        if exists|j: int| 0 <= j < init.len() && init[j] == id {
            let j = choose|j: int| 0 <= j < init.len() && init[j] == id;
            assert(calls[j] == id);
        }
    }
}

/// Each call site is announced exactly once over any sequence of registrations that starts
/// with no announced call sites: by the first registration of that call site, and by no other
/// registration. Afterwards, exactly the registered call sites are announced.
pub proof fn law_announced_once(calls: Seq<MetadataId>)
    ensures
        forall|k: int|
            0 <= k < calls.len() ==> (announces(Set::empty(), calls, k) <==> forall|j: int|
                0 <= j < k ==> calls[j] != calls[k]),
        forall|i: int, k: int|
            0 <= i < calls.len() && 0 <= k < calls.len() && calls[i] == calls[k]
                && announces(Set::empty(), calls, i) && announces(Set::empty(), calls, k) ==> i
                == k,
        forall|id: MetadataId|
            announced_after(Set::empty(), calls).contains(id) <==> calls.contains(id),
{
    let start = Set::<MetadataId>::empty();
    assert forall|k: int| 0 <= k < calls.len() implies (announces(start, calls, k) <==> forall|j: int|
        0 <= j < k ==> calls[j] != calls[k]) by {
        let prefix = calls.take(k);
        lemma_announced_after(start, prefix, calls[k]);
        if exists|j: int| 0 <= j < k && calls[j] == calls[k] {
            let j = choose|j: int| 0 <= j < k && calls[j] == calls[k];
            assert(prefix[j] == calls[k]);
        }
        if exists|j: int| 0 <= j < prefix.len() && prefix[j] == calls[k] {
            let j = choose|j: int| 0 <= j < prefix.len() && prefix[j] == calls[k];
            assert(calls[j] == calls[k]);
        }
    }
    assert forall|i: int, k: int|
        0 <= i < calls.len() && 0 <= k < calls.len() && calls[i] == calls[k] && announces(
            start,
            calls,
            i,
        ) && announces(start, calls, k) implies i == k by {
        if i < k {
            assert(calls[i] == calls[k]);
        } else if k < i {
            assert(calls[k] == calls[i]);
        }
    }
    assert forall|id: MetadataId| announced_after(start, calls).contains(id) <==> calls.contains(
        id,
    ) by {
        lemma_announced_after(start, calls, id);
    }
}

/// Registry assigning sequential metadata IDs (0, 1, 2, ...) to call sites, each identified
/// by a key (such as the address of its static metadata).
#[derive(Debug)]
pub struct CallSiteRegistry {
    call_sites: HashMap<u64, MetadataId>,
    next_metadata_id: MetadataId,
}

/// View of a [`CallSiteRegistry`].
pub struct RegistryView {
    /// Metadata IDs of the registered call sites.
    pub ids: Map<u64, MetadataId>,
    /// ID that the next registered call site gets.
    pub next_id: MetadataId,
}

/// The IDs of a registry are below the next ID and distinct.
pub open spec fn registry_wf(v: RegistryView) -> bool {
    &&& forall|site: u64| #[trigger] v.ids.contains_key(site) ==> v.ids[site] < v.next_id
    &&& forall|a: u64, b: u64|
        #[trigger] v.ids.contains_key(a) && #[trigger] v.ids.contains_key(b) && a != b ==> v.ids[a]
            != v.ids[b]
}

impl View for CallSiteRegistry {
    type V = RegistryView;

    closed spec fn view(&self) -> RegistryView {
        RegistryView { ids: self.call_sites@, next_id: self.next_metadata_id }
    }
}

impl CallSiteRegistry {
    #[verifier::type_invariant]
    closed spec fn inv(&self) -> bool {
        registry_wf(self@)
    }

    /// Creates an empty registry.
    pub fn new() -> (r: Self)
        ensures
            r@.ids == Map::<u64, MetadataId>::empty(),
            r@.next_id == 0,
    {
        let r = CallSiteRegistry { call_sites: HashMap::new(), next_metadata_id: 0 };
        assert(r@.ids =~= Map::<u64, MetadataId>::empty());
        r
    }

    /// Registers a call site, assigning it the next metadata ID.
    pub fn register_site(&mut self, site: u64) -> (r: MetadataId)
        requires
            !old(self)@.ids.contains_key(site),
            old(self)@.next_id < u64::MAX,
        ensures
            r == old(self)@.next_id,
            final(self)@.ids == old(self)@.ids.insert(site, r),
            final(self)@.next_id == r + 1,
    {
        proof {
            use_type_invariant(&*self);
        }
        let metadata_id = self.next_metadata_id;
        let mut call_sites = HashMap::new();
        std::mem::swap(&mut call_sites, &mut self.call_sites);
        let ghost before = call_sites@;
        call_sites.insert(site, metadata_id);
        proof {
            let v = RegistryView { ids: call_sites@, next_id: (metadata_id + 1) as u64 };
            assert(v.ids == before.insert(site, metadata_id));
            assert forall|a: u64, b: u64|
                #[trigger] v.ids.contains_key(a) && #[trigger] v.ids.contains_key(b) && a != b
                    implies v.ids[a] != v.ids[b] by {
                if a != site && b != site {
                    assert(before.contains_key(a) && before.contains_key(b));
                } else if a == site {
                    assert(before.contains_key(b));
                } else {
                    assert(before.contains_key(a));
                }
            }
        }
        *self = CallSiteRegistry { call_sites, next_metadata_id: metadata_id + 1 };
        metadata_id
    }

    /// ID that the next registered call site gets.
    pub fn next_id(&self) -> (r: MetadataId)
        ensures
            r == self@.next_id,
    {
        self.next_metadata_id
    }

    /// Returns the metadata ID of a registered call site.
    pub fn metadata_id(&self, site: u64) -> (r: Option<MetadataId>)
        ensures
            self@.ids.contains_key(site) ==> r == Some(self@.ids[site]),
            !self@.ids.contains_key(site) ==> r is None,
    {
        match self.call_sites.get(&site) {
            Some(id) => Some(*id),
            None => None,
        }
    }

    /// The registry is valid: its IDs are below the next ID and distinct.
    pub fn check_valid(&self)
        ensures
            registry_wf(self@),
    {
        proof {
            use_type_invariant(self);
        }
    }
}

/// Registered call sites get distinct metadata IDs, and a newly registered one gets an ID
/// no other call site has.
pub proof fn law_registered_ids_are_distinct(v: RegistryView, site: u64)
    requires
        registry_wf(v),
        !v.ids.contains_key(site),
        v.next_id < u64::MAX,
    ensures
        registry_wf(RegistryView { ids: v.ids.insert(site, v.next_id), next_id: (v.next_id + 1) as u64 }),
        forall|other: u64| #[trigger] v.ids.contains_key(other) ==> v.ids[other] != v.next_id,
{
    let w = RegistryView { ids: v.ids.insert(site, v.next_id), next_id: (v.next_id + 1) as u64 };
    assert forall|a: u64, b: u64|
        #[trigger] w.ids.contains_key(a) && #[trigger] w.ids.contains_key(b) && a != b implies w.ids[a]
            != w.ids[b] by {
        if a != site && b != site {
            assert(v.ids.contains_key(a) && v.ids.contains_key(b));
        } else if a == site {
            assert(v.ids.contains_key(b));
        } else {
            assert(v.ids.contains_key(a));
        }
    }
}

} // verus!
