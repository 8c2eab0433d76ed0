//! Interning of call site data: equal call sites share a single allocated metadata record.
use vstd::prelude::*;

use crate::types::{CallSiteData, CallSiteView};

verus! {

/// Compares two optional strings.
fn opt_str_eq(a: &Option<String>, b: &Option<String>) -> (r: bool)
    ensures
        r == (crate::types::opt_str_view(*a) == crate::types::opt_str_view(*b)),
{
    match (a, b) {
        (Some(a), Some(b)) => crate::text::str_eq(a.as_str(), b.as_str()),
        (None, None) => true,
        _ => false,
    }
}

/// Compares two lists of strings.
fn strings_eq(a: &Vec<String>, b: &Vec<String>) -> (r: bool)
    ensures
        r == (a@.map_values(|f: String| f@) == b@.map_values(|f: String| f@)),
{
    let ghost av = a@.map_values(|f: String| f@);
    let ghost bv = b@.map_values(|f: String| f@);
    if a.len() != b.len() {
        assert(av.len() != bv.len());
        return false;
    }
    let mut i: usize = 0;
    while i < a.len()
        invariant
            a@.len() == b@.len(),
            i <= a@.len(),
            av == a@.map_values(|f: String| f@),
            bv == b@.map_values(|f: String| f@),
            forall|j: int| 0 <= j < i ==> av[j] == bv[j],
        decreases a@.len() - i,
    {
        if !crate::text::str_eq(a[i].as_str(), b[i].as_str()) {
            assert(av[i as int] != bv[i as int]);
            return false;
        }
        i += 1;
    }
    assert(av =~= bv);
    true
}

/// Checks whether two call sites are the same, comparing numbers first, then strings, and
/// finally the field names.
pub fn same_call_site(a: &CallSiteData, b: &CallSiteData) -> (r: bool)
    ensures
        r == (a@ == b@),
{
    let same_line = match (a.line, b.line) {
        (Some(x), Some(y)) => x == y,
        (None, None) => true,
        _ => false,
    };
    let r = a.kind == b.kind && a.level == b.level && same_line
        && crate::text::str_eq(a.name.as_str(), b.name.as_str())
        && crate::text::str_eq(a.target.as_str(), b.target.as_str())
        && opt_str_eq(&a.module, &b.module)
        && opt_str_eq(&a.file, &b.file)
        && strings_eq(&a.fields, &b.fields);
    assert(r ==> a@ =~= b@);
    r
}

/// Arena of interned call sites; each distinct call site is stored once, at a stable index.
#[derive(Debug)]
pub struct MetadataArena {
    entries: Vec<CallSiteData>,
}

impl View for MetadataArena {
    type V = Seq<CallSiteView>;

    closed spec fn view(&self) -> Seq<CallSiteView> {
        self.entries@.map_values(|d: CallSiteData| d@)
    }
}

impl MetadataArena {
    #[verifier::type_invariant]
    closed spec fn wf(&self) -> bool {
        self@.no_duplicates()
    }

    /// Creates an empty arena.
    pub fn new() -> (r: Self)
        ensures
            r@ == Seq::<CallSiteView>::empty(),
    {
        let r = MetadataArena { entries: Vec::new() };
        assert(r@ =~= Seq::<CallSiteView>::empty());
        r
    }

    /// Number of interned call sites.
    pub fn len(&self) -> (r: usize)
        ensures
            r == self@.len(),
    {
        self.entries.len()
    }

    /// Interned call site at the specified index.
    pub fn get(&self, index: usize) -> (r: &CallSiteData)
        requires
            index < self@.len(),
        ensures
            r@ == self@[index as int],
    {
        &self.entries[index]
    }

    /// Returns the index of the call site equal to `data` and whether it was allocated in this
    /// call: an equal call site that was interned before is reused; otherwise `data` is appended.
    pub fn alloc_metadata(&mut self, data: CallSiteData) -> (r: (usize, bool))
        ensures
            old(self)@.contains(data@) ==> {
                &&& !r.1
                &&& r.0 < old(self)@.len()
                &&& old(self)@[r.0 as int] == data@
                &&& final(self)@ == old(self)@
            },
            !old(self)@.contains(data@) ==> {
                &&& r.1
                &&& r.0 == old(self)@.len()
                &&& final(self)@ == old(self)@.push(data@)
            },
            final(self)@.no_duplicates(),
    {
        proof {
            use_type_invariant(&*self);
        }
        let mut i: usize = 0;
        while i < self.entries.len()
            invariant
                i <= self.entries@.len(),
                self@.len() == self.entries@.len(),
                forall|j: int| 0 <= j < i ==> self@[j] != data@,
            decreases self.entries@.len() - i,
        {
            if same_call_site(&self.entries[i], &data) {
                proof {
                    use_type_invariant(&*self);
                }
                return (i, false);
            }
            i += 1;
        }
        let ghost data_view = data@;
        let index = self.entries.len();
        let mut entries: Vec<CallSiteData> = Vec::new();
        std::mem::swap(&mut entries, &mut self.entries);
        entries.push(data);
        assert(entries@.map_values(|d: CallSiteData| d@) =~= old(self)@.push(data_view));
        self.entries = entries;
        proof {
            use_type_invariant(&*self);
        }
        (index, true)
    }
}

} // verus!
