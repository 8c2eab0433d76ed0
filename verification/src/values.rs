//! `TracedValues`: named values kept in insertion order.
use vstd::prelude::*;

use crate::types::TracedValue;

verus! {

/// Abstract view of traced values: name-value entries in the order of insertion.
pub type ValuesView = Seq<(Seq<char>, TracedValue)>;

/// Entry view of a stored name-value pair.
pub open spec fn entry_view(e: (String, TracedValue)) -> (Seq<char>, TracedValue) {
    (e.0@, e.1)
}

/// No two entries share a name.
pub open spec fn names_unique(s: ValuesView) -> bool {
    forall|i: int, j: int| 0 <= i < j < s.len() ==> s[i].0 != s[j].0
}

/// Does an entry with the specified name exist?
pub open spec fn has_name(s: ValuesView, name: Seq<char>) -> bool {
    exists|i: int| 0 <= i < s.len() && s[i].0 == name
}

/// Position of the entry with the specified name, or -1 if there is none.
pub open spec fn name_position(s: ValuesView, name: Seq<char>) -> int {
    if has_name(s, name) {
        choose|i: int| 0 <= i < s.len() && s[i].0 == name
    } else {
        -1
    }
}

/// Value stored under the specified name.
pub open spec fn value_of(s: ValuesView, name: Seq<char>) -> Option<TracedValue> {
    if has_name(s, name) {
        Some(s[name_position(s, name)].1)
    } else {
        None
    }
}

/// Entries after inserting a value: an existing entry keeps its place and gets the new value,
/// a new name is appended at the end.
pub open spec fn insert_entry(s: ValuesView, name: Seq<char>, value: TracedValue) -> ValuesView {
    if has_name(s, name) {
        s.update(name_position(s, name), (name, value))
    } else {
        s.push((name, value))
    }
}

/// Entries after inserting the pairs of `pairs`, one by one in their order.
pub open spec fn insert_all(s: ValuesView, pairs: ValuesView) -> ValuesView
    decreases pairs.len(),
{
    if pairs.len() == 0 {
        s
    } else {
        let last = pairs.last();
        insert_entry(insert_all(s, pairs.drop_last()), last.0, last.1)
    }
}

/// The position of a name in unique entries is the only index holding it.
pub proof fn lemma_name_position(s: ValuesView, name: Seq<char>, i: int)
    requires
        names_unique(s),
        0 <= i < s.len(),
        s[i].0 == name,
    ensures
        has_name(s, name),
        name_position(s, name) == i,
{
}

/// Inserting keeps the names unique.
pub proof fn lemma_insert_unique(s: ValuesView, name: Seq<char>, value: TracedValue)
    requires
        names_unique(s),
    ensures
        names_unique(insert_entry(s, name, value)),
{
}

/// Inserting many pairs keeps the names unique.
pub proof fn lemma_insert_all_unique(s: ValuesView, pairs: ValuesView)
    requires
        names_unique(s),
    ensures
        names_unique(insert_all(s, pairs)),
    decreases pairs.len(),
{
    if pairs.len() > 0 {
        lemma_insert_all_unique(s, pairs.drop_last());
        lemma_insert_unique(insert_all(s, pairs.drop_last()), pairs.last().0, pairs.last().1);
    }
}

/// Reading a name right after inserting it gives back the inserted value.
pub proof fn law_get_after_insert(s: ValuesView, name: Seq<char>, value: TracedValue)
    requires
        names_unique(s),
    ensures
        value_of(insert_entry(s, name, value), name) == Some(value),
{
    let t = insert_entry(s, name, value);
    lemma_insert_unique(s, name, value);
    if has_name(s, name) {
        let p = name_position(s, name);
        lemma_name_position(t, name, p);
    } else {
        lemma_name_position(t, name, s.len() as int);
    }
}

/// Inserting a value under one name leaves the values of all other names as they were.
pub proof fn law_insert_keeps_other_names(
    s: ValuesView,
    name: Seq<char>,
    value: TracedValue,
    other: Seq<char>,
)
    requires
        names_unique(s),
        other != name,
    ensures
        value_of(insert_entry(s, name, value), other) == value_of(s, other),
{
    let t = insert_entry(s, name, value);
    lemma_insert_unique(s, name, value);
    if has_name(s, other) {
        let p = name_position(s, other);
        lemma_name_position(t, other, p);
    } else {
        assert forall|i: int| 0 <= i < t.len() implies t[i].0 != other by {
            if i < s.len() {
            }
        }
    }
}

/// An updated value keeps its old placement; a value with a new name is placed last.
pub proof fn law_insert_placement(s: ValuesView, name: Seq<char>, value: TracedValue)
    requires
        names_unique(s),
    ensures
        has_name(s, name) ==> {
            &&& insert_entry(s, name, value).len() == s.len()
            &&& name_position(insert_entry(s, name, value), name) == name_position(s, name)
            &&& forall|i: int|
                0 <= i < s.len() && i != name_position(s, name) ==> #[trigger] insert_entry(
                    s,
                    name,
                    value,
                )[i] == s[i]
        },
        !has_name(s, name) ==> insert_entry(s, name, value) == s.push((name, value)),
{
    lemma_insert_unique(s, name, value);
    if has_name(s, name) {
        lemma_name_position(insert_entry(s, name, value), name, name_position(s, name));
    }
}

/// Is `i` the last position of its name in `pairs`?
pub open spec fn is_last_occurrence(pairs: ValuesView, i: int) -> bool {
    forall|j: int| i < j < pairs.len() ==> pairs[j].0 != pairs[i].0
}

/// Does the name occur in `pairs` before position `i`?
pub open spec fn occurs_before(pairs: ValuesView, name: Seq<char>, i: int) -> bool {
    exists|j: int| 0 <= j < i && pairs[j].0 == name
}

/// Inserting pairs into empty values keeps each distinct name once, in the order of the first
/// occurrences of the names, with the value of its last occurrence.
pub proof fn law_insert_all_from_empty(pairs: ValuesView)
    ensures
        names_unique(insert_all(Seq::empty(), pairs)),
        forall|i: int|
            0 <= i < pairs.len() ==> #[trigger] has_name(insert_all(Seq::empty(), pairs), pairs[i].0),
        forall|k: int|
            0 <= k < insert_all(Seq::empty(), pairs).len() ==> occurs_before(
                pairs,
                #[trigger] insert_all(Seq::empty(), pairs)[k].0,
                pairs.len() as int,
            ),
        forall|k: int, i: int|
            0 <= k < insert_all(Seq::empty(), pairs).len() && 0 <= i < pairs.len()
                && pairs[i].0 == #[trigger] insert_all(Seq::empty(), pairs)[k].0
                && is_last_occurrence(pairs, i) ==> insert_all(Seq::empty(), pairs)[k].1
                == #[trigger] pairs[i].1,
        forall|a: int, b: int, i: int|
            #![trigger pairs[i], insert_all(Seq::empty(), pairs)[a], insert_all(Seq::empty(), pairs)[b]]
            0 <= a < b < insert_all(Seq::empty(), pairs).len() && 0 <= i < pairs.len()
                && pairs[i].0 == insert_all(Seq::empty(), pairs)[b].0
                ==> occurs_before(pairs, insert_all(Seq::empty(), pairs)[a].0, i),
    decreases pairs.len(),
{
    let r = insert_all(Seq::empty(), pairs);
    lemma_insert_all_unique(Seq::empty(), pairs);
    if pairs.len() > 0 {
        let init = pairs.drop_last();
        let n = pairs.last().0;
        let v = pairs.last().1;
        let last = pairs.len() - 1;
        let p = insert_all(Seq::empty(), init);
        law_insert_all_from_empty(init);
        lemma_insert_all_unique(Seq::empty(), init);
        assert(r == insert_entry(p, n, v));
        assert forall|i: int| 0 <= i < init.len() implies pairs[i] == #[trigger] init[i] by {}
        if has_name(p, n) {
            let q = name_position(p, n);
            assert(r == p.update(q, (n, v)));
            assert forall|i: int| 0 <= i < pairs.len() implies #[trigger] has_name(r, pairs[i].0) by {
                if i < last {
                    assert(has_name(p, init[i].0));
                    let t = choose|t: int| 0 <= t < p.len() && p[t].0 == init[i].0;
                    assert(r[t].0 == pairs[i].0);
                } else {
                    assert(r[q].0 == n);
                }
            }
            assert forall|k: int| 0 <= k < r.len() implies occurs_before(
                pairs,
                #[trigger] r[k].0,
                pairs.len() as int,
            ) by {
                assert(r[k].0 == p[k].0);
                assert(occurs_before(init, p[k].0, init.len() as int));
                let j = choose|j: int| 0 <= j < init.len() && init[j].0 == p[k].0;
                assert(pairs[j].0 == r[k].0);
            }
            assert forall|k: int, i: int|
                0 <= k < r.len() && 0 <= i < pairs.len() && pairs[i].0 == #[trigger] r[k].0
                    && is_last_occurrence(pairs, i) implies r[k].1 == #[trigger] pairs[i].1 by {
                if k == q {
                    if i < last {
                        assert(pairs[last].0 == pairs[i].0);
                    }
                } else {
                    assert(r[k] == p[k]);
                    assert(p[k].0 != n);
                    assert(i < last);
                    assert(is_last_occurrence(init, i)) by {
                        assert forall|j: int| i < j < init.len() implies init[j].0 != init[i].0 by {
                            assert(pairs[j].0 != pairs[i].0);
                        }
                    }
                    assert(init[i].0 == p[k].0);
                    assert(p[k].1 == init[i].1);
                }
            }
            assert forall|a: int, b: int, i: int|
                #![trigger pairs[i], r[a], r[b]]
                0 <= a < b < r.len() && 0 <= i < pairs.len() && pairs[i].0
                    == r[b].0 implies occurs_before(pairs, r[a].0, i) by {
                assert(r[a].0 == p[a].0 && r[b].0 == p[b].0);
                if i < last {
                    assert(init[i].0 == p[b].0);
                    assert(occurs_before(init, p[a].0, i));
                    let j = choose|j: int| 0 <= j < i && init[j].0 == p[a].0;
                    assert(pairs[j].0 == r[a].0);
                } else {
                    assert(occurs_before(init, p[b].0, init.len() as int));
                    let i0 = choose|j: int| 0 <= j < init.len() && init[j].0 == p[b].0;
                    assert(init[i0].0 == p[b].0);
                    assert(occurs_before(init, p[a].0, i0));
                    let j = choose|j: int| 0 <= j < i0 && init[j].0 == p[a].0;
                    assert(pairs[j].0 == r[a].0);
                }
            }
        } else {
            assert(r == p.push((n, v)));
            assert forall|i: int| 0 <= i < init.len() implies init[i].0 != n by {
                assert(has_name(p, init[i].0));
            }
            assert forall|i: int| 0 <= i < pairs.len() implies #[trigger] has_name(r, pairs[i].0) by {
                if i < last {
                    assert(has_name(p, init[i].0));
                    let t = choose|t: int| 0 <= t < p.len() && p[t].0 == init[i].0;
                    assert(r[t].0 == pairs[i].0);
                } else {
                    assert(r[p.len() as int].0 == n);
                }
            }
            assert forall|k: int| 0 <= k < r.len() implies occurs_before(
                pairs,
                #[trigger] r[k].0,
                pairs.len() as int,
            ) by {
                if k < p.len() {
                    assert(r[k].0 == p[k].0);
                    assert(occurs_before(init, p[k].0, init.len() as int));
                    let j = choose|j: int| 0 <= j < init.len() && init[j].0 == p[k].0;
                    assert(pairs[j].0 == r[k].0);
                } else {
                    assert(pairs[last].0 == r[k].0);
                }
            }
            assert forall|k: int, i: int|
                0 <= k < r.len() && 0 <= i < pairs.len() && pairs[i].0 == #[trigger] r[k].0
                    && is_last_occurrence(pairs, i) implies r[k].1 == #[trigger] pairs[i].1 by {
                if k == p.len() {
                    if i < last {
                        assert(init[i].0 == n);
                    }
                } else {
                    assert(r[k] == p[k]);
                    assert(occurs_before(init, p[k].0, init.len() as int));
                    let j = choose|j: int| 0 <= j < init.len() && init[j].0 == p[k].0;
                    assert(p[k].0 != n);
                    assert(i < last);
                    assert(is_last_occurrence(init, i)) by {
                        assert forall|j: int| i < j < init.len() implies init[j].0 != init[i].0 by {
                            assert(pairs[j].0 != pairs[i].0);
                        }
                    }
                    assert(init[i].0 == p[k].0);
                }
            }
            assert forall|a: int, b: int, i: int|
                #![trigger pairs[i], r[a], r[b]]
                0 <= a < b < r.len() && 0 <= i < pairs.len() && pairs[i].0
                    == r[b].0 implies occurs_before(pairs, r[a].0, i) by {
                assert(r[a].0 == p[a].0);
                if b == p.len() {
                    assert(r[b].0 == n);
                    if i < last {
                        assert(init[i].0 == n);
                    }
                    assert(i == last);
                    assert(occurs_before(init, p[a].0, init.len() as int));
                    let j = choose|j: int| 0 <= j < init.len() && init[j].0 == p[a].0;
                    assert(pairs[j].0 == r[a].0);
                } else {
                    assert(r[b].0 == p[b].0);
                    assert(p[b].0 != n);
                    assert(i < last);
                    assert(init[i].0 == p[b].0);
                    assert(occurs_before(init, p[a].0, i));
                    let j = choose|j: int| 0 <= j < i && init[j].0 == p[a].0;
                    assert(pairs[j].0 == r[a].0);
                }
            }
        }
    }
}

/// Collection of named [`TracedValue`]s.
///
/// Functionally this collection is similar to a map from names to values, with iteration order
/// being the insertion order. If a value is updated, it keeps its old placement.
#[derive(Debug, PartialEq)]
pub struct TracedValues {
    inner: Vec<(String, TracedValue)>,
}

impl Clone for TracedValues {
    fn clone(&self) -> (r: Self)
        ensures
            r@ == self@,
    {
        proof {
            use_type_invariant(self);
        }
        let mut inner: Vec<(String, TracedValue)> = Vec::new();
        let mut i: usize = 0;
        while i < self.inner.len()
            invariant
                i <= self.inner@.len(),
                inner@.len() == i,
                forall|j: int| 0 <= j < i ==> inner@[j] == self.inner@[j],
            decreases self.inner@.len() - i,
        {
            let entry = &self.inner[i];
            inner.push((entry.0.clone(), entry.1.clone()));
            i += 1;
        }
        assert(inner@ =~= self.inner@);
        TracedValues { inner }
    }
}

impl View for TracedValues {
    type V = ValuesView;

    closed spec fn view(&self) -> ValuesView {
        self.inner@.map_values(|e: (String, TracedValue)| entry_view(e))
    }
}

impl TracedValues {
    #[verifier::type_invariant]
    closed spec fn wf(&self) -> bool {
        names_unique(self@)
    }

    /// Creates new empty values.
    pub fn new() -> (r: Self)
        ensures
            r@ == Seq::<(Seq<char>, TracedValue)>::empty(),
    {
        let r = TracedValues { inner: Vec::new() };
        assert(r@ =~= Seq::<(Seq<char>, TracedValue)>::empty());
        r
    }

    /// Returns the number of stored values.
    pub fn len(&self) -> (r: usize)
        ensures
            r == self@.len(),
    {
        self.inner.len()
    }

    /// Checks whether this collection of values is empty.
    pub fn is_empty(&self) -> (r: bool)
        ensures
            r == (self@.len() == 0),
    {
        self.inner.len() == 0
    }

    /// Finds the position of the value with the specified name.
    fn position(&self, name: &str) -> (r: Option<usize>)
        ensures
            match r {
                Some(i) => i < self@.len() && self@[i as int].0 == name@ && name_position(self@, name@)
                    == i,
                None => !has_name(self@, name@),
            },
    {
        proof {
            use_type_invariant(self);
        }
        let mut i: usize = 0;
        while i < self.inner.len()
            invariant
                i <= self.inner@.len(),
                self@.len() == self.inner@.len(),
                names_unique(self@),
                forall|j: int| 0 <= j < i ==> self@[j].0 != name@,
            decreases self.inner@.len() - i,
        {
            if crate::text::str_eq(self.inner[i].0.as_str(), name) {
                proof {
                    lemma_name_position(self@, name@, i as int);
                }
                return Some(i);
            }
            i += 1;
        }
        None
    }

    /// Returns the value with the specified name, or `None` if it is not set.
    pub fn get(&self, name: &str) -> (r: Option<&TracedValue>)
        ensures
            match value_of(self@, name@) {
                Some(v) => r is Some && *r->0 == v,
                None => r is None,
            },
    {
        match self.position(name) {
            Some(i) => Some(&self.inner[i].1),
            None => None,
        }
    }

    /// Returns the value with the specified name.
    pub fn index(&self, name: &str) -> (r: &TracedValue)
        requires
            has_name(self@, name@),
        ensures
            value_of(self@, name@) == Some(*r),
    {
        match self.position(name) {
            Some(i) => &self.inner[i].1,
            None => {
                assert(false);
                &self.inner[0].1
            },
        }
    }

    /// Returns the contained name-value pairs in the insertion order.
    pub fn iter(&self) -> (r: &[(String, TracedValue)])
        ensures
            r@.map_values(|e: (String, TracedValue)| entry_view(e)) == self@,
    {
        self.inner.as_slice()
    }

    /// Inserts a value with the specified name. If a value with the same name was present
    /// previously, it is overwritten (keeping its place) and returned.
    pub fn insert(&mut self, name: String, value: TracedValue) -> (r: Option<TracedValue>)
        ensures
            final(self)@ == insert_entry(old(self)@, name@, value),
            r == value_of(old(self)@, name@),
    {
        proof {
            use_type_invariant(&*self);
            lemma_insert_unique(self@, name@, value);
        }
        let ghost old_view = self@;
        let position = self.position(name.as_str());
        let mut inner: Vec<(String, TracedValue)> = Vec::new();
        std::mem::swap(&mut inner, &mut self.inner);
        match position {
            Some(pos) => {
                let (existing_name, previous) = inner.remove(pos);
                inner.insert(pos, (existing_name, value));
                assert(inner@.map_values(|e: (String, TracedValue)| entry_view(e)) =~= insert_entry(
                    old_view,
                    name@,
                    value,
                ));
                self.inner = inner;
                Some(previous)
            },
            None => {
                inner.push((name, value));
                assert(inner@.map_values(|e: (String, TracedValue)| entry_view(e)) =~= insert_entry(
                    old_view,
                    name@,
                    value,
                ));
                self.inner = inner;
                None
            },
        }
    }

    /// Inserts all the specified name-value pairs in their order.
    pub fn extend(&mut self, pairs: Vec<(String, TracedValue)>)
        ensures
            final(self)@ == insert_all(
                old(self)@,
                pairs@.map_values(|e: (String, TracedValue)| entry_view(e)),
            ),
    {
        let ghost start = self@;
        let ghost pairs_view = pairs@.map_values(|e: (String, TracedValue)| entry_view(e));
        proof {
            assert(pairs_view.take(0) =~= Seq::<(Seq<char>, TracedValue)>::empty());
        }
        for pair in it: pairs.into_iter()
            invariant
                it.seq() == pairs@,
                pairs_view == pairs@.map_values(|e: (String, TracedValue)| entry_view(e)),
                self@ == insert_all(start, pairs_view.take(it.index() as int)),
        {
            let ghost i = it.index();
            proof {
                assert(pairs_view.take(i + 1).drop_last() =~= pairs_view.take(i as int));
            }
            let (name, value) = pair;
            self.insert(name, value);
        }
        proof {
            assert(pairs_view.take(pairs_view.len() as int) =~= pairs_view);
        }
    }

    /// Creates values by inserting the specified name-value pairs in their order.
    pub fn from_iter(pairs: Vec<(String, TracedValue)>) -> (r: Self)
        ensures
            r@ == insert_all(
                Seq::<(Seq<char>, TracedValue)>::empty(),
                pairs@.map_values(|e: (String, TracedValue)| entry_view(e)),
            ),
    {
        let mut r = Self::new();
        r.extend(pairs);
        r
    }

    /// Returns the contained name-value pairs in the insertion order.
    pub fn into_inner(self) -> (r: Vec<(String, TracedValue)>)
        ensures
            r@.map_values(|e: (String, TracedValue)| entry_view(e)) == self@,
    {
        self.inner
    }
}

} // verus!
