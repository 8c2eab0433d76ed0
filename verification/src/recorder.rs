//! Bookkeeping of a metrics recorder that reports metric updates as tracing events:
//! metric metadata and data maps, metric values and the contents of update reports.
use vstd::prelude::*;

use crate::metrics::{kind_name, MetricKind};
use crate::labels::pairs_view;
use crate::text::str_eq;

verus! {

/// Keys of metric maps: comparable by their views.
pub trait SameKey: View + Sized {
    /// Do the two keys have the same view?
    fn same_key(&self, other: &Self) -> (r: bool)
        ensures
            r == (self@ == other@),
    ;
}

impl SameKey for String {
    fn same_key(&self, other: &Self) -> (r: bool) {
        str_eq(self.as_str(), other.as_str())
    }
}

/// Key of a metric: its name and labels (key-value pairs, in the order of their definition).
#[derive(Debug)]
pub struct MetricKey {
    /// Name of the metric.
    pub name: String,
    /// Labels of the metric.
    pub labels: Vec<(String, String)>,
}

impl View for MetricKey {
    type V = (Seq<char>, Seq<(Seq<char>, Seq<char>)>);

    open spec fn view(&self) -> (Seq<char>, Seq<(Seq<char>, Seq<char>)>) {
        (self.name@, pairs_view(self.labels@))
    }
}

/// Compares label lists pairwise.
fn same_labels(a: &Vec<(String, String)>, b: &Vec<(String, String)>) -> (r: bool)
    ensures
        r == (pairs_view(a@) == pairs_view(b@)),
{
    if a.len() != b.len() {
        assert(pairs_view(a@).len() != pairs_view(b@).len());
        return false;
    }
    let mut k: usize = 0;
    while k < a.len()
        invariant
            a.len() == b.len(),
            k <= a.len(),
            pairs_view(a@).take(k as int) == pairs_view(b@).take(k as int),
        decreases a.len() - k,
    {
        if !str_eq(a[k].0.as_str(), b[k].0.as_str()) || !str_eq(a[k].1.as_str(), b[k].1.as_str()) {
            assert(pairs_view(a@)[k as int] != pairs_view(b@)[k as int]);
            return false;
        }
        assert(pairs_view(a@).take(k + 1) =~= pairs_view(a@).take(k as int).push(pairs_view(a@)[k as int]));
        assert(pairs_view(b@).take(k + 1) =~= pairs_view(b@).take(k as int).push(pairs_view(b@)[k as int]));
        k += 1;
    }
    assert(pairs_view(a@).take(k as int) =~= pairs_view(a@));
    assert(pairs_view(b@).take(k as int) =~= pairs_view(b@));
    true
}

impl SameKey for MetricKey {
    fn same_key(&self, other: &Self) -> (r: bool) {
        str_eq(self.name.as_str(), other.name.as_str()) && same_labels(&self.labels, &other.labels)
    }
}

/// Entries of an association list with unique keys, as a map.
pub open spec fn entries_map<K: View, V>(entries: Seq<(K, V)>) -> Map<K::V, V>
    decreases entries.len(),
{
    if entries.len() == 0 {
        Map::empty()
    } else {
        entries_map(entries.drop_last()).insert(entries.last().0@, entries.last().1)
    }
}

/// No two entries have keys with the same view.
pub open spec fn keys_unique<K: View, V>(entries: Seq<(K, V)>) -> bool {
    forall|i: int, j: int| 0 <= i < j < entries.len() ==> entries[i].0@ != entries[j].0@
}

/// Each entry of a list with unique keys is what the map holds for its key, and the map holds
/// nothing else.
proof fn lemma_entries_map<K: View, V>(entries: Seq<(K, V)>)
    requires
        keys_unique(entries),
    ensures
        forall|i: int|
            0 <= i < entries.len() ==> #[trigger] entries_map(entries).contains_key(entries[i].0@)
                && entries_map(entries)[entries[i].0@] == entries[i].1,
        forall|k: K::V|
            #[trigger] entries_map(entries).contains_key(k) ==> exists|i: int|
                0 <= i < entries.len() && entries[i].0@ == k,
    decreases entries.len(),
{
    if entries.len() > 0 {
        let init = entries.drop_last();
        lemma_entries_map(init);
        assert forall|i: int| 0 <= i < entries.len() implies #[trigger] entries_map(
            entries,
        ).contains_key(entries[i].0@) && entries_map(entries)[entries[i].0@] == entries[i].1 by {
            if i < entries.len() - 1 {
                assert(entries[i] == init[i]);
                assert(entries[i].0@ != entries[entries.len() - 1].0@);
                assert(entries_map(init).contains_key(init[i].0@));
            }
        }
        assert forall|k: K::V| #[trigger] entries_map(entries).contains_key(k) implies exists|i: int|
            0 <= i < entries.len() && entries[i].0@ == k by {
            if k != entries.last().0@ {
                assert(entries_map(init).contains_key(k));
                let i = choose|i: int| 0 <= i < init.len() && init[i].0@ == k;
                assert(entries[i] == init[i]);
            } else {
                assert(entries[entries.len() - 1].0@ == k);
            }
        }
    }
}

/// Map from keys to values, one for each kind of metrics.
#[derive(Debug)]
pub struct MetricMaps<K: View, V> {
    counters: Vec<(K, V)>,
    gauges: Vec<(K, V)>,
    histograms: Vec<(K, V)>,
}

impl<K: View, V> MetricMaps<K, V> {
    /// Entries for the specified kind of metrics.
    pub closed spec fn entries(&self, kind: MetricKind) -> Seq<(K, V)> {
        match kind {
            MetricKind::Counter => self.counters@,
            MetricKind::Gauge => self.gauges@,
            MetricKind::Histogram => self.histograms@,
        }
    }

    /// Map for the specified kind of metrics.
    pub open spec fn map(&self, kind: MetricKind) -> Map<K::V, V> {
        entries_map(self.entries(kind))
    }

    #[verifier::type_invariant]
    closed spec fn inv(&self) -> bool {
        &&& keys_unique(self.counters@)
        &&& keys_unique(self.gauges@)
        &&& keys_unique(self.histograms@)
    }

    /// Creates empty maps.
    pub fn new() -> (r: Self)
        ensures
            forall|kind: MetricKind| #[trigger] r.map(kind) == Map::<K::V, V>::empty(),
    {
        let r = MetricMaps { counters: Vec::new(), gauges: Vec::new(), histograms: Vec::new() };
        assert forall|kind: MetricKind| #[trigger] r.map(kind) == Map::<K::V, V>::empty() by {
            assert(r.entries(kind).len() == 0);
        }
        r
    }
}

impl<K: SameKey, V> MetricMaps<K, V> {
    fn position(entries: &Vec<(K, V)>, key: &K) -> (r: Option<usize>)
        requires
            keys_unique(entries@),
        ensures
            match r {
                Some(i) => i < entries.len() && entries@[i as int].0@ == key@,
                None => forall|i: int| 0 <= i < entries.len() ==> entries@[i].0@ != key@,
            },
    {
        let mut i: usize = 0;
        while i < entries.len()
            invariant
                i <= entries.len(),
                forall|j: int| 0 <= j < i ==> entries@[j].0@ != key@,
            decreases entries.len() - i,
        {
            if entries[i].0.same_key(key) {
                return Some(i);
            }
            i += 1;
        }
        None
    }

    fn lookup<'a>(entries: &'a Vec<(K, V)>, key: &K) -> (r: Option<&'a V>)
        requires
            keys_unique(entries@),
        ensures
            match entries_map(entries@).get(key@) {
                Some(v) => r is Some && *r->0 == v,
                None => r is None,
            },
    {
        proof {
            lemma_entries_map(entries@);
        }
        match Self::position(entries, key) {
            Some(i) => Some(&entries[i].1),
            None => {
                assert(!entries_map(entries@).contains_key(key@));
                None
            },
        }
    }

    fn put(entries: &mut Vec<(K, V)>, key: K, value: V)
        requires
            keys_unique(old(entries)@),
        ensures
            keys_unique(final(entries)@),
            entries_map(final(entries)@) == entries_map(old(entries)@).insert(key@, value),
    {
        proof {
            lemma_entries_map(entries@);
        }
        let ghost before = entries@;
        match Self::position(entries, &key) {
            Some(i) => {
                entries.remove(i);
                entries.insert(i, (key, value));
                proof {
                    let after = entries@;
                    assert(after =~= before.update(i as int, after[i as int]));
                    assert(keys_unique(after)) by {
                        assert forall|a: int, b: int| 0 <= a < b < after.len() implies after[a].0@
                            != after[b].0@ by {
                            if a != i && b != i {
                                assert(after[a] == before[a] && after[b] == before[b]);
                            } else if a == i {
                                assert(after[b] == before[b]);
                            } else {
                                assert(after[a] == before[a]);
                            }
                        }
                    }
                    lemma_entries_map(after);
                    let m1 = entries_map(after);
                    let m2 = entries_map(before).insert(key@, value);
                    assert forall|k: K::V| m1.contains_key(k) <==> m2.contains_key(k) by {
                        if m2.contains_key(k) && k != key@ {
                            let j = choose|j: int| 0 <= j < before.len() && before[j].0@ == k;
                            assert(after[j] == before[j]);
                            assert(m1.contains_key(after[j].0@));
                        }
                        if m1.contains_key(k) {
                            let j = choose|j: int| 0 <= j < after.len() && after[j].0@ == k;
                            if j != i {
                                assert(after[j] == before[j]);
                                assert(entries_map(before).contains_key(before[j].0@));
                            }
                        }
                    }
                    assert forall|k: K::V| m1.contains_key(k) implies m1[k] == m2[k] by {
                        let j = choose|j: int| 0 <= j < after.len() && after[j].0@ == k;
                        assert(m1[after[j].0@] == after[j].1);
                        if j != i {
                            assert(after[j] == before[j]);
                            assert(entries_map(before)[before[j].0@] == before[j].1);
                        }
                    }
                    assert(m1 =~= m2);
                }
            },
            None => {
                entries.push((key, value));
                proof {
                    let after = entries@;
                    assert(after.drop_last() =~= before);
                    assert(keys_unique(after)) by {
                        assert forall|a: int, b: int| 0 <= a < b < after.len() implies after[a].0@
                            != after[b].0@ by {
                            assert(after[a] == before[a]);
                            if b < before.len() {
                                assert(after[b] == before[b]);
                            }
                        }
                    }
                }
            },
        }
    }

    /// Returns the value stored for the key in the map for the specified kind.
    pub fn get(&self, kind: MetricKind, key: &K) -> (r: Option<&V>)
        ensures
            match self.map(kind).get(key@) {
                Some(v) => r is Some && *r->0 == v,
                None => r is None,
            },
    {
        proof {
            use_type_invariant(self);
        }
        match kind {
            MetricKind::Counter => Self::lookup(&self.counters, key),
            MetricKind::Gauge => Self::lookup(&self.gauges, key),
            MetricKind::Histogram => Self::lookup(&self.histograms, key),
        }
    }

    /// Stores a value for the key in the map for the specified kind unless the key is present
    /// there already; returns whether the value was stored.
    pub fn insert_if_absent(&mut self, kind: MetricKind, key: K, value: V) -> (inserted: bool)
        ensures
            inserted == !old(self).map(kind).contains_key(key@),
            final(self).map(kind) == (if inserted {
                old(self).map(kind).insert(key@, value)
            } else {
                old(self).map(kind)
            }),
            forall|other: MetricKind| other != kind ==> #[trigger] final(self).map(other) == old(
                self,
            ).map(other),
    {
        let present = match self.get(kind, &key) {
            Some(_) => true,
            None => false,
        };
        if present {
            false
        } else {
            self.insert(kind, key, value);
            true
        }
    }

    /// Stores a value for the key in the map for the specified kind, replacing the previous
    /// value for the key, if any.
    pub fn insert(&mut self, kind: MetricKind, key: K, value: V)
        ensures
            final(self).map(kind) == old(self).map(kind).insert(key@, value),
            forall|other: MetricKind| other != kind ==> #[trigger] final(self).map(other) == old(
                self,
            ).map(other),
    {
        proof {
            use_type_invariant(&*self);
        }
        let mut counters = Vec::new();
        let mut gauges = Vec::new();
        let mut histograms = Vec::new();
        std::mem::swap(&mut counters, &mut self.counters);
        std::mem::swap(&mut gauges, &mut self.gauges);
        std::mem::swap(&mut histograms, &mut self.histograms);
        match kind {
            MetricKind::Counter => Self::put(&mut counters, key, value),
            MetricKind::Gauge => Self::put(&mut gauges, key, value),
            MetricKind::Histogram => Self::put(&mut histograms, key, value),
        }
        self.counters = counters;
        self.gauges = gauges;
        self.histograms = histograms;
    }
}

/// Metadata of a metric: its unit (by the name of the unit, such as `seconds`) and its
/// description.
#[derive(Debug)]
pub struct MetricMetadata {
    /// Name of the measurement unit, if one was specified.
    pub unit: Option<String>,
    /// Human-readable description.
    pub description: String,
}

impl MetricMetadata {
    /// Creates metadata with the specified unit and description.
    pub fn new(unit: Option<String>, description: String) -> (r: Self)
        ensures
            r.unit == unit,
            r.description == description,
    {
        MetricMetadata { unit, description }
    }
}

/// Data of a metric: its name, labels and current value (the bit pattern of the value for
/// gauges and histograms).
#[derive(Debug)]
pub struct MetricData {
    /// Name of the metric.
    pub name: String,
    /// Labels of the metric.
    pub labels: Vec<(String, String)>,
    /// Current value.
    pub value: u64,
}

impl MetricData {
    /// Creates data for a counter with the specified key; the counter starts at 0.
    pub fn new_counter(key: MetricKey) -> (r: Self)
        ensures
            r.name@ == key.name@,
            pairs_view(r.labels@) == pairs_view(key.labels@),
            r.value == 0,
    {
        MetricData { name: key.name, labels: key.labels, value: 0 }
    }

    /// Creates data for a gauge or a histogram with the specified key; the value starts at
    /// 0.0, whose bit pattern is 0.
    pub fn new_gauge(key: MetricKey) -> (r: Self)
        ensures
            r.name@ == key.name@,
            pairs_view(r.labels@) == pairs_view(key.labels@),
            r.value == 0,
    {
        MetricData { name: key.name, labels: key.labels, value: 0 }
    }

    /// Creates data for a metric of the specified kind: a counter, or otherwise a gauge.
    pub fn for_kind(kind: MetricKind, key: MetricKey) -> (r: Self)
        ensures
            r.name@ == key.name@,
            pairs_view(r.labels@) == pairs_view(key.labels@),
            r.value == 0,
    {
        match kind {
            MetricKind::Counter => Self::new_counter(key),
            MetricKind::Gauge | MetricKind::Histogram => Self::new_gauge(key),
        }
    }

    /// Increments a counter (wrapping around on overflow); returns the previous and the new
    /// value.
    pub fn increment_counter(&mut self, delta: u64) -> (r: (u64, u64))
        ensures
            r.0 == old(self).value,
            r.1 == (old(self).value + delta) % 0x1_0000_0000_0000_0000,
            final(self).value == r.1,
            final(self).name == old(self).name,
            final(self).labels == old(self).labels,
    {
        let prev = self.value;
        let value = prev.wrapping_add(delta);
        self.value = value;
        (prev, value)
    }

    /// Sets a counter to the specified value unless it is already greater; returns the
    /// previous value and the specified one.
    pub fn absolute_counter(&mut self, value: u64) -> (r: (u64, u64))
        ensures
            r == (old(self).value, value),
            final(self).value == (if value > old(self).value {
                value
            } else {
                old(self).value
            }),
            final(self).name == old(self).name,
            final(self).labels == old(self).labels,
    {
        let prev = self.value;
        if value > prev {
            self.value = value;
        }
        (prev, value)
    }

    /// Replaces the value; returns the previous one.
    pub fn swap_value(&mut self, value: u64) -> (r: u64)
        ensures
            (r, final(self).value) == swap_step(old(self).value, value),
            final(self).name == old(self).name,
            final(self).labels == old(self).labels,
    {
        let prev = self.value;
        self.value = value;
        prev
    }
}

/// One update of a gauge or a histogram holding `value` to `new`: the reported previous
/// value and the value held afterwards.
pub open spec fn swap_step(value: u64, new: u64) -> (u64, u64) {
    (value, new)
}

/// Value held after updating a metric holding `start` to each of `values` in turn.
pub open spec fn value_after_swaps(start: u64, values: Seq<u64>) -> u64
    decreases values.len(),
{
    if values.len() == 0 {
        start
    } else {
        swap_step(value_after_swaps(start, values.drop_last()), values.last()).1
    }
}

/// Reports (previous value, new value) of updating a metric holding `start` to each of
/// `values` in turn.
pub open spec fn swap_reports(start: u64, values: Seq<u64>) -> Seq<(u64, u64)>
    decreases values.len(),
{
    if values.len() == 0 {
        Seq::empty()
    } else {
        swap_reports(start, values.drop_last()).push(
            swap_step(value_after_swaps(start, values.drop_last()), values.last()),
        )
    }
}

/// Successive updates of a gauge or a histogram each report the value that the previous
/// update stored (the starting value for the first update, which is 0, the bits of 0.0, for
/// a new metric), and the metric holds the last value afterwards.
pub proof fn law_successive_updates(start: u64, values: Seq<u64>)
    ensures
        swap_reports(start, values).len() == values.len(),
        forall|k: int|
            0 <= k < values.len() ==> #[trigger] swap_reports(start, values)[k] == (
            if k == 0 {
                start
            } else {
                values[k - 1]
            },
            values[k],
        ),
        values.len() > 0 ==> value_after_swaps(start, values) == values.last(),
        values.len() == 0 ==> value_after_swaps(start, values) == start,
    decreases values.len(),
{
    if values.len() > 0 {
        let init = values.drop_last();
        law_successive_updates(start, init);
        if init.len() > 0 {
            assert(value_after_swaps(start, init) == init.last());
        }
        assert forall|k: int| 0 <= k < values.len() implies #[trigger] swap_reports(start, values)[k]
            == (if k == 0 {
            start
        } else {
            values[k - 1]
        }, values[k]) by {
            if k < init.len() {
                assert(swap_reports(start, values)[k] == swap_reports(start, init)[k]);
                assert(init[k] == values[k]);
                if k > 0 {
                    assert(init[k - 1] == values[k - 1]);
                }
            }
        }
    }
}

/// Contents of the tracing event reporting a metric update, apart from the values.
#[derive(Debug)]
pub struct MetricReport {
    /// Kind of the metric: `counter`, `gauge` or `histogram`.
    pub kind: &'static str,
    /// Name of the metric.
    pub name: String,
    /// Labels of the metric, or `None` if there are none.
    pub labels: Option<Vec<(String, String)>>,
    /// Name of the unit, if one was described.
    pub unit: Option<String>,
    /// Description of the metric, or `None` if it was not described or is empty.
    pub description: Option<String>,
    /// Space between the value and the unit in the message: empty when no unit is shown.
    pub unit_spacing: &'static str,
    /// Unit shown after the value in the message: empty for no unit or the `count` unit.
    pub unit_str: String,
}

/// Name of the `count` unit.
pub open spec fn count_unit() -> Seq<char> {
    seq!['c', 'o', 'u', 'n', 't']
}

fn clone_pairs(pairs: &Vec<(String, String)>) -> (r: Vec<(String, String)>)
    ensures
        pairs_view(r@) == pairs_view(pairs@),
{
    let mut r: Vec<(String, String)> = Vec::new();
    let mut k: usize = 0;
    while k < pairs.len()
        invariant
            k <= pairs.len(),
            pairs_view(r@) == pairs_view(pairs@).take(k as int),
        decreases pairs.len() - k,
    {
        let ghost before = r@;
        let pair = (pairs[k].0.clone(), pairs[k].1.clone());
        assert(pair == pairs@[k as int]);
        r.push(pair);
        assert(pairs_view(r@) =~= pairs_view(before).push(pairs_view(pairs@)[k as int]));
        assert(pairs_view(pairs@).take(k + 1) =~= pairs_view(pairs@).take(k as int).push(
            pairs_view(pairs@)[k as int],
        ));
        k += 1;
    }
    assert(pairs_view(pairs@).take(k as int) =~= pairs_view(pairs@));
    r
}

impl MetricData {
    /// Builds the report of an update of this metric of the specified kind, using
    /// the metadata described for the metric (if any).
    pub fn report(&self, kind: MetricKind, metadata: &MetricMaps<String, MetricMetadata>) -> (r:
        MetricReport)
        ensures
            r.kind@ == kind_name(kind),
            r.name@ == self.name@,
            match r.labels {
                None => self.labels@.len() == 0,
                Some(labels) => self.labels@.len() > 0 && pairs_view(labels@) == pairs_view(
                    self.labels@,
                ),
            },
            ({
                let described = metadata.map(kind).get(self.name@);
                let unit = match described {
                    Some(m) => m.unit,
                    None => None,
                };
                &&& r.unit == unit
                &&& match described {
                    Some(m) if m.description@.len() > 0 => r.description == Some(m.description),
                    _ => r.description is None,
                }
                &&& match unit {
                    Some(u) if u@ != count_unit() => r.unit_spacing@ == seq![' '] && r.unit_str@
                        == u@,
                    _ => r.unit_spacing@ == Seq::<char>::empty() && r.unit_str@
                        == Seq::<char>::empty(),
                }
            }),
    {
        let described = metadata.get(kind, &self.name);
        let unit = match described {
            Some(m) => m.unit.clone(),
            None => None,
        };
        let description = match described {
            Some(m) => if m.description.as_str().unicode_len() > 0 {
                Some(m.description.clone())
            } else {
                None
            },
            None => None,
        };
        let count = "count";
        proof {
            reveal_strlit("count");
            reveal_strlit(" ");
            reveal_strlit("");
            assert(count@ =~= count_unit());
        }
        let (unit_spacing, unit_str) = match &unit {
            Some(u) => if str_eq(u.as_str(), count) {
                ("", String::new())
            } else {
                (" ", u.clone())
            },
            None => ("", String::new()),
        };
        assert(" "@ =~= seq![' ']);
        let labels = if self.labels.len() == 0 {
            None
        } else {
            Some(clone_pairs(&self.labels))
        };
        MetricReport {
            kind: kind.as_str(),
            name: self.name.clone(),
            labels,
            unit,
            description,
            unit_spacing,
            unit_str,
        }
    }
}

} // verus!
