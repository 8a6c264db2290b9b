//! The arrangement statistics aggregator: an incremental reduction pipeline
//! turning batch and merge events into continuously updated per-key size
//! statistics and merge-level histograms.
//!
//! Every size sample is kept in a live, retractable per-key multiset and the
//! extrema are recomputed from it — never from a single running scalar —
//! because a retraction can invalidate a previous maximum or minimum. Merges
//! without a completed size are still in progress and are filtered out
//! entirely. Each change republishes the combined record for its key as a
//! pair of differential output records: a retraction of the prior record and
//! an assertion of the new one.

use vstd::prelude::*;

use crate::event::DifferentialEvent;
use crate::keyed::{
    assoc_map, find_key, lemma_assoc_absent, lemma_assoc_contains, lemma_assoc_push,
    lemma_assoc_remove, unique_keys,
};

verus! {

/// A differential log record: receipt time, worker, event.
#[derive(Debug, Clone, Copy, PartialEq, Eq, Hash, Structural)]
pub struct DifferentialLogBundle {
    pub time: u64,
    pub worker: usize,
    pub event: DifferentialEvent,
}

/// Continuously updated statistics for one (worker, operator) key.
#[derive(Debug, Clone, PartialEq, Eq, Hash)]
pub struct ArrangementStats {
    pub max_size: usize,
    pub min_size: usize,
    pub batches: usize,
    /// Merge time, merge scale and the completed size of the merge.
    pub spline_levels: Vec<(u64, usize, usize)>,
}

/// One differential output record: an assertion (diff +1) or a retraction
/// (diff -1) of the combined statistics for a key, so that a consumer summing
/// multiplicities sees correct current state.
#[derive(Debug, Clone, PartialEq, Eq, Hash)]
pub struct OutputDelta {
    pub worker: usize,
    pub operator: usize,
    pub stats: ArrangementStats,
    pub diff: isize,
}

/// The largest size in a sample sequence (zero when empty). Each sample is a
/// (size, contributed-by-batch) pair.
pub open spec fn max_sample(samples: Seq<(usize, bool)>) -> usize
    decreases samples.len(),
{
    if samples.len() == 0 {
        0
    } else {
        let m = max_sample(samples.drop_last());
        if samples.last().0 >= m {
            samples.last().0
        } else {
            m
        }
    }
}

/// The smallest size in a sample sequence (`usize::MAX` when empty).
pub open spec fn min_sample(samples: Seq<(usize, bool)>) -> usize
    decreases samples.len(),
{
    if samples.len() == 0 {
        usize::MAX
    } else {
        let m = min_sample(samples.drop_last());
        if samples.last().0 <= m {
            samples.last().0
        } else {
            m
        }
    }
}

/// How many live samples a batch contributed: the batch count is derived from
/// the live multiset, so a retraction also retracts its count.
pub open spec fn batch_count(samples: Seq<(usize, bool)>) -> nat
    decreases samples.len(),
{
    if samples.len() == 0 {
        0
    } else {
        batch_count(samples.drop_last()) + if samples.last().1 {
            1nat
        } else {
            0nat
        }
    }
}

/// Lexicographic order on (time, scale, completed size) observations.
pub open spec fn triple_le(a: (u64, usize, usize), b: (u64, usize, usize)) -> bool {
    a.0 < b.0 || (a.0 == b.0 && (a.1 < b.1 || (a.1 == b.1 && a.2 <= b.2)))
}

/// A sequence of observations in lexicographic order.
pub open spec fn sorted_triples(s: Seq<(u64, usize, usize)>) -> bool {
    forall|i: int, j: int| 0 <= i < j < s.len() ==> triple_le(#[trigger] s[i], #[trigger] s[j])
}

/// Insertion into lexicographic order, after any equal observations, so that
/// duplicates are preserved, never deduplicated.
pub open spec fn sorted_insert(s: Seq<(u64, usize, usize)>, t: (u64, usize, usize)) -> Seq<
    (u64, usize, usize),
>
    decreases s.len(),
{
    if s.len() > 0 && triple_le(s.first(), t) {
        seq![s.first()].add(sorted_insert(s.drop_first(), t))
    } else {
        seq![t].add(s)
    }
}

/// The size sample a record contributes to a key: a batch contributes its
/// length, a completed merge its completed size; nothing else contributes.
pub open spec fn sample_of(b: DifferentialLogBundle, k: (usize, usize)) -> Option<(usize, bool)> {
    match b.event {
        DifferentialEvent::Batch(e) => if (b.worker, e.operator) == k {
            Some((e.length, true))
        } else {
            None
        },
        DifferentialEvent::Merge(e) => match e.complete {
            Some(size) => if (b.worker, e.operator) == k {
                Some((size, false))
            } else {
                None
            },
            None => None,
        },
        _ => None,
    }
}

/// The merge-level observation a record contributes to a key: only a
/// completed merge contributes one.
pub open spec fn spline_of(b: DifferentialLogBundle, k: (usize, usize)) -> Option<
    (u64, usize, usize),
> {
    match b.event {
        DifferentialEvent::Merge(e) => match e.complete {
            Some(size) => if (b.worker, e.operator) == k {
                Some((b.time, e.scale, size))
            } else {
                None
            },
            None => None,
        },
        _ => None,
    }
}

/// Whether a record is a completed-merge observation for `k`.
pub open spec fn is_completed_merge_for(b: DifferentialLogBundle, k: (usize, usize)) -> bool {
    spline_of(b, k) is Some
}

/// How many completed-merge observations a record sequence holds for `k`,
/// across all scales.
pub open spec fn completed_merge_count(s: Seq<DifferentialLogBundle>, k: (usize, usize)) -> nat
    decreases s.len(),
{
    if s.len() == 0 {
        0
    } else {
        completed_merge_count(s.drop_last(), k) + if is_completed_merge_for(s.last(), k) {
            1nat
        } else {
            0nat
        }
    }
}

/// The live sample sequence for `k` after a record sequence, grown from
/// `base`.
pub open spec fn run_samples(
    base: Seq<(usize, bool)>,
    s: Seq<DifferentialLogBundle>,
    k: (usize, usize),
) -> Seq<(usize, bool)>
    decreases s.len(),
{
    if s.len() == 0 {
        base
    } else {
        let pre = run_samples(base, s.drop_last(), k);
        match sample_of(s.last(), k) {
            Some(x) => pre.push(x),
            None => pre,
        }
    }
}

/// The merge-level observation list for `k` after a record sequence, grown
/// from `base`.
pub open spec fn run_splines(
    base: Seq<(u64, usize, usize)>,
    s: Seq<DifferentialLogBundle>,
    k: (usize, usize),
) -> Seq<(u64, usize, usize)>
    decreases s.len(),
{
    if s.len() == 0 {
        base
    } else {
        let pre = run_splines(base, s.drop_last(), k);
        match spline_of(s.last(), k) {
            Some(t) => sorted_insert(pre, t),
            None => pre,
        }
    }
}

/// What a published record must say of a key's live state: the extrema of the
/// live sample set, the live batch count, and the observation list itself.
pub open spec fn stats_matches(
    s: ArrangementStats,
    samples: Seq<(usize, bool)>,
    splines: Seq<(u64, usize, usize)>,
) -> bool {
    s.max_size == max_sample(samples) && s.min_size == min_sample(samples) && s.batches
        == batch_count(samples) && s.spline_levels@ == splines
}

/// A key publishes a combined record exactly when both of its sides hold
/// data: the join of the size aggregate with the observation list.
pub open spec fn has_record(
    samples: Seq<(usize, bool)>,
    splines: Seq<(u64, usize, usize)>,
) -> bool {
    samples.len() > 0 && splines.len() > 0
}

/// Per-key live state: the sample multiset (kept as its arrival sequence) and
/// the completed-merge observations in lexicographic order.
struct KeyState {
    samples: Vec<(usize, bool)>,
    splines: Vec<(u64, usize, usize)>,
}

/// The aggregation stage: per-key live state, keyed by (worker, operator).
pub struct ArrangementAggregator {
    keys: Vec<((usize, usize), KeyState)>,
}

impl ArrangementAggregator {
    /// The live sample sequence for a key; a key never touched is empty.
    pub closed spec fn samples_at(&self, k: (usize, usize)) -> Seq<(usize, bool)> {
        if assoc_map(self.keys@).contains_key(k) {
            assoc_map(self.keys@)[k].samples@
        } else {
            Seq::empty()
        }
    }

    /// The observation list for a key; a key never touched is empty.
    pub closed spec fn splines_at(&self, k: (usize, usize)) -> Seq<(u64, usize, usize)> {
        if assoc_map(self.keys@).contains_key(k) {
            assoc_map(self.keys@)[k].splines@
        } else {
            Seq::empty()
        }
    }

    /// One state per key; every observation list ordered.
    pub closed spec fn wf(&self) -> bool {
        unique_keys(self.keys@) && forall|i: int|
            0 <= i < self.keys@.len() ==> sorted_triples((#[trigger] self.keys@[i]).1.splines@)
    }

    /// An aggregator with no live state.
    pub fn new() -> (r: ArrangementAggregator)
        ensures
            r.wf(),
            forall|k: (usize, usize)| #[trigger] r.samples_at(k) == Seq::<(usize, bool)>::empty(),
            forall|k: (usize, usize)| #[trigger] r.splines_at(k) == Seq::<
                (u64, usize, usize),
            >::empty(),
    {
        ArrangementAggregator { keys: Vec::new() }
    }

    /// The combined record for a key: `Some` exactly when both the sample
    /// side and the observation side hold data, with the extrema and the
    /// batch count recomputed from the live sample set.
    pub fn stats(&self, worker: usize, operator: usize) -> (r: Option<ArrangementStats>)
        requires
            self.wf(),
        ensures
            ({
                let samples = self.samples_at((worker, operator));
                let splines = self.splines_at((worker, operator));
                match r {
                    Some(s) => has_record(samples, splines) && stats_matches(s, samples, splines),
                    None => !has_record(samples, splines),
                }
            }),
    {
        let k = (worker, operator);
        match find_key(&self.keys, k) {
            Some(i) => {
                proof {
                    lemma_assoc_contains(self.keys@, i as int);
                }
                let st = &self.keys[i].1;
                if st.samples.len() == 0 || st.splines.len() == 0 {
                    return None;
                }
                let mut max: usize = 0;
                let mut min: usize = usize::MAX;
                let mut batches: usize = 0;
                let mut j: usize = 0;
                while j < st.samples.len()
                    invariant
                        j <= st.samples@.len(),
                        max == max_sample(st.samples@.take(j as int)),
                        min == min_sample(st.samples@.take(j as int)),
                        batches == batch_count(st.samples@.take(j as int)),
                        batches <= j,
                    decreases st.samples@.len() - j,
                {
                    proof {
                        assert(st.samples@.take(j as int + 1).drop_last() == st.samples@.take(
                            j as int,
                        ));
                        assert(st.samples@.take(j as int + 1).last() == st.samples@[j as int]);
                    }
                    let (size, from_batch) = st.samples[j];
                    if size > max {
                        max = size;
                    }
                    if size < min {
                        min = size;
                    }
                    if from_batch {
                        batches = batches + 1;
                    }
                    j = j + 1;
                }
                proof {
                    assert(st.samples@.take(st.samples@.len() as int) == st.samples@);
                }
                Some(
                    ArrangementStats {
                        max_size: max,
                        min_size: min,
                        batches,
                        spline_levels: copy_triples(&st.splines),
                    },
                )
            },
            None => {
                proof {
                    lemma_assoc_absent(self.keys@, k);
                }
                None
            },
        }
    }
}

/// A fresh copy of an observation list.
fn copy_triples(v: &Vec<(u64, usize, usize)>) -> (r: Vec<(u64, usize, usize)>)
    ensures
        r@ == v@,
{
    let mut r: Vec<(u64, usize, usize)> = Vec::new();
    let mut i: usize = 0;
    while i < v.len()
        invariant
            i <= v@.len(),
            r@ == v@.take(i as int),
        decreases v@.len() - i,
    {
        r.push(v[i]);
        proof {
            assert(v@.take(i as int).push(v@[i as int]) == v@.take(i as int + 1));
        }
        i = i + 1;
    }
    proof {
        assert(v@.take(v@.len() as int) == v@);
    }
    r
}


/// The lexicographic order, decided executably.
fn triple_le_exec(a: (u64, usize, usize), b: (u64, usize, usize)) -> (r: bool)
    ensures
        r == triple_le(a, b),
{
    a.0 < b.0 || (a.0 == b.0 && (a.1 < b.1 || (a.1 == b.1 && a.2 <= b.2)))
}

/// Scanning past every observation at most `t` finds where `sorted_insert`
/// places `t`.
proof fn lemma_sorted_insert_at(s: Seq<(u64, usize, usize)>, t: (u64, usize, usize), idx: int)
    requires
        0 <= idx <= s.len(),
        forall|j: int| 0 <= j < idx ==> triple_le(#[trigger] s[j], t),
        idx < s.len() ==> !triple_le(s[idx], t),
    ensures
        sorted_insert(s, t) == s.insert(idx, t),
    decreases s.len(),
{
    if idx == 0 {
        assert(seq![t].add(s) =~= s.insert(0, t));
    } else {
        assert(triple_le(s.first(), t));
        lemma_sorted_insert_at(s.drop_first(), t, idx - 1);
        assert(seq![s.first()].add(s.drop_first().insert(idx - 1, t)) =~= s.insert(idx, t));
    }
}

/// Places an observation at its position in the lexicographic order, after
/// any equal ones.
fn insert_triple(v: &mut Vec<(u64, usize, usize)>, t: (u64, usize, usize))
    requires
        sorted_triples(old(v)@),
    ensures
        sorted_triples(final(v)@),
        final(v)@ == sorted_insert(old(v)@, t),
{
    let mut idx: usize = 0;
    while idx < v.len() && triple_le_exec(v[idx], t)
        invariant
            idx <= v@.len(),
            forall|j: int| 0 <= j < idx ==> triple_le(#[trigger] v@[j], t),
        decreases v@.len() - idx,
    {
        idx = idx + 1;
    }
    proof {
        lemma_sorted_insert_at(v@, t, idx as int);
    }
    let ghost s0 = v@;
    v.insert(idx, t);
    proof {
        assert forall|i: int, j: int| 0 <= i < j < v@.len() implies triple_le(
            #[trigger] v@[i],
            #[trigger] v@[j],
        ) by {
            if j < idx {
                assert(v@[i] == s0[i] && v@[j] == s0[j]);
            } else if i > idx {
                assert(v@[i] == s0[i - 1] && v@[j] == s0[j - 1]);
            } else if i < idx && j == idx {
                assert(v@[i] == s0[i]);
            } else if i == idx && j > idx {
                assert(v@[j] == s0[j - 1]);
                assert(!triple_le(s0[idx as int], t));
                assert(triple_le(s0[idx as int], s0[j - 1]) || idx as int == j - 1);
            } else if i < idx && j > idx {
                assert(v@[i] == s0[i] && v@[j] == s0[j - 1]);
                assert(triple_le(s0[i], t));
                assert(!triple_le(s0[idx as int], t));
                if i < idx as int && idx as int <= j - 1 && i < j - 1 {
                    assert(triple_le(s0[i], s0[j - 1]));
                }
            }
        }
    }
}

/// Two published records carry the same data.
pub open spec fn same_stats(a: ArrangementStats, b: ArrangementStats) -> bool {
    a.max_size == b.max_size && a.min_size == b.min_size && a.batches == b.batches
        && a.spline_levels@ == b.spline_levels@
}

/// Whether two records carry the same data, decided executably.
fn stats_eq(a: &ArrangementStats, b: &ArrangementStats) -> (r: bool)
    ensures
        r == same_stats(*a, *b),
{
    if a.max_size != b.max_size || a.min_size != b.min_size || a.batches != b.batches
        || a.spline_levels.len() != b.spline_levels.len() {
        return false;
    }
    let mut i: usize = 0;
    while i < a.spline_levels.len()
        invariant
            i <= a.spline_levels@.len(),
            a.spline_levels@.len() == b.spline_levels@.len(),
            forall|j: int| 0 <= j < i ==> a.spline_levels@[j] == b.spline_levels@[j],
        decreases a.spline_levels@.len() - i,
    {
        let x = a.spline_levels[i];
        let y = b.spline_levels[i];
        if x.0 != y.0 || x.1 != y.1 || x.2 != y.2 {
            return false;
        }
        i = i + 1;
    }
    proof {
        assert(a.spline_levels@ =~= b.spline_levels@);
    }
    true
}

/// One output record asserts (+1) or retracts (-1) the record a key's state
/// stands for.
pub open spec fn delta_for(
    d: OutputDelta,
    k: (usize, usize),
    samples: Seq<(usize, bool)>,
    splines: Seq<(u64, usize, usize)>,
    diff: int,
) -> bool {
    d.worker == k.0 && d.operator == k.1 && stats_matches(d.stats, samples, splines) && d.diff
        == diff
}

/// A key's live values, as published: the extrema, the batch count and the
/// observation list.
pub open spec fn same_value(
    s1: Seq<(usize, bool)>,
    p1: Seq<(u64, usize, usize)>,
    s2: Seq<(usize, bool)>,
    p2: Seq<(u64, usize, usize)>,
) -> bool {
    max_sample(s1) == max_sample(s2) && min_sample(s1) == min_sample(s2) && batch_count(s1)
        == batch_count(s2) && p1 == p2
}

/// What a change of one key's state publishes: the prior record is retracted
/// and the new one asserted, each only where it exists, and nothing leaves
/// when the published value did not change.
pub open spec fn delta_matches_change(
    ds: Seq<OutputDelta>,
    k: (usize, usize),
    old_samples: Seq<(usize, bool)>,
    old_splines: Seq<(u64, usize, usize)>,
    new_samples: Seq<(usize, bool)>,
    new_splines: Seq<(u64, usize, usize)>,
) -> bool {
    if !has_record(old_samples, old_splines) && !has_record(new_samples, new_splines) {
        ds.len() == 0
    } else if !has_record(old_samples, old_splines) {
        ds.len() == 1 && delta_for(ds[0], k, new_samples, new_splines, 1)
    } else if !has_record(new_samples, new_splines) {
        ds.len() == 1 && delta_for(ds[0], k, old_samples, old_splines, -1)
    } else if same_value(old_samples, old_splines, new_samples, new_splines) {
        ds.len() == 0
    } else {
        ds.len() == 2 && delta_for(ds[0], k, old_samples, old_splines, -1) && delta_for(
            ds[1],
            k,
            new_samples,
            new_splines,
            1,
        )
    }
}

/// The key whose state a record changes, if it changes one at all.
pub open spec fn touched_key(b: DifferentialLogBundle) -> Option<(usize, usize)> {
    match b.event {
        DifferentialEvent::Batch(e) => Some((b.worker, e.operator)),
        DifferentialEvent::Merge(e) => match e.complete {
            Some(_) => Some((b.worker, e.operator)),
            None => None,
        },
        _ => None,
    }
}

impl ArrangementAggregator {
    /// Adds a sample (and an observation, for a completed merge) to a key.
    fn upsert(
        &mut self,
        k: (usize, usize),
        sample: (usize, bool),
        spline: Option<(u64, usize, usize)>,
    )
        requires
            old(self).wf(),
        ensures
            final(self).wf(),
            final(self).samples_at(k) == old(self).samples_at(k).push(sample),
            final(self).splines_at(k) == (match spline {
                Some(t) => sorted_insert(old(self).splines_at(k), t),
                None => old(self).splines_at(k),
            }),
            forall|k2: (usize, usize)|
                k2 != k ==> #[trigger] final(self).samples_at(k2) == old(self).samples_at(k2),
            forall|k2: (usize, usize)|
                k2 != k ==> #[trigger] final(self).splines_at(k2) == old(self).splines_at(k2),
    {
        let ghost s0 = self.keys@;
        let mut st: KeyState = match find_key(&self.keys, k) {
            Some(i) => {
                proof {
                    lemma_assoc_contains(self.keys@, i as int);
                    lemma_assoc_remove(self.keys@, i as int);
                }
                let e = self.keys.remove(i);
                proof {
                    assert forall|j: int| 0 <= j < self.keys@.len() implies (#[trigger] self
                        .keys@[j]).0 != k by {
                        let j0 = if j < i { j } else { j + 1 };
                        assert(self.keys@[j] == s0[j0]);
                    }
                }
                e.1
            },
            None => {
                proof {
                    lemma_assoc_absent(self.keys@, k);
                }
                KeyState { samples: Vec::new(), splines: Vec::new() }
            },
        };
        st.samples.push(sample);
        match spline {
            Some(t) => insert_triple(&mut st.splines, t),
            None => (),
        }
        let ghost s1 = self.keys@;
        proof {
            lemma_assoc_push(s1, k, st);
            assert(unique_keys(s1.push((k, st))));
        }
        self.keys.push((k, st));
        proof {
            assert forall|j: int| 0 <= j < self.keys@.len() implies sorted_triples(
                (#[trigger] self.keys@[j]).1.splines@,
            ) by {
                if j < self.keys@.len() - 1 {
                    assert(self.keys@[j] == s1[j]);
                }
            }
            assert(assoc_map(s0).contains_key(k) ==> assoc_map(s1) =~= assoc_map(s0).remove(k));
        }
    }

    /// Publishes the change of one key's record: a retraction of the prior
    /// record and an assertion of the new one, each only where it exists and
    /// only when the value changed.
    fn publish(
        &self,
        worker: usize,
        operator: usize,
        old_stats: Option<ArrangementStats>,
        new_stats: Option<ArrangementStats>,
    ) -> (delta: Vec<OutputDelta>)
        ensures
            ({
                match (old_stats, new_stats) {
                    (None, None) => delta@.len() == 0,
                    (None, Some(n)) => delta@.len() == 1 && delta@[0].worker == worker && delta@[0].operator
                        == operator && same_stats(delta@[0].stats, n) && delta@[0].diff == 1,
                    (Some(o), None) => delta@.len() == 1 && delta@[0].worker == worker && delta@[0].operator
                        == operator && same_stats(delta@[0].stats, o) && delta@[0].diff == -1,
                    (Some(o), Some(n)) => if same_stats(o, n) {
                        delta@.len() == 0
                    } else {
                        delta@.len() == 2 && delta@[0].worker == worker && delta@[0].operator
                            == operator && same_stats(delta@[0].stats, o) && delta@[0].diff == -1
                            && delta@[1].worker == worker && delta@[1].operator == operator
                            && same_stats(delta@[1].stats, n) && delta@[1].diff == 1
                    },
                }
            }),
    {
        let mut delta: Vec<OutputDelta> = Vec::new();
        match (old_stats, new_stats) {
            (None, None) => (),
            (None, Some(n)) => {
                delta.push(OutputDelta { worker, operator, stats: n, diff: 1 });
            },
            (Some(o), None) => {
                delta.push(OutputDelta { worker, operator, stats: o, diff: -1 });
            },
            (Some(o), Some(n)) => {
                if !stats_eq(&o, &n) {
                    delta.push(OutputDelta { worker, operator, stats: o, diff: -1 });
                    delta.push(OutputDelta { worker, operator, stats: n, diff: 1 });
                }
            },
        }
        delta
    }

    /// Adds one size sample for a key — and, for a completed merge, its
    /// observation — and republishes the key's record.
    fn apply(
        &mut self,
        worker: usize,
        operator: usize,
        sample: (usize, bool),
        spline: Option<(u64, usize, usize)>,
    ) -> (delta: Vec<OutputDelta>)
        requires
            old(self).wf(),
        ensures
            final(self).wf(),
            final(self).samples_at((worker, operator)) == old(self).samples_at(
                (worker, operator),
            ).push(sample),
            final(self).splines_at((worker, operator)) == (match spline {
                Some(t) => sorted_insert(old(self).splines_at((worker, operator)), t),
                None => old(self).splines_at((worker, operator)),
            }),
            forall|k2: (usize, usize)|
                k2 != (worker, operator) ==> #[trigger] final(self).samples_at(k2) == old(self).samples_at(k2),
            forall|k2: (usize, usize)|
                k2 != (worker, operator) ==> #[trigger] final(self).splines_at(k2) == old(self).splines_at(k2),
            delta_matches_change(
                delta@,
                (worker, operator),
                old(self).samples_at((worker, operator)),
                old(self).splines_at((worker, operator)),
                final(self).samples_at((worker, operator)),
                final(self).splines_at((worker, operator)),
            ),
    {
        let old_stats = self.stats(worker, operator);
        self.upsert((worker, operator), sample, spline);
        let new_stats = self.stats(worker, operator);
        self.publish(worker, operator, old_stats, new_stats)
    }

    /// Inserts one live size sample for a key and republishes its record.
    pub fn insert_sample(
        &mut self,
        worker: usize,
        operator: usize,
        size: usize,
        from_batch: bool,
    ) -> (delta: Vec<OutputDelta>)
        requires
            old(self).wf(),
        ensures
            final(self).wf(),
            final(self).samples_at((worker, operator)) == old(self).samples_at(
                (worker, operator),
            ).push((size, from_batch)),
            final(self).splines_at((worker, operator)) == old(self).splines_at(
                (worker, operator),
            ),
            forall|k2: (usize, usize)|
                k2 != (worker, operator) ==> #[trigger] final(self).samples_at(k2) == old(self).samples_at(k2),
            forall|k2: (usize, usize)|
                k2 != (worker, operator) ==> #[trigger] final(self).splines_at(k2) == old(self).splines_at(k2),
            delta_matches_change(
                delta@,
                (worker, operator),
                old(self).samples_at((worker, operator)),
                old(self).splines_at((worker, operator)),
                final(self).samples_at((worker, operator)),
                final(self).splines_at((worker, operator)),
            ),
    {
        self.apply(worker, operator, (size, from_batch), None)
    }

    /// Feeds one record: a batch contributes its length as a sample and
    /// counts toward the batch count; a completed merge contributes its
    /// completed size and its (time, scale, size) observation; merges still
    /// in progress and all other records contribute nothing. Returns the
    /// change to the published record set.
    pub fn process(&mut self, time: u64, worker: usize, event: &DifferentialEvent) -> (delta: Vec<
        OutputDelta,
    >)
        requires
            old(self).wf(),
        ensures
            final(self).wf(),
            forall|k: (usize, usize)|
                #[trigger] final(self).samples_at(k) == (match sample_of(
                    DifferentialLogBundle { time, worker, event: *event },
                    k,
                ) {
                    Some(x) => old(self).samples_at(k).push(x),
                    None => old(self).samples_at(k),
                }),
            forall|k: (usize, usize)|
                #[trigger] final(self).splines_at(k) == (match spline_of(
                    DifferentialLogBundle { time, worker, event: *event },
                    k,
                ) {
                    Some(t) => sorted_insert(old(self).splines_at(k), t),
                    None => old(self).splines_at(k),
                }),
            ({
                let b = DifferentialLogBundle { time, worker, event: *event };
                match touched_key(b) {
                    Some(k) => delta_matches_change(
                        delta@,
                        k,
                        old(self).samples_at(k),
                        old(self).splines_at(k),
                        final(self).samples_at(k),
                        final(self).splines_at(k),
                    ),
                    None => delta@.len() == 0,
                }
            }),
    {
        match event {
            DifferentialEvent::Batch(e) => self.apply(worker, e.operator, (e.length, true), None),
            DifferentialEvent::Merge(e) => match e.complete {
                Some(size) => self.apply(
                    worker,
                    e.operator,
                    (size, false),
                    Some((time, e.scale, size)),
                ),
                None => Vec::new(),
            },
            _ => Vec::new(),
        }
    }

    /// Retracts one live size sample for a key — one occurrence, if any is
    /// live; retracting a sample that is not live changes nothing — and
    /// republishes the key's record. A retraction can lower the batch count
    /// and move either extremum, which are recomputed from what stays live.
    pub fn retract_sample(
        &mut self,
        worker: usize,
        operator: usize,
        size: usize,
        from_batch: bool,
    ) -> (delta: Vec<OutputDelta>)
        requires
            old(self).wf(),
        ensures
            final(self).wf(),
            final(self).splines_at((worker, operator)) == old(self).splines_at(
                (worker, operator),
            ),
            forall|k2: (usize, usize)|
                k2 != (worker, operator) ==> #[trigger] final(self).samples_at(k2) == old(self).samples_at(k2),
            forall|k2: (usize, usize)|
                k2 != (worker, operator) ==> #[trigger] final(self).splines_at(k2) == old(self).splines_at(k2),
            ({
                let s = old(self).samples_at((worker, operator));
                if exists|i: int| 0 <= i < s.len() && #[trigger] s[i] == (size, from_batch) {
                    exists|i: int|
                        0 <= i < s.len() && #[trigger] s[i] == (size, from_batch) && final(self).samples_at((worker, operator)) == s.remove(i)
                } else {
                    final(self).samples_at((worker, operator)) == s
                }
            }),
            delta_matches_change(
                delta@,
                (worker, operator),
                old(self).samples_at((worker, operator)),
                old(self).splines_at((worker, operator)),
                final(self).samples_at((worker, operator)),
                final(self).splines_at((worker, operator)),
            ),
    {
        let k = (worker, operator);
        let old_stats = self.stats(worker, operator);
        let ghost s0 = self.keys@;
        match find_key(&self.keys, k) {
            Some(i) => {
                proof {
                    lemma_assoc_contains(self.keys@, i as int);
                    lemma_assoc_remove(self.keys@, i as int);
                }
                let mut e = self.keys.remove(i);
                proof {
                    assert forall|j: int| 0 <= j < self.keys@.len() implies (#[trigger] self
                        .keys@[j]).0 != k by {
                        let j0 = if j < i { j } else { j + 1 };
                        assert(self.keys@[j] == s0[j0]);
                    }
                }
                match find_sample(&e.1.samples, size, from_batch) {
                    Some(j) => {
                        e.1.samples.remove(j);
                    },
                    None => (),
                }
                let ghost s1 = self.keys@;
                proof {
                    lemma_assoc_push(s1, k, e.1);
                    assert(unique_keys(s1.push((k, e.1))));
                }
                self.keys.push(e);
                proof {
                    assert forall|j: int| 0 <= j < self.keys@.len() implies sorted_triples(
                        (#[trigger] self.keys@[j]).1.splines@,
                    ) by {
                        if j < self.keys@.len() - 1 {
                            assert(self.keys@[j] == s1[j]);
                            let j0 = if j < i { j } else { j + 1 };
                            assert(s1[j] == s0[j0]);
                        }
                    }
                    assert(assoc_map(s1) =~= assoc_map(s0).remove(k));
                }
            },
            None => {
                proof {
                    lemma_assoc_absent(self.keys@, k);
                }
            },
        }
        let new_stats = self.stats(worker, operator);
        self.publish(worker, operator, old_stats, new_stats)
    }

    /// Feeds a whole record sequence, in order. Every key's live state then
    /// follows the run model over the sequence.
    pub fn process_all(&mut self, records: &Vec<DifferentialLogBundle>)
        requires
            old(self).wf(),
        ensures
            final(self).wf(),
            forall|k: (usize, usize)|
                #[trigger] final(self).samples_at(k) == run_samples(
                    old(self).samples_at(k),
                    records@,
                    k,
                ),
            forall|k: (usize, usize)|
                #[trigger] final(self).splines_at(k) == run_splines(
                    old(self).splines_at(k),
                    records@,
                    k,
                ),
    {
        let mut i: usize = 0;
        while i < records.len()
            invariant
                i <= records@.len(),
                self.wf(),
                forall|k: (usize, usize)|
                    #[trigger] self.samples_at(k) == run_samples(
                        old(self).samples_at(k),
                        records@.take(i as int),
                        k,
                    ),
                forall|k: (usize, usize)|
                    #[trigger] self.splines_at(k) == run_splines(
                        old(self).splines_at(k),
                        records@.take(i as int),
                        k,
                    ),
            decreases records@.len() - i,
        {
            proof {
                assert(records@.take(i as int + 1).drop_last() == records@.take(i as int));
                assert(records@.take(i as int + 1).last() == records@[i as int]);
            }
            let r = records[i];
            self.process(r.time, r.worker, &r.event);
            proof {
                assert(DifferentialLogBundle { time: r.time, worker: r.worker, event: r.event }
                    == records@[i as int]);
            }
            i = i + 1;
        }
        proof {
            assert(records@.take(records@.len() as int) == records@);
        }
    }
}

/// Finds one live sample equal to the given one, if any is live.
fn find_sample(v: &Vec<(usize, bool)>, size: usize, from_batch: bool) -> (r: Option<usize>)
    ensures
        match r {
            Some(i) => i < v@.len() && v@[i as int] == (size, from_batch),
            None => forall|i: int| 0 <= i < v@.len() ==> #[trigger] v@[i] != (size, from_batch),
        },
{
    let mut idx: usize = 0;
    while idx < v.len()
        invariant
            idx <= v@.len(),
            forall|i: int| 0 <= i < idx ==> #[trigger] v@[i] != (size, from_batch),
        decreases v@.len() - idx,
    {
        if v[idx].0 == size && v[idx].1 == from_batch {
            return Some(idx);
        }
        idx = idx + 1;
    }
    None
}

/// The published extrema are the true extrema of the live sample set: the
/// maximum is attained by a live sample and bounds every live sample, and
/// likewise the minimum. They are therefore functions of the live set alone,
/// which is what keeps them correct under retraction.
pub proof fn lemma_extrema_are_true_extrema(samples: Seq<(usize, bool)>)
    requires
        samples.len() > 0,
    ensures
        exists|i: int| 0 <= i < samples.len() && (#[trigger] samples[i]).0 == max_sample(samples),
        forall|i: int| 0 <= i < samples.len() ==> (#[trigger] samples[i]).0 <= max_sample(samples),
        exists|i: int| 0 <= i < samples.len() && (#[trigger] samples[i]).0 == min_sample(samples),
        forall|i: int| 0 <= i < samples.len() ==> (#[trigger] samples[i]).0 >= min_sample(samples),
    decreases samples.len(),
{
    let n = samples.len() as int;
    if samples.len() == 1 {
        reveal_with_fuel(max_sample, 2);
        reveal_with_fuel(min_sample, 2);
        assert(samples[0] == samples.last());
        assert(samples[0].0 == max_sample(samples));
        assert(samples[0].0 == min_sample(samples));
    } else {
        let stem = samples.drop_last();
        lemma_extrema_are_true_extrema(stem);
        assert forall|i: int| 0 <= i < n implies (#[trigger] samples[i]).0 <= max_sample(
            samples,
        ) && (#[trigger] samples[i]).0 >= min_sample(samples) by {
            if i < n - 1 {
                assert(stem[i] == samples[i]);
            } else {
                assert(samples[i] == samples.last());
            }
        }
        if max_sample(samples) == samples.last().0 {
            assert(samples[n - 1].0 == max_sample(samples));
        } else {
            let i = choose|i: int|
                0 <= i < stem.len() && (#[trigger] stem[i]).0 == max_sample(stem);
            assert(samples[i] == stem[i]);
            assert(samples[i].0 == max_sample(samples));
        }
        if min_sample(samples) == samples.last().0 {
            assert(samples[n - 1].0 == min_sample(samples));
        } else {
            let i = choose|i: int|
                0 <= i < stem.len() && (#[trigger] stem[i]).0 == min_sample(stem);
            assert(samples[i] == stem[i]);
            assert(samples[i].0 == min_sample(samples));
        }
    }
}

/// The extrema depend only on the live multiset, not on the order in which
/// the live samples arrived: recomputation correctness under retraction.
pub proof fn lemma_extrema_depend_only_on_live_set(s1: Seq<(usize, bool)>, s2: Seq<(usize, bool)>)
    requires
        s1.to_multiset() == s2.to_multiset(),
    ensures
        max_sample(s1) == max_sample(s2),
        min_sample(s1) == min_sample(s2),
{
    s1.to_multiset_ensures();
    s2.to_multiset_ensures();
    assert(s1.len() == s1.to_multiset().len());
    assert(s2.len() == s2.to_multiset().len());
    if s1.len() == 0 {
        assert(s2.len() == 0);
    } else {
        lemma_extrema_are_true_extrema(s1);
        lemma_extrema_are_true_extrema(s2);
        assert forall|x: (usize, bool)| s1.contains(x) implies s2.contains(x) by {
            assert(s1.to_multiset().count(x) > 0);
        }
        assert forall|x: (usize, bool)| s2.contains(x) implies s1.contains(x) by {
            assert(s2.to_multiset().count(x) > 0);
        }
        let i1 = choose|i: int| 0 <= i < s1.len() && (#[trigger] s1[i]).0 == max_sample(s1);
        assert(s1.contains(s1[i1]));
        let j1 = choose|j: int| 0 <= j < s2.len() && s2[j] == s1[i1];
        assert(s2[j1].0 <= max_sample(s2));
        let i2 = choose|i: int| 0 <= i < s2.len() && (#[trigger] s2[i]).0 == max_sample(s2);
        assert(s2.contains(s2[i2]));
        let j2 = choose|j: int| 0 <= j < s1.len() && s1[j] == s2[i2];
        assert(s1[j2].0 <= max_sample(s1));
        let i3 = choose|i: int| 0 <= i < s1.len() && (#[trigger] s1[i]).0 == min_sample(s1);
        assert(s1.contains(s1[i3]));
        let j3 = choose|j: int| 0 <= j < s2.len() && s2[j] == s1[i3];
        assert(s2[j3].0 >= min_sample(s2));
        let i4 = choose|i: int| 0 <= i < s2.len() && (#[trigger] s2[i]).0 == min_sample(s2);
        assert(s2.contains(s2[i4]));
        let j4 = choose|j: int| 0 <= j < s1.len() && s1[j] == s2[i4];
        assert(s1[j4].0 >= min_sample(s1));
    }
}

/// Ordered insertion adds exactly one observation.
proof fn lemma_sorted_insert_len(s: Seq<(u64, usize, usize)>, t: (u64, usize, usize))
    ensures
        sorted_insert(s, t).len() == s.len() + 1,
    decreases s.len(),
{
    if s.len() > 0 && triple_le(s.first(), t) {
        lemma_sorted_insert_len(s.drop_first(), t);
    }
}

/// Expand-by-count: a key's observation list grows by exactly one entry per
/// completed-merge observation recorded for it, across all scales, duplicates
/// preserved rather than deduplicated.
pub proof fn lemma_spline_levels_expand_by_count(
    base: Seq<(u64, usize, usize)>,
    s: Seq<DifferentialLogBundle>,
    k: (usize, usize),
)
    ensures
        run_splines(base, s, k).len() == base.len() + completed_merge_count(s, k),
    decreases s.len(),
{
    if s.len() > 0 {
        lemma_spline_levels_expand_by_count(base, s.drop_last(), k);
        match spline_of(s.last(), k) {
            Some(t) => {
                lemma_sorted_insert_len(run_splines(base, s.drop_last(), k), t);
            },
            None => (),
        }
    }
}


/// Runs a whole differential log through a fresh aggregator and returns the
/// final combined record per key: what stands asserted for each key once all
/// published deltas have settled. A key appears exactly once, and exactly
/// when both its sample side and its observation side hold data.
pub fn arrangement_stats(records: &Vec<DifferentialLogBundle>) -> (r: Vec<
    ((usize, usize), ArrangementStats),
>)
    ensures
        forall|i: int|
            0 <= i < r@.len() ==> has_record(
                run_samples(Seq::empty(), records@, (#[trigger] r@[i]).0),
                run_splines(Seq::empty(), records@, r@[i].0),
            ) && stats_matches(
                r@[i].1,
                run_samples(Seq::empty(), records@, r@[i].0),
                run_splines(Seq::empty(), records@, r@[i].0),
            ),
        forall|k: (usize, usize)|
            has_record(
                #[trigger] run_samples(Seq::empty(), records@, k),
                run_splines(Seq::empty(), records@, k),
            ) ==> exists|i: int| 0 <= i < r@.len() && (#[trigger] r@[i]).0 == k,
        forall|i: int, j: int|
            0 <= i < j < r@.len() ==> (#[trigger] r@[i]).0 != (#[trigger] r@[j]).0,
{
    let mut agg = ArrangementAggregator::new();
    agg.process_all(records);
    let mut r: Vec<((usize, usize), ArrangementStats)> = Vec::new();
    let mut i: usize = 0;
    while i < agg.keys.len()
        invariant
            agg.wf(),
            i <= agg.keys@.len(),
            forall|k: (usize, usize)|
                #[trigger] agg.samples_at(k) == run_samples(Seq::empty(), records@, k),
            forall|k: (usize, usize)|
                #[trigger] agg.splines_at(k) == run_splines(Seq::empty(), records@, k),
            forall|j: int|
                0 <= j < r@.len() ==> has_record(
                    agg.samples_at((#[trigger] r@[j]).0),
                    agg.splines_at(r@[j].0),
                ) && stats_matches(r@[j].1, agg.samples_at(r@[j].0), agg.splines_at(r@[j].0)),
            forall|j: int|
                0 <= j < r@.len() ==> exists|idx: int|
                    0 <= idx < i && (#[trigger] agg.keys@[idx]).0 == (#[trigger] r@[j]).0,
            forall|idx: int|
                0 <= idx < i && has_record(
                    agg.samples_at((#[trigger] agg.keys@[idx]).0),
                    agg.splines_at(agg.keys@[idx].0),
                ) ==> exists|j: int| 0 <= j < r@.len() && (#[trigger] r@[j]).0 == agg.keys@[idx].0,
            forall|j1: int, j2: int|
                0 <= j1 < j2 < r@.len() ==> (#[trigger] r@[j1]).0 != (#[trigger] r@[j2]).0,
        decreases agg.keys@.len() - i,
    {
        let key = agg.keys[i].0;
        let s = agg.stats(key.0, key.1);
        proof {
            assert((key.0, key.1) == key);
        }
        let ghost r0 = r@;
        match s {
            Some(st) => {
                proof {
                    assert forall|j: int| 0 <= j < r@.len() implies (#[trigger] r@[j]).0 != key by {
                        let idx = choose|idx: int|
                            0 <= idx < i && (#[trigger] agg.keys@[idx]).0 == r@[j].0;
                        assert(agg.keys@[idx].0 != agg.keys@[i as int].0);
                    }
                }
                r.push((key, st));
            },
            None => (),
        }
        proof {
            assert(forall|j: int| 0 <= j < r0.len() ==> #[trigger] r@[j] == r0[j]);
            assert forall|idx: int|
                0 <= idx < i + 1 && has_record(
                    agg.samples_at((#[trigger] agg.keys@[idx]).0),
                    agg.splines_at(agg.keys@[idx].0),
                ) implies exists|j: int|
                0 <= j < r@.len() && (#[trigger] r@[j]).0 == agg.keys@[idx].0 by {
                if idx == i as int {
                    assert(s is Some);
                    assert(r@[r@.len() - 1].0 == key);
                } else {
                    let j = choose|j: int| 0 <= j < r0.len() && (#[trigger] r0[j]).0 == agg.keys@[idx].0;
                    assert(r@[j].0 == agg.keys@[idx].0);
                }
            }
        }
        i = i + 1;
    }
    proof {
        assert forall|k: (usize, usize)|
            has_record(
                #[trigger] run_samples(Seq::empty(), records@, k),
                run_splines(Seq::empty(), records@, k),
            ) implies exists|j: int| 0 <= j < r@.len() && (#[trigger] r@[j]).0 == k by {
            assert(agg.samples_at(k) == run_samples(Seq::empty(), records@, k));
            assert(agg.splines_at(k) == run_splines(Seq::empty(), records@, k));
            assert(agg.samples_at(k).len() > 0);
            assert(assoc_map(agg.keys@).contains_key(k));
            assert(exists|idx: int|
                0 <= idx < agg.keys@.len() && (#[trigger] agg.keys@[idx]).0 == k) by {
                if forall|idx: int| 0 <= idx < agg.keys@.len() ==> (#[trigger] agg.keys@[idx]).0
                    != k {
                    lemma_assoc_absent(agg.keys@, k);
                }
            }
            let idx = choose|idx: int|
                0 <= idx < agg.keys@.len() && (#[trigger] agg.keys@[idx]).0 == k;
            assert(has_record(agg.samples_at(agg.keys@[idx].0), agg.splines_at(agg.keys@[idx].0)));
        }
    }
    r
}

} // verus!
