//! The timeline reconstructor: a keyed state machine that pairs start and
//! stop events per (worker, operator) into interval ("span") records.
//!
//! A start arrival stores (or overwrites — last start wins on the tolerated
//! duplicate-start protocol violation) the pending start for its key. A stop
//! or shutdown arrival that finds a pending start removes it and emits one
//! span; one that finds none is dropped without emission. A terminating time
//! before its start is a data error: the span is still emitted with its
//! duration clamped to zero and the event is counted as a diagnostic.

use vstd::multiset::Multiset;
use vstd::prelude::*;

use crate::event::{ScheduleEvent, StartStop, TimelyEvent};
use crate::keyed::{
    assoc_map, find_key, lemma_assoc_absent, lemma_assoc_contains, lemma_assoc_len,
    lemma_assoc_push, lemma_assoc_remove, unique_keys,
};

verus! {

/// A log event paired with its receipt time (monotonic per worker only) and
/// the worker that emitted it.
#[derive(Debug, Clone, PartialEq, Eq, Hash)]
pub struct TimestampedEvent {
    pub recv: u64,
    pub worker: usize,
    pub event: TimelyEvent,
}

/// What kind of activity a span covers.
#[derive(Debug, Clone, Copy, PartialEq, Eq, Hash, Structural)]
pub enum SpanKind {
    Activation,
    Merge,
}

/// A reconstructed interval of operator activity, bounded by a matched
/// start/end event pair.
#[derive(Debug, Clone, Copy, PartialEq, Eq, Hash, Structural)]
pub struct Span {
    pub operator: usize,
    pub worker: usize,
    pub kind: SpanKind,
    pub start: u64,
    pub duration: u64,
    pub shutdown_terminated: bool,
}

/// The (worker, operator) key an arrival addresses, if it opens or closes an
/// interval at all.
pub open spec fn event_key(worker: usize, event: TimelyEvent) -> Option<(usize, usize)> {
    match event {
        TimelyEvent::Schedule(s) => Some((worker, s.id)),
        TimelyEvent::Shutdown(s) => Some((worker, s.id)),
        _ => None,
    }
}

/// End minus start, clamped to zero when the terminating time precedes the
/// start.
pub open spec fn clamped_duration(start: u64, end: u64) -> u64 {
    if start <= end {
        (end - start) as u64
    } else {
        0
    }
}

/// How one arrival changes the pending-start map.
pub open spec fn step_pending(p: Map<(usize, usize), u64>, ev: TimestampedEvent) -> Map<
    (usize, usize),
    u64,
> {
    match ev.event {
        TimelyEvent::Schedule(s) => if s.start_stop is Start {
            p.insert((ev.worker, s.id), ev.recv)
        } else if p.contains_key((ev.worker, s.id)) {
            p.remove((ev.worker, s.id))
        } else {
            p
        },
        TimelyEvent::Shutdown(s) => if p.contains_key((ev.worker, s.id)) {
            p.remove((ev.worker, s.id))
        } else {
            p
        },
        _ => p,
    }
}

/// The span one arrival emits, if it closes a pending start.
pub open spec fn step_span(p: Map<(usize, usize), u64>, ev: TimestampedEvent) -> Option<Span> {
    match ev.event {
        TimelyEvent::Schedule(s) => if s.start_stop is Stop && p.contains_key((ev.worker, s.id)) {
            Some(
                Span {
                    operator: s.id,
                    worker: ev.worker,
                    kind: SpanKind::Activation,
                    start: p[(ev.worker, s.id)],
                    duration: clamped_duration(p[(ev.worker, s.id)], ev.recv),
                    shutdown_terminated: false,
                },
            )
        } else {
            None
        },
        TimelyEvent::Shutdown(s) => if p.contains_key((ev.worker, s.id)) {
            Some(
                Span {
                    operator: s.id,
                    worker: ev.worker,
                    kind: SpanKind::Activation,
                    start: p[(ev.worker, s.id)],
                    duration: clamped_duration(p[(ev.worker, s.id)], ev.recv),
                    shutdown_terminated: true,
                },
            )
        } else {
            None
        },
        _ => None,
    }
}

/// Whether an arrival closes a span whose terminating time precedes its
/// start.
pub open spec fn step_negative(p: Map<(usize, usize), u64>, ev: TimestampedEvent) -> bool {
    match step_span(p, ev) {
        Some(s) => ev.recv < s.start,
        None => false,
    }
}

/// The emitted spans of one arrival, each keyed by its terminating receipt
/// time, as a multiset (empty or a singleton).
pub open spec fn span_multiset(p: Map<(usize, usize), u64>, ev: TimestampedEvent) -> Multiset<
    (u64, Span),
> {
    match step_span(p, ev) {
        Some(s) => Multiset::empty().insert((ev.recv, s)),
        None => Multiset::empty(),
    }
}

/// The pending-start map after a whole sequence of arrivals.
pub open spec fn run_pending(p: Map<(usize, usize), u64>, events: Seq<TimestampedEvent>) -> Map<
    (usize, usize),
    u64,
>
    decreases events.len(),
{
    if events.len() == 0 {
        p
    } else {
        step_pending(run_pending(p, events.drop_last()), events.last())
    }
}

/// All spans a sequence of arrivals emits, keyed by terminating receipt time.
pub open spec fn run_spans(p: Map<(usize, usize), u64>, events: Seq<TimestampedEvent>) -> Multiset<
    (u64, Span),
>
    decreases events.len(),
{
    if events.len() == 0 {
        Multiset::empty()
    } else {
        run_spans(p, events.drop_last()).add(
            span_multiset(run_pending(p, events.drop_last()), events.last()),
        )
    }
}

/// How many arrivals of a sequence close a span with a negative duration.
pub open spec fn run_negatives(p: Map<(usize, usize), u64>, events: Seq<TimestampedEvent>) -> nat
    decreases events.len(),
{
    if events.len() == 0 {
        0
    } else {
        run_negatives(p, events.drop_last()) + if step_negative(
            run_pending(p, events.drop_last()),
            events.last(),
        ) {
            1nat
        } else {
            0nat
        }
    }
}

/// A diagnostic counter sticks at its ceiling instead of wrapping.
pub open spec fn sat_inc(c: u64) -> u64 {
    if c == u64::MAX {
        c
    } else {
        (c + 1) as u64
    }
}

/// Saturating addition for diagnostic counters.
pub open spec fn sat_add(c: u64, n: nat) -> u64 {
    if c + n > u64::MAX {
        u64::MAX
    } else {
        (c + n) as u64
    }
}

/// Spans stand in non-decreasing order of their terminating receipt time: the
/// only externally visible ordering contract.
pub open spec fn sorted_by_recv(s: Seq<(u64, Span)>) -> bool {
    forall|i: int, j: int| 0 <= i < j < s.len() ==> (#[trigger] s[i]).0 <= (#[trigger] s[j]).0
}

/// Inserting anywhere adds one occurrence to a sequence's multiset.
proof fn lemma_insert_to_multiset<A>(s: Seq<A>, i: int, a: A)
    requires
        0 <= i <= s.len(),
    ensures
        s.insert(i, a).to_multiset() == s.to_multiset().insert(a),
{
    broadcast use vstd::seq_lib::group_to_multiset_ensures;

    let t = s.insert(i, a);
    assert(t.remove(i) == s);
    assert(t[i] == a);
    assert(s.to_multiset() =~= t.to_multiset().remove(a));
    assert(t.contains(a));
    assert(t.to_multiset().count(a) > 0);
    assert forall|x: A| t.to_multiset().count(x) == s.to_multiset().insert(a).count(x) by {
        if x == a {
            assert(s.to_multiset().count(a) == t.to_multiset().count(a) - 1);
        } else {
            assert(s.to_multiset().count(x) == t.to_multiset().count(x));
        }
    }
    assert(t.to_multiset() =~= s.to_multiset().insert(a));
}

/// Places a span at its position in the receipt-time order.
fn push_sorted(spans: &mut Vec<(u64, Span)>, recv: u64, span: Span)
    requires
        sorted_by_recv(old(spans)@),
    ensures
        sorted_by_recv(final(spans)@),
        final(spans)@.to_multiset() == old(spans)@.to_multiset().insert((recv, span)),
{
    let mut idx: usize = 0;
    while idx < spans.len() && spans[idx].0 <= recv
        invariant
            idx <= spans@.len(),
            forall|j: int| 0 <= j < idx ==> (#[trigger] spans@[j]).0 <= recv,
        decreases spans@.len() - idx,
    {
        idx = idx + 1;
    }
    proof {
        lemma_insert_to_multiset(spans@, idx as int, (recv, span));
    }
    let ghost s0 = spans@;
    spans.insert(idx, (recv, span));
    proof {
        assert forall|i: int, j: int| 0 <= i < j < spans@.len() implies (#[trigger] spans@[i]).0
            <= (#[trigger] spans@[j]).0 by {
            if j < idx {
                assert(spans@[i] == s0[i] && spans@[j] == s0[j]);
            } else if i > idx {
                assert(spans@[i] == s0[i - 1] && spans@[j] == s0[j - 1]);
            } else if i < idx && j == idx {
                assert(spans@[i] == s0[i]);
            } else if i == idx && j > idx {
                assert(spans@[j] == s0[j - 1]);
                assert(idx < s0.len() ==> s0[idx as int].0 > recv);
                assert(s0[j - 1].0 >= s0[idx as int].0);
            } else if i < idx && j > idx {
                assert(spans@[i] == s0[i] && spans@[j] == s0[j - 1]);
            }
        }
    }
}


/// The reconstruction stage: per-key pending starts, the spans emitted so
/// far, and two diagnostic counters. A single malformed or out-of-order
/// arrival never halts processing of subsequent arrivals.
pub struct TimelineReconstructor {
    pending: Vec<((usize, usize), u64)>,
    spans: Vec<(u64, Span)>,
    malformed_starts: u64,
    negative_durations: u64,
}

impl TimelineReconstructor {
    /// The pending unmatched starts: (worker, operator) to start receipt time.
    pub closed spec fn pending_map(&self) -> Map<(usize, usize), u64> {
        assoc_map(self.pending@)
    }

    /// The spans emitted so far, each keyed by its terminating receipt time,
    /// in non-decreasing order of that time.
    pub closed spec fn emitted(&self) -> Seq<(u64, Span)> {
        self.spans@
    }

    /// How many unmatched trailing starts past calls of `finish` dropped.
    pub closed spec fn malformed_count(&self) -> u64 {
        self.malformed_starts
    }

    /// How many matched pairs terminated before they started.
    pub closed spec fn negative_count(&self) -> u64 {
        self.negative_durations
    }

    /// One pending start per key; emitted spans ordered by receipt time.
    pub closed spec fn wf(&self) -> bool {
        unique_keys(self.pending@) && sorted_by_recv(self.spans@)
    }

    /// A reconstructor with nothing pending, nothing emitted and clear
    /// diagnostics.
    pub fn new() -> (r: TimelineReconstructor)
        ensures
            r.wf(),
            r.pending_map() == Map::<(usize, usize), u64>::empty(),
            r.emitted() == Seq::<(u64, Span)>::empty(),
            r.malformed_count() == 0,
            r.negative_count() == 0,
    {
        TimelineReconstructor {
            pending: Vec::new(),
            spans: Vec::new(),
            malformed_starts: 0,
            negative_durations: 0,
        }
    }

    /// Stores `recv` as the pending start for the key, overwriting a previous
    /// one: last start wins on a duplicate-start protocol violation.
    fn store_start(&mut self, worker: usize, operator: usize, recv: u64)
        requires
            old(self).wf(),
        ensures
            final(self).wf(),
            final(self).pending_map() == old(self).pending_map().insert((worker, operator), recv),
            final(self).emitted() == old(self).emitted(),
            final(self).malformed_count() == old(self).malformed_count(),
            final(self).negative_count() == old(self).negative_count(),
    {
        let k = (worker, operator);
        match find_key(&self.pending, k) {
            Some(i) => {
                let ghost s0 = self.pending@;
                proof {
                    lemma_assoc_remove(s0, i as int);
                }
                self.pending.remove(i);
                let ghost s1 = self.pending@;
                proof {
                    lemma_assoc_push(s1, k, recv);
                    assert forall|j: int| 0 <= j < s1.len() implies (#[trigger] s1[j]).0 != k by {
                        let j0 = if j < i { j } else { j + 1 };
                        assert(s1[j] == s0[j0]);
                    }
                    assert(unique_keys(s1.push((k, recv))));
                }
                self.pending.push((k, recv));
                proof {
                    assert(assoc_map(s0).remove(k).insert(k, recv) =~= assoc_map(s0).insert(
                        k,
                        recv,
                    ));
                }
            },
            None => {
                let ghost s0 = self.pending@;
                proof {
                    lemma_assoc_push(s0, k, recv);
                    assert(unique_keys(s0.push((k, recv))));
                }
                self.pending.push((k, recv));
            },
        }
    }

    /// Closes the pending start for the key, if one exists: removes it, emits
    /// the span (duration clamped to zero and a diagnostic counted when the
    /// terminating time precedes the start), and returns it. Without a
    /// pending start the terminator is dropped: never a partial span.
    fn close_span(&mut self, recv: u64, worker: usize, operator: usize, shutdown: bool) -> (emitted:
        Option<Span>)
        requires
            old(self).wf(),
        ensures
            final(self).wf(),
            final(self).malformed_count() == old(self).malformed_count(),
            ({
                let k = (worker, operator);
                let p = old(self).pending_map();
                if p.contains_key(k) {
                    let span = Span {
                        operator,
                        worker,
                        kind: SpanKind::Activation,
                        start: p[k],
                        duration: clamped_duration(p[k], recv),
                        shutdown_terminated: shutdown,
                    };
                    emitted == Some(span) && final(self).pending_map() == p.remove(k) && final(self).emitted().to_multiset() == old(self).emitted().to_multiset().insert(
                        (recv, span),
                    ) && final(self).negative_count() == (if recv < p[k] {
                        sat_inc(old(self).negative_count())
                    } else {
                        old(self).negative_count()
                    })
                } else {
                    emitted is None && final(self).pending_map() == p && final(self).emitted()
                        == old(self).emitted() && final(self).negative_count() == old(self).negative_count()
                }
            }),
    {
        let k = (worker, operator);
        match find_key(&self.pending, k) {
            Some(i) => {
                let start = self.pending[i].1;
                proof {
                    lemma_assoc_contains(self.pending@, i as int);
                    lemma_assoc_remove(self.pending@, i as int);
                }
                self.pending.remove(i);
                let duration: u64 = if recv >= start {
                    recv - start
                } else {
                    0
                };
                if recv < start {
                    if self.negative_durations < u64::MAX {
                        self.negative_durations = self.negative_durations + 1;
                    }
                }
                let span = Span {
                    operator,
                    worker,
                    kind: SpanKind::Activation,
                    start,
                    duration,
                    shutdown_terminated: shutdown,
                };
                push_sorted(&mut self.spans, recv, span);
                Some(span)
            },
            None => {
                proof {
                    lemma_assoc_absent(self.pending@, k);
                }
                None
            },
        }
    }

    /// Feeds one arrival to the state machine and returns the span it closed,
    /// if any. The state and the emission follow the one-step model exactly.
    pub fn process(&mut self, ev: &TimestampedEvent) -> (emitted: Option<Span>)
        requires
            old(self).wf(),
        ensures
            final(self).wf(),
            final(self).pending_map() == step_pending(old(self).pending_map(), *ev),
            emitted == step_span(old(self).pending_map(), *ev),
            final(self).emitted().to_multiset() == old(self).emitted().to_multiset().add(
                span_multiset(old(self).pending_map(), *ev),
            ),
            emitted is None ==> final(self).emitted() == old(self).emitted(),
            final(self).malformed_count() == old(self).malformed_count(),
            final(self).negative_count() == (if step_negative(old(self).pending_map(), *ev) {
                sat_inc(old(self).negative_count())
            } else {
                old(self).negative_count()
            }),
    {
        let r = match &ev.event {
            TimelyEvent::Schedule(s) => {
                if matches!(s.start_stop, StartStop::Start) {
                    self.store_start(ev.worker, s.id, ev.recv);
                    None
                } else {
                    self.close_span(ev.recv, ev.worker, s.id, false)
                }
            },
            TimelyEvent::Shutdown(s) => self.close_span(ev.recv, ev.worker, s.id, true),
            _ => None,
        };
        proof {
            let p = old(self).pending_map();
            let m = old(self).emitted().to_multiset();
            match step_span(p, *ev) {
                Some(s) => {
                    assert(m.insert((ev.recv, s)) =~= m.add(span_multiset(p, *ev)));
                },
                None => {
                    assert(m =~= m.add(span_multiset(p, *ev)));
                },
            }
        }
        r
    }

    /// Feeds a whole sequence of arrivals, in order. The final state and the
    /// emitted spans follow the run model over the input sequence.
    pub fn process_all(&mut self, events: &Vec<TimestampedEvent>)
        requires
            old(self).wf(),
        ensures
            final(self).wf(),
            final(self).pending_map() == run_pending(old(self).pending_map(), events@),
            final(self).emitted().to_multiset() == old(self).emitted().to_multiset().add(
                run_spans(old(self).pending_map(), events@),
            ),
            final(self).malformed_count() == old(self).malformed_count(),
            final(self).negative_count() == sat_add(
                old(self).negative_count(),
                run_negatives(old(self).pending_map(), events@),
            ),
    {
        let ghost p0 = old(self).pending_map();
        let ghost m0 = old(self).emitted().to_multiset();
        let ghost c0 = old(self).negative_count();
        proof {
            assert(m0 =~= m0.add(run_spans(p0, events@.take(0))));
        }
        let mut i: usize = 0;
        while i < events.len()
            invariant
                i <= events@.len(),
                self.wf(),
                self.pending_map() == run_pending(p0, events@.take(i as int)),
                self.emitted().to_multiset() == m0.add(run_spans(p0, events@.take(i as int))),
                self.malformed_count() == old(self).malformed_count(),
                self.negative_count() == sat_add(c0, run_negatives(p0, events@.take(i as int))),
            decreases events@.len() - i,
        {
            let ghost pre = events@.take(i as int);
            let ghost post = events@.take(i as int + 1);
            proof {
                assert(post.drop_last() == pre);
                assert(post.last() == events@[i as int]);
            }
            self.process(&events[i]);
            proof {
                let cur = run_pending(p0, pre);
                assert(self.emitted().to_multiset() =~= m0.add(run_spans(p0, post)));
                let n = run_negatives(p0, pre);
                if step_negative(cur, events@[i as int]) {
                    assert(sat_inc(sat_add(c0, n)) == sat_add(c0, n + 1));
                }
            }
            i = i + 1;
        }
        proof {
            assert(events@.take(events@.len() as int) == events@);
        }
    }

    /// Ends the stream: the remaining unmatched pending starts are discarded
    /// without emission — counted only — and the reconstructed spans leave in
    /// non-decreasing order of terminating receipt time, followed by the
    /// malformed-sequence count and the negative-duration count.
    pub fn finish(self) -> (r: (Vec<(u64, Span)>, u64, u64))
        requires
            self.wf(),
        ensures
            r.0@ == self.emitted(),
            sorted_by_recv(r.0@),
            r.1 == sat_add(self.malformed_count(), self.pending_map().dom().len()),
            r.2 == self.negative_count(),
    {
        proof {
            lemma_assoc_len(self.pending@);
        }
        let n: u64 = self.pending.len() as u64;
        let malformed: u64 = if n > u64::MAX - self.malformed_starts {
            u64::MAX
        } else {
            self.malformed_starts + n
        };
        (self.spans, malformed, self.negative_durations)
    }
}

/// Two single steps on different keys — or of which one touches no key —
/// interfere neither in the pending state nor in what either emits.
proof fn lemma_step_commutes(p: Map<(usize, usize), u64>, a: TimestampedEvent, b: TimestampedEvent)
    requires
        event_key(a.worker, a.event) != event_key(b.worker, b.event) || event_key(
            a.worker,
            a.event,
        ) is None,
    ensures
        step_pending(step_pending(p, a), b) == step_pending(step_pending(p, b), a),
        span_multiset(step_pending(p, b), a) == span_multiset(p, a),
        span_multiset(step_pending(p, a), b) == span_multiset(p, b),
{
    assert(step_pending(step_pending(p, a), b) =~= step_pending(step_pending(p, b), a));
}

/// Exchanging two adjacent arrivals that touch different (worker, operator)
/// keys — or of which one touches none — changes neither the final pending
/// state nor the multiset of emitted spans of the whole run: only per-key
/// arrival order matters, so any reordering reachable by such exchanges
/// yields an identical span set.
pub proof fn lemma_adjacent_arrivals_commute(
    p: Map<(usize, usize), u64>,
    events: Seq<TimestampedEvent>,
    i: int,
)
    requires
        0 <= i,
        i + 1 < events.len(),
        event_key(events[i].worker, events[i].event) != event_key(
            events[i + 1].worker,
            events[i + 1].event,
        ) || event_key(events[i].worker, events[i].event) is None,
    ensures
        run_pending(p, events.update(i, events[i + 1]).update(i + 1, events[i])) == run_pending(
            p,
            events,
        ),
        run_spans(p, events.update(i, events[i + 1]).update(i + 1, events[i])) == run_spans(
            p,
            events,
        ),
    decreases events.len(),
{
    let a = events[i];
    let b = events[i + 1];
    let swapped = events.update(i, b).update(i + 1, a);
    if i + 1 == events.len() - 1 {
        reveal_with_fuel(run_pending, 3);
        reveal_with_fuel(run_spans, 3);
        let stem = events.drop_last().drop_last();
        assert(swapped.drop_last().drop_last() =~= stem);
        assert(swapped.drop_last() =~= stem.push(b));
        assert(events.drop_last() =~= stem.push(a));
        assert(stem.push(a).drop_last() =~= stem);
        assert(stem.push(b).drop_last() =~= stem);
        let q = run_pending(p, stem);
        lemma_step_commutes(q, a, b);
        assert(run_pending(p, swapped) == run_pending(p, events));
        let ms = run_spans(p, stem);
        assert(run_spans(p, events) == ms.add(span_multiset(q, a)).add(
            span_multiset(step_pending(q, a), b),
        ));
        assert(run_spans(p, swapped) == ms.add(span_multiset(q, b)).add(
            span_multiset(step_pending(q, b), a),
        ));
        assert(ms.add(span_multiset(q, a)).add(span_multiset(q, b)) =~= ms.add(
            span_multiset(q, b),
        ).add(span_multiset(q, a)));
    } else {
        assert(swapped.drop_last() =~= events.drop_last().update(i, b).update(i + 1, a));
        assert(swapped.last() == events.last());
        lemma_adjacent_arrivals_commute(p, events.drop_last(), i);
    }
}

/// For a matched start/stop pair on one key, exactly one span is emitted: it
/// carries duration end minus start and is keyed by the stop's receipt time.
pub proof fn lemma_matched_pair_emits_one_span(
    p: Map<(usize, usize), u64>,
    worker: usize,
    operator: usize,
    t0: u64,
    t1: u64,
)
    requires
        t0 <= t1,
    ensures
        ({
            let start_ev = TimestampedEvent {
                recv: t0,
                worker,
                event: TimelyEvent::Schedule(
                    ScheduleEvent { id: operator, start_stop: StartStop::Start },
                ),
            };
            let stop_ev = TimestampedEvent {
                recv: t1,
                worker,
                event: TimelyEvent::Schedule(
                    ScheduleEvent { id: operator, start_stop: StartStop::Stop },
                ),
            };
            let span = Span {
                operator,
                worker,
                kind: SpanKind::Activation,
                start: t0,
                duration: (t1 - t0) as u64,
                shutdown_terminated: false,
            };
            step_span(p, start_ev) is None && step_span(step_pending(p, start_ev), stop_ev)
                == Some(span) && !step_pending(step_pending(p, start_ev), stop_ev).contains_key(
                (worker, operator),
            ) && run_spans(p, seq![start_ev, stop_ev]) == Multiset::empty().insert((t1, span))
        }),
{
    let start_ev = TimestampedEvent {
        recv: t0,
        worker,
        event: TimelyEvent::Schedule(ScheduleEvent { id: operator, start_stop: StartStop::Start }),
    };
    let stop_ev = TimestampedEvent {
        recv: t1,
        worker,
        event: TimelyEvent::Schedule(ScheduleEvent { id: operator, start_stop: StartStop::Stop }),
    };
    let span = Span {
        operator,
        worker,
        kind: SpanKind::Activation,
        start: t0,
        duration: (t1 - t0) as u64,
        shutdown_terminated: false,
    };
    reveal_with_fuel(run_pending, 3);
    reveal_with_fuel(run_spans, 3);
    let s = seq![start_ev, stop_ev];
    assert(s.drop_last() =~= seq![start_ev]);
    assert(s.last() == stop_ev);
    assert(seq![start_ev].drop_last() =~= Seq::<TimestampedEvent>::empty());
    assert(seq![start_ev].last() == start_ev);
    assert(run_pending(p, seq![start_ev]) == step_pending(p, start_ev));
    assert(step_span(p, start_ev) is None);
    assert(step_span(step_pending(p, start_ev), stop_ev) == Some(span));
    assert(run_spans(p, s) =~= Multiset::empty().insert((t1, span)));
}

/// A start arrival emits nothing, so a stream that ends with an unmatched
/// start has emitted no span for it: the trailing start leaves the emitted
/// multiset untouched, and `finish` discards pending starts without emission.
pub proof fn lemma_trailing_start_emits_nothing(
    p: Map<(usize, usize), u64>,
    events: Seq<TimestampedEvent>,
    ev: TimestampedEvent,
)
    requires
        ev.event matches TimelyEvent::Schedule(s) && s.start_stop is Start,
    ensures
        step_span(run_pending(p, events), ev) is None,
        run_spans(p, events.push(ev)) == run_spans(p, events),
{
    assert(events.push(ev).drop_last() =~= events);
    assert(events.push(ev).last() == ev);
    assert(run_spans(p, events).add(span_multiset(run_pending(p, events), ev)) =~= run_spans(
        p,
        events,
    ));
}


/// Membership of one key's subsequence: the filter that keeps the arrivals
/// addressing `k`.
pub open spec fn key_pred(k: Option<(usize, usize)>) -> spec_fn(TimestampedEvent) -> bool {
    |e: TimestampedEvent| event_key(e.worker, e.event) == k
}

/// The subsequence of arrivals addressing `k`, in arrival order.
pub open spec fn key_filter(s: Seq<TimestampedEvent>, k: Option<(usize, usize)>) -> Seq<
    TimestampedEvent,
> {
    s.filter(key_pred(k))
}

/// A sequence none of whose arrivals addresses `k` filters to nothing.
proof fn lemma_key_filter_all_excluded(s: Seq<TimestampedEvent>, k: Option<(usize, usize)>)
    requires
        forall|i: int| 0 <= i < s.len() ==> event_key((#[trigger] s[i]).worker, s[i].event) != k,
    ensures
        key_filter(s, k) == Seq::<TimestampedEvent>::empty(),
    decreases s.len(),
{
    reveal(Seq::filter);
    if s.len() == 0 {
        assert(key_filter(s, k) =~= Seq::<TimestampedEvent>::empty());
    } else {
        lemma_key_filter_all_excluded(s.drop_last(), k);
        assert(!key_pred(k)(s.last()));
    }
}

/// Removing the last arrival that addresses `k` drops the last element of the
/// `k` subsequence and leaves every other key's subsequence unchanged.
proof fn lemma_key_filter_remove(s: Seq<TimestampedEvent>, i: int)
    requires
        0 <= i < s.len(),
        forall|j: int|
            i < j < s.len() ==> event_key((#[trigger] s[j]).worker, s[j].event) != event_key(
                s[i].worker,
                s[i].event,
            ),
    ensures
        key_filter(s, event_key(s[i].worker, s[i].event)) == key_filter(
            s.remove(i),
            event_key(s[i].worker, s[i].event),
        ).push(s[i]),
        forall|m: Option<(usize, usize)>|
            m != event_key(s[i].worker, s[i].event) ==> #[trigger] key_filter(s, m) == key_filter(
                s.remove(i),
                m,
            ),
{
    reveal_with_fuel(Seq::filter, 3);
    let kk = event_key(s[i].worker, s[i].event);
    let a = s.subrange(0, i);
    let mid = seq![s[i]];
    let b = s.subrange(i + 1, s.len() as int);
    assert(s =~= (a + mid) + b);
    assert(s.remove(i) =~= a + b);
    assert forall|m: Option<(usize, usize)>| #[trigger] key_filter(s, m) == key_filter(a, m) + (
    if m == kk {
        mid
    } else {
        Seq::<TimestampedEvent>::empty()
    }) + key_filter(b, m) by {
        Seq::filter_distributes_over_add(a + mid, b, key_pred(m));
        Seq::filter_distributes_over_add(a, mid, key_pred(m));
        assert(mid.drop_last() =~= Seq::<TimestampedEvent>::empty());
        assert(mid.last() == s[i]);
        if m == kk {
            assert(key_pred(m)(s[i]));
            assert(key_filter(mid, m) =~= mid);
        } else {
            assert(!key_pred(m)(s[i]));
            assert(key_filter(mid, m) =~= Seq::<TimestampedEvent>::empty());
        }
    }
    assert forall|m: Option<(usize, usize)>| #[trigger] key_filter(s.remove(i), m) == key_filter(
        a,
        m,
    ) + key_filter(b, m) by {
        Seq::filter_distributes_over_add(a, b, key_pred(m));
    }
    assert forall|j: int| 0 <= j < b.len() implies event_key(
        (#[trigger] b[j]).worker,
        b[j].event,
    ) != kk by {
        assert(b[j] == s[i + 1 + j]);
    }
    lemma_key_filter_all_excluded(b, kk);
    assert(key_filter(s, kk) =~= key_filter(s.remove(i), kk).push(s[i]));
    assert forall|m: Option<(usize, usize)>| m != kk implies #[trigger] key_filter(s, m)
        == key_filter(s.remove(i), m) by {
        assert(key_filter(s, m) =~= key_filter(s.remove(i), m));
    }
}

/// The position of the last arrival that addresses `k`.
proof fn last_index_with_key(s: Seq<TimestampedEvent>, k: Option<(usize, usize)>) -> (i: int)
    requires
        exists|i: int| 0 <= i < s.len() && event_key((#[trigger] s[i]).worker, s[i].event) == k,
    ensures
        0 <= i < s.len(),
        event_key(s[i].worker, s[i].event) == k,
        forall|j: int|
            i < j < s.len() ==> event_key((#[trigger] s[j]).worker, s[j].event) != k,
    decreases s.len(),
{
    if event_key(s.last().worker, s.last().event) == k {
        s.len() - 1
    } else {
        let w = choose|i: int|
            0 <= i < s.len() && event_key((#[trigger] s[i]).worker, s[i].event) == k;
        assert(s.drop_last()[w] == s[w]);
        let i = last_index_with_key(s.drop_last(), k);
        assert(s[i] == s.drop_last()[i]);
        assert forall|j: int| i < j < s.len() implies event_key(
            (#[trigger] s[j]).worker,
            s[j].event,
        ) != k by {
            if j < s.len() - 1 {
                assert(s.drop_last()[j] == s[j]);
            } else {
                assert(s[j] == s.last());
            }
        }
        i
    }
}

/// Carrying an arrival past a run of arrivals that all address other keys
/// changes neither the final pending state nor the emitted spans.
proof fn lemma_bubble_to_end(
    p: Map<(usize, usize), u64>,
    s: Seq<TimestampedEvent>,
    i: int,
)
    requires
        0 <= i < s.len(),
        forall|j: int|
            i < j < s.len() ==> event_key((#[trigger] s[j]).worker, s[j].event) != event_key(
                s[i].worker,
                s[i].event,
            ),
    ensures
        run_pending(p, s.remove(i).push(s[i])) == run_pending(p, s),
        run_spans(p, s.remove(i).push(s[i])) == run_spans(p, s),
    decreases s.len() - i,
{
    if i == s.len() - 1 {
        assert(s.remove(i).push(s[i]) =~= s);
    } else {
        let swapped = s.update(i, s[i + 1]).update(i + 1, s[i]);
        lemma_adjacent_arrivals_commute(p, s, i);
        lemma_bubble_to_end(p, swapped, i + 1);
        assert(swapped.remove(i + 1) =~= s.remove(i));
        assert(swapped[i + 1] == s[i]);
    }
}

/// Order independence: reordering arrivals while preserving each key's own
/// arrival order — every per-key subsequence equal, the keyless arrivals
/// included — yields the same final pending state and the identical multiset
/// of emitted spans.
pub proof fn lemma_reordering_preserves_spans(
    p: Map<(usize, usize), u64>,
    s1: Seq<TimestampedEvent>,
    s2: Seq<TimestampedEvent>,
)
    requires
        forall|k: Option<(usize, usize)>| #[trigger] key_filter(s1, k) == key_filter(s2, k),
    ensures
        run_pending(p, s1) == run_pending(p, s2),
        run_spans(p, s1) == run_spans(p, s2),
    decreases s2.len(),
{
    reveal(Seq::filter);
    if s2.len() == 0 {
        if s1.len() > 0 {
            let kk = event_key(s1.last().worker, s1.last().event);
            assert(key_filter(s1, kk).len() > 0);
            assert(key_filter(s2, kk) =~= Seq::<TimestampedEvent>::empty());
            assert(false);
        }
    } else {
        let e = s2.last();
        let kk = event_key(e.worker, e.event);
        lemma_key_filter_remove(s2, s2.len() - 1);
        assert(s2.remove(s2.len() - 1) =~= s2.drop_last());
        assert(key_filter(s2, kk) == key_filter(s2.drop_last(), kk).push(e));
        assert(key_filter(s1, kk).len() > 0);
        assert(exists|i: int|
            0 <= i < s1.len() && event_key((#[trigger] s1[i]).worker, s1[i].event) == kk) by {
            if forall|i: int|
                0 <= i < s1.len() ==> event_key((#[trigger] s1[i]).worker, s1[i].event) != kk {
                lemma_key_filter_all_excluded(s1, kk);
            }
        }
        let i = last_index_with_key(s1, kk);
        lemma_key_filter_remove(s1, i);
        assert(key_filter(s1, kk) == key_filter(s1.remove(i), kk).push(s1[i]));
        // The two subsequences are equal, so their last elements agree.
        assert(s1[i] == e) by {
            let f = key_filter(s1, kk);
            assert(f.last() == s1[i]);
            assert(f.last() == e);
        }
        assert forall|k: Option<(usize, usize)>| #[trigger] key_filter(s1.remove(i), k)
            == key_filter(s2.drop_last(), k) by {
            if k == kk {
                assert(key_filter(s1, kk).drop_last() == key_filter(s1.remove(i), kk));
                assert(key_filter(s2, kk).drop_last() == key_filter(s2.drop_last(), kk));
            } else {
                assert(key_filter(s1, k) == key_filter(s1.remove(i), k));
                assert(key_filter(s2, k) == key_filter(s2.remove(s2.len() - 1), k));
            }
        }
        lemma_reordering_preserves_spans(p, s1.remove(i), s2.drop_last());
        lemma_bubble_to_end(p, s1, i);
        assert(s1.remove(i).push(e).drop_last() == s1.remove(i));
        assert(s1.remove(i).push(e).last() == e);
        assert(run_pending(p, s1) == run_pending(p, s2));
        assert(run_spans(p, s1) == run_spans(p, s2));
    }
}


/// Reconstructs the timeline of a finite stream: every arrival runs through a
/// fresh reconstructor and the stream is ended, so unmatched trailing starts
/// are discarded and counted. Returns the spans in non-decreasing order of
/// terminating receipt time, the malformed-sequence count and the
/// negative-duration count.
pub fn reconstruct_timeline(events: &Vec<TimestampedEvent>) -> (r: (Vec<(u64, Span)>, u64, u64))
    ensures
        r.0@.to_multiset() == run_spans(Map::empty(), events@),
        sorted_by_recv(r.0@),
        r.1 == sat_add(0, run_pending(Map::empty(), events@).dom().len()),
        r.2 == sat_add(0, run_negatives(Map::empty(), events@)),
{
    let mut rec = TimelineReconstructor::new();
    rec.process_all(events);
    proof {
        broadcast use vstd::seq_lib::group_to_multiset_ensures;

        let none: Seq<(u64, Span)> = Seq::empty();
        assert forall|x: (u64, Span)| none.to_multiset().count(x) == 0 by {
            assert(!none.contains(x));
        }
        assert(none.to_multiset() =~= Multiset::<(u64, Span)>::empty());
        assert(rec.emitted().to_multiset() =~= run_spans(Map::empty(), events@));
    }
    rec.finish()
}

} // verus!
