//! The sliding one-second window of input timestamps and the polling-rate
//! statistics drawn from it.

use vstd::prelude::*;
use crate::rate::{PollRate, lemma_rate_total, lemma_rate_le_trans};

verus! {

/// Length of the sliding window, in microseconds.
pub const WINDOW_MICROS: u64 = 1_000_000;

/// Room reserved for timestamps up front: a second of events at 2000 Hz.
pub const EXPECTED_EVENTS: usize = 2000;

/// Timestamps at or before this one fall out of a window that ends at `t`
/// (one second earlier, or zero near the start of the clock).
pub open spec fn window_cutoff(t: u64) -> u64 {
    if t >= WINDOW_MICROS {
        (t - WINDOW_MICROS) as u64
    } else {
        0
    }
}

/// The timestamps of `ts` later than `cutoff`, in their order.
pub open spec fn kept_after(ts: Seq<u64>, cutoff: u64) -> Seq<u64>
    decreases ts.len(),
{
    if ts.len() == 0 {
        ts
    } else {
        let rest = kept_after(ts.drop_last(), cutoff);
        if ts.last() > cutoff {
            rest.push(ts.last())
        } else {
            rest
        }
    }
}

/// The timestamps never decrease.
pub open spec fn is_sorted(ts: Seq<u64>) -> bool {
    forall|i: int, j: int| 0 <= i <= j < ts.len() ==> ts[i] <= ts[j]
}

/// The events of the last second before `now` run forward from the first to
/// the last of them, so the span between those two is not negative.
pub open spec fn measurable(ts: Seq<u64>, now: u64) -> bool {
    let recent = kept_after(ts, window_cutoff(now));
    recent.len() >= 2 ==> recent[0] <= recent.last()
}

/// The timestamps that recording an event at `event_time` leaves: the old
/// ones and the new one, less those a second or more older than it.
pub open spec fn recorded(ts: Seq<u64>, event_time: u64) -> Seq<u64> {
    kept_after(ts.push(event_time), window_cutoff(event_time))
}

/// The rate measured at `now` over the events of the last second: one
/// interval fewer than there are events, over the span from the first to the
/// last of them. There is none with fewer than two events or an empty span.
pub open spec fn window_sample(ts: Seq<u64>, now: u64) -> Option<PollRate> {
    let recent = kept_after(ts, window_cutoff(now));
    if recent.len() >= 2 && recent.last() > recent[0] {
        Some(PollRate { intervals: (recent.len() - 1) as u64, micros: (recent.last() - recent[0]) as u64 })
    } else {
        None
    }
}

/// The current rate after a measurement: the new sample where there is one.
pub open spec fn latest_rate(current: PollRate, sample: Option<PollRate>) -> PollRate {
    match sample {
        Some(r) => r,
        None => current,
    }
}

/// The highest rate after a measurement.
pub open spec fn raised_max(max: PollRate, sample: Option<PollRate>) -> PollRate {
    match sample {
        Some(r) => if max.rate_lt(r) { r } else { max },
        None => max,
    }
}

/// The lowest positive rate after a measurement; `None` until there is one.
pub open spec fn lowered_min(min: Option<PollRate>, sample: Option<PollRate>) -> Option<PollRate> {
    match sample {
        Some(r) => if r.intervals > 0 {
            match min {
                None => Some(r),
                Some(m) => if r.rate_lt(m) { Some(r) } else { Some(m) },
            }
        } else {
            min
        },
        None => min,
    }
}

/// Folding the same measurement in a second time changes nothing: the
/// current, highest and lowest rates stay as the first fold left them.
pub proof fn lemma_refold_is_stable(
    current: PollRate,
    max: PollRate,
    min: Option<PollRate>,
    sample: Option<PollRate>,
)
    requires
        max.wf(),
        min matches Some(m) ==> m.wf(),
        sample matches Some(r) ==> r.wf(),
    ensures
        latest_rate(latest_rate(current, sample), sample) == latest_rate(current, sample),
        raised_max(raised_max(max, sample), sample) == raised_max(max, sample),
        lowered_min(lowered_min(min, sample), sample) == lowered_min(min, sample),
{
    if let Some(r) = sample {
        lemma_rate_total(r, r);
        lemma_rate_total(max, r);
        lemma_rate_total(r, max);
        if let Some(m) = min {
            lemma_rate_total(r, m);
            lemma_rate_total(m, r);
        }
    }
}

/// The sliding one-second window: recording an event at `t` keeps only
/// timestamps later than a second before `t`, keeps every earlier one that
/// is, keeps `t` itself unless the clock reads zero, and, for events that
/// arrive in order, keeps them in order and ending at `t`.
pub proof fn lemma_sliding_window(ts: Seq<u64>, t: u64)
    ensures
        forall|k: int|
            0 <= k < recorded(ts, t).len() ==> window_cutoff(t) < #[trigger] recorded(ts, t)[k],
        forall|i: int|
            0 <= i < ts.len() && #[trigger] ts[i] > window_cutoff(t) ==> recorded(
                ts,
                t,
            ).contains(ts[i]),
        t > 0 ==> recorded(ts, t).len() > 0 && recorded(ts, t).last() == t,
        is_sorted(ts) && (forall|i: int| 0 <= i < ts.len() ==> #[trigger] ts[i] <= t) ==> {
            &&& is_sorted(recorded(ts, t))
            &&& forall|k: int| 0 <= k < recorded(ts, t).len() ==> #[trigger] recorded(ts, t)[k] <= t
        },
{
    let p = ts.push(t);
    lemma_kept_after(p, window_cutoff(t));
    assert forall|i: int| 0 <= i < ts.len() && #[trigger] ts[i] > window_cutoff(t) implies recorded(
        ts,
        t,
    ).contains(ts[i]) by {
        assert(p[i] == ts[i]);
    }
    if is_sorted(ts) && (forall|i: int| 0 <= i < ts.len() ==> #[trigger] ts[i] <= t) {
        if ts.len() > 0 {
            assert(ts[ts.len() - 1] <= t);
        }
        lemma_push_sorted(ts, t);
    }
}

/// Every event is counted: along any run of statistics that starts empty
/// and gains exactly one event per step, as `new` and `add_event` guarantee,
/// the count after `k` steps is `k`.
pub proof fn lemma_total_counts_every_event(run: Seq<PollRateStats>)
    requires
        run.len() > 0,
        run[0].total() == 0,
        forall|i: int| 0 <= i < run.len() - 1 ==> #[trigger] run[i + 1].total() == run[i].total() + 1,
    ensures
        forall|i: int| 0 <= i < run.len() ==> #[trigger] run[i].total() == i,
    decreases run.len(),
{
    if run.len() > 1 {
        let d = run.drop_last();
        assert forall|i: int| 0 <= i < d.len() - 1 implies #[trigger] d[i + 1].total() == d[i].total() + 1 by {
            assert(d[i + 1] == run[i + 1]);
            assert(d[i] == run[i]);
        }
        lemma_total_counts_every_event(d);
        assert forall|i: int| 0 <= i < run.len() implies #[trigger] run[i].total() == i by {
            if i < d.len() {
                assert(d[i] == run[i]);
            } else {
                assert(run[i - 1] == d[i - 1]);
                assert(run[(i - 1) + 1].total() == run[i - 1].total() + 1);
            }
        }
    }
}

/// What `kept_after` keeps: only later timestamps, in order, and the last
/// one of the input when it is late enough.
pub proof fn lemma_kept_after(ts: Seq<u64>, cutoff: u64)
    ensures
        forall|k: int| 0 <= k < kept_after(ts, cutoff).len() ==> kept_after(ts, cutoff)[k] > cutoff,
        kept_after(ts, cutoff).len() <= ts.len(),
        is_sorted(ts) ==> is_sorted(kept_after(ts, cutoff)),
        is_sorted(ts) && ts.len() > 0 ==> forall|k: int|
            0 <= k < kept_after(ts, cutoff).len() ==> kept_after(ts, cutoff)[k] <= ts.last(),
        ts.len() > 0 && ts.last() > cutoff ==> kept_after(ts, cutoff).len() > 0
            && kept_after(ts, cutoff).last() == ts.last(),
        forall|i: int|
            0 <= i < ts.len() && #[trigger] ts[i] > cutoff ==> kept_after(ts, cutoff).contains(
                ts[i],
            ),
    decreases ts.len(),
{
    if ts.len() > 0 {
        let d = ts.drop_last();
        lemma_kept_after(d, cutoff);
        let k = kept_after(ts, cutoff);
        let kd = kept_after(d, cutoff);
        assert forall|i: int| 0 <= i < ts.len() && #[trigger] ts[i] > cutoff implies k.contains(
            ts[i],
        ) by {
            if i < d.len() {
                assert(d[i] == ts[i]);
                let j = choose|j: int| 0 <= j < kd.len() && kd[j] == d[i];
                if ts.last() > cutoff {
                    assert(k[j] == kd[j]);
                }
                assert(k.contains(ts[i]));
            } else {
                assert(k[k.len() - 1] == ts[i]);
            }
        }
        if is_sorted(ts) {
            assert(is_sorted(d));
            if d.len() > 0 {
                assert(d.last() <= ts.last()) by {
                    assert(ts[d.len() - 1] <= ts[ts.len() - 1]);
                }
            }
        }
    }
}

/// Appending a timestamp no earlier than the last keeps a sequence sorted.
pub proof fn lemma_push_sorted(ts: Seq<u64>, t: u64)
    requires
        is_sorted(ts),
        ts.len() > 0 ==> ts.last() <= t,
    ensures
        is_sorted(ts.push(t)),
{
    assert forall|i: int, j: int| 0 <= i <= j < ts.push(t).len() implies ts.push(t)[i] <= ts.push(
        t,
    )[j] by {
        if j == ts.len() as int && i < j {
            assert(ts[i] <= ts[ts.len() - 1]);
        }
    }
}

/// The number of timestamps of `ts` later than `cutoff`.
pub open spec fn count_later(ts: Seq<u64>, cutoff: u64) -> nat
    decreases ts.len(),
{
    if ts.len() == 0 {
        0
    } else {
        count_later(ts.drop_last(), cutoff) + if ts.last() > cutoff { 1nat } else { 0nat }
    }
}

/// Where the later timestamps sit in `ts`: as many as `count_later` says,
/// the first of them at the lowest index later than `cutoff`, the last at
/// the highest.
proof fn lemma_kept_positions(ts: Seq<u64>, cutoff: u64)
    ensures
        kept_after(ts, cutoff).len() == count_later(ts, cutoff),
        kept_after(ts, cutoff).len() == 0 ==> forall|k: int| 0 <= k < ts.len() ==> #[trigger] ts[k] <= cutoff,
        kept_after(ts, cutoff).len() > 0 ==> exists|i: int|
            0 <= i < ts.len() && ts[i] > cutoff && kept_after(ts, cutoff)[0] == ts[i] && forall|k: int|
                0 <= k < i ==> #[trigger] ts[k] <= cutoff,
        kept_after(ts, cutoff).len() > 0 ==> exists|j: int|
            0 <= j < ts.len() && ts[j] > cutoff && kept_after(ts, cutoff).last() == ts[j]
                && forall|k: int| j < k < ts.len() ==> #[trigger] ts[k] <= cutoff,
    decreases ts.len(),
{
    if ts.len() > 0 {
        let d = ts.drop_last();
        let n = ts.len() - 1;
        lemma_kept_positions(d, cutoff);
        let kd = kept_after(d, cutoff);
        let k = kept_after(ts, cutoff);
        assert forall|m: int| 0 <= m < d.len() implies #[trigger] ts[m] == d[m] by {}
        if kd.len() == 0 {
            assert forall|m: int| 0 <= m < d.len() implies #[trigger] ts[m] <= cutoff by {
                assert(d[m] <= cutoff);
            }
            if ts.last() > cutoff {
                assert(k[0] == ts[n]);
            }
        } else {
            let i = choose|i: int|
                0 <= i < d.len() && d[i] > cutoff && kd[0] == d[i] && forall|k: int|
                    0 <= k < i ==> #[trigger] d[k] <= cutoff;
            assert(k[0] == kd[0]);
            assert(ts[i] == d[i]);
            assert forall|m: int| 0 <= m < i implies #[trigger] ts[m] <= cutoff by {
                assert(d[m] <= cutoff);
            }
            if ts.last() <= cutoff {
                let j = choose|j: int|
                    0 <= j < d.len() && d[j] > cutoff && kd.last() == d[j] && forall|k: int|
                        j < k < d.len() ==> #[trigger] d[k] <= cutoff;
                assert(ts[j] == d[j]);
                assert forall|m: int| j < m < ts.len() implies #[trigger] ts[m] <= cutoff by {
                    if m < d.len() {
                        assert(d[m] <= cutoff);
                    }
                }
            }
        }
    }
}

/// The measured rate counts every event of the last second: with the cutoff
/// one second before `now` (zero near the start of the clock), a measured
/// rate has one interval fewer than there are timestamps later than the
/// cutoff, however many there are, and spans from the first of them to the
/// last. With at least two such timestamps, a rate is measured exactly when
/// the last is later than the first.
pub proof fn lemma_sample_counts_window(ts: Seq<u64>, now: u64)
    requires
        ts.len() <= u64::MAX,
    ensures
        ({
            let cutoff: u64 = if now >= 1_000_000 { (now - 1_000_000) as u64 } else { 0 };
            &&& window_sample(ts, now) matches Some(r) ==> {
                &&& r.intervals + 1 == count_later(ts, cutoff)
                &&& exists|i: int, j: int|
                    0 <= i < j < ts.len() && ts[i] > cutoff && ts[j] > cutoff
                        && r.micros == ts[j] - ts[i]
                        && (forall|k: int| 0 <= k < i ==> #[trigger] ts[k] <= cutoff)
                        && (forall|k: int| j < k < ts.len() ==> #[trigger] ts[k] <= cutoff)
            }
            &&& count_later(ts, cutoff) >= 2 ==> exists|i: int, j: int|
                0 <= i < j < ts.len() && ts[i] > cutoff && ts[j] > cutoff
                    && (forall|k: int| 0 <= k < i ==> #[trigger] ts[k] <= cutoff)
                    && (forall|k: int| j < k < ts.len() ==> #[trigger] ts[k] <= cutoff)
                    && (window_sample(ts, now) is Some <==> ts[j] > ts[i])
        }),
{
    let cutoff = window_cutoff(now);
    lemma_kept_positions(ts, cutoff);
    let kept = kept_after(ts, cutoff);
    if kept.len() >= 2 {
        let i = choose|i: int|
            0 <= i < ts.len() && ts[i] > cutoff && kept[0] == ts[i] && forall|k: int|
                0 <= k < i ==> #[trigger] ts[k] <= cutoff;
        let j = choose|j: int|
            0 <= j < ts.len() && ts[j] > cutoff && kept.last() == ts[j] && forall|k: int|
                j < k < ts.len() ==> #[trigger] ts[k] <= cutoff;
        lemma_kept_after(ts, cutoff);
        // Two later timestamps exist, so the first one comes before the last.
        if j <= i {
            assert(kept.len() <= 1) by {
                assert forall|k: int| 0 <= k < ts.len() && k != i implies #[trigger] ts[k] <= cutoff by {
                    if k < i {
                    } else {
                        assert(j < k);
                    }
                }
                lemma_single_later(ts, cutoff, i);
            }
        }
        assert(i < j);
        assert(kept.len() <= ts.len());
        assert(0 <= i < j < ts.len() && ts[i] > cutoff && ts[j] > cutoff
            && (forall|k: int| 0 <= k < i ==> #[trigger] ts[k] <= cutoff)
            && (forall|k: int| j < k < ts.len() ==> #[trigger] ts[k] <= cutoff)
            && (window_sample(ts, now) is Some <==> ts[j] > ts[i]));
        if let Some(r) = window_sample(ts, now) {
            assert(r.intervals + 1 == count_later(ts, cutoff));
            assert(r.micros == ts[j] - ts[i]);
        }
    }
}

/// With at most one timestamp later than `cutoff`, at most one is kept.
proof fn lemma_single_later(ts: Seq<u64>, cutoff: u64, i: int)
    requires
        forall|k: int| 0 <= k < ts.len() && k != i ==> #[trigger] ts[k] <= cutoff,
    ensures
        count_later(ts, cutoff) <= 1,
        kept_after(ts, cutoff).len() <= 1,
    decreases ts.len(),
{
    lemma_kept_positions(ts, cutoff);
    if ts.len() > 0 {
        let d = ts.drop_last();
        let n = ts.len() - 1;
        if i == n {
            assert forall|k: int| 0 <= k < d.len() implies #[trigger] d[k] <= cutoff by {
                assert(ts[k] == d[k]);
            }
            lemma_kept_positions(d, cutoff);
            if kept_after(d, cutoff).len() > 0 {
                let m = choose|m: int|
                    0 <= m < d.len() && d[m] > cutoff && kept_after(d, cutoff)[0] == d[m]
                        && forall|k: int| 0 <= k < m ==> #[trigger] d[k] <= cutoff;
                assert(d[m] <= cutoff);
            }
        } else {
            assert forall|k: int| 0 <= k < d.len() && k != i implies #[trigger] d[k] <= cutoff by {
                assert(ts[k] == d[k]);
            }
            lemma_single_later(d, cutoff, i);
            assert(ts[n] <= cutoff);
        }
    }
}

/// Every ordered sequence of timestamps can be measured at any instant.
pub proof fn lemma_sorted_is_measurable(ts: Seq<u64>, now: u64)
    requires
        is_sorted(ts),
    ensures
        measurable(ts, now),
{
    lemma_kept_after(ts, window_cutoff(now));
    let recent = kept_after(ts, window_cutoff(now));
    if recent.len() >= 2 {
        assert(recent[0] <= recent[recent.len() - 1]);
    }
}

/// Events that arrive in order can always be recorded and measured, however
/// many events the window already holds.
pub proof fn lemma_in_order_events_are_accepted(ts: Seq<u64>, t: u64, now: u64)
    requires
        is_sorted(ts),
        forall|i: int| 0 <= i < ts.len() ==> #[trigger] ts[i] <= t,
    ensures
        measurable(recorded(ts, t), now),
{
    lemma_sliding_window(ts, t);
    lemma_sorted_is_measurable(recorded(ts, t), now);
}

/// The timestamps of `times` later than `cutoff`.
fn keep_after(times: &Vec<u64>, cutoff: u64) -> (kept: Vec<u64>)
    ensures
        kept@ == kept_after(times@, cutoff),
{
    let mut kept: Vec<u64> = Vec::new();
    let n = times.len();
    for i in 0..n
        invariant
            n == times@.len(),
            kept@ == kept_after(times@.take(i as int), cutoff),
    {
        assert(times@.take(i + 1).drop_last() =~= times@.take(i as int));
        if times[i] > cutoff {
            kept.push(times[i]);
        }
    }
    assert(times@.take(n as int) =~= times@);
    kept
}

/// The rate measured at `now` over the last second of `times`.
fn window_rate(times: &Vec<u64>, now: u64) -> (r: Option<PollRate>)
    requires
        measurable(times@, now),
    ensures
        r == window_sample(times@, now),
{
    let cutoff = now.saturating_sub(WINDOW_MICROS);
    let recent = keep_after(times, cutoff);
    if recent.len() >= 2 {
        let first = recent[0];
        let last = recent[recent.len() - 1];
        assert(first <= last);
        let span = last - first;
        if span > 0 {
            return Some(PollRate { intervals: (recent.len() - 1) as u64, micros: span });
        }
    }
    None
}

/// Input timestamps of the last second with the statistics measured over
/// them: the current rate, the highest one and the lowest positive one, and
/// the count of all events ever recorded.
pub struct PollRateStats {
    event_times: Vec<u64>,
    current_poll_rate: PollRate,
    max_poll_rate: PollRate,
    min_poll_rate: Option<PollRate>,
    total_events: u64,
}

impl PollRateStats {
    /// The stored timestamps, oldest first.
    pub closed spec fn times(&self) -> Seq<u64> {
        self.event_times@
    }

    /// The most recently measured rate.
    pub closed spec fn current_rate(&self) -> PollRate {
        self.current_poll_rate
    }

    /// The highest rate measured so far.
    pub closed spec fn max_rate(&self) -> PollRate {
        self.max_poll_rate
    }

    /// The lowest positive rate measured so far, if any.
    pub closed spec fn min_rate(&self) -> Option<PollRate> {
        self.min_poll_rate
    }

    /// The number of events recorded since creation.
    pub closed spec fn total(&self) -> u64 {
        self.total_events
    }

    /// Every rate spans time, and the lowest rate is positive and does not
    /// exceed the highest.
    pub closed spec fn wf(&self) -> bool {
        &&& self.current_poll_rate.wf()
        &&& self.max_poll_rate.wf()
        &&& (self.min_poll_rate matches Some(m) ==> m.wf() && m.intervals > 0 && m.rate_le(
            self.max_poll_rate,
        ))
    }

    /// Every rate of valid statistics spans time, and the lowest rate never
    /// exceeds the highest one.
    pub proof fn lemma_min_at_most_max(&self)
        requires
            self.wf(),
        ensures
            self.current_rate().wf(),
            self.max_rate().wf(),
            self.min_rate() matches Some(m) ==> m.wf() && m.intervals > 0 && m.rate_le(
                self.max_rate(),
            ),
    {
    }

    /// Empty statistics: no timestamps, zero rates, no lowest rate yet.
    pub fn new() -> (s: PollRateStats)
        ensures
            s.wf(),
            s.times() == Seq::<u64>::empty(),
            s.current_rate() == PollRate::zero_spec(),
            s.max_rate() == PollRate::zero_spec(),
            s.min_rate() is None,
            s.total() == 0,
    {
        PollRateStats {
            event_times: Vec::with_capacity(EXPECTED_EVENTS),
            current_poll_rate: PollRate::zero(),
            max_poll_rate: PollRate::zero(),
            min_poll_rate: None,
            total_events: 0,
        }
    }
    /// Measures the rate at `now` over the events of the last second and
    /// folds it into the statistics; the stored timestamps are left as they
    /// are. Returns the measured rate, if there is one.
    pub fn recalculate(&mut self, now: u64) -> (sample: Option<PollRate>)
        requires
            old(self).wf(),
            measurable(old(self).times(), now),
        ensures
            final(self).wf(),
            sample == window_sample(old(self).times(), now),
            final(self).times() == old(self).times(),
            final(self).total() == old(self).total(),
            final(self).current_rate() == latest_rate(old(self).current_rate(), sample),
            final(self).max_rate() == raised_max(old(self).max_rate(), sample),
            final(self).min_rate() == lowered_min(old(self).min_rate(), sample),
            old(self).max_rate().rate_le(final(self).max_rate()),
            old(self).min_rate() matches Some(m0) ==> (final(self).min_rate() matches Some(m)
                && m.rate_le(m0)),
            sample is None ==> final(self).current_rate() == old(self).current_rate()
                && final(self).max_rate() == old(self).max_rate() && final(self).min_rate() == old(
                self,
            ).min_rate(),
            sample matches Some(r) ==> {
                &&& final(self).current_rate() == r
                &&& r.wf()
                &&& r.intervals > 0
                &&& r.rate_le(final(self).max_rate())
                &&& final(self).min_rate() matches Some(m) && m.rate_le(r)
            },
    {
        let ghost old_max = self.max_poll_rate;
        let ghost old_min = self.min_poll_rate;
        let stored = self.event_times.len();
        let sample = window_rate(&self.event_times, now);
        proof {
            lemma_kept_after(self.event_times@, window_cutoff(now));
            assert(stored <= u64::MAX);
        }
        if let Some(rate) = sample {
            self.current_poll_rate = rate;
            if self.max_poll_rate.is_below(&rate) {
                self.max_poll_rate = rate;
            }
            if rate.is_positive() {
                match self.min_poll_rate {
                    None => {
                        self.min_poll_rate = Some(rate);
                    },
                    Some(m) => {
                        if rate.is_below(&m) {
                            self.min_poll_rate = Some(rate);
                        }
                    },
                }
            }
            proof {
                let new_max = self.max_poll_rate;
                lemma_rate_total(old_max, rate);
                lemma_rate_total(rate, old_max);
                lemma_rate_total(rate, rate);
                assert(old_max.rate_le(new_max));
                assert(rate.rate_le(new_max));
                if let Some(m0) = old_min {
                    lemma_rate_total(rate, m0);
                    lemma_rate_total(m0, rate);
                    lemma_rate_total(m0, m0);
                    lemma_rate_le_trans(m0, old_max, new_max);
                }
            }
        }
        sample
    }

    /// Records an input event at `event_time`: counts it, appends its
    /// timestamp and drops those a second or more older, then measures the
    /// rate at `now` as `recalculate` does. Returns the measured rate, if
    /// there is one.
    pub fn add_event(&mut self, event_time: u64, now: u64) -> (sample: Option<PollRate>)
        requires
            old(self).wf(),
            old(self).total() < u64::MAX,
            measurable(recorded(old(self).times(), event_time), now),
        ensures
            final(self).wf(),
            final(self).total() == old(self).total() + 1,
            final(self).times() == recorded(old(self).times(), event_time),
            sample == window_sample(final(self).times(), now),
            final(self).current_rate() == latest_rate(old(self).current_rate(), sample),
            final(self).max_rate() == raised_max(old(self).max_rate(), sample),
            final(self).min_rate() == lowered_min(old(self).min_rate(), sample),
            forall|k: int|
                0 <= k < final(self).times().len() ==> window_cutoff(event_time)
                    < #[trigger] final(self).times()[k],
            forall|i: int|
                0 <= i < old(self).times().len() && #[trigger] old(self).times()[i]
                    > window_cutoff(event_time) ==> final(self).times().contains(
                    old(self).times()[i],
                ),
            is_sorted(old(self).times()) && (old(self).times().len() > 0 ==> old(self).times().last()
                <= event_time) ==> is_sorted(final(self).times()) && forall|k: int|
                0 <= k < final(self).times().len() ==> #[trigger] final(self).times()[k]
                    <= event_time,
            event_time > 0 ==> final(self).times().len() > 0 && final(self).times().last()
                == event_time,
            old(self).max_rate().rate_le(final(self).max_rate()),
            old(self).min_rate() matches Some(m0) ==> (final(self).min_rate() matches Some(m)
                && m.rate_le(m0)),
            sample is None ==> final(self).current_rate() == old(self).current_rate()
                && final(self).max_rate() == old(self).max_rate() && final(self).min_rate() == old(
                self,
            ).min_rate(),
            sample matches Some(r) ==> {
                &&& final(self).current_rate() == r
                &&& r.wf()
                &&& r.intervals > 0
                &&& r.rate_le(final(self).max_rate())
                &&& final(self).min_rate() matches Some(m) && m.rate_le(r)
            },
    {
        let ghost pushed = self.event_times@.push(event_time);
        proof {
            if is_sorted(self.event_times@) && (self.event_times@.len() > 0
                ==> self.event_times@.last() <= event_time) {
                lemma_push_sorted(self.event_times@, event_time);
            }
        }
        self.event_times.push(event_time);
        self.total_events = self.total_events + 1;
        let cutoff = event_time.saturating_sub(WINDOW_MICROS);
        self.event_times = keep_after(&self.event_times, cutoff);
        proof {
            lemma_kept_after(pushed, cutoff);
            lemma_sliding_window(old(self).times(), event_time);
            assert(pushed.last() == event_time);
        }
        self.recalculate(now)
    }

    /// Whether a measurement at `now` is possible: the events of the last
    /// second before it are in order from first to last.
    pub fn can_measure(&self, now: u64) -> (r: bool)
        ensures
            r == measurable(self.times(), now),
    {
        let recent = keep_after(&self.event_times, now.saturating_sub(WINDOW_MICROS));
        recent.len() < 2 || recent[0] <= recent[recent.len() - 1]
    }

    /// Whether an event at `event_time` can be recorded and then measured at
    /// `now`.
    pub fn accepts_event(&self, event_time: u64, now: u64) -> (r: bool)
        ensures
            r == measurable(recorded(self.times(), event_time), now),
    {
        let mut times = self.event_times.clone();
        times.push(event_time);
        let kept = keep_after(&times, event_time.saturating_sub(WINDOW_MICROS));
        let recent = keep_after(&kept, now.saturating_sub(WINDOW_MICROS));
        recent.len() < 2 || recent[0] <= recent[recent.len() - 1]
    }

    /// The stored timestamps, oldest first.
    pub fn event_times(&self) -> (r: &[u64])
        ensures
            r@ == self.times(),
    {
        self.event_times.as_slice()
    }

    /// The most recently measured rate.
    pub fn current_poll_rate(&self) -> (r: PollRate)
        ensures
            r == self.current_rate(),
    {
        self.current_poll_rate
    }

    /// The highest rate measured so far.
    pub fn max_poll_rate(&self) -> (r: PollRate)
        ensures
            r == self.max_rate(),
    {
        self.max_poll_rate
    }

    /// The lowest positive rate measured so far, if any.
    pub fn min_poll_rate(&self) -> (r: Option<PollRate>)
        ensures
            r == self.min_rate(),
    {
        self.min_poll_rate
    }

    /// The number of events recorded since creation.
    pub fn total_events(&self) -> (r: u64)
        ensures
            r == self.total(),
    {
        self.total_events
    }
}

} // verus!
