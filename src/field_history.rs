//! Time-stamped histories of values, for trends over a recent span.

use vstd::prelude::*;

verus! {

/// Relies on `SystemTime::now` (measured from the Unix epoch): the wall-clock time in
/// milliseconds. Nothing is known of the value; a clock set before 1970 reads as 0.
#[verifier::external_body]
fn now_ms() -> (r: u64) {
    match std::time::SystemTime::now().duration_since(std::time::UNIX_EPOCH) {
        Ok(d) => d.as_millis() as u64,
        Err(_) => 0,
    }
}

/// A value stamped with the wall-clock time it was recorded at.
#[derive(Debug, Clone)]
pub struct HistoricalValue<T> {
    pub value: T,
    /// Milliseconds since the Unix epoch.
    pub time_ms: u64,
}

impl<T> HistoricalValue<T> {
    /// `value`, stamped with the current time.
    pub fn from_now(value: T) -> (r: Self)
        ensures
            r.value == value,
    {
        HistoricalValue { value, time_ms: now_ms() }
    }
}

/// Milliseconds from `time_ms` to `now_ms`; a stamp in the future counts as no time at all.
pub open spec fn elapsed(now_ms: u64, time_ms: u64) -> u64 {
    if time_ms <= now_ms {
        (now_ms - time_ms) as u64
    } else {
        0
    }
}

/// The entries recorded within `span_ms` of `now_ms`, in order.
pub open spec fn within_span<T>(h: Seq<HistoricalValue<T>>, now_ms: u64, span_ms: u64) -> Seq<
    HistoricalValue<T>,
>
    decreases h.len(),
{
    if h.len() == 0 {
        h
    } else if elapsed(now_ms, h.last().time_ms) <= span_ms {
        within_span(h.drop_last(), now_ms, span_ms).push(h.last())
    } else {
        within_span(h.drop_last(), now_ms, span_ms)
    }
}

/// A history of values, oldest first.
#[derive(Debug, Clone)]
pub struct ValueHistory<T> where T: Clone + PartialEq {
    history: Vec<HistoricalValue<T>>,
}

impl<T> View for ValueHistory<T> where T: Clone + PartialEq {
    type V = Seq<HistoricalValue<T>>;

    closed spec fn view(&self) -> Seq<HistoricalValue<T>> {
        self.history@
    }
}

impl<T> ValueHistory<T> where T: Clone + PartialEq {
    /// An empty history.
    pub fn new() -> (r: Self)
        ensures
            r@ == Seq::<HistoricalValue<T>>::empty(),
    {
        ValueHistory { history: Vec::new() }
    }

    /// The newest value, if any.
    pub fn top(&self) -> (r: Option<&T>)
        ensures
            self@.len() == 0 ==> r is None,
            self@.len() > 0 ==> r == Some(&self@.last().value),
    {
        if self.history.len() == 0 {
            None
        } else {
            Some(&self.history[self.history.len() - 1].value)
        }
    }

    /// Appends `value`, stamped with the current time.
    pub fn push(&mut self, value: T)
        ensures
            final(self)@.len() == old(self)@.len() + 1,
            final(self)@.drop_last() == old(self)@,
            final(self)@.last().value == value,
    {
        self.history.push(HistoricalValue::from_now(value));
        assert(self.history@.drop_last() =~= old(self).history@);
    }

    /// The values recorded within `span_ms` of `now_ms`, oldest first, each with how long
    /// before `now_ms` it was recorded.
    pub fn points_at(&self, now_ms: u64, span_ms: u64) -> (r: Vec<(u64, T)>)
        ensures
            r@.len() == within_span(self@, now_ms, span_ms).len(),
            forall|i: int|
                0 <= i < r@.len() ==> {
                    let e = #[trigger] within_span(self@, now_ms, span_ms)[i];
                    &&& r@[i].0 == elapsed(now_ms, e.time_ms)
                    &&& cloned(e.value, r@[i].1)
                },
    {
        let mut out: Vec<(u64, T)> = Vec::new();
        let mut i: usize = 0;
        while i < self.history.len()
            invariant
                i <= self@.len(),
                out@.len() == within_span(self@.subrange(0, i as int), now_ms, span_ms).len(),
                forall|j: int|
                    0 <= j < out@.len() ==> {
                        let e = #[trigger] within_span(self@.subrange(0, i as int), now_ms, span_ms)[j];
                        &&& out@[j].0 == elapsed(now_ms, e.time_ms)
                        &&& cloned(e.value, out@[j].1)
                    },
            decreases self@.len() - i,
        {
            let ghost prev = within_span(self@.subrange(0, i as int), now_ms, span_ms);
            assert(self@.subrange(0, i + 1).drop_last() =~= self@.subrange(0, i as int));
            let e = &self.history[i];
            let age: u64 = if e.time_ms <= now_ms {
                now_ms - e.time_ms
            } else {
                0
            };
            if age <= span_ms {
                let v = e.value.clone();
                out.push((age, v));
                assert forall|j: int| 0 <= j < out@.len() implies {
                    let e2 = #[trigger] within_span(self@.subrange(0, i + 1), now_ms, span_ms)[j];
                    &&& out@[j].0 == elapsed(now_ms, e2.time_ms)
                    &&& cloned(e2.value, out@[j].1)
                } by {
                    if j < prev.len() {
                        assert(within_span(self@.subrange(0, i + 1), now_ms, span_ms)[j] == prev[j]);
                    }
                }
            }
            i = i + 1;
        }
        assert(self@.subrange(0, i as int) =~= self@);
        out
    }

    /// The values recorded within `span_ms` of now, oldest first, each with how long ago it
    /// was recorded.
    pub fn as_point_span(&self, span_ms: u64) -> (r: Vec<(u64, T)>)
        ensures
            exists|now: u64|
                {
                    &&& r@.len() == within_span(self@, now, span_ms).len()
                    &&& forall|i: int|
                        0 <= i < r@.len() ==> {
                            let e = #[trigger] within_span(self@, now, span_ms)[i];
                            &&& r@[i].0 == elapsed(now, e.time_ms)
                            &&& cloned(e.value, r@[i].1)
                        }
                },
    {
        let now = now_ms();
        self.points_at(now, span_ms)
    }

    /// Keeps only the values recorded within `span_ms` of `now_ms`, in order.
    pub fn prune_at(&mut self, now_ms: u64, span_ms: u64)
        ensures
            final(self)@ == within_span(old(self)@, now_ms, span_ms),
    {
        let mut kept: Vec<HistoricalValue<T>> = Vec::new();
        let mut rest: Vec<HistoricalValue<T>> = Vec::new();
        std::mem::swap(&mut rest, &mut self.history);
        let ghost all = rest@;
        assert(all == old(self)@);
        let mut i: usize = 0;
        let n = rest.len();
        assert(all.subrange(0, 0) =~= Seq::<HistoricalValue<T>>::empty());
        assert(all.subrange(0, n as int) =~= all);
        while i < n
            invariant
                n == all.len(),
                i <= n,
                rest@ == all.subrange(i as int, n as int),
                kept@ == within_span(all.subrange(0, i as int), now_ms, span_ms),
            decreases n - i,
        {
            let e = rest.remove(0);
            assert(rest@ =~= all.subrange(i + 1, n as int));
            assert(all.subrange(0, i + 1).drop_last() =~= all.subrange(0, i as int));
            let age: u64 = if e.time_ms <= now_ms {
                now_ms - e.time_ms
            } else {
                0
            };
            if age <= span_ms {
                kept.push(e);
            }
            i = i + 1;
        }
        self.history = kept;
    }

    /// Keeps only the values recorded within `span_ms` of now, in order.
    pub fn prune(&mut self, span_ms: u64)
        ensures
            exists|now: u64| final(self)@ == within_span(old(self)@, now, span_ms),
    {
        let now = now_ms();
        self.prune_at(now, span_ms);
    }
}

} // verus!
