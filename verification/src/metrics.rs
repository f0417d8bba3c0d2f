//! Running statistics over pulse durations.

use vstd::prelude::*;

verus! {

/// Sum of all values.
pub open spec fn total(values: Seq<u32>) -> nat
    decreases values.len(),
{
    if values.len() == 0 {
        0
    } else {
        total(values.drop_last()) + values.last() as nat
    }
}

/// Smallest value, or `u32::MAX` where there is none.
pub open spec fn smallest(values: Seq<u32>) -> nat
    decreases values.len(),
{
    if values.len() == 0 {
        u32::MAX as nat
    } else if values.last() < smallest(values.drop_last()) {
        values.last() as nat
    } else {
        smallest(values.drop_last())
    }
}

/// Largest value, or 0 where there is none.
pub open spec fn largest(values: Seq<u32>) -> nat
    decreases values.len(),
{
    if values.len() == 0 {
        0
    } else if values.last() > largest(values.drop_last()) {
        values.last() as nat
    } else {
        largest(values.drop_last())
    }
}

/// Arithmetic mean rounded down, or 0 where there is no value.
pub open spec fn mean(values: Seq<u32>) -> nat {
    if values.len() == 0 {
        0
    } else {
        total(values) / values.len()
    }
}

/// What a [`Metrics`] stands for: how many values it has seen, their sum,
/// the smallest and the largest.
pub struct MetricsView {
    pub count: nat,
    pub sum: nat,
    pub min: nat,
    pub max: nat,
}

impl MetricsView {
    /// The statistics of no values at all.
    pub open spec fn empty() -> MetricsView {
        MetricsView { count: 0, sum: 0, min: u32::MAX as nat, max: 0 }
    }

    /// The statistics of a sequence of values.
    pub open spec fn of(values: Seq<u32>) -> MetricsView {
        MetricsView {
            count: values.len(),
            sum: total(values),
            min: smallest(values),
            max: largest(values),
        }
    }

    /// The statistics after one more value.
    pub open spec fn accumulate(self, value: u32) -> MetricsView {
        MetricsView {
            count: self.count + 1,
            sum: self.sum + value as nat,
            min: if value < self.min { value as nat } else { self.min },
            max: if value > self.max { value as nat } else { self.max },
        }
    }

    /// Mean rounded down, or 0 before the first value.
    pub open spec fn average(self) -> nat {
        if self.count == 0 {
            0
        } else {
            self.sum / self.count
        }
    }
}

/// Accumulating a value is the same as appending it to the sequence measured.
pub proof fn lemma_of_push(values: Seq<u32>, value: u32)
    ensures
        MetricsView::of(values.push(value)) == MetricsView::of(values).accumulate(value),
        MetricsView::of(values.push(value)).average() == mean(values.push(value)),
{
    assert(values.push(value).drop_last() =~= values);
}

/// The statistics of the empty sequence are the empty statistics.
pub proof fn lemma_of_empty()
    ensures
        MetricsView::of(Seq::<u32>::empty()) == MetricsView::empty(),
{
}

/// Bounds that hold of the statistics of every sequence.
pub proof fn lemma_of_bounds(values: Seq<u32>)
    ensures
        total(values) <= values.len() * u32::MAX,
        smallest(values) <= u32::MAX,
        largest(values) <= u32::MAX,
        values.len() > 0 ==> smallest(values) <= largest(values),
        forall|i: int| 0 <= i < values.len() ==> smallest(values) <= #[trigger] values[i] <= largest(values),
        values.len() > 0 ==> exists|i: int| 0 <= i < values.len() && #[trigger] values[i] == smallest(values),
        values.len() > 0 ==> exists|i: int| 0 <= i < values.len() && #[trigger] values[i] == largest(values),
    decreases values.len(),
{
    if values.len() > 0 {
        let front = values.drop_last();
        lemma_of_bounds(front);
        assert(total(values) <= values.len() * u32::MAX) by (nonlinear_arith)
            requires
                total(values) == total(front) + values.last(),
                total(front) <= front.len() * u32::MAX,
                values.last() <= u32::MAX,
                front.len() + 1 == values.len(),
        ;
        assert forall|i: int| 0 <= i < values.len() implies smallest(values) <= #[trigger] values[i]
            <= largest(values) by {
            if i < front.len() {
                assert(front[i] == values[i]);
            }
        }
        if front.len() > 0 {
            let lo = choose|i: int| 0 <= i < front.len() && #[trigger] front[i] == smallest(front);
            let hi = choose|i: int| 0 <= i < front.len() && #[trigger] front[i] == largest(front);
            assert(values[lo] == front[lo]);
            assert(values[hi] == front[hi]);
        }
        assert(values[values.len() - 1] == values.last());
    }
}

/// Count, sum, minimum and maximum of the values accumulated so far.
#[derive(Clone, Copy, Debug)]
pub struct Metrics {
    count: u64,
    sum: u128,
    min: u32,
    max: u32,
}

impl View for Metrics {
    type V = MetricsView;

    closed spec fn view(&self) -> MetricsView {
        MetricsView {
            count: self.count as nat,
            sum: self.sum as nat,
            min: self.min as nat,
            max: self.max as nat,
        }
    }
}

impl Metrics {
    #[verifier::type_invariant]
    spec fn bounded(self) -> bool {
        self.sum <= self.count * u32::MAX
    }

    /// Statistics of no values: count and sum 0, minimum `u32::MAX`, maximum 0.
    pub fn new() -> (r: Metrics)
        ensures
            r@ == MetricsView::empty(),
    {
        Metrics { count: 0, sum: 0, min: u32::MAX, max: 0 }
    }

    /// The statistics with `value` added; `self` is left as it was.
    pub fn accumulate(&self, value: u32) -> (r: Metrics)
        requires
            self@.count < u64::MAX,
        ensures
            r@ == self@.accumulate(value),
    {
        proof {
            use_type_invariant(self);
            assert((self.count + 1) * u32::MAX == self.count * u32::MAX + u32::MAX)
                by (nonlinear_arith);
        }
        Metrics {
            count: self.count + 1,
            sum: self.sum + value as u128,
            min: if value < self.min { value } else { self.min },
            max: if value > self.max { value } else { self.max },
        }
    }

    /// Mean of the values rounded down, or 0 before the first value.
    pub fn average(&self) -> (r: u32)
        ensures
            r == self@.average(),
    {
        if self.count == 0 {
            0
        } else {
            proof {
                use_type_invariant(self);
                assert(self.sum / (self.count as u128) <= u32::MAX) by (nonlinear_arith)
                    requires
                        self.sum <= self.count * u32::MAX,
                        self.count > 0,
                ;
            }
            (self.sum / self.count as u128) as u32
        }
    }

    /// How many values were accumulated.
    pub fn count(&self) -> (r: u64)
        ensures
            r == self@.count,
    {
        self.count
    }

    /// Their sum.
    pub fn sum(&self) -> (r: u128)
        ensures
            r == self@.sum,
    {
        self.sum
    }

    /// The smallest of them, or `u32::MAX` before the first.
    pub fn min(&self) -> (r: u32)
        ensures
            r == self@.min,
    {
        self.min
    }

    /// The largest of them, or 0 before the first.
    pub fn max(&self) -> (r: u32)
        ensures
            r == self@.max,
    {
        self.max
    }
}

/// Statistics of all of `values`.
pub fn measure(values: &[u32]) -> (r: Metrics)
    ensures
        r@ == MetricsView::of(values@),
{
    let mut metrics = Metrics::new();
    let mut i: usize = 0;
    while i < values.len()
        invariant
            i <= values.len(),
            metrics@ == MetricsView::of(values@.take(i as int)),
        decreases values.len() - i,
    {
        proof {
            lemma_of_push(values@.take(i as int), values@[i as int]);
            assert(values@.take(i as int).push(values@[i as int]) =~= values@.take(i + 1));
        }
        metrics = metrics.accumulate(values[i]);
        i += 1;
    }
    proof {
        assert(values@.take(i as int) =~= values@);
    }
    metrics
}

/// Mean of `values` rounded down; `None` where there is no value to average.
pub fn avg(values: &[u32]) -> (r: Option<u32>)
    ensures
        values@.len() == 0 <==> r is None,
        r matches Some(a) ==> a == mean(values@),
{
    if values.len() == 0 {
        None
    } else {
        Some(measure(values).average())
    }
}

} // verus!
