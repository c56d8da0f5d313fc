//! Whole numbers within a fixed range.

use vstd::prelude::*;
use vstd::std_specs::convert::TryFromSpecImpl;

verus! {

/// A whole number between `MIN` and `MAX`, both included.
#[derive(Clone, Copy, Debug)]
pub struct Metric<const MIN: u64, const MAX: u64>(u64);

impl<const MIN: u64, const MAX: u64> Metric<MIN, MAX> {
    /// The number.
    pub closed spec fn value(self) -> u64 {
        self.0
    }

    #[verifier::type_invariant]
    spec fn in_range(self) -> bool {
        MIN <= MAX ==> MIN <= self.0 <= MAX
    }

    /// The metric of the given value, where the range holds it.
    pub fn new(value: u64) -> (metric: Result<Metric<MIN, MAX>, ()>)
        ensures
            metric is Ok <==> MIN <= value <= MAX,
            metric matches Ok(m) ==> m.value() == value,
    {
        if value < MIN || value > MAX {
            Err(())
        } else {
            Ok(Metric(value))
        }
    }

    /// The number, which lies within the range wherever the range is not
    /// empty.
    pub fn get(&self) -> (value: u64)
        ensures
            value == self.value(),
            MIN <= MAX ==> MIN <= value <= MAX,
    {
        proof {
            use_type_invariant(self);
        }
        self.0
    }

    /// The smallest metric of the range.
    pub fn min_value() -> (metric: Metric<MIN, MAX>)
        ensures
            metric.value() == MIN,
    {
        Metric(MIN)
    }

    /// The largest metric of the range.
    pub fn max_value() -> (metric: Metric<MIN, MAX>)
        requires
            MIN <= MAX,
        ensures
            metric.value() == MAX,
    {
        Metric(MAX)
    }

    /// Whether the two metrics, whatever their ranges, are the same number.
    pub fn same_as<const OTHER_MIN: u64, const OTHER_MAX: u64>(
        &self,
        other: &Metric<OTHER_MIN, OTHER_MAX>,
    ) -> (same: bool)
        ensures
            same == (self.value() == other.value()),
    {
        self.0 == other.get()
    }

    /// Whether this metric is the smaller number of the two, whatever their
    /// ranges.
    pub fn less_than<const OTHER_MIN: u64, const OTHER_MAX: u64>(
        &self,
        other: &Metric<OTHER_MIN, OTHER_MAX>,
    ) -> (less: bool)
        ensures
            less == (self.value() < other.value()),
    {
        self.0 < other.get()
    }
}

impl<const MIN: u64, const MAX: u64> Default for Metric<MIN, MAX> {
    fn default() -> (metric: Metric<MIN, MAX>)
        ensures
            metric.value() == MIN,
    {
        Metric(MIN)
    }
}

impl<const MIN: u64, const MAX: u64> TryFrom<u64> for Metric<MIN, MAX> {
    type Error = ();

    fn try_from(value: u64) -> (metric: Result<Metric<MIN, MAX>, ()>)
        ensures
            metric is Ok <==> MIN <= value <= MAX,
            metric matches Ok(m) ==> m.value() == value,
    {
        if value < MIN || value > MAX {
            Err(())
        } else {
            Ok(Metric(value))
        }
    }
}

impl<const MIN: u64, const MAX: u64> TryFromSpecImpl<u64> for Metric<MIN, MAX> {
    open spec fn obeys_try_from_spec() -> bool {
        true
    }

    closed spec fn try_from_spec(value: u64) -> Result<Metric<MIN, MAX>, ()> {
        if MIN <= value <= MAX {
            Ok(Metric(value))
        } else {
            Err(())
        }
    }
}

} // verus!
