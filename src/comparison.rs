//! Comparison operators used by reroll and keep rules.
use vstd::prelude::*;

verus! {

/// A comparison of a die value against a threshold.
#[derive(Clone, Copy, Debug, PartialEq, Eq, Structural)]
pub enum ComparisonArg {
    GreaterThan,
    GreaterThanOrEqual,
    LessThan,
    LessThanOrEqual,
    EqualTo,
}

impl ComparisonArg {
    /// Whether `value` stands in this relation to `threshold`.
    pub open spec fn holds(self, value: int, threshold: int) -> bool {
        match self {
            ComparisonArg::GreaterThan => value > threshold,
            ComparisonArg::GreaterThanOrEqual => value >= threshold,
            ComparisonArg::LessThan => value < threshold,
            ComparisonArg::LessThanOrEqual => value <= threshold,
            ComparisonArg::EqualTo => value == threshold,
        }
    }

    /// Evaluates the comparison on concrete values.
    pub fn compare(&self, value: i16, threshold: i16) -> (r: bool)
        ensures
            r == self.holds(value as int, threshold as int),
    {
        match self {
            ComparisonArg::GreaterThan => value > threshold,
            ComparisonArg::GreaterThanOrEqual => value >= threshold,
            ComparisonArg::LessThan => value < threshold,
            ComparisonArg::LessThanOrEqual => value <= threshold,
            ComparisonArg::EqualTo => value == threshold,
        }
    }
}

} // verus!
