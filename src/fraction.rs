//! Cells of the grid: fractions read as the tangent of an angle.
use vstd::prelude::*;

verus! {

/// One cell: `numerator / denominator`, the tangent of an angle in `[0, pi/2)`
/// when the fraction is proper.
#[derive(Clone, Copy, Debug, PartialEq, Eq, Structural)]
pub struct ProperFraction {
    pub numerator: u64,
    pub denominator: u64,
}

impl ProperFraction {
    /// The fraction as a pair of mathematical integers.
    pub open spec fn pair(&self) -> (int, int) {
        (self.numerator as int, self.denominator as int)
    }
}

/// A line of cells as pairs of integers, in traversal order.
pub open spec fn pairs_of(line: Seq<ProperFraction>) -> Seq<(int, int)> {
    line.map_values(|f: ProperFraction| f.pair())
}

/// Every denominator of the line is positive.
pub open spec fn denominators_positive(line: Seq<ProperFraction>) -> bool {
    forall|i: int| 0 <= i < line.len() ==> line[i].denominator > 0
}

} // verus!
