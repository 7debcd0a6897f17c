//! Exact checks on a square grid of proper fractions read as tangents of
//! first-quadrant angles: every row, column and main diagonal must add up to
//! exactly one full turn, and the numerators and denominators must number the
//! integers from one up to twice the cell count, once each.
use vstd::prelude::*;

pub mod agreement;
pub mod exact;
pub mod fraction;
pub mod grid;
pub mod inventory;
pub mod parse;
pub mod tangent;
pub mod winding;

use crate::grid::{check_grid, grid_passes, GridError};
use crate::parse::{parse_grid, parse_result, ParseError};

verus! {

/// Why a text is refused.
#[derive(Clone, Copy, Debug, PartialEq, Eq, Structural)]
pub enum CheckError {
    /// The text is not a `size` by `size` grid.
    Parse(ParseError),
    /// The grid breaks the numbering rule or an angle sum.
    Grid(GridError),
}

/// The text reads as a `size` by `size` grid that passes every check.
pub open spec fn text_passes(s: Seq<u8>, size: int) -> bool {
    parse_result(s, size) is Ok && grid_passes(parse_result(s, size)->Ok_0)
}

/// Reads a `size` by `size` grid from text and checks it.
pub fn check_text(s: &[u8], size: usize) -> (r: Result<(), CheckError>)
    ensures
        r is Ok <==> text_passes(s@, size as int),
        match r {
            Ok(()) => true,
            Err(CheckError::Parse(e)) => parse_result(s@, size as int) == Err::<
                Seq<Seq<crate::fraction::ProperFraction>>,
                ParseError,
            >(e),
            Err(CheckError::Grid(_)) => parse_result(s@, size as int) is Ok && !grid_passes(
                parse_result(s@, size as int)->Ok_0,
            ),
        },
{
    match parse_grid(s, size) {
        Ok(grid) => match check_grid(&grid) {
            Ok(()) => Ok(()),
            Err(e) => Err(CheckError::Grid(e)),
        },
        Err(e) => Err(CheckError::Parse(e)),
    }
}

/// The verdict depends on the text and the size alone: checking the same
/// input again gives the same answer.
pub proof fn lemma_verdict_repeatable(s1: Seq<u8>, s2: Seq<u8>, size: int)
    requires
        s1 == s2,
    ensures
        text_passes(s1, size) == text_passes(s2, size),
        parse_result(s1, size) == parse_result(s2, size),
{
}

} // verus!
