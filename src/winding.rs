//! The winding check: multiply the Gaussian integers `d + n i` of a line's
//! fractions `n / d`, whose arguments add up, and look at the product.
use vstd::prelude::*;

use crate::exact::{
    big_from_u64, big_is_negative, big_is_positive, big_is_zero, complex_im, complex_mul_assign,
    complex_new, complex_one, complex_parts, complex_re, gauss_mul,
};
use crate::fraction::{pairs_of, ProperFraction};

verus! {

/// The Gaussian integer `den + num i` of a fraction `(num, den)`: its argument
/// is `atan(num / den)`.
pub open spec fn gaussian_of(f: (int, int)) -> (int, int) {
    (f.1, f.0)
}

/// The product of the Gaussian integers of the first `k` fractions of `ys`.
pub open spec fn prefix_product(ys: Seq<(int, int)>, k: int) -> (int, int)
    decreases k,
{
    if k <= 0 {
        (1int, 0int)
    } else {
        gauss_mul(prefix_product(ys, k - 1), gaussian_of(ys[k - 1]))
    }
}

/// Strictly inside the fourth quadrant: argument in `(3pi/2, 2pi)`.
pub open spec fn in_open_fourth(z: (int, int)) -> bool {
    z.0 > 0 && z.1 < 0
}

/// Strictly inside the first quadrant: argument in `(0, pi/2)`.
pub open spec fn in_open_first(z: (int, int)) -> bool {
    z.0 > 0 && z.1 > 0
}

/// On a positive real number: argument a whole number of turns.
pub open spec fn on_positive_real(z: (int, int)) -> bool {
    z.0 > 0 && z.1 == 0
}

/// Multiplying by the `k`-th Gaussian integer carries the product from the
/// open fourth quadrant into the open first one: the running angle wraps past
/// a full turn within that step.
pub open spec fn overrun_at(ys: Seq<(int, int)>, k: int) -> bool {
    in_open_fourth(prefix_product(ys, k)) && in_open_first(prefix_product(ys, k + 1))
}

/// No step before the `k`-th wraps past a full turn.
pub open spec fn no_overrun_before(ys: Seq<(int, int)>, k: int) -> bool {
    forall|j: int| 0 <= j < k ==> !overrun_at(ys, j)
}

/// The winding check accepts the line: no step wraps, and the whole product
/// is a positive real number.
pub open spec fn winding_passes(ys: Seq<(int, int)>) -> bool {
    no_overrun_before(ys, ys.len() as int) && on_positive_real(prefix_product(ys, ys.len() as int))
}

/// Why the winding check refuses a line.
#[derive(Clone, Copy, Debug, PartialEq, Eq, Structural)]
pub enum WindingError {
    /// The product of the whole line is not a positive real number.
    AngleMismatch,
    /// Multiplying by the fraction at this position wrapped past a full turn.
    WindingOverrun { step: usize },
}

/// The winding check of one line, stopping at the first step that wraps.
pub fn winding_check(line: &Vec<ProperFraction>) -> (r: Result<(), WindingError>)
    ensures
        r is Ok <==> winding_passes(pairs_of(line@)),
        match r {
            Ok(()) => true,
            Err(WindingError::WindingOverrun { step }) => step < line@.len() && overrun_at(
                pairs_of(line@),
                step as int,
            ) && no_overrun_before(pairs_of(line@), step as int),
            Err(WindingError::AngleMismatch) => no_overrun_before(
                pairs_of(line@),
                line@.len() as int,
            ) && !on_positive_real(prefix_product(pairs_of(line@), line@.len() as int)),
        },
{
    let ghost ys = pairs_of(line@);
    let mut prod = complex_one();
    let mut i: usize = 0;
    while i < line.len()
        invariant
            0 <= i <= line.len(),
            ys == pairs_of(line@),
            complex_parts(prod) == prefix_product(ys, i as int),
            no_overrun_before(ys, i as int),
        decreases line.len() - i,
    {
        let f = line[i];
        let w = complex_new(big_from_u64(f.denominator), big_from_u64(f.numerator));
        let fourth_before = big_is_positive(complex_re(&prod)) && big_is_negative(
            complex_im(&prod),
        );
        complex_mul_assign(&mut prod, &w);
        let first_after = big_is_positive(complex_re(&prod)) && big_is_positive(complex_im(&prod));
        assert(gaussian_of(ys[i as int]) == complex_parts(w));
        if fourth_before && first_after {
            assert(overrun_at(ys, i as int));
            assert(!no_overrun_before(ys, ys.len() as int));
            return Err(WindingError::WindingOverrun { step: i });
        }
        i = i + 1;
    }
    if big_is_positive(complex_re(&prod)) && big_is_zero(complex_im(&prod)) {
        Ok(())
    } else {
        Err(WindingError::AngleMismatch)
    }
}

} // verus!
