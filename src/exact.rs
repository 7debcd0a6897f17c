//! Exact arithmetic from `num-bigint`, `num-rational` and `num-complex`,
//! described over mathematical integers.
use vstd::prelude::*;

use num_bigint::BigInt;
use num_complex::Complex;
use num_rational::Ratio;
use num_traits::{One, Signed, Zero};

verus! {

#[verifier::external_type_specification]
#[verifier::external_body]
pub struct ExBigInt(BigInt);

#[verifier::external_type_specification]
#[verifier::external_body]
#[verifier::reject_recursive_types(T)]
pub struct ExRatio<T>(Ratio<T>);

#[verifier::external_type_specification]
#[verifier::external_body]
#[verifier::reject_recursive_types(T)]
pub struct ExComplex<T>(Complex<T>);

/// The integer that a `BigInt` holds.
pub uninterp spec fn big_value(b: BigInt) -> int;

/// The numerator and the denominator that a `Ratio<BigInt>` holds.
pub uninterp spec fn ratio_parts(r: Ratio<BigInt>) -> (int, int);

/// The real and the imaginary part that a `Complex<BigInt>` holds.
pub uninterp spec fn complex_parts(z: Complex<BigInt>) -> (int, int);

/// Two fractions given as (numerator, denominator) with nonzero denominators
/// stand for the same rational number.
pub open spec fn same_ratio(a: (int, int), b: (int, int)) -> bool {
    a.0 * b.1 == b.0 * a.1
}

/// A fraction with a positive denominator.
pub open spec fn positive_den(a: (int, int)) -> bool {
    a.1 > 0
}

/// Gaussian-integer product.
pub open spec fn gauss_mul(z: (int, int), w: (int, int)) -> (int, int) {
    (z.0 * w.0 - z.1 * w.1, z.0 * w.1 + z.1 * w.0)
}

/// Relies on `From<u64> for BigInt`: the same integer.
#[verifier::external_body]
pub(crate) fn big_from_u64(v: u64) -> (r: BigInt)
    ensures
        big_value(r) == v as int,
{
    BigInt::from(v)
}

/// Relies on `Signed::is_positive` for `BigInt`.
#[verifier::external_body]
pub(crate) fn big_is_positive(b: &BigInt) -> (r: bool)
    ensures
        r == (big_value(*b) > 0),
{
    b.is_positive()
}

/// Relies on `Signed::is_negative` for `BigInt`.
#[verifier::external_body]
pub(crate) fn big_is_negative(b: &BigInt) -> (r: bool)
    ensures
        r == (big_value(*b) < 0),
{
    b.is_negative()
}

/// Relies on `Zero::is_zero` for `BigInt`.
#[verifier::external_body]
pub(crate) fn big_is_zero(b: &BigInt) -> (r: bool)
    ensures
        r == (big_value(*b) == 0),
{
    b.is_zero()
}

/// Relies on `Ratio::new`: the fraction `numer / denom`, reduced, with a
/// positive denominator. It panics on a zero denominator.
#[verifier::external_body]
pub(crate) fn ratio_new(numer: BigInt, denom: BigInt) -> (r: Ratio<BigInt>)
    requires
        big_value(denom) != 0,
    ensures
        positive_den(ratio_parts(r)),
        same_ratio(ratio_parts(r), (big_value(numer), big_value(denom))),
{
    Ratio::new(numer, denom)
}

/// Relies on `Zero::zero` for `Ratio`: numerator 0 over denominator 1.
#[verifier::external_body]
pub(crate) fn ratio_zero() -> (r: Ratio<BigInt>)
    ensures
        ratio_parts(r) == (0int, 1int),
{
    Ratio::zero()
}

/// Relies on `One::one` for `Ratio`: numerator 1 over denominator 1.
#[verifier::external_body]
pub(crate) fn ratio_one() -> (r: Ratio<BigInt>)
    ensures
        ratio_parts(r) == (1int, 1int),
{
    Ratio::one()
}

/// Relies on `Mul` for `&Ratio`: the exact product.
#[verifier::external_body]
pub(crate) fn ratio_mul(a: &Ratio<BigInt>, b: &Ratio<BigInt>) -> (r: Ratio<BigInt>)
    requires
        positive_den(ratio_parts(*a)),
        positive_den(ratio_parts(*b)),
    ensures
        positive_den(ratio_parts(r)),
        same_ratio(
            ratio_parts(r),
            (ratio_parts(*a).0 * ratio_parts(*b).0, ratio_parts(*a).1 * ratio_parts(*b).1),
        ),
{
    a * b
}

/// Relies on `Add` for `&Ratio`: the exact sum.
#[verifier::external_body]
pub(crate) fn ratio_add(a: &Ratio<BigInt>, b: &Ratio<BigInt>) -> (r: Ratio<BigInt>)
    requires
        positive_den(ratio_parts(*a)),
        positive_den(ratio_parts(*b)),
    ensures
        positive_den(ratio_parts(r)),
        same_ratio(
            ratio_parts(r),
            (
                ratio_parts(*a).0 * ratio_parts(*b).1 + ratio_parts(*b).0 * ratio_parts(*a).1,
                ratio_parts(*a).1 * ratio_parts(*b).1,
            ),
        ),
{
    a + b
}

/// Relies on `Sub` for `&Ratio`: the exact difference.
#[verifier::external_body]
pub(crate) fn ratio_sub(a: &Ratio<BigInt>, b: &Ratio<BigInt>) -> (r: Ratio<BigInt>)
    requires
        positive_den(ratio_parts(*a)),
        positive_den(ratio_parts(*b)),
    ensures
        positive_den(ratio_parts(r)),
        same_ratio(
            ratio_parts(r),
            (
                ratio_parts(*a).0 * ratio_parts(*b).1 - ratio_parts(*b).0 * ratio_parts(*a).1,
                ratio_parts(*a).1 * ratio_parts(*b).1,
            ),
        ),
{
    a - b
}

/// Relies on `Div` for `&Ratio`: the exact quotient. It panics on a zero
/// divisor.
#[verifier::external_body]
pub(crate) fn ratio_div(a: &Ratio<BigInt>, b: &Ratio<BigInt>) -> (r: Ratio<BigInt>)
    requires
        positive_den(ratio_parts(*a)),
        positive_den(ratio_parts(*b)),
        ratio_parts(*b).0 != 0,
    ensures
        positive_den(ratio_parts(r)),
        same_ratio(
            ratio_parts(r),
            (ratio_parts(*a).0 * ratio_parts(*b).1, ratio_parts(*a).1 * ratio_parts(*b).0),
        ),
{
    a / b
}

/// Relies on `Ratio::recip`: the reciprocal, with a positive denominator. It
/// panics on zero.
#[verifier::external_body]
pub(crate) fn ratio_recip(a: &Ratio<BigInt>) -> (r: Ratio<BigInt>)
    requires
        positive_den(ratio_parts(*a)),
        ratio_parts(*a).0 != 0,
    ensures
        positive_den(ratio_parts(r)),
        same_ratio(ratio_parts(r), (ratio_parts(*a).1, ratio_parts(*a).0)),
{
    a.recip()
}

/// Relies on `Neg` for `Ratio`: the numerator negated, the denominator kept.
#[verifier::external_body]
pub(crate) fn ratio_neg(a: Ratio<BigInt>) -> (r: Ratio<BigInt>)
    ensures
        ratio_parts(r) == (-ratio_parts(a).0, ratio_parts(a).1),
{
    -a
}

/// Relies on `PartialEq` for `Ratio`: equality of the rational values.
#[verifier::external_body]
pub(crate) fn ratio_eq(a: &Ratio<BigInt>, b: &Ratio<BigInt>) -> (r: bool)
    requires
        positive_den(ratio_parts(*a)),
        positive_den(ratio_parts(*b)),
    ensures
        r == same_ratio(ratio_parts(*a), ratio_parts(*b)),
{
    a == b
}

/// Relies on `Signed::is_negative` for `Ratio`: numerator and denominator of
/// opposite signs.
#[verifier::external_body]
pub(crate) fn ratio_is_negative(a: &Ratio<BigInt>) -> (r: bool)
    requires
        positive_den(ratio_parts(*a)),
    ensures
        r == (ratio_parts(*a).0 < 0),
{
    a.is_negative()
}

/// Relies on `Zero::is_zero` for `Ratio`: a zero numerator.
#[verifier::external_body]
pub(crate) fn ratio_is_zero(a: &Ratio<BigInt>) -> (r: bool)
    ensures
        r == (ratio_parts(*a).0 == 0),
{
    a.is_zero()
}

/// Relies on `Complex::new`: the given real and imaginary parts.
#[verifier::external_body]
pub(crate) fn complex_new(re: BigInt, im: BigInt) -> (r: Complex<BigInt>)
    ensures
        complex_parts(r) == (big_value(re), big_value(im)),
{
    Complex::new(re, im)
}

/// Relies on `One::one` for `Complex`: real part 1, imaginary part 0.
#[verifier::external_body]
pub(crate) fn complex_one() -> (r: Complex<BigInt>)
    ensures
        complex_parts(r) == (1int, 0int),
{
    Complex::one()
}

/// Relies on `MulAssign<&Complex>` for `Complex`: the Gaussian-integer product.
#[verifier::external_body]
pub(crate) fn complex_mul_assign(z: &mut Complex<BigInt>, w: &Complex<BigInt>)
    ensures
        complex_parts(*final(z)) == gauss_mul(complex_parts(*old(z)), complex_parts(*w)),
{
    *z *= w;
}

/// Relies on the public field `Complex::re`.
#[verifier::external_body]
pub(crate) fn complex_re(z: &Complex<BigInt>) -> (r: &BigInt)
    ensures
        big_value(*r) == complex_parts(*z).0,
{
    &z.re
}

/// Relies on the public field `Complex::im`.
#[verifier::external_body]
pub(crate) fn complex_im(z: &Complex<BigInt>) -> (r: &BigInt)
    ensures
        big_value(*r) == complex_parts(*z).1,
{
    &z.im
}

} // verus!
