//! The tangent-addition check: an angle kept as a count of quarter turns and
//! the tangent of what is left over.
use vstd::prelude::*;

use num_bigint::BigInt;
use num_rational::Ratio;

use crate::exact::{
    big_from_u64, positive_den, ratio_add, ratio_div, ratio_eq, ratio_is_negative, ratio_is_zero,
    ratio_mul, ratio_neg, ratio_new, ratio_one, ratio_parts, ratio_recip, ratio_sub, ratio_zero,
    same_ratio,
};
use crate::fraction::{denominators_positive, pairs_of, ProperFraction};

verus! {

/// One step of the recurrence. The state `(n, (p, q))` stands for the angle
/// `n * pi/2 + atan(p/q)`, and `(a, b)` for `atan(a/b)`. With `x = p/q` and
/// `y = a/b`: when `x * y == 1` the two angles make a quarter turn; otherwise
/// `tan(atan(x) + atan(y)) = (x + y) / (1 - x * y) = (p*b + a*q) / (q*b - p*a)`,
/// kept when it is not negative, and turned into `-1 / t` past one more quarter
/// turn when it is.
pub open spec fn tan_step(st: (nat, (int, int)), y: (int, int)) -> (nat, (int, int)) {
    let n = st.0;
    let p = st.1.0;
    let q = st.1.1;
    let a = y.0;
    let b = y.1;
    if p * a == q * b {
        ((n + 1) as nat, (0int, 1int))
    } else if q * b - p * a > 0 {
        (n, (p * b + a * q, q * b - p * a))
    } else {
        ((n + 1) as nat, (p * a - q * b, p * b + a * q))
    }
}

/// The state after adding the angles of `ys` to zero, left to right.
pub open spec fn tan_fold(ys: Seq<(int, int)>) -> (nat, (int, int))
    decreases ys.len(),
{
    if ys.len() == 0 {
        (0, (0int, 1int))
    } else {
        tan_step(tan_fold(ys.drop_last()), ys.last())
    }
}

/// The state is exactly one full turn: four quarter turns and nothing left.
pub open spec fn is_full_turn(st: (nat, (int, int))) -> bool {
    st.0 == 4 && st.1.0 == 0
}

/// The tangent-addition check accepts the line.
pub open spec fn tangent_passes(ys: Seq<(int, int)>) -> bool {
    is_full_turn(tan_fold(ys))
}

/// A nonnegative fraction with a positive denominator.
pub open spec fn nonneg_frac(x: (int, int)) -> bool {
    x.0 >= 0 && x.1 > 0
}

/// Writing a rational number two ways is transitive.
pub proof fn lemma_same_ratio_trans(a: (int, int), b: (int, int), c: (int, int))
    requires
        a.1 > 0,
        b.1 > 0,
        c.1 > 0,
        same_ratio(a, b),
        same_ratio(b, c),
    ensures
        same_ratio(a, c),
{
    let (an, ad) = a;
    let (bn, bd) = b;
    let (cn, cd) = c;
    assert(an * cd == cn * ad) by (nonlinear_arith)
        requires
            an * bd == bn * ad,
            bn * cd == cn * bd,
            bd > 0,
    ;
}

/// The step moves only by whole quarter turns and keeps the residual a
/// nonnegative fraction.
pub proof fn lemma_step_nonneg(st: (nat, (int, int)), y: (int, int))
    requires
        nonneg_frac(st.1),
        nonneg_frac(y),
    ensures
        nonneg_frac(tan_step(st, y).1),
        tan_step(st, y).0 == st.0 || tan_step(st, y).0 == st.0 + 1,
{
    let (p, q) = st.1;
    let (a, b) = y;
    assert(p * b + a * q >= 0 && q * b > 0 && p * a >= 0) by (nonlinear_arith)
        requires
            p >= 0,
            q > 0,
            a >= 0,
            b > 0,
    ;
    if !(p * a == q * b) && !(q * b - p * a > 0) {
        assert(p * b + a * q > 0) by (nonlinear_arith)
            requires
                p >= 0,
                q > 0,
                a >= 0,
                b > 0,
                p * a > q * b,
        ;
    }
}

/// The step depends on the rational values alone, not on how they are written.
pub proof fn lemma_step_congruent(
    st: (nat, (int, int)),
    st2: (nat, (int, int)),
    y: (int, int),
    y2: (int, int),
)
    requires
        st.0 == st2.0,
        nonneg_frac(st.1),
        nonneg_frac(st2.1),
        nonneg_frac(y),
        nonneg_frac(y2),
        same_ratio(st.1, st2.1),
        same_ratio(y, y2),
    ensures
        tan_step(st, y).0 == tan_step(st2, y2).0,
        same_ratio(tan_step(st, y).1, tan_step(st2, y2).1),
{
    let (p, q) = st.1;
    let (p2, q2) = st2.1;
    let (a, b) = y;
    let (a2, b2) = y2;
    let e = q * b - p * a;
    let e2 = q2 * b2 - p2 * a2;
    let m = p * b + a * q;
    let m2 = p2 * b2 + a2 * q2;
    let s = q * b;
    let s2 = q2 * b2;
    assert(s > 0 && s2 > 0) by (nonlinear_arith)
        requires
            q > 0,
            b > 0,
            q2 > 0,
            b2 > 0,
            s == q * b,
            s2 == q2 * b2,
    ;
    assert((p2 * a2) * (q * b) == (p * a) * (q2 * b2)) by (nonlinear_arith)
        requires
            p * q2 == p2 * q,
            a * b2 == a2 * b,
    ;
    assert(e2 * s == s2 * e) by (nonlinear_arith)
        requires
            (p2 * a2) * (q * b) == (p * a) * (q2 * b2),
            e == q * b - p * a,
            e2 == q2 * b2 - p2 * a2,
            s == q * b,
            s2 == q2 * b2,
    ;
    assert((p2 * b2) * (q * b) == (p * b) * (q2 * b2)) by (nonlinear_arith)
        requires
            p * q2 == p2 * q,
    ;
    assert((a2 * q2) * (q * b) == (a * q) * (q2 * b2)) by (nonlinear_arith)
        requires
            a * b2 == a2 * b,
    ;
    assert(m2 * s == s2 * m) by (nonlinear_arith)
        requires
            (p2 * b2) * (q * b) == (p * b) * (q2 * b2),
            (a2 * q2) * (q * b) == (a * q) * (q2 * b2),
            m == p * b + a * q,
            m2 == p2 * b2 + a2 * q2,
            s == q * b,
            s2 == q2 * b2,
    ;
    assert((e > 0) == (e2 > 0) && (e == 0) == (e2 == 0)) by (nonlinear_arith)
        requires
            e2 * s == s2 * e,
            s > 0,
            s2 > 0,
    ;
    assert(m * e2 == m2 * e && (-e) * m2 == (-e2) * m) by (nonlinear_arith)
        requires
            e2 * s == s2 * e,
            m2 * s == s2 * m,
            s > 0,
            s2 > 0,
    ;
    assert(p * a - q * b == -e && p2 * a2 - q2 * b2 == -e2);
}

/// Running sum of angles `n * pi/2 + atan(x)`.
pub struct AtanSum {
    /// Whole quarter turns.
    pub n: u64,
    /// Tangent of the rest of the angle, which lies in `[0, pi/2)`.
    pub x: Ratio<BigInt>,
}

impl AtanSum {
    /// The residual is a nonnegative fraction with a positive denominator.
    pub open spec fn wf(&self) -> bool {
        nonneg_frac(ratio_parts(self.x))
    }

    /// The state as quarter turns and residual fraction.
    pub open spec fn state(&self) -> (nat, (int, int)) {
        (self.n as nat, ratio_parts(self.x))
    }

    /// The sum of no angles.
    pub fn new() -> (r: Self)
        ensures
            r.wf(),
            r.state() == (0nat, (0int, 1int)),
    {
        AtanSum::default()
    }

    /// Whether the sum is exactly one full turn.
    pub fn is_tau(&self) -> (r: bool)
        ensures
            r == is_full_turn(self.state()),
    {
        self.n == 4 && ratio_is_zero(&self.x)
    }

    /// Adds `atan(y)` for a nonnegative `y`.
    pub fn add(&mut self, y: Ratio<BigInt>)
        requires
            old(self).wf(),
            nonneg_frac(ratio_parts(y)),
            old(self).n < u64::MAX,
        ensures
            final(self).wf(),
            final(self).n == tan_step(old(self).state(), ratio_parts(y)).0,
            same_ratio(ratio_parts(final(self).x), tan_step(old(self).state(), ratio_parts(y)).1),
    {
        let ghost (xn, xd) = ratio_parts(self.x);
        let ghost (yn, yd) = ratio_parts(y);
        let ghost k = xn * yn;
        let ghost m = xd * yd;
        let ghost big_n = xn * yd + yn * xd;
        proof {
            assert(m > 0 && k >= 0 && big_n >= 0) by (nonlinear_arith)
                requires
                    xn >= 0,
                    xd > 0,
                    yn >= 0,
                    yd > 0,
                    k == xn * yn,
                    m == xd * yd,
                    big_n == xn * yd + yn * xd,
            ;
        }
        let prod = ratio_mul(&self.x, &y);
        let one = ratio_one();
        let ghost (pn, pd) = ratio_parts(prod);
        proof {
            assert((pn == pd) == (k == m)) by (nonlinear_arith)
                requires
                    pd > 0,
                    m > 0,
                    pn * m == k * pd,
            ;
        }
        if ratio_eq(&prod, &one) {
            self.n = self.n + 1;
            self.x = ratio_zero();
            return;
        }
        let ghost e = m - k;
        let sum = ratio_add(&self.x, &y);
        let diff = ratio_sub(&one, &prod);
        let ghost (sn, sd) = ratio_parts(sum);
        let ghost (dn, dd) = ratio_parts(diff);
        proof {
            assert(dn * m == e * dd) by (nonlinear_arith)
                requires
                    pd > 0,
                    dd > 0,
                    pn * m == k * pd,
                    dn * pd == (pd - pn) * dd,
                    e == m - k,
            ;
            assert(dn != 0) by (nonlinear_arith)
                requires
                    dn * m == e * dd,
                    m > 0,
                    dd > 0,
                    e != 0,
            ;
        }
        let tan_add = ratio_div(&sum, &diff);
        let ghost (tn, td) = ratio_parts(tan_add);
        proof {
            assert(tn * e == big_n * td) by (nonlinear_arith)
                requires
                    sd > 0,
                    dd > 0,
                    m > 0,
                    td > 0,
                    sn * m == big_n * sd,
                    dn * m == e * dd,
                    tn * (sd * dn) == (sn * dd) * td,
            ;
            assert(e < 0 ==> big_n > 0) by (nonlinear_arith)
                requires
                    xn >= 0,
                    xd > 0,
                    yn >= 0,
                    yd > 0,
                    k == xn * yn,
                    m == xd * yd,
                    e == m - k,
                    big_n == xn * yd + yn * xd,
            ;
            assert((tn < 0) == (e < 0)) by (nonlinear_arith)
                requires
                    tn * e == big_n * td,
                    big_n >= 0,
                    e < 0 ==> big_n > 0,
                    e != 0,
                    td > 0,
            ;
        }
        if ratio_is_negative(&tan_add) {
            let r = ratio_recip(&tan_add);
            let ghost (rn, rd) = ratio_parts(r);
            proof {
                assert(rn * big_n == e * rd && rn < 0) by (nonlinear_arith)
                    requires
                        rn * tn == td * rd,
                        tn * e == big_n * td,
                        td > 0,
                        rd > 0,
                        big_n > 0,
                        e < 0,
                ;
            }
            proof {
                assert((-rn) * big_n == (k - m) * rd) by (nonlinear_arith)
                    requires
                        rn * big_n == e * rd,
                        e == m - k,
                ;
            }
            self.n = self.n + 1;
            self.x = ratio_neg(r);
        } else {
            proof {
                assert(tn >= 0);
            }
            self.x = tan_add;
        }
    }
}

impl Default for AtanSum {
    fn default() -> (r: Self)
        ensures
            r.wf(),
            r.state() == (0nat, (0int, 1int)),
    {
        AtanSum { n: 0, x: ratio_zero() }
    }
}

/// Adding angles of tangent zero leaves the sum at zero: a line of zero
/// fractions makes no quarter turn and is refused.
pub proof fn lemma_zero_line_refused(ys: Seq<(int, int)>)
    requires
        forall|i: int| 0 <= i < ys.len() ==> (#[trigger] ys[i]).0 == 0 && ys[i].1 > 0,
    ensures
        tan_fold(ys).0 == 0,
        tan_fold(ys).1.0 == 0,
        tan_fold(ys).1.1 > 0,
        !tangent_passes(ys),
    decreases ys.len(),
{
    if ys.len() > 0 {
        lemma_zero_line_refused(ys.drop_last());
        let q = tan_fold(ys.drop_last()).1.1;
        let b = ys.last().1;
        assert(q * b > 0) by (nonlinear_arith)
            requires
                q > 0,
                b > 0,
        ;
    }
}

/// The tangent-addition check of one line: starting from zero, add the angle
/// of each fraction in order, and accept when the sum is exactly one full turn.
pub fn tangent_check(line: &Vec<ProperFraction>) -> (r: bool)
    requires
        denominators_positive(line@),
    ensures
        r == tangent_passes(pairs_of(line@)),
{
    let ghost ys = pairs_of(line@);
    let mut sum = AtanSum::new();
    let mut i: usize = 0;
    while i < line.len()
        invariant
            0 <= i <= line.len(),
            ys == pairs_of(line@),
            denominators_positive(line@),
            sum.wf(),
            sum.n as nat == tan_fold(ys.take(i as int)).0,
            sum.n <= i,
            nonneg_frac(tan_fold(ys.take(i as int)).1),
            same_ratio(ratio_parts(sum.x), tan_fold(ys.take(i as int)).1),
        decreases line.len() - i,
    {
        let f = line[i];
        let y = ratio_new(big_from_u64(f.numerator), big_from_u64(f.denominator));
        proof {
            let (yn, yd) = ratio_parts(y);
            let num = f.numerator as int;
            let den = f.denominator as int;
            assert(yn >= 0) by (nonlinear_arith)
                requires
                    yn * den == num * yd,
                    yd > 0,
                    den > 0,
                    num >= 0,
            ;
            let prev = ys.take(i as int);
            let next = ys.take(i as int + 1);
            assert(next.drop_last() =~= prev);
            assert(next.last() == f.pair());
            lemma_step_nonneg(tan_fold(prev), f.pair());
            lemma_step_congruent(sum.state(), tan_fold(prev), ratio_parts(y), f.pair());
        }
        let ghost before = sum.state();
        sum.add(y);
        proof {
            let prev = ys.take(i as int);
            let next = ys.take(i as int + 1);
            lemma_step_nonneg(before, ratio_parts(y));
            lemma_same_ratio_trans(
                ratio_parts(sum.x),
                tan_step(before, ratio_parts(y)).1,
                tan_fold(next).1,
            );
        }
        i = i + 1;
    }
    proof {
        assert(ys.take(line.len() as int) =~= ys);
        let (xn, xd) = ratio_parts(sum.x);
        let (p, q) = tan_fold(ys).1;
        assert((xn == 0) == (p == 0)) by (nonlinear_arith)
            requires
                xn * q == p * xd,
                xd > 0,
                q > 0,
        ;
    }
    sum.is_tau()
}

} // verus!
