//! Why the two angle checks agree: the tangent-addition state `(n, p/q)` and
//! the running Gaussian product point the same way, `i^n (q + p i)` being a
//! positive multiple of the product at every step.
use vstd::prelude::*;

use crate::exact::gauss_mul;
use crate::tangent::{lemma_step_nonneg, nonneg_frac, tan_fold, tan_step, tangent_passes};
use crate::winding::{
    gaussian_of, in_open_first, in_open_fourth, no_overrun_before, on_positive_real, overrun_at,
    prefix_product, winding_passes,
};

verus! {

/// Multiplication by `i`.
pub open spec fn quarter_turn(v: (int, int)) -> (int, int) {
    (-v.1, v.0)
}

/// Multiplication by `i^n`.
pub open spec fn turned(n: nat, v: (int, int)) -> (int, int)
    decreases n,
{
    if n == 0 {
        v
    } else {
        quarter_turn(turned((n - 1) as nat, v))
    }
}

/// The Gaussian number `i^n (q + p i)` whose argument is the angle
/// `n * pi/2 + atan(p/q)` that a tangent-addition state stands for.
pub open spec fn state_vector(st: (nat, (int, int))) -> (int, int) {
    turned(st.0, (st.1.1, st.1.0))
}

/// `z` is a positive real multiple of `w`.
pub open spec fn same_direction(z: (int, int), w: (int, int)) -> bool {
    z.0 * w.1 == z.1 * w.0 && z.0 * w.0 + z.1 * w.1 > 0
}

/// The fractions of a line are nonnegative with positive denominators.
pub open spec fn all_nonneg(ys: Seq<(int, int)>) -> bool {
    forall|i: int| 0 <= i < ys.len() ==> nonneg_frac(#[trigger] ys[i])
}

proof fn lemma_turned_mul(n: nat, v: (int, int), g: (int, int))
    ensures
        gauss_mul(turned(n, v), g) == turned(n, gauss_mul(v, g)),
    decreases n,
{
    if n > 0 {
        lemma_turned_mul((n - 1) as nat, v, g);
        let t = turned((n - 1) as nat, v);
        assert(gauss_mul(quarter_turn(t), g) == quarter_turn(gauss_mul(t, g))) by (nonlinear_arith);
    }
}

proof fn lemma_turned_shift(n: nat, v: (int, int))
    ensures
        turned(n + 1, v) == turned(n, quarter_turn(v)),
    decreases n,
{
    assert(turned(n + 1, v) == quarter_turn(turned(n, v)));
    if n > 0 {
        lemma_turned_shift((n - 1) as nat, v);
        assert(turned(n, quarter_turn(v)) == quarter_turn(
            turned((n - 1) as nat, quarter_turn(v)),
        ));
    } else {
        assert(turned(0, v) == v);
        assert(turned(0, quarter_turn(v)) == quarter_turn(v));
    }
}

proof fn lemma_turned_scale(n: nat, v: (int, int), c: int)
    ensures
        turned(n, (c * v.0, c * v.1)) == (c * turned(n, v).0, c * turned(n, v).1),
    decreases n,
{
    if n > 0 {
        lemma_turned_scale((n - 1) as nat, v, c);
        let t = turned((n - 1) as nat, v);
        assert(-(c * t.1) == c * (-t.1)) by (nonlinear_arith);
    }
}

proof fn lemma_turned_mod(n: nat, v: (int, int))
    ensures
        turned(n, v) == (if n % 4 == 0 {
            v
        } else if n % 4 == 1 {
            (-v.1, v.0)
        } else if n % 4 == 2 {
            (-v.0, -v.1)
        } else {
            (v.1, -v.0)
        }),
    decreases n,
{
    if n > 0 {
        lemma_turned_mod((n - 1) as nat, v);
    }
}

proof fn lemma_expand(a: int, b: int, c: int, d: int)
    ensures
        (a - b) * (c + d) == a * c + a * d - b * c - b * d,
        (a + b) * (c - d) == a * c - a * d + b * c - b * d,
        (a - b) * (c - d) == a * c - a * d - b * c + b * d,
        (a + b) * (c + d) == a * c + a * d + b * c + b * d,
{
    assert((a - b) * (c + d) == a * c + a * d - b * c - b * d) by (nonlinear_arith);
    assert((a + b) * (c - d) == a * c - a * d + b * c - b * d) by (nonlinear_arith);
    assert((a - b) * (c - d) == a * c - a * d - b * c + b * d) by (nonlinear_arith);
    assert((a + b) * (c + d) == a * c + a * d + b * c + b * d) by (nonlinear_arith);
}

proof fn lemma_regroup(x: int, y: int, u: int, v: int)
    ensures
        (x * y) * (u * v) == (x * u) * (y * v),
{
    assert((x * y) * (u * v) == (x * u) * (y * v)) by (nonlinear_arith);
}

proof fn lemma_swap(x: int, y: int)
    ensures
        x * y == y * x,
{
}

proof fn lemma_direction_mul(z: (int, int), w: (int, int), g: (int, int))
    requires
        same_direction(z, w),
        g.0 > 0,
    ensures
        same_direction(gauss_mul(z, g), gauss_mul(w, g)),
{
    let (z0, z1) = z;
    let (w0, w1) = w;
    let (g0, g1) = g;
    let a0 = z0 * g0 - z1 * g1;
    let a1 = z0 * g1 + z1 * g0;
    let b0 = w0 * g0 - w1 * g1;
    let b1 = w0 * g1 + w1 * g0;
    let m = g0 * g0 + g1 * g1;
    assert(m > 0) by (nonlinear_arith)
        requires
            g0 > 0,
            m == g0 * g0 + g1 * g1,
    ;
    lemma_expand(z0 * g0, z1 * g1, w0 * g1, w1 * g0);
    lemma_expand(z0 * g1, z1 * g0, w0 * g0, w1 * g1);
    lemma_expand(z0 * g0, z1 * g1, w0 * g0, w1 * g1);
    lemma_expand(z0 * g1, z1 * g0, w0 * g1, w1 * g0);
    lemma_expand(g0 * g0, g1 * g1, z0 * w1, z1 * w0);
    lemma_expand(g0 * g0, g1 * g1, z0 * w0, z1 * w1);
    lemma_regroup(z0, g0, w1, g1);
    lemma_regroup(z1, g1, w0, g0);
    lemma_regroup(z0, g1, w1, g0);
    lemma_regroup(z1, g0, w0, g1);
    lemma_regroup(z0, g0, w0, g1);
    lemma_regroup(z0, g0, w1, g0);
    lemma_regroup(z1, g1, w0, g1);
    lemma_regroup(z1, g1, w1, g0);
    lemma_regroup(z0, g1, w0, g0);
    lemma_regroup(z0, g1, w1, g1);
    lemma_regroup(z1, g0, w0, g0);
    lemma_regroup(z1, g0, w1, g1);
    lemma_regroup(z0, g0, w0, g0);
    lemma_regroup(z1, g1, w1, g1);
    lemma_regroup(z0, g1, w0, g1);
    lemma_regroup(z1, g0, w1, g0);
    lemma_swap(g0, g1);
    lemma_swap(g0 * g0, z0 * w1);
    lemma_swap(g1 * g1, z0 * w1);
    lemma_swap(g0 * g0, z1 * w0);
    lemma_swap(g1 * g1, z1 * w0);
    lemma_swap(g0 * g0, z0 * w0);
    lemma_swap(g1 * g1, z0 * w0);
    lemma_swap(g0 * g0, z1 * w1);
    lemma_swap(g1 * g1, z1 * w1);
    assert(a0 * b1 - a1 * b0 == m * (z0 * w1 - z1 * w0));
    assert(a0 * b0 + a1 * b1 == m * (z0 * w0 + z1 * w1));
    assert(a0 * b1 == a1 * b0 && a0 * b0 + a1 * b1 > 0) by (nonlinear_arith)
        requires
            a0 * b1 - a1 * b0 == m * (z0 * w1 - z1 * w0),
            a0 * b0 + a1 * b1 == m * (z0 * w0 + z1 * w1),
            z0 * w1 == z1 * w0,
            z0 * w0 + z1 * w1 > 0,
            m > 0,
    ;
}

proof fn lemma_direction_unscale(z: (int, int), w: (int, int), c: int)
    requires
        same_direction(z, (c * w.0, c * w.1)),
        c > 0,
    ensures
        same_direction(z, w),
{
    let (z0, z1) = z;
    let (w0, w1) = w;
    assert(z0 * w1 == z1 * w0 && z0 * w0 + z1 * w1 > 0) by (nonlinear_arith)
        requires
            z0 * (c * w1) == z1 * (c * w0),
            z0 * (c * w0) + z1 * (c * w1) > 0,
            c > 0,
    ;
}

proof fn lemma_direction_signs(z: (int, int), w: (int, int))
    requires
        same_direction(z, w),
    ensures
        (z.0 > 0) == (w.0 > 0),
        (z.0 < 0) == (w.0 < 0),
        (z.1 > 0) == (w.1 > 0),
        (z.1 < 0) == (w.1 < 0),
{
    let (z0, z1) = z;
    let (w0, w1) = w;
    let d = z0 * w0 + z1 * w1;
    let m = w0 * w0 + w1 * w1;
    assert(z0 * m == d * w0 && z1 * m == d * w1) by (nonlinear_arith)
        requires
            z0 * w1 == z1 * w0,
            d == z0 * w0 + z1 * w1,
            m == w0 * w0 + w1 * w1,
    ;
    assert(m > 0) by (nonlinear_arith)
        requires
            d > 0,
            d == z0 * w0 + z1 * w1,
            m == w0 * w0 + w1 * w1,
    ;
    assert((z0 > 0) == (w0 > 0) && (z0 < 0) == (w0 < 0)) by (nonlinear_arith)
        requires
            z0 * m == d * w0,
            m > 0,
            d > 0,
    ;
    assert((z1 > 0) == (w1 > 0) && (z1 < 0) == (w1 < 0)) by (nonlinear_arith)
        requires
            z1 * m == d * w1,
            m > 0,
            d > 0,
    ;
}

/// Where a product lies, read off the tangent-addition state it corresponds
/// to: quadrant by quarter turns modulo four, axis by a zero residual.
proof fn lemma_quadrants(z: (int, int), st: (nat, (int, int)))
    requires
        same_direction(z, state_vector(st)),
        nonneg_frac(st.1),
    ensures
        in_open_fourth(z) == (st.0 % 4 == 3 && st.1.0 > 0),
        in_open_first(z) == (st.0 % 4 == 0 && st.1.0 > 0),
        on_positive_real(z) == (st.0 % 4 == 0 && st.1.0 == 0),
{
    lemma_turned_mod(st.0, (st.1.1, st.1.0));
    lemma_direction_signs(z, state_vector(st));
}

proof fn lemma_fold_take(ys: Seq<(int, int)>, k: int)
    requires
        0 <= k < ys.len(),
    ensures
        tan_fold(ys.take(k + 1)) == tan_step(tan_fold(ys.take(k)), ys[k]),
{
    assert(ys.take(k + 1).drop_last() =~= ys.take(k));
}

/// At every step of a line of nonnegative fractions, the tangent-addition
/// state points where the running Gaussian product does.
pub proof fn lemma_states_correspond(ys: Seq<(int, int)>, k: int)
    requires
        all_nonneg(ys),
        0 <= k <= ys.len(),
    ensures
        nonneg_frac(tan_fold(ys.take(k)).1),
        same_direction(prefix_product(ys, k), state_vector(tan_fold(ys.take(k)))),
    decreases k,
{
    if k == 0 {
        assert(ys.take(0) =~= Seq::<(int, int)>::empty());
    } else {
        lemma_states_correspond(ys, k - 1);
        lemma_fold_take(ys, k - 1);
        let st = tan_fold(ys.take(k - 1));
        let y = ys[k - 1];
        assert(nonneg_frac(y));
        lemma_step_nonneg(st, y);
        let n = st.0;
        let (p, q) = st.1;
        let (a, b) = y;
        let g = gaussian_of(y);
        let z = prefix_product(ys, k - 1);
        let w = state_vector(st);
        lemma_direction_mul(z, w, g);
        lemma_turned_mul(n, (q, p), g);
        let e = q * b - p * a;
        let big_n = p * b + a * q;
        assert(gauss_mul((q, p), g) == (e, big_n)) by (nonlinear_arith)
            requires
                g == (b, a),
                e == q * b - p * a,
                big_n == p * b + a * q,
        ;
        if p * a == q * b {
            assert(big_n > 0) by (nonlinear_arith)
                requires
                    p >= 0,
                    q > 0,
                    a >= 0,
                    b > 0,
                    p * a == q * b,
                    big_n == p * b + a * q,
            ;
            lemma_turned_shift(n, (1int, 0int));
            lemma_turned_scale(n, (0int, 1int), big_n);
            assert((big_n * 0, big_n * 1) == (e, big_n));
            lemma_direction_unscale(gauss_mul(z, g), turned(n, (0int, 1int)), big_n);
        } else if e > 0 {
        } else {
            lemma_turned_shift(n, (big_n, p * a - q * b));
        }
    }
}

proof fn lemma_turns_grow(ys: Seq<(int, int)>, j: int, k: int)
    requires
        all_nonneg(ys),
        0 <= j <= k <= ys.len(),
    ensures
        tan_fold(ys.take(j)).0 <= tan_fold(ys.take(k)).0,
    decreases k - j,
{
    if j < k {
        lemma_turns_grow(ys, j, k - 1);
        lemma_states_correspond(ys, k - 1);
        lemma_fold_take(ys, k - 1);
        lemma_step_nonneg(tan_fold(ys.take(k - 1)), ys[k - 1]);
    }
}

/// Once no further quarter turn comes, a positive residual stays positive.
proof fn lemma_residual_stays(ys: Seq<(int, int)>, j: int, k: int)
    requires
        all_nonneg(ys),
        0 <= j <= k <= ys.len(),
        tan_fold(ys.take(j)).0 == tan_fold(ys.take(k)).0,
        tan_fold(ys.take(j)).1.0 > 0,
    ensures
        tan_fold(ys.take(k)).1.0 > 0,
    decreases k - j,
{
    if j < k {
        lemma_turns_grow(ys, j, k - 1);
        lemma_turns_grow(ys, k - 1, k);
        lemma_residual_stays(ys, j, k - 1);
        lemma_states_correspond(ys, k - 1);
        lemma_fold_take(ys, k - 1);
        let st = tan_fold(ys.take(k - 1));
        let (p, q) = st.1;
        let (a, b) = ys[k - 1];
        assert(nonneg_frac(ys[k - 1]));
        assert(p * b + a * q > 0) by (nonlinear_arith)
            requires
                p > 0,
                q > 0,
                a >= 0,
                b > 0,
        ;
    }
}

/// A line of positive fractions has turned by something after its first
/// fraction.
proof fn lemma_positive_line_moves(ys: Seq<(int, int)>, k: int)
    requires
        all_nonneg(ys),
        forall|i: int| 0 <= i < ys.len() ==> (#[trigger] ys[i]).0 > 0,
        1 <= k <= ys.len(),
    ensures
        tan_fold(ys.take(k)).0 > 0 || tan_fold(ys.take(k)).1.0 > 0,
    decreases k,
{
    lemma_fold_take(ys, k - 1);
    lemma_states_correspond(ys, k - 1);
    assert(nonneg_frac(ys[k - 1]));
    lemma_step_nonneg(tan_fold(ys.take(k - 1)), ys[k - 1]);
    if k == 1 {
        assert(ys.take(0) =~= Seq::<(int, int)>::empty());
        let (a, b) = ys[0];
        assert(a > 0);
        assert(0 * a == 0 && 0 * b == 0 && 1 * b == b && a * 1 == a) by (nonlinear_arith);
    } else {
        lemma_positive_line_moves(ys, k - 1);
        lemma_turns_grow(ys, k - 1, k);
        if tan_fold(ys.take(k - 1)).0 == 0 && tan_fold(ys.take(k)).0 == 0 {
            lemma_residual_stays(ys, k - 1, k);
        }
    }
}

/// When the tangent-addition check accepts a line of nonnegative fractions,
/// so does the winding check: the product ends on the positive real axis and
/// no step wraps past the full turn.
pub proof fn lemma_tangent_pass_implies_winding_pass(ys: Seq<(int, int)>)
    requires
        all_nonneg(ys),
        tangent_passes(ys),
    ensures
        winding_passes(ys),
{
    let len = ys.len() as int;
    assert(ys.take(len) =~= ys);
    lemma_states_correspond(ys, len);
    lemma_quadrants(prefix_product(ys, len), tan_fold(ys.take(len)));
    assert forall|k: int| 0 <= k < len implies !overrun_at(ys, k) by {
        if overrun_at(ys, k) {
            lemma_states_correspond(ys, k);
            lemma_states_correspond(ys, k + 1);
            lemma_quadrants(prefix_product(ys, k), tan_fold(ys.take(k)));
            lemma_quadrants(prefix_product(ys, k + 1), tan_fold(ys.take(k + 1)));
            lemma_fold_take(ys, k);
            assert(nonneg_frac(ys[k]));
            lemma_step_nonneg(tan_fold(ys.take(k)), ys[k]);
            lemma_turns_grow(ys, k + 1, len);
            lemma_residual_stays(ys, k + 1, len);
        }
    }
}

/// The winding check and the tangent-addition check give the same verdict on
/// a nonempty line of positive fractions whose angles add up to less than two
/// full turns (fewer than eight quarter turns). Past that, a line that
/// reaches each full turn exactly on the positive real axis passes the
/// winding check and not the other.
pub proof fn lemma_checks_agree(ys: Seq<(int, int)>)
    requires
        ys.len() >= 1,
        forall|i: int| 0 <= i < ys.len() ==> (#[trigger] ys[i]).0 > 0 && ys[i].1 > 0,
        tan_fold(ys).0 < 8,
    ensures
        winding_passes(ys) == tangent_passes(ys),
{
    let len = ys.len() as int;
    assert(all_nonneg(ys)) by {
        assert forall|i: int| 0 <= i < ys.len() implies nonneg_frac(#[trigger] ys[i]) by {
            assert(ys[i].0 > 0 && ys[i].1 > 0);
        }
    }
    assert forall|i: int| 0 <= i < ys.len() implies (#[trigger] ys[i]).0 > 0 by {
        assert(ys[i].0 > 0 && ys[i].1 > 0);
    }
    assert(ys.take(len) =~= ys);
    if tangent_passes(ys) {
        lemma_tangent_pass_implies_winding_pass(ys);
    }
    if winding_passes(ys) {
        lemma_states_correspond(ys, len);
        lemma_quadrants(prefix_product(ys, len), tan_fold(ys.take(len)));
        lemma_positive_line_moves(ys, len);
    }
}

} // verus!
