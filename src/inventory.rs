//! The numbering rule: every cell is a reduced proper fraction, and the
//! numerators and denominators of the grid are `1, 2, ..., 2 * cells`, each once.
use vstd::prelude::*;
use vstd::set_lib::{lemma_int_range, lemma_len_subset, lemma_subset_equality, set_int_range};

use crate::fraction::ProperFraction;

verus! {

/// No integer above one divides both `a` and `b`.
pub open spec fn coprime(a: int, b: int) -> bool {
    forall|d: int| #![trigger a % d, b % d] d > 1 ==> !(a % d == 0 && b % d == 0)
}

/// A reduced proper fraction with a positive numerator.
pub open spec fn is_proper(f: ProperFraction) -> bool {
    0 < f.numerator < f.denominator && coprime(f.numerator as int, f.denominator as int)
}

/// The rows of a grid as sequences.
pub open spec fn grid_view(grid: &Vec<Vec<ProperFraction>>) -> Seq<Seq<ProperFraction>> {
    grid@.map_values(|row: Vec<ProperFraction>| row@)
}

/// Every cell of the grid is a reduced proper fraction.
pub open spec fn all_proper(g: Seq<Seq<ProperFraction>>) -> bool {
    forall|r: int, c: int| 0 <= r < g.len() && 0 <= c < g[r].len() ==> is_proper(#[trigger] g[r][c])
}

/// Numerator and denominator of each cell of a row, in order.
pub open spec fn row_numbers(row: Seq<ProperFraction>) -> Seq<u64>
    decreases row.len(),
{
    if row.len() == 0 {
        Seq::empty()
    } else {
        row_numbers(row.drop_last()).push(row.last().numerator).push(row.last().denominator)
    }
}

/// Numerator and denominator of each cell of a grid, row after row.
pub open spec fn grid_numbers(g: Seq<Seq<ProperFraction>>) -> Seq<u64>
    decreases g.len(),
{
    if g.len() == 0 {
        Seq::empty()
    } else {
        grid_numbers(g.drop_last()) + row_numbers(g.last())
    }
}

/// `xs` holds each of `1, ..., xs.len()` once: no repeats, nothing outside.
pub open spec fn numbers_form_range(xs: Seq<u64>) -> bool {
    xs.no_duplicates() && forall|i: int| 0 <= i < xs.len() ==> 1 <= #[trigger] xs[i] <= xs.len()
}

/// Why the numbering rule fails.
#[derive(Clone, Copy, Debug, PartialEq, Eq, Structural)]
pub enum InventoryError {
    /// The cell is not `n / d` with `0 < n < d`.
    NotProper { row: usize, column: usize },
    /// The cell's numerator and denominator share a factor.
    NotReduced { row: usize, column: usize },
    /// A numerator or denominator outside `1 ..= 2 * cells`.
    OutOfRange { value: u64 },
    /// A numerator or denominator that occurs more than once.
    Duplicate { value: u64 },
}

/// Relies on `num_integer::gcd` for `u64`: the greatest common divisor.
#[verifier::external_body]
fn gcd_u64(a: u64, b: u64) -> (r: u64)
    requires
        a > 0,
        b > 0,
    ensures
        r > 0,
        a as int % r as int == 0,
        b as int % r as int == 0,
        forall|d: int|
            #![trigger (a as int) % d, (b as int) % d]
            d > 0 && (a as int) % d == 0 && (b as int) % d == 0 ==> (r as int) % d == 0,
{
    num_integer::gcd(a, b)
}

/// Whether one cell is a reduced proper fraction, and if not, why.
fn check_cell(f: ProperFraction, row: usize, column: usize) -> (r: Result<(), InventoryError>)
    ensures
        r is Ok <==> is_proper(f),
        r == Err::<(), InventoryError>(InventoryError::NotProper { row, column }) <==> !(0
            < f.numerator < f.denominator),
        r == Err::<(), InventoryError>(InventoryError::NotReduced { row, column }) <==> (0
            < f.numerator < f.denominator && !coprime(f.numerator as int, f.denominator as int)),
{
    if !(0 < f.numerator && f.numerator < f.denominator) {
        return Err(InventoryError::NotProper { row, column });
    }
    let g = gcd_u64(f.numerator, f.denominator);
    let ghost a = f.numerator as int;
    let ghost b = f.denominator as int;
    if g != 1 {
        assert(a % (g as int) == 0 && b % (g as int) == 0);
        assert(!coprime(a, b));
        return Err(InventoryError::NotReduced { row, column });
    }
    assert forall|d: int| #![trigger a % d, b % d] d > 1 implies !(a % d == 0 && b % d == 0) by {
        if a % d == 0 && b % d == 0 {
            assert(1int % d == 1) by (nonlinear_arith)
                requires
                    d > 1,
            ;
        }
    }
    Ok(())
}

/// Whether `xs` holds each of `1, ..., xs.len()` exactly once.
pub fn check_range(xs: &Vec<u64>) -> (r: Result<(), InventoryError>)
    ensures
        r is Ok <==> numbers_form_range(xs@),
        match r {
            Ok(()) => true,
            Err(InventoryError::OutOfRange { value }) => xs@.contains(value) && !(1 <= value
                <= xs@.len()),
            Err(InventoryError::Duplicate { value }) => exists|i: int, j: int|
                0 <= i < j < xs@.len() && xs@[i] == value && xs@[j] == value,
            Err(_) => false,
        },
{
    let n = xs.len();
    let mut seen: Vec<bool> = Vec::new();
    let mut j: usize = 0;
    while j < n
        invariant
            j <= n,
            seen@.len() == j,
            forall|k: int| 0 <= k < j ==> !seen@[k],
        decreases n - j,
    {
        seen.push(false);
        j = j + 1;
    }
    let mut i: usize = 0;
    while i < n
        invariant
            n == xs@.len(),
            i <= n,
            seen@.len() == n,
            forall|k: int| 0 <= k < i ==> 1 <= #[trigger] xs@[k] <= n,
            forall|k: int| 0 <= k < i ==> seen@[#[trigger] xs@[k] - 1],
            forall|w: int|
                1 <= w <= n && #[trigger] seen@[w - 1] ==> exists|k: int|
                    0 <= k < i && xs@[k] == w,
            forall|k1: int, k2: int| 0 <= k1 < k2 < i ==> xs@[k1] != xs@[k2],
        decreases n - i,
    {
        let v = xs[i];
        if v < 1 || v > n as u64 {
            assert(!numbers_form_range(xs@));
            return Err(InventoryError::OutOfRange { value: v });
        }
        if seen[(v - 1) as usize] {
            let ghost w = v as int;
            assert(seen@[w - 1]);
            let ghost k = choose|k: int| 0 <= k < i && xs@[k] == w;
            assert(xs@[k] == xs@[i as int]);
            assert(!xs@.no_duplicates());
            return Err(InventoryError::Duplicate { value: v });
        }
        seen.set((v - 1) as usize, true);
        proof {
            assert forall|w: int| 1 <= w <= n && #[trigger] seen@[w - 1] implies exists|k: int|
                0 <= k < i + 1 && xs@[k] == w by {
                if w != v as int {
                    let k = choose|k: int| 0 <= k < i && xs@[k] == w;
                    assert(0 <= k < i + 1 && xs@[k] == w);
                } else {
                    assert(xs@[i as int] == w);
                }
            }
        }
        i = i + 1;
    }
    Ok(())
}

/// The numbering rule on a whole grid: each cell is checked in row-major
/// order, then the collected numerators and denominators.
pub fn check_numbers(grid: &Vec<Vec<ProperFraction>>) -> (r: Result<(), InventoryError>)
    ensures
        r is Ok <==> all_proper(grid_view(grid)) && numbers_form_range(
            grid_numbers(grid_view(grid)),
        ),
        match r {
            Ok(()) => true,
            Err(InventoryError::NotProper { row, column }) => row < grid@.len() && column
                < grid@[row as int]@.len() && !(0 < grid@[row as int]@[column as int].numerator
                < grid@[row as int]@[column as int].denominator),
            Err(InventoryError::NotReduced { row, column }) => row < grid@.len() && column
                < grid@[row as int]@.len() && !is_proper(grid@[row as int]@[column as int]),
            Err(InventoryError::OutOfRange { value }) => all_proper(grid_view(grid))
                && grid_numbers(grid_view(grid)).contains(value) && !(1 <= value <= grid_numbers(
                grid_view(grid),
            ).len()),
            Err(InventoryError::Duplicate { value }) => all_proper(grid_view(grid)) && exists|
                i: int,
                j: int,
            |
                0 <= i < j < grid_numbers(grid_view(grid)).len() && grid_numbers(
                    grid_view(grid),
                )[i] == value && grid_numbers(grid_view(grid))[j] == value,
        },
{
    let ghost g = grid_view(grid);
    let mut xs: Vec<u64> = Vec::new();
    let mut r: usize = 0;
    while r < grid.len()
        invariant
            g == grid_view(grid),
            r <= grid@.len(),
            xs@ == grid_numbers(g.take(r as int)),
            forall|r1: int, c1: int|
                0 <= r1 < r && 0 <= c1 < g[r1].len() ==> is_proper(#[trigger] g[r1][c1]),
        decreases grid@.len() - r,
    {
        let row = &grid[r];
        let mut c: usize = 0;
        while c < row.len()
            invariant
                g == grid_view(grid),
                r < grid@.len(),
                row@ == g[r as int],
                c <= row@.len(),
                xs@ == grid_numbers(g.take(r as int)) + row_numbers(row@.take(c as int)),
                forall|r1: int, c1: int|
                    0 <= r1 < r && 0 <= c1 < g[r1].len() ==> is_proper(#[trigger] g[r1][c1]),
                forall|c1: int| 0 <= c1 < c ==> is_proper(#[trigger] g[r as int][c1]),
            decreases row@.len() - c,
        {
            let f = row[c];
            let checked = check_cell(f, r, c);
            if checked.is_err() {
                assert(!all_proper(g));
                return checked;
            }
            proof {
                assert(row@.take(c as int + 1).drop_last() =~= row@.take(c as int));
            }
            xs.push(f.numerator);
            xs.push(f.denominator);
            c = c + 1;
            proof {
                assert(xs@ =~= grid_numbers(g.take(r as int)) + row_numbers(row@.take(c as int)));
            }
        }
        proof {
            assert(row@.take(c as int) =~= row@);
            assert(g.take(r as int + 1).drop_last() =~= g.take(r as int));
        }
        r = r + 1;
    }
    proof {
        assert(g.take(r as int) =~= g);
        assert(all_proper(g));
    }
    check_range(&xs)
}

/// Numbers that pass the range rule are, as a multiset, exactly
/// `{1, ..., xs.len()}`: each of those once, nothing else.
pub proof fn lemma_range_multiset(xs: Seq<u64>)
    requires
        numbers_form_range(xs),
    ensures
        forall|v: u64|
            #![trigger xs.to_multiset().count(v)]
            xs.to_multiset().count(v) == if 1 <= v <= xs.len() {
                1nat
            } else {
                0nat
            },
{
    let n = xs.len() as int;
    let ints = xs.map_values(|v: u64| v as int);
    let range = set_int_range(1, n + 1);
    assert forall|i: int, j: int| 0 <= i < ints.len() && 0 <= j < ints.len() && i != j implies ints[i]
        != ints[j] by {
        assert(xs[i] != xs[j]);
    }
    assert(ints.no_duplicates());
    ints.unique_seq_to_set();
    lemma_int_range(1, n + 1);
    assert forall|v: int| ints.to_set().contains(v) implies range.contains(v) by {
        let i = choose|i: int| 0 <= i < ints.len() && ints[i] == v;
        assert(1 <= xs[i] <= n);
    }
    lemma_len_subset(ints.to_set(), range);
    lemma_subset_equality(ints.to_set(), range);
    xs.lemma_multiset_has_no_duplicates();
    broadcast use vstd::seq_lib::group_to_multiset_ensures;
    assert forall|v: u64| #![trigger xs.to_multiset().count(v)]
        xs.to_multiset().count(v) == if 1 <= v <= xs.len() { 1nat } else { 0nat } by {
        if 1 <= v <= n {
            assert(range.contains(v as int));
            assert(ints.to_set().contains(v as int));
            let i = choose|i: int| 0 <= i < ints.len() && ints[i] == v as int;
            assert(xs[i] == v);
            assert(xs.contains(v));
            assert(xs.to_multiset().contains(v));
        } else {
            if xs.to_multiset().count(v) > 0 {
                assert(xs.to_multiset().contains(v));
                assert(xs.contains(v));
                let i = choose|i: int| 0 <= i < xs.len() && xs[i] == v;
                assert(1 <= xs[i] <= n);
            }
        }
    }
}

} // verus!
