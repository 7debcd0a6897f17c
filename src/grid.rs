//! Lines of a square grid and the whole check.
use vstd::prelude::*;

use crate::fraction::{denominators_positive, pairs_of, ProperFraction};
use crate::inventory::{
    all_proper, check_numbers, grid_numbers, grid_view, lemma_range_multiset, numbers_form_range,
    row_numbers, InventoryError,
};
use crate::tangent::{tangent_check, tangent_passes};
use crate::winding::{winding_check, winding_passes, WindingError};

verus! {

/// One line of a square grid.
#[derive(Clone, Copy, Debug, PartialEq, Eq, Structural)]
pub enum LineId {
    Row(usize),
    Column(usize),
    MainDiagonal,
    AntiDiagonal,
}

/// The line names a row or column inside a `size` by `size` grid.
pub open spec fn valid_line(size: nat, id: LineId) -> bool {
    match id {
        LineId::Row(r) => r < size,
        LineId::Column(c) => c < size,
        _ => true,
    }
}

/// The (row, column) pairs of a line of a `size` by `size` grid, walked by
/// increasing index.
pub open spec fn line_coords(size: nat, id: LineId) -> Seq<(usize, usize)> {
    Seq::new(
        size,
        |i: int|
            match id {
                LineId::Row(r) => (r, i as usize),
                LineId::Column(c) => (i as usize, c),
                LineId::MainDiagonal => (i as usize, i as usize),
                LineId::AntiDiagonal => (i as usize, (size - 1 - i) as usize),
            },
    )
}

/// How many lines a `size` by `size` grid has.
pub open spec fn line_count(size: nat) -> nat {
    2 * size + 2
}

/// The `k`-th line in the order of enumeration: rows, then columns, then the
/// main diagonal, then the anti-diagonal.
pub open spec fn line_id(size: nat, k: nat) -> LineId {
    if k < size {
        LineId::Row(k as usize)
    } else if k < 2 * size {
        LineId::Column((k - size) as usize)
    } else if k == 2 * size {
        LineId::MainDiagonal
    } else {
        LineId::AntiDiagonal
    }
}

/// The cells of a grid at the given coordinates.
pub open spec fn cells_at(g: Seq<Seq<ProperFraction>>, coords: Seq<(usize, usize)>) -> Seq<
    ProperFraction,
> {
    coords.map_values(|p: (usize, usize)| g[p.0 as int][p.1 as int])
}

/// The fractions of a line of a square grid.
pub open spec fn line_pairs(g: Seq<Seq<ProperFraction>>, id: LineId) -> Seq<(int, int)> {
    pairs_of(cells_at(g, line_coords(g.len(), id)))
}

/// Every row has as many cells as there are rows.
pub open spec fn is_square(g: Seq<Seq<ProperFraction>>) -> bool {
    forall|r: int| 0 <= r < g.len() ==> #[trigger] g[r].len() == g.len()
}

/// Both angle checks accept the line.
pub open spec fn line_passes(g: Seq<Seq<ProperFraction>>, id: LineId) -> bool {
    winding_passes(line_pairs(g, id)) && tangent_passes(line_pairs(g, id))
}

/// The grid is square, meets the numbering rule, and each of its lines makes
/// exactly one full turn by both checks.
pub open spec fn grid_passes(g: Seq<Seq<ProperFraction>>) -> bool {
    &&& is_square(g)
    &&& all_proper(g)
    &&& numbers_form_range(grid_numbers(g))
    &&& forall|id: LineId| valid_line(g.len(), id) ==> #[trigger] line_passes(g, id)
}

/// The coordinates of one line.
pub fn line_coordinates(size: usize, id: LineId) -> (r: Vec<(usize, usize)>)
    requires
        valid_line(size as nat, id),
    ensures
        r@ == line_coords(size as nat, id),
{
    let mut r: Vec<(usize, usize)> = Vec::new();
    let mut i: usize = 0;
    while i < size
        invariant
            i <= size,
            valid_line(size as nat, id),
            r@ == line_coords(size as nat, id).take(i as int),
        decreases size - i,
    {
        let p = match id {
            LineId::Row(row) => (row, i),
            LineId::Column(column) => (i, column),
            LineId::MainDiagonal => (i, i),
            LineId::AntiDiagonal => (i, size - 1 - i),
        };
        r.push(p);
        i = i + 1;
        assert(r@ =~= line_coords(size as nat, id).take(i as int));
    }
    assert(r@ =~= line_coords(size as nat, id));
    r
}

/// All `2 * size + 2` lines: rows, columns, main diagonal, anti-diagonal.
pub fn lines(size: usize) -> (r: Vec<LineId>)
    ensures
        r@.len() == line_count(size as nat),
        forall|k: int| 0 <= k < r@.len() ==> #[trigger] r@[k] == line_id(size as nat, k as nat),
{
    let mut r: Vec<LineId> = Vec::new();
    let mut k: usize = 0;
    while k < size
        invariant
            k <= size,
            r@.len() == k,
            forall|j: int| 0 <= j < r@.len() ==> #[trigger] r@[j] == line_id(size as nat, j as nat),
        decreases size - k,
    {
        r.push(LineId::Row(k));
        k = k + 1;
    }
    k = 0;
    while k < size
        invariant
            k <= size,
            r@.len() == size + k,
            forall|j: int| 0 <= j < r@.len() ==> #[trigger] r@[j] == line_id(size as nat, j as nat),
        decreases size - k,
    {
        r.push(LineId::Column(k));
        k = k + 1;
    }
    r.push(LineId::MainDiagonal);
    r.push(LineId::AntiDiagonal);
    r
}

/// The cells of a grid at the given coordinates, in order.
pub fn cells(grid: &Vec<Vec<ProperFraction>>, coords: &Vec<(usize, usize)>) -> (r: Vec<ProperFraction>)
    requires
        forall|i: int|
            0 <= i < coords@.len() ==> (#[trigger] coords@[i]).0 < grid@.len() && coords@[i].1
                < grid@[coords@[i].0 as int]@.len(),
    ensures
        r@ == cells_at(grid_view(grid), coords@),
{
    let mut r: Vec<ProperFraction> = Vec::new();
    let mut i: usize = 0;
    while i < coords.len()
        invariant
            i <= coords@.len(),
            forall|j: int|
                0 <= j < coords@.len() ==> (#[trigger] coords@[j]).0 < grid@.len() && coords@[j].1
                    < grid@[coords@[j].0 as int]@.len(),
            r@ == cells_at(grid_view(grid), coords@).take(i as int),
        decreases coords@.len() - i,
    {
        let (row, column) = coords[i];
        r.push(grid[row][column]);
        i = i + 1;
        assert(r@ =~= cells_at(grid_view(grid), coords@).take(i as int));
    }
    assert(r@ =~= cells_at(grid_view(grid), coords@));
    r
}

/// Why a grid is refused.
#[derive(Clone, Copy, Debug, PartialEq, Eq, Structural)]
pub enum GridError {
    /// Some row's length differs from the number of rows.
    NotSquare { row: usize },
    /// The numbering rule fails.
    InvariantViolation(InventoryError),
    /// The angles of this line do not add up to exactly one full turn.
    AngleMismatch { line: LineId },
    /// The winding check saw this line wrap past a full turn at this step.
    WindingOverrun { line: LineId, step: usize },
}

/// Checks one line of a square grid of positive denominators by the winding
/// check and then by the tangent-addition check.
pub fn check_line(grid: &Vec<Vec<ProperFraction>>, id: LineId) -> (r: Result<(), GridError>)
    requires
        is_square(grid_view(grid)),
        all_proper(grid_view(grid)),
        valid_line(grid@.len() as nat, id),
    ensures
        r is Ok <==> line_passes(grid_view(grid), id),
        match r {
            Ok(()) => true,
            Err(GridError::AngleMismatch { line }) => line == id,
            Err(GridError::WindingOverrun { line, step }) => line == id && !winding_passes(
                line_pairs(grid_view(grid), id),
            ),
            Err(_) => false,
        },
{
    let ghost g = grid_view(grid);
    let coords = line_coordinates(grid.len(), id);
    proof {
        assert forall|i: int| 0 <= i < coords@.len() implies (#[trigger] coords@[i]).0
            < grid@.len() && coords@[i].1 < grid@[coords@[i].0 as int]@.len() by {
            assert(g[coords@[i].0 as int] == grid@[coords@[i].0 as int]@);
        }
    }
    let cs = cells(grid, &coords);
    proof {
        assert forall|i: int| 0 <= i < cs@.len() implies cs@[i].denominator > 0 by {
            let p = line_coords(g.len(), id)[i];
            assert(g[p.0 as int][p.1 as int] == cs@[i]);
        }
    }
    match winding_check(&cs) {
        Ok(()) => {},
        Err(WindingError::AngleMismatch) => {
            return Err(GridError::AngleMismatch { line: id });
        },
        Err(WindingError::WindingOverrun { step }) => {
            return Err(GridError::WindingOverrun { line: id, step });
        },
    }
    if !tangent_check(&cs) {
        return Err(GridError::AngleMismatch { line: id });
    }
    Ok(())
}

/// Checks a whole grid: its shape, the numbering rule, then every row, every
/// column, the main diagonal and the anti-diagonal, stopping at the first
/// failure.
pub fn check_grid(grid: &Vec<Vec<ProperFraction>>) -> (r: Result<(), GridError>)
    ensures
        r is Ok <==> grid_passes(grid_view(grid)),
        match r {
            Ok(()) => true,
            Err(GridError::NotSquare { row }) => row < grid@.len() && grid@[row as int]@.len()
                != grid@.len(),
            Err(GridError::InvariantViolation(_)) => is_square(grid_view(grid)) && !(all_proper(
                grid_view(grid),
            ) && numbers_form_range(grid_numbers(grid_view(grid)))),
            Err(GridError::AngleMismatch { line }) => valid_line(grid@.len() as nat, line)
                && !line_passes(grid_view(grid), line),
            Err(GridError::WindingOverrun { line, step }) => valid_line(grid@.len() as nat, line)
                && !winding_passes(line_pairs(grid_view(grid), line)),
        },
{
    let ghost g = grid_view(grid);
    let size = grid.len();
    let mut r: usize = 0;
    while r < size
        invariant
            g == grid_view(grid),
            size == grid@.len(),
            r <= size,
            forall|j: int| 0 <= j < r ==> #[trigger] g[j].len() == size,
        decreases size - r,
    {
        if grid[r].len() != size {
            assert(g[r as int].len() != g.len());
            return Err(GridError::NotSquare { row: r });
        }
        r = r + 1;
    }
    match check_numbers(grid) {
        Ok(()) => {},
        Err(e) => {
            return Err(GridError::InvariantViolation(e));
        },
    }
    let mut k: usize = 0;
    while k < size
        invariant
            g == grid_view(grid),
            size == grid@.len(),
            is_square(g),
            all_proper(g),
            numbers_form_range(grid_numbers(g)),
            k <= size,
            forall|j: usize| j < k ==> #[trigger] line_passes(g, LineId::Row(j)),
        decreases size - k,
    {
        let checked = check_line(grid, LineId::Row(k));
        if checked.is_err() {
            return checked;
        }
        k = k + 1;
    }
    let mut k: usize = 0;
    while k < size
        invariant
            g == grid_view(grid),
            size == grid@.len(),
            is_square(g),
            all_proper(g),
            numbers_form_range(grid_numbers(g)),
            k <= size,
            forall|j: usize| j < size ==> #[trigger] line_passes(g, LineId::Row(j)),
            forall|j: usize| j < k ==> #[trigger] line_passes(g, LineId::Column(j)),
        decreases size - k,
    {
        let checked = check_line(grid, LineId::Column(k));
        if checked.is_err() {
            return checked;
        }
        k = k + 1;
    }
    let checked = check_line(grid, LineId::MainDiagonal);
    if checked.is_err() {
        return checked;
    }
    let checked = check_line(grid, LineId::AntiDiagonal);
    if checked.is_err() {
        return checked;
    }
    assert forall|id: LineId| valid_line(g.len(), id) implies #[trigger] line_passes(g, id) by {
        match id {
            LineId::Row(j) => {},
            LineId::Column(j) => {},
            _ => {},
        }
    }
    Ok(())
}

proof fn lemma_row_numbers_len(row: Seq<ProperFraction>)
    ensures
        row_numbers(row).len() == 2 * row.len(),
    decreases row.len(),
{
    if row.len() > 0 {
        lemma_row_numbers_len(row.drop_last());
    }
}

proof fn lemma_grid_numbers_len(g: Seq<Seq<ProperFraction>>, k: int)
    requires
        forall|r: int| 0 <= r < g.len() ==> #[trigger] g[r].len() == k,
    ensures
        grid_numbers(g).len() == 2 * k * g.len(),
    decreases g.len(),
{
    if g.len() > 0 {
        let n = g.len() as int;
        lemma_grid_numbers_len(g.drop_last(), k);
        lemma_row_numbers_len(g.last());
        assert(2 * k * (n - 1) + 2 * k == 2 * k * n) by (nonlinear_arith);
    }
}

/// A square grid of `size` rows that meets the numbering rule has, among its
/// numerators and denominators, each of `1, ..., 2 * size * size` exactly
/// once and nothing else.
pub proof fn lemma_accepted_grid_numbers(g: Seq<Seq<ProperFraction>>)
    requires
        is_square(g),
        numbers_form_range(grid_numbers(g)),
    ensures
        grid_numbers(g).len() == 2 * g.len() * g.len(),
        forall|v: u64|
            #![trigger grid_numbers(g).to_multiset().count(v)]
            grid_numbers(g).to_multiset().count(v) == if 1 <= v <= 2 * g.len() * g.len() {
                1nat
            } else {
                0nat
            },
{
    lemma_grid_numbers_len(g, g.len() as int);
    lemma_range_multiset(grid_numbers(g));
}

} // verus!
