//! Square grids of cells, held in `ndarray` two-dimensional arrays.
use vstd::prelude::*;

verus! {

/// A grid of presence flags, held in an `ndarray::Array2<bool>`.
#[verifier::external_body]
#[derive(Debug)]
pub struct PresenceGrid {
    cells: ndarray::Array2<bool>,
}

/// A grid of weights, held in an `ndarray::Array2<i64>`.
#[verifier::external_body]
#[derive(Debug)]
pub struct WeightGrid {
    cells: ndarray::Array2<i64>,
}

/// The rows of a presence grid.
pub uninterp spec fn presence_cells(m: PresenceGrid) -> Seq<Seq<bool>>;

/// The rows of a weight grid.
pub uninterp spec fn weight_cells(m: WeightGrid) -> Seq<Seq<i64>>;

/// Relies on `ndarray::Array2::default`: an `n` by `n` array of `false`;
/// it panics when the number of cells overflows `isize`.
#[verifier::external_body]
pub(crate) fn presence_grid(n: usize) -> (r: PresenceGrid)
    requires
        n * n <= isize::MAX,
    ensures
        presence_cells(r) == Seq::new(n as nat, |i: int| Seq::new(n as nat, |j: int| false)),
{
    PresenceGrid { cells: ndarray::Array2::default((n, n)) }
}

/// Relies on `ndarray::Array2::zeros`: an `n` by `n` array of zeros; it
/// panics when the number of cells overflows `isize`.
#[verifier::external_body]
pub(crate) fn weight_grid(n: usize) -> (r: WeightGrid)
    requires
        n * n <= isize::MAX,
    ensures
        weight_cells(r) == Seq::new(n as nat, |i: int| Seq::new(n as nat, |j: int| 0i64)),
{
    WeightGrid { cells: ndarray::Array2::zeros((n, n)) }
}

/// Relies on indexing an `ndarray::Array2` by `(row, column)`: reads a cell.
#[verifier::external_body]
pub(crate) fn presence_at(m: &PresenceGrid, i: usize, j: usize) -> (r: bool)
    requires
        i < presence_cells(*m).len(),
        j < presence_cells(*m)[i as int].len(),
    ensures
        r == presence_cells(*m)[i as int][j as int],
{
    m.cells[(i, j)]
}

/// Relies on indexing an `ndarray::Array2` by `(row, column)`: writes a cell.
#[verifier::external_body]
pub(crate) fn set_presence(m: &mut PresenceGrid, i: usize, j: usize, v: bool)
    requires
        i < presence_cells(*old(m)).len(),
        j < presence_cells(*old(m))[i as int].len(),
    ensures
        presence_cells(*final(m)) == presence_cells(*old(m)).update(
            i as int,
            presence_cells(*old(m))[i as int].update(j as int, v),
        ),
{
    m.cells[(i, j)] = v;
}

/// Relies on indexing an `ndarray::Array2` by `(row, column)`: reads a cell.
#[verifier::external_body]
pub(crate) fn weight_at(m: &WeightGrid, i: usize, j: usize) -> (r: i64)
    requires
        i < weight_cells(*m).len(),
        j < weight_cells(*m)[i as int].len(),
    ensures
        r == weight_cells(*m)[i as int][j as int],
{
    m.cells[(i, j)]
}

/// Relies on indexing an `ndarray::Array2` by `(row, column)`: writes a cell.
#[verifier::external_body]
pub(crate) fn set_weight(m: &mut WeightGrid, i: usize, j: usize, v: i64)
    requires
        i < weight_cells(*old(m)).len(),
        j < weight_cells(*old(m))[i as int].len(),
    ensures
        weight_cells(*final(m)) == weight_cells(*old(m)).update(
            i as int,
            weight_cells(*old(m))[i as int].update(j as int, v),
        ),
{
    m.cells[(i, j)] = v;
}

} // verus!
