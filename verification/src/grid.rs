//! A dense three-dimensional array of chunk handles.
//!
//! The array is an `ndarray::Array3`. Nothing of it is verified here: the
//! contracts below say what `ndarray` documents of the three calls that the
//! library makes, over two names for what an array holds.

use vstd::prelude::*;
use crate::world::ChunkHandle;

verus! {

/// `ndarray::ShapeError`, the error of `ndarray` for a shape that does not
/// fit the data. Nothing is claimed of it.
#[verifier::external_type_specification]
#[verifier::external_body]
pub struct ExShapeError(ndarray::ShapeError);

/// A three-dimensional array of chunk handles, in row-major order: the last
/// index runs fastest.
///
/// The field is an `ndarray::Array3`, a type that cannot be described to the
/// verifier, so the verifier sees nothing of the struct. What it holds goes
/// by the names `grid_shape` and `grid_cells`.
#[verifier::external_body]
pub struct HandleGrid {
    cells: ndarray::Array3<ChunkHandle>,
}

/// The lengths of the three axes of a grid.
pub uninterp spec fn grid_shape(grid: HandleGrid) -> (usize, usize, usize);

/// The elements of a grid in row-major order.
pub uninterp spec fn grid_cells(grid: HandleGrid) -> Seq<ChunkHandle>;

/// The place of element `(i, j, k)` in the row-major order of a grid whose
/// second and third axes have lengths `ny` and `nz`.
pub open spec fn cell_index(ny: int, nz: int, i: int, j: int, k: int) -> int {
    (i * ny + j) * nz + k
}

/// The element of a grid at `(i, j, k)`, or nothing where the index lies
/// outside the grid.
pub open spec fn cell_at(grid: HandleGrid, i: int, j: int, k: int) -> Option<ChunkHandle> {
    let (nx, ny, nz) = grid_shape(grid);
    if 0 <= i < nx && 0 <= j < ny && 0 <= k < nz {
        Some(grid_cells(grid)[cell_index(ny as int, nz as int, i, j, k)])
    } else {
        None
    }
}

/// Makes a grid of the given shape from its elements in row-major order.
///
/// Wraps `ndarray::ArrayBase::from_shape_vec` with a plain shape, which takes
/// the vector as the array's elements in row-major order. The call fails
/// where the shape does not match the number of elements. The contract
/// claims that it succeeds where no axis is empty and the product of the
/// three lengths is the length of the vector, and that an array it returns
/// has the shape, holds the elements of the vector in their order, and has
/// as many elements as its shape says.
#[verifier::external_body]
pub(crate) fn grid_from_vec(
    nx: usize,
    ny: usize,
    nz: usize,
    cells: Vec<ChunkHandle>,
) -> (r: Result<HandleGrid, ndarray::ShapeError>)
    ensures
        nx > 0 && ny > 0 && nz > 0 && nx * ny * nz == cells@.len() ==> r is Ok,
        r matches Ok(grid) ==> grid_shape(grid) == (nx, ny, nz) && grid_cells(grid) == cells@
            && nx * ny * nz == cells@.len(),
{
    match ndarray::Array3::from_shape_vec((nx, ny, nz), cells) {
        Ok(cells) => Ok(HandleGrid { cells }),
        Err(e) => Err(e),
    }
}

/// The lengths of the three axes.
///
/// Wraps `ndarray::LayoutRef::dim`, which an array has through `Deref` and
/// which returns the shape of the array as a tuple.
#[verifier::external_body]
pub(crate) fn grid_dim(grid: &HandleGrid) -> (r: (usize, usize, usize))
    ensures
        r == grid_shape(*grid),
{
    grid.cells.dim()
}

/// The element at `(i, j, k)`, or nothing where the index lies outside the
/// grid.
///
/// Wraps `ndarray::ArrayRef::get`, which an array has through `Deref` and
/// which returns the element at an index where every component of the index
/// is below the length of its axis, and nothing elsewhere. The contract
/// claims that, and that the element at `(i, j, k)` is the one at place
/// `cell_index(ny, nz, i, j, k)` of the row-major order.
#[verifier::external_body]
pub(crate) fn grid_get(grid: &HandleGrid, i: usize, j: usize, k: usize) -> (r: Option<ChunkHandle>)
    ensures
        r == cell_at(*grid, i as int, j as int, k as int),
{
    grid.cells.get((i, j, k)).copied()
}

} // verus!
