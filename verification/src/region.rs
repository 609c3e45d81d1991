//! A cuboid of chunks, fetched from a world and held for drawing.
//!
//! A region is walked with `x` outermost and `z` innermost, each axis from
//! its lower end up. That is the order in which its chunks are requested,
//! drawn and given back.

use vstd::prelude::*;
use std::rc::Rc;
use crate::catalog::BlockRenderData;
use crate::chunk::{accepts_all, built, lemma_chunk_extensional};
use crate::error::MeshCreationError;
use crate::grid::{
    cell_index, grid_cells, grid_dim, grid_from_vec, grid_get, grid_shape, HandleGrid,
};
use crate::mesh::Vertex;
use crate::world::{
    acquired, block_coord, holds_chunk, lemma_acquired_is_cached, lemma_acquired_keeps_held,
    lemma_nothing_lost_onwards, neighbor_grids, nothing_lost, only_meshes_changed, released,
    well_formed, CacheEntry, ChunkCoordinate, ChunkHandle, World, GENERATED_TYPES,
};
use crate::CHUNK_SIZE;

verus! {

/// The lower end of the span between two coordinates.
pub open spec fn low(a: i64, b: i64) -> i64 {
    if b >= a {
        a
    } else {
        b
    }
}

/// The number of coordinates in the span between two coordinates, both
/// included.
pub open spec fn extent(a: i64, b: i64) -> int {
    if b >= a {
        b - a + 1
    } else {
        a - b + 1
    }
}

/// Whether coordinate `at` lies in the cuboid between two corners, in
/// whatever order the corners are given.
pub open spec fn in_cuboid(
    from: ChunkCoordinate,
    to: ChunkCoordinate,
    at: ChunkCoordinate,
) -> bool {
    &&& low(from.0, to.0) <= at.0 < low(from.0, to.0) + extent(from.0, to.0)
    &&& low(from.1, to.1) <= at.1 < low(from.1, to.1) + extent(from.1, to.1)
    &&& low(from.2, to.2) <= at.2 < low(from.2, to.2) + extent(from.2, to.2)
}

/// Whether cell `(a, b, c)` comes before cell `(i, j, k)` in the order in
/// which a region is walked: `x` outermost, `z` innermost.
pub open spec fn walked_before(a: int, b: int, c: int, i: int, j: int, k: int) -> bool {
    a < i || (a == i && (b < j || (b == j && c < k)))
}

/// Whether the caches `trace` are what a run of requests goes through, one
/// request for each of `coords`, in order, with `handles` as the answers.
pub open spec fn acquired_each<F: Fn(i64, i64, i64) -> bool, V, I>(
    density: F,
    trace: Seq<Seq<CacheEntry<V, I>>>,
    coords: Seq<ChunkCoordinate>,
    handles: Seq<ChunkHandle>,
) -> bool {
    &&& trace.len() == coords.len() + 1
    &&& handles.len() == coords.len()
    &&& forall|n: int|
        0 <= n < coords.len() ==> #[trigger] acquired(
            density,
            trace[n],
            trace[n + 1],
            coords[n],
            handles[n],
        )
}

/// Whether the caches `trace` are what giving back `handles` goes through,
/// one after the other.
pub open spec fn released_each<V, I>(
    trace: Seq<Seq<CacheEntry<V, I>>>,
    handles: Seq<ChunkHandle>,
) -> bool {
    &&& trace.len() == handles.len() + 1
    &&& forall|n: int|
        0 <= n < handles.len() ==> #[trigger] released(trace[n], trace[n + 1], handles[n])
}

/// What to hand to the backend to draw one chunk: the buffers of its mesh,
/// and where the chunk's lowest corner lies in the world, in blocks.
pub struct DrawCall<V, I> {
    pub vertices: Rc<V>,
    pub indices: Rc<I>,
    pub translation: [i64; 3],
}

/// Where the lowest corner of the chunk at `at` lies in the world, in
/// blocks.
pub open spec fn origin_of(at: ChunkCoordinate) -> [i64; 3] {
    [block_coord(at.0, 0), block_coord(at.1, 0), block_coord(at.2, 0)]
}

/// The buffers that a try at a draw call gave.
pub open spec fn buffers_of<V, I>(r: Result<DrawCall<V, I>, MeshCreationError>) -> Result<
    (Rc<V>, Rc<I>),
    MeshCreationError,
> {
    match r {
        Ok(call) => Ok((call.vertices, call.indices)),
        Err(e) => Err(e),
    }
}

/// A cuboid of chunks. The region holds one handle for each of its chunks,
/// which keeps them alive until the region is released.
pub struct CuboidRegion {
    start_pos: [i64; 3],
    chunks: HandleGrid,
}

impl CuboidRegion {
    /// The coordinate of the region's lowest corner.
    pub closed spec fn start(&self) -> ChunkCoordinate {
        (self.start_pos[0], self.start_pos[1], self.start_pos[2])
    }

    /// The number of chunks along each axis.
    pub closed spec fn shape(&self) -> (usize, usize, usize) {
        grid_shape(self.chunks)
    }

    /// The handles of the region's chunks, in the order in which the region
    /// is walked.
    pub closed spec fn handles(&self) -> Seq<ChunkHandle> {
        grid_cells(self.chunks)
    }

    /// Whether `(i, j, k)` names a cell of the region.
    pub open spec fn has_cell(&self, i: int, j: int, k: int) -> bool {
        0 <= i < self.shape().0 && 0 <= j < self.shape().1 && 0 <= k < self.shape().2
    }

    /// The place of cell `(i, j, k)` in the order in which the region is
    /// walked.
    pub open spec fn place(&self, i: int, j: int, k: int) -> int {
        cell_index(self.shape().1 as int, self.shape().2 as int, i, j, k)
    }

    /// The handle of the chunk in cell `(i, j, k)`.
    pub open spec fn handle_at(&self, i: int, j: int, k: int) -> ChunkHandle {
        self.handles()[self.place(i, j, k)]
    }

    /// The coordinate of the chunk in cell `(i, j, k)`.
    pub open spec fn coord_at(&self, i: int, j: int, k: int) -> ChunkCoordinate {
        ((self.start().0 + i) as i64, (self.start().1 + j) as i64, (self.start().2 + k) as i64)
    }

    /// What holds of every region: it has a chunk along every axis, one
    /// handle for each cell, and its coordinates are within range.
    pub open spec fn wf(&self) -> bool {
        &&& self.shape().0 > 0 && self.shape().1 > 0 && self.shape().2 > 0
        &&& self.handles().len() == self.shape().0 * self.shape().1 * self.shape().2
        &&& self.start().0 + self.shape().0 - 1 <= i64::MAX
        &&& self.start().1 + self.shape().1 - 1 <= i64::MAX
        &&& self.start().2 + self.shape().2 - 1 <= i64::MAX
    }

    /// Whether the region's handles name chunks that are alive in a cache,
    /// each at the coordinate of its cell.
    pub open spec fn held_by<V, I>(&self, entries: Seq<CacheEntry<V, I>>) -> bool {
        forall|i: int, j: int, k: int|
            self.has_cell(i, j, k) ==> holds_chunk(
                entries,
                #[trigger] self.handle_at(i, j, k),
                self.coord_at(i, j, k),
            )
    }

    /// The handle in cell `(i, j, k)`, or nothing where the region has no
    /// such cell.
    pub open spec fn cell(&self, i: int, j: int, k: int) -> Option<ChunkHandle> {
        if self.has_cell(i, j, k) {
            Some(self.handle_at(i, j, k))
        } else {
            None
        }
    }

    /// The neighbours of the chunk in cell `(i, j, k)`, as far as they lie
    /// in the region. Each stands at the index of the direction in which it
    /// looks at the chunk: the neighbour one step down the `y` axis looks
    /// at it towards `Front`, and so on.
    #[verifier::opaque]
    pub open spec fn adjacent(&self, i: int, j: int, k: int) -> [Option<ChunkHandle>; 6] {
        [
            self.cell(i, j - 1, k),
            self.cell(i, j, k - 1),
            self.cell(i - 1, j, k),
            self.cell(i, j + 1, k),
            self.cell(i, j, k + 1),
            self.cell(i + 1, j, k),
        ]
    }

    /// Whether `r` is what building the mesh of the chunk in cell
    /// `(i, j, k)` gave, with its neighbours in the region, on a world whose
    /// cache was `before` and is `after`.
    pub open spec fn drawn<V, I, UV, UI>(
        &self,
        before: Seq<CacheEntry<V, I>>,
        after: Seq<CacheEntry<V, I>>,
        catalog: Seq<BlockRenderData>,
        upload_vertices: UV,
        upload_indices: UI,
        i: int,
        j: int,
        k: int,
        r: Result<(Rc<V>, Rc<I>), MeshCreationError>,
    ) -> bool where
        UV: Fn(&Vec<Vertex>) -> Result<V, glium::vertex::BufferCreationError>,
        UI: Fn(&Vec<u16>) -> Result<I, glium::index::BufferCreationError>,
     {
        built(
            before[self.handle_at(i, j, k).slot as int].chunk,
            after[self.handle_at(i, j, k).slot as int].chunk,
            catalog,
            neighbor_grids(before, self.adjacent(i, j, k)),
            upload_vertices,
            upload_indices,
            r,
        )
    }

    /// Whether the region's handles are the answers to one request for each
    /// cell, made in the order in which the region is walked, on a world
    /// whose cache was `before` and is `after`.
    pub open spec fn fetched<F: Fn(i64, i64, i64) -> bool, V, I>(
        &self,
        density: F,
        before: Seq<CacheEntry<V, I>>,
        after: Seq<CacheEntry<V, I>>,
    ) -> bool {
        exists|trace: Seq<Seq<CacheEntry<V, I>>>, coords: Seq<ChunkCoordinate>|
            {
                &&& #[trigger] acquired_each(density, trace, coords, self.handles())
                &&& trace.first() == before
                &&& trace.last() == after
                &&& forall|i: int, j: int, k: int|
                    self.has_cell(i, j, k) ==> coords[#[trigger] self.place(i, j, k)]
                        == self.coord_at(i, j, k)
            }
    }

    /// Whether `calls` are the draw calls of all cells walked before cell
    /// `(i, j, k)`, and the chunks of the other cells have the blocks and
    /// the mesh they had.
    pub open spec fn drawn_before<V, I, UV, UI>(
        &self,
        before: Seq<CacheEntry<V, I>>,
        after: Seq<CacheEntry<V, I>>,
        catalog: Seq<BlockRenderData>,
        upload_vertices: UV,
        upload_indices: UI,
        calls: Seq<DrawCall<V, I>>,
        i: int,
        j: int,
        k: int,
    ) -> bool where
        UV: Fn(&Vec<Vertex>) -> Result<V, glium::vertex::BufferCreationError>,
        UI: Fn(&Vec<u16>) -> Result<I, glium::index::BufferCreationError>,
     {
        forall|a: int, b: int, c: int|
            self.has_cell(a, b, c) ==> if walked_before(a, b, c, i, j, k) {
                let m = #[trigger] self.place(a, b, c);
                &&& 0 <= m < calls.len()
                &&& calls[m].translation == origin_of(self.coord_at(a, b, c))
                &&& self.drawn(
                    before,
                    after,
                    catalog,
                    upload_vertices,
                    upload_indices,
                    a,
                    b,
                    c,
                    Ok((calls[m].vertices, calls[m].indices)),
                )
            } else {
                let slot = self.handle_at(a, b, c).slot as int;
                &&& after[slot].chunk.grid() == before[slot].chunk.grid()
                &&& after[slot].chunk.cached() == before[slot].chunk.cached()
            }
    }

    /// What drawing a region gives.
    ///
    /// Where every mesh could be built, there is one draw call for each
    /// cell, in the order in which the region is walked. Where the backend
    /// failed, its error is that of the first cell whose mesh could not be
    /// built; the cells before it have their meshes, and those after it are
    /// as they were.
    pub open spec fn drawn_all<V, I, UV, UI>(
        &self,
        before: Seq<CacheEntry<V, I>>,
        after: Seq<CacheEntry<V, I>>,
        catalog: Seq<BlockRenderData>,
        upload_vertices: UV,
        upload_indices: UI,
        r: Result<Vec<DrawCall<V, I>>, MeshCreationError>,
    ) -> bool where
        UV: Fn(&Vec<Vertex>) -> Result<V, glium::vertex::BufferCreationError>,
        UI: Fn(&Vec<u16>) -> Result<I, glium::index::BufferCreationError>,
     {
        match r {
            Ok(calls) => {
                &&& calls@.len() == self.handles().len()
                &&& self.drawn_before(
                    before,
                    after,
                    catalog,
                    upload_vertices,
                    upload_indices,
                    calls@,
                    self.shape().0 as int,
                    0,
                    0,
                )
            },
            Err(e) => exists|i: int, j: int, k: int, calls: Seq<DrawCall<V, I>>|
                {
                    &&& self.has_cell(i, j, k)
                    &&& #[trigger] self.drawn_before(
                        before,
                        after,
                        catalog,
                        upload_vertices,
                        upload_indices,
                        calls,
                        i,
                        j,
                        k,
                    )
                    &&& self.drawn(
                        before,
                        after,
                        catalog,
                        upload_vertices,
                        upload_indices,
                        i,
                        j,
                        k,
                        Err(e),
                    )
                },
        }
    }

    /// Whether a world whose cache was `before` and is `after` has been
    /// given the region's handles back, one for each cell, in the order in
    /// which the region is walked.
    pub open spec fn given_back<V, I>(
        &self,
        before: Seq<CacheEntry<V, I>>,
        after: Seq<CacheEntry<V, I>>,
    ) -> bool {
        exists|trace: Seq<Seq<CacheEntry<V, I>>>|
            {
                &&& #[trigger] released_each(trace, self.handles())
                &&& trace.first() == before
                &&& trace.last() == after
            }
    }
}

/// The number of coordinates in the span between two coordinates.
fn span_len(a: i64, b: i64) -> (n: u128)
    ensures
        n == extent(a, b),
        n >= 1,
{
    let (lo, hi) = if b >= a {
        (a, b)
    } else {
        (b, a)
    };
    (hi as i128 - lo as i128 + 1) as u128
}

/// The lower end and the length of the span between two coordinates.
fn span(a: i64, b: i64) -> (r: (i64, usize))
    requires
        extent(a, b) <= usize::MAX,
    ensures
        r.0 == low(a, b),
        r.1 == extent(a, b),
        r.1 >= 1,
        r.0 + r.1 - 1 <= i64::MAX,
{
    let lo = if b >= a {
        a
    } else {
        b
    };
    (lo, span_len(a, b) as usize)
}

/// The number of chunks in the cuboid between two corners, if that number
/// fits a `usize`: whether a region can be made for the corners.
pub fn volume(
    start_x: i64,
    start_y: i64,
    start_z: i64,
    end_x: i64,
    end_y: i64,
    end_z: i64,
) -> (r: Option<usize>)
    ensures
        r == (if extent(start_x, end_x) * extent(start_y, end_y) * extent(start_z, end_z)
            <= usize::MAX {
            Some(
                (extent(start_x, end_x) * extent(start_y, end_y) * extent(start_z, end_z)) as usize,
            )
        } else {
            None
        }),
{
    let n_x = span_len(start_x, end_x);
    let n_y = span_len(start_y, end_y);
    let n_z = span_len(start_z, end_z);
    let limit: u128 = usize::MAX as u128;
    proof {
        let (ex, ey, ez) = (n_x as int, n_y as int, n_z as int);
        assert(ex <= ex * ey && ey <= ex * ey && ex * ey <= ex * ey * ez && ez <= ex * ey * ez)
            by (nonlinear_arith)
            requires
                ex >= 1 && ey >= 1 && ez >= 1,
        ;
    }
    if n_x > limit || n_y > limit || n_z > limit {
        return None;
    }
    assert(n_x * n_y <= 0xffff_ffff_ffff_ffff * 0xffff_ffff_ffff_ffff) by (nonlinear_arith)
        requires
            n_x <= 0xffff_ffff_ffff_ffff,
            n_y <= 0xffff_ffff_ffff_ffff,
    ;
    let base = n_x * n_y;
    if base > limit {
        return None;
    }
    assert(base * n_z <= 0xffff_ffff_ffff_ffff * 0xffff_ffff_ffff_ffff) by (nonlinear_arith)
        requires
            base <= 0xffff_ffff_ffff_ffff,
            n_z <= 0xffff_ffff_ffff_ffff,
    ;
    let all = base * n_z;
    if all > limit {
        None
    } else {
        Some(all as usize)
    }
}

/// The coordinate `offset` steps above `low`.
fn offset_coord(low: i64, offset: usize) -> (r: i64)
    requires
        low + offset <= i64::MAX,
    ensures
        r == low + offset,
{
    (low as i128 + offset as i128) as i64
}

/// The places of a region's cells follow the order in which it is walked:
/// the step from one cell to the next, along `z`, then `y`, then `x`, is a
/// step of one place.
proof fn lemma_place_steps(ny: int, nz: int, i: int, j: int)
    ensures
        cell_index(ny, nz, i, j, nz) == cell_index(ny, nz, i, j + 1, 0),
        cell_index(ny, nz, i, ny, 0) == cell_index(ny, nz, i + 1, 0, 0),
        cell_index(ny, nz, 0, 0, 0) == 0,
        cell_index(ny, nz, i, 0, 0) == i * ny * nz,
{
    assert((i * ny + j) * nz + nz == (i * ny + j + 1) * nz) by (nonlinear_arith);
    assert((i * ny + ny) * nz == ((i + 1) * ny) * nz) by (nonlinear_arith);
    assert((i * ny + 0) * nz + 0 == i * ny * nz) by (nonlinear_arith);
    assert((0 * ny + 0) * nz + 0 == 0) by (nonlinear_arith);
}

/// The place of a cell is not negative and below the number of cells.
proof fn lemma_place_in_range(nx: int, ny: int, nz: int, i: int, j: int, k: int)
    requires
        0 <= i < nx,
        0 <= j < ny,
        0 <= k < nz,
    ensures
        0 <= cell_index(ny, nz, i, j, k) < nx * ny * nz,
{
    assert(0 <= i * ny + j <= nx * ny - 1) by (nonlinear_arith)
        requires
            0 <= i < nx,
            0 <= j < ny,
    ;
    let row = i * ny + j;
    let rows = nx * ny;
    assert(0 <= row * nz + k < rows * nz) by (nonlinear_arith)
        requires
            0 <= row <= rows - 1,
            0 <= k < nz,
    ;
}

/// What holds while a region is fetched, when the walk stands before cell
/// `(i, j, k)`: the cells walked so far have their handles, in order, each
/// handle names a chunk that is alive at the coordinate of its cell, and the
/// world has gone through one request for each of them.
spec fn fetching<F: Fn(i64, i64, i64) -> bool, V, I>(
    density: F,
    start: Seq<CacheEntry<V, I>>,
    now: Seq<CacheEntry<V, I>>,
    trace: Seq<Seq<CacheEntry<V, I>>>,
    coords: Seq<ChunkCoordinate>,
    cells: Seq<ChunkHandle>,
    lows: ChunkCoordinate,
    shape: (int, int, int),
    i: int,
    j: int,
    k: int,
) -> bool {
    &&& cells.len() == cell_index(shape.1, shape.2, i, j, k)
    &&& acquired_each(density, trace, coords, cells)
    &&& trace.first() == start
    &&& trace.last() == now
    &&& forall|a: int, b: int, c: int|
        0 <= a < shape.0 && 0 <= b < shape.1 && 0 <= c < shape.2 && walked_before(a, b, c, i, j, k)
            ==> {
            let m = #[trigger] cell_index(shape.1, shape.2, a, b, c);
            &&& 0 <= m < cells.len()
            &&& coords[m] == ((lows.0 + a) as i64, (lows.1 + b) as i64, (lows.2 + c) as i64)
            &&& holds_chunk(now, cells[m], coords[m])
        }
}

/// One step of fetching: the request for the chunk of cell `(i, j, k)`
/// moves the walk on by one cell.
proof fn lemma_fetch_step<F: Fn(i64, i64, i64) -> bool, V, I>(
    density: F,
    start: Seq<CacheEntry<V, I>>,
    before: Seq<CacheEntry<V, I>>,
    after: Seq<CacheEntry<V, I>>,
    trace: Seq<Seq<CacheEntry<V, I>>>,
    coords: Seq<ChunkCoordinate>,
    cells: Seq<ChunkHandle>,
    lows: ChunkCoordinate,
    shape: (int, int, int),
    i: int,
    j: int,
    k: int,
    at: ChunkCoordinate,
    handle: ChunkHandle,
)
    requires
        fetching(density, start, before, trace, coords, cells, lows, shape, i, j, k),
        well_formed(before),
        0 <= i < shape.0 && 0 <= j < shape.1 && 0 <= k < shape.2,
        at == ((lows.0 + i) as i64, (lows.1 + j) as i64, (lows.2 + k) as i64),
        acquired(density, before, after, at, handle),
    ensures
        fetching(
            density,
            start,
            after,
            trace.push(after),
            coords.push(at),
            cells.push(handle),
            lows,
            shape,
            i,
            j,
            k + 1,
        ),
{
    let new_trace = trace.push(after);
    let new_coords = coords.push(at);
    let new_cells = cells.push(handle);
    lemma_acquired_is_cached(density, before, after, at, handle);
    assert forall|n: int| 0 <= n < new_coords.len() implies #[trigger] acquired(
        density,
        new_trace[n],
        new_trace[n + 1],
        new_coords[n],
        new_cells[n],
    ) by {
        if n < coords.len() {
            assert(acquired(density, trace[n], trace[n + 1], coords[n], cells[n]));
        }
    }
    assert forall|a: int, b: int, c: int|
        0 <= a < shape.0 && 0 <= b < shape.1 && 0 <= c < shape.2 && walked_before(
            a,
            b,
            c,
            i,
            j,
            k + 1,
        ) implies {
        let m = #[trigger] cell_index(shape.1, shape.2, a, b, c);
        &&& 0 <= m < new_cells.len()
        &&& new_coords[m] == ((lows.0 + a) as i64, (lows.1 + b) as i64, (lows.2 + c) as i64)
        &&& holds_chunk(after, new_cells[m], new_coords[m])
    } by {
        let m = cell_index(shape.1, shape.2, a, b, c);
        if walked_before(a, b, c, i, j, k) {
            assert(0 <= m < cells.len());
            lemma_acquired_keeps_held(density, before, after, at, handle, cells[m], coords[m]);
        } else {
            assert(a == i && b == j && c == k);
        }
    }
}

/// What holds while a region is given back, when `n` handles have been
/// given back.
spec fn releasing<V, I>(
    start: Seq<CacheEntry<V, I>>,
    now: Seq<CacheEntry<V, I>>,
    trace: Seq<Seq<CacheEntry<V, I>>>,
    handles: Seq<ChunkHandle>,
    n: int,
) -> bool {
    &&& trace.len() == n + 1
    &&& trace.first() == start
    &&& trace.last() == now
    &&& forall|m: int| 0 <= m < n ==> #[trigger] released(trace[m], trace[m + 1], handles[m])
}

/// One step of giving back: giving back handle `n` moves on by one handle.
proof fn lemma_release_step<V, I>(
    start: Seq<CacheEntry<V, I>>,
    before: Seq<CacheEntry<V, I>>,
    after: Seq<CacheEntry<V, I>>,
    trace: Seq<Seq<CacheEntry<V, I>>>,
    handles: Seq<ChunkHandle>,
    n: int,
)
    requires
        0 <= n,
        releasing(start, before, trace, handles, n),
        released(before, after, handles[n]),
    ensures
        releasing(start, after, trace.push(after), handles, n + 1),
{
    let new_trace = trace.push(after);
    assert forall|m: int| 0 <= m < n + 1 implies #[trigger] released(
        new_trace[m],
        new_trace[m + 1],
        handles[m],
    ) by {
        if m < n {
            assert(released(trace[m], trace[m + 1], handles[m]));
        }
    }
}

impl CuboidRegion {
    /// Fetches the chunks of the cuboid between two corners. The corners may
    /// be given in either order, along each axis.
    ///
    /// The chunks are requested from the world one by one, in the order in
    /// which the region is walked, and are held until the region is
    /// released.
    pub fn new<F: Fn(i64, i64, i64) -> bool, V, I>(
        world: &mut World<F, V, I>,
        start_x: i64,
        start_y: i64,
        start_z: i64,
        end_x: i64,
        end_y: i64,
        end_z: i64,
    ) -> (region: CuboidRegion)
        requires
            old(world).wf(),
            extent(start_x, end_x) * extent(start_y, end_y) * extent(start_z, end_z) <= usize::MAX,
        ensures
            region.wf(),
            region.start() == (low(start_x, end_x), low(start_y, end_y), low(start_z, end_z)),
            region.shape().0 == extent(start_x, end_x),
            region.shape().1 == extent(start_y, end_y),
            region.shape().2 == extent(start_z, end_z),
            final(world).wf(),
            final(world).density() == old(world).density(),
            region.fetched(old(world).density(), old(world).entries(), final(world).entries()),
            region.held_by(final(world).entries()),
            nothing_lost(old(world).entries(), final(world).entries()),
    {
        proof {
            let (ex, ey, ez) = (
                extent(start_x, end_x),
                extent(start_y, end_y),
                extent(start_z, end_z),
            );
            assert(ex <= ex * ey * ez && ey <= ex * ey * ez && ez <= ex * ey * ez && ex * ey <= ex * ey
                * ez) by (nonlinear_arith)
                requires
                    ex >= 1 && ey >= 1 && ez >= 1,
            ;
        }
        let (s_x, n_x) = span(start_x, end_x);
        let (s_y, n_y) = span(start_y, end_y);
        let (s_z, n_z) = span(start_z, end_z);
        let ghost shape = (n_x as int, n_y as int, n_z as int);
        let ghost lows = (s_x, s_y, s_z);
        let ghost density = world.density();
        let ghost start = world.entries();
        let ghost mut trace: Seq<Seq<CacheEntry<V, I>>> = seq![world.entries()];
        let ghost mut coords: Seq<ChunkCoordinate> = Seq::empty();
        let mut cells: Vec<ChunkHandle> = Vec::with_capacity(n_x * n_y * n_z);
        proof {
            lemma_place_steps(shape.1, shape.2, 0, 0);
        }
        let mut i: usize = 0;
        while i < n_x
            invariant
                i <= n_x,
                shape == (n_x as int, n_y as int, n_z as int),
                lows == (s_x, s_y, s_z),
                n_y >= 1 && n_z >= 1,
                s_x + n_x - 1 <= i64::MAX && s_y + n_y - 1 <= i64::MAX && s_z + n_z - 1 <= i64::MAX,
                world.wf(),
                world.density() == density,
                nothing_lost(start, world.entries()),
                fetching(
                    density,
                    start,
                    world.entries(),
                    trace,
                    coords,
                    cells@,
                    lows,
                    shape,
                    i as int,
                    0,
                    0,
                ),
            decreases n_x - i,
        {
            let mut j: usize = 0;
            while j < n_y
                invariant
                    i < n_x,
                    j <= n_y,
                    shape == (n_x as int, n_y as int, n_z as int),
                    lows == (s_x, s_y, s_z),
                    n_y >= 1 && n_z >= 1,
                    s_x + n_x - 1 <= i64::MAX && s_y + n_y - 1 <= i64::MAX && s_z + n_z - 1
                        <= i64::MAX,
                    world.wf(),
                    world.density() == density,
                    nothing_lost(start, world.entries()),
                    fetching(
                        density,
                        start,
                        world.entries(),
                        trace,
                        coords,
                        cells@,
                        lows,
                        shape,
                        i as int,
                        j as int,
                        0,
                    ),
                decreases n_y - j,
            {
                let mut k: usize = 0;
                while k < n_z
                    invariant
                        i < n_x,
                        j < n_y,
                        k <= n_z,
                        shape == (n_x as int, n_y as int, n_z as int),
                        lows == (s_x, s_y, s_z),
                        n_y >= 1 && n_z >= 1,
                        s_x + n_x - 1 <= i64::MAX && s_y + n_y - 1 <= i64::MAX && s_z + n_z - 1
                            <= i64::MAX,
                        world.wf(),
                        world.density() == density,
                        nothing_lost(start, world.entries()),
                        fetching(
                            density,
                            start,
                            world.entries(),
                            trace,
                            coords,
                            cells@,
                            lows,
                            shape,
                            i as int,
                            j as int,
                            k as int,
                        ),
                    decreases n_z - k,
                {
                    let x = offset_coord(s_x, i);
                    let y = offset_coord(s_y, j);
                    let z = offset_coord(s_z, k);
                    let ghost before = world.entries();
                    let ghost fetched = cells@;
                    let handle = world.get_chunk(x, y, z);
                    cells.push(handle);
                    proof {
                        lemma_nothing_lost_onwards(start, before, world.entries());
                        lemma_fetch_step(
                            density,
                            start,
                            before,
                            world.entries(),
                            trace,
                            coords,
                            fetched,
                            lows,
                            shape,
                            i as int,
                            j as int,
                            k as int,
                            (x, y, z),
                            handle,
                        );
                        trace = trace.push(world.entries());
                        coords = coords.push((x, y, z));
                    }
                    k += 1;
                }
                proof {
                    lemma_place_steps(shape.1, shape.2, i as int, j as int);
                }
                j += 1;
            }
            proof {
                lemma_place_steps(shape.1, shape.2, i as int, 0);
            }
            i += 1;
        }
        proof {
            lemma_place_steps(shape.1, shape.2, shape.0, 0);
        }
        let region = match grid_from_vec(n_x, n_y, n_z, cells) {
            Ok(chunks) => CuboidRegion { start_pos: [s_x, s_y, s_z], chunks },
            Err(_) => vstd::pervasive::unreached(),
        };
        proof {
            assert forall|a: int, b: int, c: int| region.has_cell(a, b, c) implies coords[
            #[trigger] region.place(a, b, c)] == region.coord_at(a, b, c) && holds_chunk(
                world.entries(),
                region.handle_at(a, b, c),
                region.coord_at(a, b, c),
            ) by {
                assert(walked_before(a, b, c, shape.0, 0, 0));
            }
            assert(acquired_each(density, trace, coords, region.handles()));
        }
        region
    }

    /// The number of chunks along each axis.
    pub fn dim(&self) -> (r: (usize, usize, usize))
        ensures
            r == self.shape(),
    {
        grid_dim(&self.chunks)
    }

    /// The coordinate of the region's lowest corner.
    pub fn start_pos(&self) -> (r: [i64; 3])
        ensures
            (r[0], r[1], r[2]) == self.start(),
    {
        self.start_pos
    }

    /// The handle in cell `(i, j, k)`, or nothing where the region has no
    /// such cell.
    pub fn handle(&self, i: usize, j: usize, k: usize) -> (r: Option<ChunkHandle>)
        ensures
            r == self.cell(i as int, j as int, k as int),
    {
        grid_get(&self.chunks, i, j, k)
    }

    /// Whether the region's handles name chunks that are alive in `world`,
    /// each at the coordinate of its cell: whether the region was fetched
    /// from this world and has not been given back.
    pub fn is_held<F: Fn(i64, i64, i64) -> bool, V, I>(&self, world: &World<F, V, I>) -> (r: bool)
        requires
            self.wf(),
        ensures
            r == self.held_by(world.entries()),
    {
        let (n_x, n_y, n_z) = self.dim();
        let mut i: usize = 0;
        while i < n_x
            invariant
                i <= n_x,
                (n_x, n_y, n_z) == self.shape(),
                self.wf(),
                forall|a: int, b: int, c: int|
                    self.has_cell(a, b, c) && walked_before(a, b, c, i as int, 0, 0)
                        ==> holds_chunk(
                        world.entries(),
                        #[trigger] self.handle_at(a, b, c),
                        self.coord_at(a, b, c),
                    ),
            decreases n_x - i,
        {
            let mut j: usize = 0;
            while j < n_y
                invariant
                    i < n_x,
                    j <= n_y,
                    (n_x, n_y, n_z) == self.shape(),
                    self.wf(),
                    forall|a: int, b: int, c: int|
                        self.has_cell(a, b, c) && walked_before(a, b, c, i as int, j as int, 0)
                            ==> holds_chunk(
                            world.entries(),
                            #[trigger] self.handle_at(a, b, c),
                            self.coord_at(a, b, c),
                        ),
                decreases n_y - j,
            {
                let mut k: usize = 0;
                while k < n_z
                    invariant
                        i < n_x,
                        j < n_y,
                        k <= n_z,
                        (n_x, n_y, n_z) == self.shape(),
                        self.wf(),
                        forall|a: int, b: int, c: int|
                            self.has_cell(a, b, c) && walked_before(
                                a,
                                b,
                                c,
                                i as int,
                                j as int,
                                k as int,
                            ) ==> holds_chunk(
                                world.entries(),
                                #[trigger] self.handle_at(a, b, c),
                                self.coord_at(a, b, c),
                            ),
                    decreases n_z - k,
                {
                    let handle = match self.handle(i, j, k) {
                        Some(h) => h,
                        None => vstd::pervasive::unreached(),
                    };
                    let x = offset_coord(self.start_pos[0], i);
                    let y = offset_coord(self.start_pos[1], j);
                    let z = offset_coord(self.start_pos[2], k);
                    let held = match world.coord_of(handle) {
                        Some(at) => at.0 == x && at.1 == y && at.2 == z,
                        None => false,
                    };
                    if !held {
                        assert(self.has_cell(i as int, j as int, k as int));
                        assert(!holds_chunk(
                            world.entries(),
                            self.handle_at(i as int, j as int, k as int),
                            self.coord_at(i as int, j as int, k as int),
                        ));
                        return false;
                    }
                    k += 1;
                }
                j += 1;
            }
            i += 1;
        }
        true
    }

    /// The neighbours of the chunk in cell `(i, j, k)`.
    fn neighbors(&self, i: usize, j: usize, k: usize) -> (adj: [Option<ChunkHandle>; 6])
        requires
            self.has_cell(i as int, j as int, k as int),
        ensures
            adj == self.adjacent(i as int, j as int, k as int),
    {
        let front = if j > 0 {
            self.handle(i, j - 1, k)
        } else {
            None
        };
        let up = if k > 0 {
            self.handle(i, j, k - 1)
        } else {
            None
        };
        let right = if i > 0 {
            self.handle(i - 1, j, k)
        } else {
            None
        };
        let adj = [front, up, right, self.handle(i, j + 1, k), self.handle(i, j, k + 1), self.handle(
                i + 1,
                j,
                k,
            )];
        proof {
            reveal(CuboidRegion::adjacent);
            assert(adj =~= self.adjacent(i as int, j as int, k as int));
        }
        adj
    }

    /// Builds or reuses the mesh of the chunk in cell `(i, j, k)` and says
    /// where to draw it.
    ///
    /// The chunk's neighbours are those that lie in the region: at the
    /// region's border the chunk is meshed as if nothing lay beyond it.
    pub fn draw_chunk<F: Fn(i64, i64, i64) -> bool, V, I, UV, UI>(
        &self,
        world: &mut World<F, V, I>,
        i: usize,
        j: usize,
        k: usize,
        block_render_data: &[BlockRenderData],
        upload_vertices: &UV,
        upload_indices: &UI,
    ) -> (r: Result<DrawCall<V, I>, MeshCreationError>) where
        UV: Fn(&Vec<Vertex>) -> Result<V, glium::vertex::BufferCreationError>,
        UI: Fn(&Vec<u16>) -> Result<I, glium::index::BufferCreationError>,

        requires
            self.wf(),
            old(world).wf(),
            self.held_by(old(world).entries()),
            self.has_cell(i as int, j as int, k as int),
            block_render_data@.len() >= GENERATED_TYPES,
            accepts_all(*upload_vertices),
            accepts_all(*upload_indices),
        ensures
            final(world).wf(),
            final(world).density() == old(world).density(),
            only_meshes_changed(old(world).entries(), final(world).entries()),
            forall|n: int|
                0 <= n < old(world).entries().len() && n != self.handle_at(
                    i as int,
                    j as int,
                    k as int,
                ).slot ==> final(world).entries()[n] == old(world).entries()[n],
            self.held_by(final(world).entries()),
            self.drawn(
                old(world).entries(),
                final(world).entries(),
                block_render_data@,
                *upload_vertices,
                *upload_indices,
                i as int,
                j as int,
                k as int,
                buffers_of(r),
            ),
            r matches Ok(call) ==> call.translation == origin_of(
                self.coord_at(i as int, j as int, k as int),
            ),
    {
        let ghost before = world.entries();
        let adj = self.neighbors(i, j, k);
        let handle = match self.handle(i, j, k) {
            Some(h) => h,
            None => vstd::pervasive::unreached(),
        };
        assert(holds_chunk(
            before,
            self.handle_at(i as int, j as int, k as int),
            self.coord_at(i as int, j as int, k as int),
        ));
        let built =
            world.build_mesh(handle, adj, block_render_data, upload_vertices, upload_indices);
        proof {
            let after = world.entries();
            assert forall|a: int, b: int, c: int| self.has_cell(a, b, c) implies holds_chunk(
                after,
                #[trigger] self.handle_at(a, b, c),
                self.coord_at(a, b, c),
            ) by {
                assert(holds_chunk(before, self.handle_at(a, b, c), self.coord_at(a, b, c)));
            }
        }
        match built {
            Ok((vertices, indices)) => {
                let side: i64 = CHUNK_SIZE as i64;
                let x = offset_coord(self.start_pos[0], i);
                let y = offset_coord(self.start_pos[1], j);
                let z = offset_coord(self.start_pos[2], k);
                let translation =
                    [side.wrapping_mul(x), side.wrapping_mul(y), side.wrapping_mul(z)];
                assert(translation =~= origin_of(self.coord_at(i as int, j as int, k as int)));
                Ok(DrawCall { vertices, indices, translation })
            },
            Err(e) => Err(e),
        }
    }

    /// Builds or reuses the mesh of every chunk of the region and says where
    /// to draw each: one draw call for each chunk, `x` outermost and `z`
    /// innermost. Stops at the first mesh that the backend fails to take,
    /// with the backend's error.
    pub fn draw<F: Fn(i64, i64, i64) -> bool, V, I, UV, UI>(
        &self,
        world: &mut World<F, V, I>,
        block_render_data: &[BlockRenderData],
        upload_vertices: &UV,
        upload_indices: &UI,
    ) -> (r: Result<Vec<DrawCall<V, I>>, MeshCreationError>) where
        UV: Fn(&Vec<Vertex>) -> Result<V, glium::vertex::BufferCreationError>,
        UI: Fn(&Vec<u16>) -> Result<I, glium::index::BufferCreationError>,

        requires
            self.wf(),
            old(world).wf(),
            self.held_by(old(world).entries()),
            block_render_data@.len() >= GENERATED_TYPES,
            accepts_all(*upload_vertices),
            accepts_all(*upload_indices),
        ensures
            final(world).wf(),
            final(world).density() == old(world).density(),
            only_meshes_changed(old(world).entries(), final(world).entries()),
            self.held_by(final(world).entries()),
            self.drawn_all(
                old(world).entries(),
                final(world).entries(),
                block_render_data@,
                *upload_vertices,
                *upload_indices,
                r,
            ),
    {
        let ghost start = world.entries();
        let ghost density = world.density();
        let ghost catalog = block_render_data@;
        let (n_x, n_y, n_z) = self.dim();
        let ghost ny = n_y as int;
        let ghost nz = n_z as int;
        let mut calls: Vec<DrawCall<V, I>> = Vec::new();
        proof {
            lemma_place_steps(ny, nz, 0, 0);
        }
        let mut i: usize = 0;
        while i < n_x
            invariant
                i <= n_x,
                (n_x, n_y, n_z) == self.shape(),
                ny == n_y && nz == n_z,
                catalog == block_render_data@,
                self.wf(),
                world.wf(),
                world.density() == density,
                start == old(world).entries(),
                density == old(world).density(),
                well_formed(start),
                self.held_by(start),
                self.held_by(world.entries()),
                only_meshes_changed(start, world.entries()),
                block_render_data@.len() >= GENERATED_TYPES,
                accepts_all(*upload_vertices),
                accepts_all(*upload_indices),
                calls@.len() == cell_index(ny, nz, i as int, 0, 0),
                self.drawn_before(
                    start,
                    world.entries(),
                    catalog,
                    *upload_vertices,
                    *upload_indices,
                    calls@,
                    i as int,
                    0,
                    0,
                ),
            decreases n_x - i,
        {
            let mut j: usize = 0;
            while j < n_y
                invariant
                    i < n_x,
                    j <= n_y,
                    (n_x, n_y, n_z) == self.shape(),
                    ny == n_y && nz == n_z,
                    catalog == block_render_data@,
                    self.wf(),
                    world.wf(),
                    world.density() == density,
                    start == old(world).entries(),
                    density == old(world).density(),
                    well_formed(start),
                    self.held_by(start),
                    self.held_by(world.entries()),
                    only_meshes_changed(start, world.entries()),
                    block_render_data@.len() >= GENERATED_TYPES,
                    accepts_all(*upload_vertices),
                    accepts_all(*upload_indices),
                    calls@.len() == cell_index(ny, nz, i as int, j as int, 0),
                    self.drawn_before(
                        start,
                        world.entries(),
                        catalog,
                        *upload_vertices,
                        *upload_indices,
                        calls@,
                        i as int,
                        j as int,
                        0,
                    ),
                decreases n_y - j,
            {
                let mut k: usize = 0;
                while k < n_z
                    invariant
                        i < n_x,
                        j < n_y,
                        k <= n_z,
                        (n_x, n_y, n_z) == self.shape(),
                        ny == n_y && nz == n_z,
                        catalog == block_render_data@,
                        self.wf(),
                        world.wf(),
                        world.density() == density,
                        start == old(world).entries(),
                        density == old(world).density(),
                        well_formed(start),
                        self.held_by(start),
                        self.held_by(world.entries()),
                        only_meshes_changed(start, world.entries()),
                        block_render_data@.len() >= GENERATED_TYPES,
                        accepts_all(*upload_vertices),
                        accepts_all(*upload_indices),
                        calls@.len() == cell_index(ny, nz, i as int, j as int, k as int),
                        self.drawn_before(
                            start,
                            world.entries(),
                            catalog,
                            *upload_vertices,
                            *upload_indices,
                            calls@,
                            i as int,
                            j as int,
                            k as int,
                        ),
                    decreases n_z - k,
                {
                    let ghost before = world.entries();
                    let ghost made = calls@;
                    let r = self.draw_chunk(
                        world,
                        i,
                        j,
                        k,
                        block_render_data,
                        upload_vertices,
                        upload_indices,
                    );
                    proof {
                        self.lemma_draw_step(
                            start,
                            before,
                            world.entries(),
                            catalog,
                            *upload_vertices,
                            *upload_indices,
                            made,
                            i as int,
                            j as int,
                            k as int,
                            r,
                        );
                    }
                    match r {
                        Ok(call) => {
                            calls.push(call);
                        },
                        Err(e) => {
                            return Err(e);
                        },
                    }
                    k += 1;
                }
                proof {
                    lemma_place_steps(ny, nz, i as int, j as int);
                }
                j += 1;
            }
            proof {
                lemma_place_steps(ny, nz, i as int, 0);
            }
            i += 1;
        }
        proof {
            lemma_place_steps(ny, nz, n_x as int, 0);
        }
        Ok(calls)
    }

    /// One step of drawing: after the chunk in cell `(i, j, k)` has been
    /// tried, the cells before it are drawn as they were, and the cell
    /// itself is drawn if the try went well.
    proof fn lemma_draw_step<V, I, UV, UI>(
        &self,
        start: Seq<CacheEntry<V, I>>,
        before: Seq<CacheEntry<V, I>>,
        after: Seq<CacheEntry<V, I>>,
        catalog: Seq<BlockRenderData>,
        upload_vertices: UV,
        upload_indices: UI,
        made: Seq<DrawCall<V, I>>,
        i: int,
        j: int,
        k: int,
        r: Result<DrawCall<V, I>, MeshCreationError>,
    ) where
        UV: Fn(&Vec<Vertex>) -> Result<V, glium::vertex::BufferCreationError>,
        UI: Fn(&Vec<u16>) -> Result<I, glium::index::BufferCreationError>,

        requires
            self.wf(),
            self.has_cell(i, j, k),
            self.held_by(start),
            self.held_by(before),
            well_formed(start),
            only_meshes_changed(start, before),
            only_meshes_changed(before, after),
            forall|n: int|
                0 <= n < before.len() && n != self.handle_at(i, j, k).slot ==> after[n] == before[n],
            made.len() == self.place(i, j, k),
            self.drawn_before(start, before, catalog, upload_vertices, upload_indices, made, i, j, k),
            self.drawn(before, after, catalog, upload_vertices, upload_indices, i, j, k, buffers_of(r)),
            r matches Ok(call) ==> call.translation == origin_of(self.coord_at(i, j, k)),
        ensures
            only_meshes_changed(start, after),
            (match r {
                Ok(call) => self.drawn_before(
                    start,
                    after,
                    catalog,
                    upload_vertices,
                    upload_indices,
                    made.push(call),
                    i,
                    j,
                    k + 1,
                ),
                Err(e) => self.drawn_all(
                    start,
                    after,
                    catalog,
                    upload_vertices,
                    upload_indices,
                    Err::<Vec<DrawCall<V, I>>, MeshCreationError>(e),
                ),
            }),
    {
        let slot = self.handle_at(i, j, k).slot as int;
        assert(holds_chunk(start, self.handle_at(i, j, k), self.coord_at(i, j, k)));
        assert(holds_chunk(before, self.handle_at(i, j, k), self.coord_at(i, j, k)));
        assert(neighbor_grids(before, self.adjacent(i, j, k)) =~= neighbor_grids(
            start,
            self.adjacent(i, j, k),
        ));
        assert(!walked_before(i, j, k, i, j, k));
        lemma_chunk_extensional(before[slot].chunk, start[slot].chunk);
        assert(self.drawn(start, after, catalog, upload_vertices, upload_indices, i, j, k, buffers_of(r)));
        let calls = match r {
            Ok(call) => made.push(call),
            Err(_) => made,
        };
        let limit = match r {
            Ok(_) => k + 1,
            Err(_) => k,
        };
        assert forall|a: int, b: int, c: int| self.has_cell(a, b, c) implies if walked_before(
            a,
            b,
            c,
            i,
            j,
            limit,
        ) {
            let m = #[trigger] self.place(a, b, c);
            &&& 0 <= m < calls.len()
            &&& calls[m].translation == origin_of(self.coord_at(a, b, c))
            &&& self.drawn(
                start,
                after,
                catalog,
                upload_vertices,
                upload_indices,
                a,
                b,
                c,
                Ok((calls[m].vertices, calls[m].indices)),
            )
        } else {
            let s = self.handle_at(a, b, c).slot as int;
            &&& after[s].chunk.grid() == start[s].chunk.grid()
            &&& after[s].chunk.cached() == start[s].chunk.cached()
        } by {
            let s = self.handle_at(a, b, c).slot as int;
            let m = self.place(a, b, c);
            assert(holds_chunk(start, self.handle_at(a, b, c), self.coord_at(a, b, c)));
            if a == i && b == j && c == k {
            } else {
                assert(self.coord_at(a, b, c) != self.coord_at(i, j, k));
                assert(s != slot);
                assert(after[s] == before[s]);
                if walked_before(a, b, c, i, j, k) {
                    assert(0 <= m < made.len());
                    assert(calls[m] == made[m]);
                    assert(self.drawn(
                        start,
                        before,
                        catalog,
                        upload_vertices,
                        upload_indices,
                        a,
                        b,
                        c,
                        Ok((made[m].vertices, made[m].indices)),
                    ));
                } else {
                    assert(before[s].chunk.grid() == start[s].chunk.grid());
                }
            }
        }
        match r {
            Ok(call) => {
                assert(self.drawn_before(
                    start,
                    after,
                    catalog,
                    upload_vertices,
                    upload_indices,
                    made.push(call),
                    i,
                    j,
                    k + 1,
                ));
            },
            Err(e) => {
                assert(self.drawn_before(
                    start,
                    after,
                    catalog,
                    upload_vertices,
                    upload_indices,
                    made,
                    i,
                    j,
                    k,
                ));
                assert(buffers_of(r) == Err::<(Rc<V>, Rc<I>), MeshCreationError>(e));
            },
        }
    }

    /// Gives the region's handles back to the world, in the order in which
    /// the region is walked. The chunks that nothing else holds are no
    /// longer alive afterwards.
    pub fn release<F: Fn(i64, i64, i64) -> bool, V, I>(self, world: &mut World<F, V, I>)
        requires
            self.wf(),
            old(world).wf(),
        ensures
            final(world).wf(),
            final(world).density() == old(world).density(),
            self.given_back(old(world).entries(), final(world).entries()),
    {
        let (n_x, n_y, n_z) = self.dim();
        let ghost ny = n_y as int;
        let ghost nz = n_z as int;
        let ghost start = world.entries();
        let ghost mut trace: Seq<Seq<CacheEntry<V, I>>> = seq![world.entries()];
        proof {
            lemma_place_steps(ny, nz, 0, 0);
        }
        let mut i: usize = 0;
        while i < n_x
            invariant
                i <= n_x,
                (n_x, n_y, n_z) == self.shape(),
                ny == n_y && nz == n_z,
                start == old(world).entries(),
                self.wf(),
                world.wf(),
                world.density() == old(world).density(),
                releasing(
                    start,
                    world.entries(),
                    trace,
                    self.handles(),
                    cell_index(ny, nz, i as int, 0, 0),
                ),
            decreases n_x - i,
        {
            let mut j: usize = 0;
            while j < n_y
                invariant
                    i < n_x,
                    j <= n_y,
                    (n_x, n_y, n_z) == self.shape(),
                    ny == n_y && nz == n_z,
                    start == old(world).entries(),
                    self.wf(),
                    world.wf(),
                    world.density() == old(world).density(),
                    releasing(
                        start,
                        world.entries(),
                        trace,
                        self.handles(),
                        cell_index(ny, nz, i as int, j as int, 0),
                    ),
                decreases n_y - j,
            {
                let mut k: usize = 0;
                while k < n_z
                    invariant
                        i < n_x,
                        j < n_y,
                        k <= n_z,
                        (n_x, n_y, n_z) == self.shape(),
                        ny == n_y && nz == n_z,
                        start == old(world).entries(),
                        self.wf(),
                        world.wf(),
                        world.density() == old(world).density(),
                        releasing(
                            start,
                            world.entries(),
                            trace,
                            self.handles(),
                            cell_index(ny, nz, i as int, j as int, k as int),
                        ),
                    decreases n_z - k,
                {
                    let ghost before = world.entries();
                    let handle = match self.handle(i, j, k) {
                        Some(h) => h,
                        None => vstd::pervasive::unreached(),
                    };
                    proof {
                        lemma_place_in_range(
                            n_x as int,
                            ny,
                            nz,
                            i as int,
                            j as int,
                            k as int,
                        );
                    }
                    world.release(handle);
                    proof {
                        lemma_release_step(
                            start,
                            before,
                            world.entries(),
                            trace,
                            self.handles(),
                            cell_index(ny, nz, i as int, j as int, k as int),
                        );
                        trace = trace.push(world.entries());
                    }
                    k += 1;
                }
                proof {
                    lemma_place_steps(ny, nz, i as int, j as int);
                }
                j += 1;
            }
            proof {
                lemma_place_steps(ny, nz, i as int, 0);
            }
            i += 1;
        }
        proof {
            lemma_place_steps(ny, nz, n_x as int, 0);
            assert(released_each(trace, self.handles()));
        }
    }
}

/// The cuboid between two corners is the same in whatever order the corners
/// are given, along each axis on its own: the lower end, the number of
/// coordinates and the coordinates themselves do not change when the two
/// ends of an axis are exchanged.
pub proof fn lemma_corner_order(from: ChunkCoordinate, to: ChunkCoordinate)
    ensures
        low(from.0, to.0) == low(to.0, from.0) && extent(from.0, to.0) == extent(to.0, from.0),
        low(from.1, to.1) == low(to.1, from.1) && extent(from.1, to.1) == extent(to.1, from.1),
        low(from.2, to.2) == low(to.2, from.2) && extent(from.2, to.2) == extent(to.2, from.2),
        forall|at: ChunkCoordinate| in_cuboid(from, to, at) == in_cuboid(to, from, at),
        forall|at: ChunkCoordinate|
            in_cuboid(from, to, at) == in_cuboid((to.0, from.1, from.2), (from.0, to.1, to.2), at),
        forall|at: ChunkCoordinate|
            in_cuboid(from, to, at) == in_cuboid((from.0, to.1, from.2), (to.0, from.1, to.2), at),
        forall|at: ChunkCoordinate|
            in_cuboid(from, to, at) == in_cuboid((from.0, from.1, to.2), (to.0, to.1, from.2), at),
{
}

/// A region made for two corners has one cell for each coordinate of the
/// cuboid between them and no other: the coordinate of each cell lies in the
/// cuboid, each coordinate of the cuboid is that of one cell, and different
/// cells have different coordinates.
pub proof fn lemma_region_covers_cuboid(
    region: CuboidRegion,
    from: ChunkCoordinate,
    to: ChunkCoordinate,
)
    requires
        region.wf(),
        region.start() == (low(from.0, to.0), low(from.1, to.1), low(from.2, to.2)),
        region.shape().0 == extent(from.0, to.0),
        region.shape().1 == extent(from.1, to.1),
        region.shape().2 == extent(from.2, to.2),
    ensures
        forall|i: int, j: int, k: int|
            region.has_cell(i, j, k) ==> in_cuboid(from, to, #[trigger] region.coord_at(i, j, k)),
        forall|at: ChunkCoordinate| #[trigger]
            in_cuboid(from, to, at) ==> region.has_cell(
                at.0 - region.start().0,
                at.1 - region.start().1,
                at.2 - region.start().2,
            ) && region.coord_at(
                at.0 - region.start().0,
                at.1 - region.start().1,
                at.2 - region.start().2,
            ) == at,
        forall|i: int, j: int, k: int, a: int, b: int, c: int|
            region.has_cell(i, j, k) && region.has_cell(a, b, c) && #[trigger] region.coord_at(
                i,
                j,
                k,
            ) == #[trigger] region.coord_at(a, b, c) ==> i == a && j == b && k == c,
{
}

/// Fetching chunks takes no chunk from anyone: a region that is held
/// before a run of requests is held after it.
pub proof fn lemma_requests_keep_region<F: Fn(i64, i64, i64) -> bool, V, I>(
    density: F,
    trace: Seq<Seq<CacheEntry<V, I>>>,
    coords: Seq<ChunkCoordinate>,
    handles: Seq<ChunkHandle>,
    region: CuboidRegion,
    n: int,
)
    requires
        acquired_each(density, trace, coords, handles),
        0 <= n <= coords.len(),
        well_formed(trace.first()),
        region.held_by(trace.first()),
    ensures
        well_formed(trace[n]),
        region.held_by(trace[n]),
    decreases n,
{
    if n > 0 {
        let m = n - 1;
        lemma_requests_keep_region(density, trace, coords, handles, region, m);
        assert(acquired(density, trace[m], trace[m + 1], coords[m], handles[m]));
        lemma_acquired_is_cached(density, trace[m], trace[m + 1], coords[m], handles[m]);
        assert forall|i: int, j: int, k: int| region.has_cell(i, j, k) implies holds_chunk(
            trace[n],
            #[trigger] region.handle_at(i, j, k),
            region.coord_at(i, j, k),
        ) by {
            lemma_acquired_keeps_held(
                density,
                trace[m],
                trace[m + 1],
                coords[m],
                handles[m],
                region.handle_at(i, j, k),
                region.coord_at(i, j, k),
            );
        }
    }
}

} // verus!
