//! The world: terrain generated chunk by chunk, and the cache of the chunks
//! that are in use.
//!
//! A chunk is handed out as a handle and stays alive while at least one
//! handle to it has not been given back. The world keeps one entry for each
//! coordinate it has ever generated. An entry whose handles have all been
//! given back is stale: its chunk is never handed out again, and the next
//! request for the coordinate generates the chunk anew, under a new handle.

use vstd::prelude::*;
use std::rc::Rc;
use crate::catalog::{BlockRenderData, AIR};
use crate::chunk::{accepts_all, built, chunk_grids, upload_mesh, Chunk};
use crate::surface::{fits, inside, Blocks};
use crate::error::MeshCreationError;
use crate::mesh::Vertex;
use crate::CHUNK_SIZE;

verus! {

/// The position of a chunk, in chunks.
pub type ChunkCoordinate = (i64, i64, i64);

/// Names one generation of the chunk in one entry of a world's cache.
#[derive(Debug, Copy, Clone, PartialEq, Eq, Hash, Structural)]
pub struct ChunkHandle {
    pub slot: usize,
    pub generation: u64,
}

/// What the cache knows of one coordinate.
pub struct CacheEntry<V, I> {
    /// The coordinate of the chunk.
    pub coord: ChunkCoordinate,
    /// How often the chunk has been generated again.
    pub generation: u64,
    /// How many handles to the current generation are out. At `usize::MAX`
    /// the count stays where it is, and the chunk stays alive for good.
    pub holders: usize,
    /// The chunk.
    pub chunk: Chunk<V, I>,
}

/// The block type of generated terrain.
pub const SOLID: usize = 1;

/// The world coordinate, along one axis, of block `index` of chunk `chunk`.
/// World coordinates wrap round at the ends of the 64-bit range.
pub open spec fn block_coord(chunk: i64, index: int) -> i64 {
    vstd::wrapping::i64_specs::wrapping_add(
        vstd::wrapping::i64_specs::wrapping_mul(CHUNK_SIZE as i64, chunk),
        index as i64,
    )
}

/// Whether a density test takes every block coordinate.
pub open spec fn accepts_all_blocks<F: Fn(i64, i64, i64) -> bool>(density: F) -> bool {
    forall|x: i64, y: i64, z: i64| call_requires(density, (x, y, z))
}

/// Whether a density test gives one answer for each block coordinate.
pub open spec fn single_valued<F: Fn(i64, i64, i64) -> bool>(density: F) -> bool {
    forall|x: i64, y: i64, z: i64, a: bool, b: bool|
        call_ensures(density, (x, y, z), a) && call_ensures(density, (x, y, z), b) ==> a == b
}

/// Whether block `(i, j, k)` of `blocks` is what the density test said of
/// its world coordinate: solid (type 1) where the density is positive, air
/// (type 0) elsewhere.
pub open spec fn block_generated<F: Fn(i64, i64, i64) -> bool>(
    density: F,
    at: ChunkCoordinate,
    blocks: Blocks,
    i: int,
    j: int,
    k: int,
) -> bool {
    let solid = blocks[i][j][k] == SOLID;
    &&& blocks[i][j][k] == SOLID || blocks[i][j][k] == AIR
    &&& call_ensures(
        density,
        (block_coord(at.0, i), block_coord(at.1, j), block_coord(at.2, k)),
        solid,
    )
}

/// Whether `blocks` is a grid that generation may give for the chunk at
/// `at`.
pub open spec fn generated_by<F: Fn(i64, i64, i64) -> bool>(
    density: F,
    at: ChunkCoordinate,
    blocks: Blocks,
) -> bool {
    forall|i: int, j: int, k: int|
        inside(i, j, k) ==> #[trigger] block_generated(density, at, blocks, i, j, k)
}

/// Whether some entry of a cache is for coordinate `at`.
pub open spec fn has_entry<V, I>(entries: Seq<CacheEntry<V, I>>, at: ChunkCoordinate) -> bool {
    exists|i: int| 0 <= i < entries.len() && (#[trigger] entries[i]).coord == at
}

/// The position of the entry for coordinate `at`.
pub open spec fn entry_of<V, I>(entries: Seq<CacheEntry<V, I>>, at: ChunkCoordinate) -> int {
    choose|i: int| 0 <= i < entries.len() && (#[trigger] entries[i]).coord == at
}

/// Whether no coordinate has two entries.
pub open spec fn distinct_coords<V, I>(entries: Seq<CacheEntry<V, I>>) -> bool {
    forall|i: int, j: int|
        0 <= i < entries.len() && 0 <= j < entries.len() && (#[trigger] entries[i]).coord == (
        #[trigger] entries[j]).coord ==> i == j
}

/// The number of block types that generation uses: air and one solid type.
pub const GENERATED_TYPES: usize = 2;

/// What holds of every cache: no coordinate has two entries, and the chunks
/// hold generated block types only.
pub open spec fn well_formed<V, I>(entries: Seq<CacheEntry<V, I>>) -> bool {
    &&& distinct_coords(entries)
    &&& forall|i: int|
        0 <= i < entries.len() ==> fits(
            (#[trigger] entries[i]).chunk.grid(),
            GENERATED_TYPES as int,
        )
}

/// Whether `handle` names a chunk that is alive in a cache.
pub open spec fn live_in<V, I>(entries: Seq<CacheEntry<V, I>>, handle: ChunkHandle) -> bool {
    &&& handle.slot < entries.len()
    &&& entries[handle.slot as int].generation == handle.generation
    &&& entries[handle.slot as int].holders > 0
}

/// The handle of the chunk that is alive at coordinate `at`, if any.
pub open spec fn cached_in<V, I>(
    entries: Seq<CacheEntry<V, I>>,
    at: ChunkCoordinate,
) -> Option<ChunkHandle> {
    if has_entry(entries, at) && entries[entry_of(entries, at)].holders > 0 {
        Some(
            ChunkHandle {
                slot: entry_of(entries, at) as usize,
                generation: entries[entry_of(entries, at)].generation,
            },
        )
    } else {
        None
    }
}

/// Whether `handle` names a chunk that is alive in a cache and lies at
/// coordinate `at`.
pub open spec fn holds_chunk<V, I>(
    entries: Seq<CacheEntry<V, I>>,
    handle: ChunkHandle,
    at: ChunkCoordinate,
) -> bool {
    live_in(entries, handle) && entries[handle.slot as int].coord == at
}

/// Whether every chunk that is held in cache `before` is held in cache
/// `after`, under the same handle and at the same coordinate.
pub open spec fn nothing_lost<V, I>(
    before: Seq<CacheEntry<V, I>>,
    after: Seq<CacheEntry<V, I>>,
) -> bool {
    forall|handle: ChunkHandle, at: ChunkCoordinate| #[trigger]
        holds_chunk(before, handle, at) ==> holds_chunk(after, handle, at)
}

/// Whether two entries differ in nothing but the mesh of the chunk.
pub open spec fn same_but_mesh<V, I>(before: CacheEntry<V, I>, after: CacheEntry<V, I>) -> bool {
    &&& after.coord == before.coord
    &&& after.generation == before.generation
    &&& after.holders == before.holders
    &&& after.chunk.grid() == before.chunk.grid()
}

/// Whether two caches differ in nothing but the meshes of their chunks.
pub open spec fn only_meshes_changed<V, I>(
    before: Seq<CacheEntry<V, I>>,
    after: Seq<CacheEntry<V, I>>,
) -> bool {
    &&& after.len() == before.len()
    &&& forall|n: int| 0 <= n < before.len() ==> same_but_mesh(before[n], #[trigger] after[n])
}

/// A holder count with one more holder.
pub open spec fn one_more(holders: usize) -> usize {
    if holders == usize::MAX {
        holders
    } else {
        (holders + 1) as usize
    }
}

/// A holder count with one holder less.
pub open spec fn one_less(holders: usize) -> usize {
    if holders == usize::MAX || holders == 0 {
        holders
    } else {
        (holders - 1) as usize
    }
}

/// How a request for the chunk at `at` changes a cache, and the handle `r`
/// it gives.
///
/// Where a chunk is alive at `at`, it is handed out once more. Where the
/// entry is stale, the chunk is generated anew in its place, under the next
/// generation. Where there is no entry, one is added at the end. No other
/// entry changes.
pub open spec fn acquired<F: Fn(i64, i64, i64) -> bool, V, I>(
    density: F,
    before: Seq<CacheEntry<V, I>>,
    after: Seq<CacheEntry<V, I>>,
    at: ChunkCoordinate,
    r: ChunkHandle,
) -> bool {
    let slot = r.slot as int;
    &&& slot == if has_entry(before, at) {
        entry_of(before, at)
    } else {
        before.len() as int
    }
    &&& after.len() == if has_entry(before, at) {
        before.len()
    } else {
        before.len() + 1
    }
    &&& forall|i: int| 0 <= i < before.len() && i != slot ==> after[i] == before[i]
    &&& after[slot].coord == at
    &&& after[slot].generation == r.generation
    &&& match cached_in(before, at) {
        Some(h) => {
            &&& r == h
            &&& after[slot].holders == one_more(before[slot].holders)
            &&& after[slot].chunk == before[slot].chunk
        },
        None => {
            &&& r.generation == if has_entry(before, at) {
                vstd::wrapping::u64_specs::wrapping_add(before[slot].generation, 1)
            } else {
                0
            }
            &&& after[slot].holders == 1
            &&& generated_by(density, at, after[slot].chunk.grid())
            &&& after[slot].chunk.cached() is None
        },
    }
}

/// How giving back `handle` changes a cache: where the handle names a chunk
/// that is alive, the chunk has one holder less, and with its last holder
/// it loses its mesh; a handle that names no such chunk changes nothing.
pub open spec fn released<V, I>(
    before: Seq<CacheEntry<V, I>>,
    after: Seq<CacheEntry<V, I>>,
    handle: ChunkHandle,
) -> bool {
    let slot = handle.slot as int;
    if live_in(before, handle) {
        &&& after.len() == before.len()
        &&& forall|i: int| 0 <= i < before.len() && i != slot ==> after[i] == before[i]
        &&& after[slot].coord == before[slot].coord
        &&& after[slot].generation == before[slot].generation
        &&& after[slot].holders == one_less(before[slot].holders)
        &&& after[slot].chunk.grid() == before[slot].chunk.grid()
        &&& after[slot].chunk.cached() == if after[slot].holders == 0 {
            None
        } else {
            before[slot].chunk.cached()
        }
    } else {
        after == before
    }
}

/// The block grids of the neighbours that `adj` names. A handle that names
/// no chunk that is alive counts as no neighbour.
pub open spec fn neighbor_grids<V, I>(
    entries: Seq<CacheEntry<V, I>>,
    adj: [Option<ChunkHandle>; 6],
) -> Seq<Option<Blocks>> {
    Seq::new(
        6,
        |i: int|
            match adj[i] {
                Some(h) => if live_in(entries, h) {
                    Some(entries[h.slot as int].chunk.grid())
                } else {
                    None
                },
                None => None,
            },
    )
}

/// A world of blocks. `density` says of a block coordinate whether the
/// terrain's density is positive there.
pub struct World<F, V, I> {
    density: F,
    entries: Vec<CacheEntry<V, I>>,
}

impl<F: Fn(i64, i64, i64) -> bool, V, I> World<F, V, I> {
    /// The density test of the world.
    pub closed spec fn density(&self) -> F {
        self.density
    }

    /// The cache of the world.
    pub closed spec fn entries(&self) -> Seq<CacheEntry<V, I>> {
        self.entries@
    }

    /// What holds of every world: the density test takes every coordinate,
    /// and no coordinate has two entries.
    pub open spec fn wf(&self) -> bool {
        &&& accepts_all_blocks(self.density())
        &&& well_formed(self.entries())
    }

    /// Whether `handle` names a chunk that is alive.
    pub open spec fn live(&self, handle: ChunkHandle) -> bool {
        live_in(self.entries(), handle)
    }

    /// A world without chunks.
    pub fn new(density: F) -> (world: World<F, V, I>)
        requires
            accepts_all_blocks(density),
        ensures
            world.wf(),
            world.density() == density,
            world.entries() == Seq::<CacheEntry<V, I>>::empty(),
    {
        World { density, entries: Vec::new() }
    }

    /// The number of coordinates the world has generated a chunk for.
    pub fn entry_count(&self) -> (n: usize)
        ensures
            n == self.entries().len(),
    {
        self.entries.len()
    }

    /// The position of the entry for a coordinate, if there is one.
    fn find(&self, at: ChunkCoordinate) -> (r: Option<usize>)
        requires
            self.wf(),
        ensures
            r is Some <==> has_entry(self.entries(), at),
            r matches Some(i) ==> i == entry_of(self.entries(), at) && i < self.entries().len(),
    {
        let mut i: usize = 0;
        while i < self.entries.len()
            invariant
                self.wf(),
                i <= self.entries@.len(),
                forall|j: int| 0 <= j < i ==> (#[trigger] self.entries@[j]).coord != at,
            decreases self.entries@.len() - i,
        {
            let c = self.entries[i].coord;
            if c.0 == at.0 && c.1 == at.1 && c.2 == at.2 {
                assert(self.entries@[i as int].coord == at);
                assert(self.entries@[entry_of(self.entries@, at)].coord == at);
                return Some(i);
            }
            i += 1;
        }
        None
    }

    /// Generates the blocks of the chunk at `(x, y, z)`: a block is solid
    /// where the density is positive, and air elsewhere.
    pub fn generate(&self, x: i64, y: i64, z: i64) -> (chunk: Chunk<V, I>)
        requires
            self.wf(),
        ensures
            generated_by(self.density(), (x, y, z), chunk.grid()),
            chunk.cached() is None,
    {
        let side: i64 = CHUNK_SIZE as i64;
        let ghost at = (x, y, z);
        let mut blocks: Blocks = [[[0; CHUNK_SIZE]; CHUNK_SIZE]; CHUNK_SIZE];
        let mut index_x: usize = 0;
        while index_x < CHUNK_SIZE
            invariant
                index_x <= CHUNK_SIZE,
                side == CHUNK_SIZE,
                at == (x, y, z),
                accepts_all_blocks(self.density),
                forall|i: int, j: int, k: int|
                    inside(i, j, k) && i < index_x ==> #[trigger] block_generated(
                        self.density,
                        at,
                        blocks,
                        i,
                        j,
                        k,
                    ),
            decreases CHUNK_SIZE - index_x,
        {
            let mut index_y: usize = 0;
            while index_y < CHUNK_SIZE
                invariant
                    index_x < CHUNK_SIZE,
                    index_y <= CHUNK_SIZE,
                    side == CHUNK_SIZE,
                    at == (x, y, z),
                    accepts_all_blocks(self.density),
                    forall|i: int, j: int, k: int|
                        inside(i, j, k) && (i < index_x || (i == index_x && j < index_y))
                            ==> #[trigger] block_generated(self.density, at, blocks, i, j, k),
                decreases CHUNK_SIZE - index_y,
            {
                let mut index_z: usize = 0;
                while index_z < CHUNK_SIZE
                    invariant
                        index_x < CHUNK_SIZE,
                        index_y < CHUNK_SIZE,
                        index_z <= CHUNK_SIZE,
                        side == CHUNK_SIZE,
                        at == (x, y, z),
                        accepts_all_blocks(self.density),
                        forall|i: int, j: int, k: int|
                            inside(i, j, k) && (i < index_x || (i == index_x && (j < index_y || (j
                                == index_y && k < index_z)))) ==> #[trigger] block_generated(
                                self.density,
                                at,
                                blocks,
                                i,
                                j,
                                k,
                            ),
                    decreases CHUNK_SIZE - index_z,
                {
                    let block_x = side.wrapping_mul(x).wrapping_add(index_x as i64);
                    let block_y = side.wrapping_mul(y).wrapping_add(index_y as i64);
                    let block_z = side.wrapping_mul(z).wrapping_add(index_z as i64);
                    let ghost before = blocks;
                    let solid = (self.density)(block_x, block_y, block_z);
                    blocks[index_x][index_y][index_z] = if solid {
                        SOLID
                    } else {
                        AIR
                    };
                    proof {
                        assert forall|i: int, j: int, k: int|
                            inside(i, j, k) && (i < index_x || (i == index_x && (j < index_y || (j
                                == index_y && k < index_z + 1)))) implies #[trigger] block_generated(
                            self.density,
                            at,
                            blocks,
                            i,
                            j,
                            k,
                        ) by {
                            if i == index_x && j == index_y && k == index_z {
                            } else {
                                assert(block_generated(self.density, at, before, i, j, k));
                                assert(blocks[i][j][k] == before[i][j][k]);
                            }
                        }
                    }
                    index_z += 1;
                }
                index_y += 1;
            }
            index_x += 1;
        }
        Chunk::new(blocks)
    }

    /// Generates the chunk at `(x, y, z)` and enters it in the cache, in
    /// place of the stale entry for the coordinate if there is one.
    fn gen_chunk(&mut self, x: i64, y: i64, z: i64) -> (r: ChunkHandle)
        requires
            old(self).wf(),
            cached_in(old(self).entries(), (x, y, z)) is None,
        ensures
            final(self).wf(),
            final(self).density() == old(self).density(),
            acquired(old(self).density(), old(self).entries(), final(self).entries(), (x, y, z), r),
            nothing_lost(old(self).entries(), final(self).entries()),
            final(self).live(r),
    {
        let chunk = self.generate(x, y, z);
        let ghost before = self.entries@;
        match self.find((x, y, z)) {
            Some(slot) => {
                let generation = self.entries[slot].generation.wrapping_add(1);
                self.entries[slot] = CacheEntry { coord: (x, y, z), generation, holders: 1, chunk };
                let r = ChunkHandle { slot, generation };
                proof {
                    lemma_acquired_is_cached(self.density, before, self.entries@, (x, y, z), r);
                    lemma_acquired_loses_nothing(self.density, before, self.entries@, (x, y, z), r);
                }
                r
            },
            None => {
                let slot = self.entries.len();
                let entry = CacheEntry { coord: (x, y, z), generation: 0, holders: 1, chunk };
                self.entries.push(entry);
                let r = ChunkHandle { slot, generation: 0 };
                proof {
                    lemma_acquired_is_cached(self.density, before, self.entries@, (x, y, z), r);
                    lemma_acquired_loses_nothing(self.density, before, self.entries@, (x, y, z), r);
                }
                r
            },
        }
    }

    /// Hands out the chunk at `(x, y, z)`.
    ///
    /// While a chunk is alive at the coordinate, every request gives the
    /// handle of that chunk. Otherwise the chunk is generated, and the
    /// handle is a new one.
    pub fn get_chunk(&mut self, x: i64, y: i64, z: i64) -> (r: ChunkHandle)
        requires
            old(self).wf(),
        ensures
            final(self).wf(),
            final(self).density() == old(self).density(),
            acquired(old(self).density(), old(self).entries(), final(self).entries(), (x, y, z), r),
            nothing_lost(old(self).entries(), final(self).entries()),
            final(self).live(r),
    {
        let ghost before = self.entries@;
        if let Some(slot) = self.find((x, y, z)) {
            let holders = self.entries[slot].holders;
            if holders > 0 {
                if holders < usize::MAX {
                    self.entries[slot].holders = holders + 1;
                }
                let r = ChunkHandle { slot, generation: self.entries[slot].generation };
                proof {
                    lemma_acquired_is_cached(self.density, before, self.entries@, (x, y, z), r);
                    lemma_acquired_loses_nothing(self.density, before, self.entries@, (x, y, z), r);
                }
                return r;
            }
        }
        self.gen_chunk(x, y, z)
    }

    /// Gives a handle back.
    ///
    /// A chunk whose last handle has been given back is no longer alive: it
    /// loses its mesh, and the next request for its coordinate generates it
    /// anew.
    pub fn release(&mut self, handle: ChunkHandle)
        requires
            old(self).wf(),
        ensures
            final(self).wf(),
            final(self).density() == old(self).density(),
            released(old(self).entries(), final(self).entries(), handle),
    {
        let ghost before = self.entries@;
        if handle.slot < self.entries.len() && self.entries[handle.slot].generation
            == handle.generation {
            let holders = self.entries[handle.slot].holders;
            if 0 < holders && holders < usize::MAX {
                self.entries[handle.slot].holders = holders - 1;
                if holders == 1 {
                    self.entries[handle.slot].chunk.discard_mesh();
                }
                proof {
                    lemma_same_places(before, self.entries@);
                }
            }
        }
        proof {
            if !live_in(before, handle) {
                assert(self.entries@ =~= before);
            }
        }
    }

    /// The chunk that `handle` names, if it is alive.
    pub fn chunk(&self, handle: ChunkHandle) -> (r: Option<&Chunk<V, I>>)
        ensures
            r == (if self.live(handle) {
                Some(&self.entries()[handle.slot as int].chunk)
            } else {
                None
            }),
    {
        if handle.slot < self.entries.len() && self.entries[handle.slot].generation
            == handle.generation && self.entries[handle.slot].holders > 0 {
            Some(&self.entries[handle.slot].chunk)
        } else {
            None
        }
    }

    /// The coordinate of the chunk that `handle` names, if it is alive.
    pub fn coord_of(&self, handle: ChunkHandle) -> (r: Option<ChunkCoordinate>)
        ensures
            r == (if self.live(handle) {
                Some(self.entries()[handle.slot as int].coord)
            } else {
                None
            }),
    {
        if handle.slot < self.entries.len() && self.entries[handle.slot].generation
            == handle.generation && self.entries[handle.slot].holders > 0 {
            Some(self.entries[handle.slot].coord)
        } else {
            None
        }
    }

    /// The neighbour that an optional handle names.
    fn neighbor(&self, handle: Option<ChunkHandle>) -> (r: Option<&Chunk<V, I>>)
        ensures
            r == (match handle {
                Some(h) => if self.live(h) {
                    Some(&self.entries()[h.slot as int].chunk)
                } else {
                    None
                },
                None => None,
            }),
    {
        match handle {
            Some(h) => self.chunk(h),
            None => None,
        }
    }

    /// The buffers of the mesh of the chunk that `handle` names, built as
    /// `Chunk::build_mesh` builds them, with the chunks that `adj` names as
    /// neighbours. Nothing but the chunk's mesh changes.
    pub fn build_mesh<UV, UI>(
        &mut self,
        handle: ChunkHandle,
        adj: [Option<ChunkHandle>; 6],
        block_render_data: &[BlockRenderData],
        upload_vertices: &UV,
        upload_indices: &UI,
    ) -> (r: Result<(Rc<V>, Rc<I>), MeshCreationError>) where
        UV: Fn(&Vec<Vertex>) -> Result<V, glium::vertex::BufferCreationError>,
        UI: Fn(&Vec<u16>) -> Result<I, glium::index::BufferCreationError>,

        requires
            old(self).wf(),
            old(self).live(handle),
            old(self).entries()[handle.slot as int].chunk.cached() is None ==> block_render_data@.len()
                >= GENERATED_TYPES,
            accepts_all(*upload_vertices),
            accepts_all(*upload_indices),
        ensures
            final(self).wf(),
            final(self).density() == old(self).density(),
            only_meshes_changed(old(self).entries(), final(self).entries()),
            forall|i: int|
                0 <= i < old(self).entries().len() && i != handle.slot ==> final(self).entries()[i]
                    == old(self).entries()[i],
            built(
                old(self).entries()[handle.slot as int].chunk,
                final(self).entries()[handle.slot as int].chunk,
                block_render_data@,
                neighbor_grids(old(self).entries(), adj),
                *upload_vertices,
                *upload_indices,
                r,
            ),
    {
        let ghost before = self.entries@;
        if let Some(m) = self.entries[handle.slot].chunk.cached_mesh() {
            return Ok(m);
        }
        let adj_chunks = [
            self.neighbor(adj[0]),
            self.neighbor(adj[1]),
            self.neighbor(adj[2]),
            self.neighbor(adj[3]),
            self.neighbor(adj[4]),
            self.neighbor(adj[5]),
        ];
        assert(chunk_grids(adj_chunks) =~= neighbor_grids(self.entries@, adj));
        assert(fits(self.entries@[handle.slot as int].chunk.grid(), GENERATED_TYPES as int));
        assert forall|i: int| 0 <= i < 6 implies ((#[trigger] chunk_grids(adj_chunks)[i]) matches Some(
            b,
        ) ==> fits(b, block_render_data@.len() as int)) by {
            if let Some(h) = adj[i] {
                if live_in(self.entries@, h) {
                    assert(fits(self.entries@[h.slot as int].chunk.grid(), GENERATED_TYPES as int));
                }
            }
        }
        let mesh = self.entries[handle.slot].chunk.surface_mesh(block_render_data, adj_chunks);
        let r = upload_mesh(&mesh, upload_vertices, upload_indices);
        self.entries[handle.slot].chunk.store_mesh(&r);
        proof {
            lemma_same_places(before, self.entries@);
        }
        r
    }
}

/// A cache whose chunks stay where they are, with the blocks they have,
/// stays well formed.
pub proof fn lemma_same_places<V, I>(before: Seq<CacheEntry<V, I>>, after: Seq<CacheEntry<V, I>>)
    requires
        well_formed(before),
        after.len() == before.len(),
        forall|i: int|
            0 <= i < before.len() ==> (#[trigger] after[i]).coord == before[i].coord
                && after[i].chunk.grid() == before[i].chunk.grid(),
    ensures
        well_formed(after),
{
    assert forall|i: int, j: int|
        0 <= i < after.len() && 0 <= j < after.len() && (#[trigger] after[i]).coord == (
        #[trigger] after[j]).coord implies i == j by {
        assert(before[i].coord == before[j].coord);
    }
    assert forall|i: int| 0 <= i < after.len() implies fits(
        (#[trigger] after[i]).chunk.grid(),
        GENERATED_TYPES as int,
    ) by {
        assert(fits(before[i].chunk.grid(), GENERATED_TYPES as int));
    }
}

/// Where the block coordinate fits into 64 bits, it is the chunk's
/// coordinate times the chunk size plus the block's index: nothing wraps
/// round.
pub proof fn lemma_block_coord_in_range(chunk: i64, index: int)
    requires
        0 <= index < CHUNK_SIZE,
        i64::MIN <= CHUNK_SIZE * chunk,
        CHUNK_SIZE * chunk + index <= i64::MAX,
    ensures
        block_coord(chunk, index) == CHUNK_SIZE * chunk + index,
{
    let product = CHUNK_SIZE * chunk;
    assert(vstd::wrapping::i64_specs::signed_crop(product) == product) by {
        if product >= 0 {
            assert(product % 0x1_0000_0000_0000_0000 == product);
        } else {
            assert(product % 0x1_0000_0000_0000_0000 == product + 0x1_0000_0000_0000_0000);
        }
    }
}

/// Generation is determined by the density test: where the test gives one
/// answer for each block coordinate, any two grids generated for one chunk
/// coordinate are the same grid.
pub proof fn lemma_generation_deterministic<F: Fn(i64, i64, i64) -> bool>(
    density: F,
    at: ChunkCoordinate,
    first: Blocks,
    second: Blocks,
)
    requires
        single_valued(density),
        generated_by(density, at, first),
        generated_by(density, at, second),
    ensures
        first == second,
{
    assert forall|i: int| 0 <= i < CHUNK_SIZE implies first[i] == second[i] by {
        assert forall|j: int| 0 <= j < CHUNK_SIZE implies first[i][j] == second[i][j] by {
            assert forall|k: int| 0 <= k < CHUNK_SIZE implies first[i][j][k] == second[i][j][k] by {
                assert(inside(i, j, k));
                assert(block_generated(density, at, first, i, j, k));
                assert(block_generated(density, at, second, i, j, k));
            }
            assert(first[i][j] =~= second[i][j]);
        }
        assert(first[i] =~= second[i]);
    }
    assert(first =~= second);
}

/// While a chunk is held, a request for its coordinate gives the chunk
/// again: two requests in a row for one coordinate give one handle, and the
/// second leaves the chunk as the first made or found it.
pub proof fn lemma_held_chunk_is_shared<F: Fn(i64, i64, i64) -> bool, V, I>(
    density: F,
    start: Seq<CacheEntry<V, I>>,
    middle: Seq<CacheEntry<V, I>>,
    end: Seq<CacheEntry<V, I>>,
    at: ChunkCoordinate,
    first: ChunkHandle,
    second: ChunkHandle,
)
    requires
        well_formed(start),
        acquired(density, start, middle, at, first),
        acquired(density, middle, end, at, second),
    ensures
        second == first,
        live_in(middle, first),
        live_in(end, first),
        end[first.slot as int].chunk == middle[first.slot as int].chunk,
{
    lemma_acquired_is_cached(density, start, middle, at, first);
}

/// After a request for a coordinate, the handle it gave is the one that the
/// cache holds for the coordinate, and no coordinate has two entries.
pub proof fn lemma_acquired_is_cached<F: Fn(i64, i64, i64) -> bool, V, I>(
    density: F,
    before: Seq<CacheEntry<V, I>>,
    after: Seq<CacheEntry<V, I>>,
    at: ChunkCoordinate,
    r: ChunkHandle,
)
    requires
        well_formed(before),
        acquired(density, before, after, at, r),
    ensures
        well_formed(after),
        live_in(after, r),
        cached_in(after, at) == Some(r),
        after[r.slot as int].coord == at,
{
    let slot = r.slot as int;
    if has_entry(before, at) {
        assert(before[entry_of(before, at)].coord == at);
    }
    assert forall|i: int, j: int|
        0 <= i < after.len() && 0 <= j < after.len() && (#[trigger] after[i]).coord == (
        #[trigger] after[j]).coord implies i == j by {
        if i != slot && i < before.len() {
            assert(after[i] == before[i]);
        }
        if j != slot && j < before.len() {
            assert(after[j] == before[j]);
        }
    }
    assert forall|i: int| 0 <= i < after.len() implies fits(
        (#[trigger] after[i]).chunk.grid(),
        GENERATED_TYPES as int,
    ) by {
        if i != slot {
            assert(after[i] == before[i]);
        } else if cached_in(before, at) is None {
            let grid = after[slot].chunk.grid();
            assert forall|x: int, y: int, z: int| inside(x, y, z) implies (#[trigger] grid[x][y][z])
                < GENERATED_TYPES by {
                assert(block_generated(density, at, grid, x, y, z));
            }
        } else {
            assert(fits(before[slot].chunk.grid(), GENERATED_TYPES as int));
        }
    }
    assert(after[slot].coord == at);
    assert(has_entry(after, at));
    assert(after[entry_of(after, at)].coord == at);
    assert(one_more(before[slot].holders) > 0 || before[slot].holders == 0);
}

/// A chunk that is held stays held through a request for any chunk.
pub proof fn lemma_acquired_keeps_held<F: Fn(i64, i64, i64) -> bool, V, I>(
    density: F,
    before: Seq<CacheEntry<V, I>>,
    after: Seq<CacheEntry<V, I>>,
    at: ChunkCoordinate,
    r: ChunkHandle,
    handle: ChunkHandle,
    coord: ChunkCoordinate,
)
    requires
        well_formed(before),
        acquired(density, before, after, at, r),
        holds_chunk(before, handle, coord),
    ensures
        holds_chunk(after, handle, coord),
        after[handle.slot as int].chunk == before[handle.slot as int].chunk,
{
    if handle.slot == r.slot {
        assert(before[handle.slot as int].coord == coord);
    }
}

/// At most one chunk is alive at a coordinate: two handles that name chunks
/// that are alive at one coordinate are one handle.
pub proof fn lemma_one_chunk_per_coordinate<V, I>(
    entries: Seq<CacheEntry<V, I>>,
    first: ChunkHandle,
    second: ChunkHandle,
    at: ChunkCoordinate,
)
    requires
        well_formed(entries),
        holds_chunk(entries, first, at),
        holds_chunk(entries, second, at),
    ensures
        first == second,
        cached_in(entries, at) == Some(first),
{
    assert(entries[first.slot as int].coord == entries[second.slot as int].coord);
    assert(has_entry(entries, at));
    assert(entries[entry_of(entries, at)].coord == at);
}

/// A request for a chunk takes no chunk from anyone.
pub proof fn lemma_acquired_loses_nothing<F: Fn(i64, i64, i64) -> bool, V, I>(
    density: F,
    before: Seq<CacheEntry<V, I>>,
    after: Seq<CacheEntry<V, I>>,
    at: ChunkCoordinate,
    r: ChunkHandle,
)
    requires
        well_formed(before),
        acquired(density, before, after, at, r),
    ensures
        nothing_lost(before, after),
{
    assert forall|handle: ChunkHandle, coord: ChunkCoordinate| #[trigger]
        holds_chunk(before, handle, coord) implies holds_chunk(after, handle, coord) by {
        lemma_acquired_keeps_held(density, before, after, at, r, handle, coord);
    }
}

/// What is not lost from one cache to a second, nor from the second to a
/// third, is not lost from the first to the third.
pub proof fn lemma_nothing_lost_onwards<V, I>(
    first: Seq<CacheEntry<V, I>>,
    second: Seq<CacheEntry<V, I>>,
    third: Seq<CacheEntry<V, I>>,
)
    requires
        nothing_lost(first, second),
        nothing_lost(second, third),
    ensures
        nothing_lost(first, third),
{
    assert forall|handle: ChunkHandle, at: ChunkCoordinate| #[trigger]
        holds_chunk(first, handle, at) implies holds_chunk(third, handle, at) by {
        assert(holds_chunk(second, handle, at));
    }
}

/// A cache that has changed in nothing but meshes has lost no chunk.
pub proof fn lemma_meshes_lose_nothing<V, I>(
    before: Seq<CacheEntry<V, I>>,
    after: Seq<CacheEntry<V, I>>,
)
    requires
        only_meshes_changed(before, after),
    ensures
        nothing_lost(before, after),
{
    assert forall|handle: ChunkHandle, at: ChunkCoordinate| #[trigger]
        holds_chunk(before, handle, at) implies holds_chunk(after, handle, at) by {
        assert(same_but_mesh(before[handle.slot as int], after[handle.slot as int]));
    }
}

/// A chunk that was generated for a request is stale once the handle has
/// been given back: it is no longer alive, no chunk is alive at its
/// coordinate, and its mesh is gone.
pub proof fn lemma_given_back_chunk_is_stale<F: Fn(i64, i64, i64) -> bool, V, I>(
    density: F,
    before: Seq<CacheEntry<V, I>>,
    held: Seq<CacheEntry<V, I>>,
    after: Seq<CacheEntry<V, I>>,
    at: ChunkCoordinate,
    r: ChunkHandle,
)
    requires
        well_formed(before),
        cached_in(before, at) is None,
        acquired(density, before, held, at, r),
        released(held, after, r),
    ensures
        !live_in(after, r),
        cached_in(after, at) is None,
        after[r.slot as int].chunk.cached() is None,
        after[r.slot as int].chunk.grid() == held[r.slot as int].chunk.grid(),
{
    lemma_acquired_is_cached(density, before, held, at, r);
    let slot = r.slot as int;
    assert(after[slot].coord == at);
    assert(has_entry(after, at));
    assert(after[entry_of(after, at)].coord == at);
    assert forall|i: int, j: int|
        0 <= i < after.len() && 0 <= j < after.len() && (#[trigger] after[i]).coord == (
        #[trigger] after[j]).coord implies i == j by {
        assert(after[i].coord == held[i].coord);
        assert(after[j].coord == held[j].coord);
    }
}

/// A chunk that has lost its last holder is not handed out again: the next
/// request for its coordinate gives a chunk generated anew, in the same
/// entry and under the next generation, which is another handle. Where the
/// density test gives one answer for each coordinate, the new chunk has the
/// blocks that any earlier generation for the coordinate had.
pub proof fn lemma_stale_chunk_is_regenerated<F: Fn(i64, i64, i64) -> bool, V, I>(
    density: F,
    before: Seq<CacheEntry<V, I>>,
    after: Seq<CacheEntry<V, I>>,
    at: ChunkCoordinate,
    stale: ChunkHandle,
    r: ChunkHandle,
    earlier: Blocks,
)
    requires
        well_formed(before),
        stale.slot < before.len(),
        before[stale.slot as int].coord == at,
        before[stale.slot as int].generation == stale.generation,
        before[stale.slot as int].holders == 0,
        acquired(density, before, after, at, r),
        single_valued(density),
        generated_by(density, at, earlier),
    ensures
        r.slot == stale.slot,
        r.generation == vstd::wrapping::u64_specs::wrapping_add(stale.generation, 1),
        r != stale,
        after[r.slot as int].holders == 1,
        after[r.slot as int].chunk.cached() is None,
        after[r.slot as int].chunk.grid() == earlier,
{
    assert(has_entry(before, at));
    assert(before[entry_of(before, at)].coord == at);
    lemma_generation_deterministic(density, at, earlier, after[r.slot as int].chunk.grid());
}

} // verus!
