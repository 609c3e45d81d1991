//! The visible surface of a grid of blocks.
//!
//! The surface is found direction by direction and layer by layer. For a
//! direction `D`, a block shows its face towards `D` when the block is drawn
//! at all and the cell next to it in direction `D` does not hide it. Where
//! that cell lies beyond the chunk it is looked up in a neighbouring chunk;
//! where no neighbour is loaded the face is shown. The faces of each layer
//! are merged into rectangles, and each rectangle becomes a quad.
//!
//! The table of neighbours is indexed by the direction in which the
//! neighbour looks at the chunk: the chunk that lies beyond the boundary in
//! direction `D` stands at the index of the opposite of `D`.

use vstd::prelude::*;
use std::ops::Neg;
use crate::catalog::{lemma_occlusion_sets, valid_catalog, BlockRenderData, Color, AIR};
use crate::direction::NormalDirection;
use crate::greedy::{
    cell, in_layer, lemma_empty_layer, lemma_merged_tiles, lemma_uniform_layer, merge_slice, merged,
    tiles, Rect,
};
use crate::mesh::{lemma_mesh_consistent, Mesh, Quad};
use crate::{CHUNK_SIZE, SLICE_AREA};

verus! {

/// The block types of a chunk, indexed `[x][y][z]`.
pub type Blocks = [[[usize; CHUNK_SIZE]; CHUNK_SIZE]; CHUNK_SIZE];

/// The number of layers a chunk is meshed in: one per direction and
/// position along it.
pub const LAYERS: usize = 192;

/// Whether `(x, y, z)` names a block of a chunk.
pub open spec fn inside(x: int, y: int, z: int) -> bool {
    0 <= x < CHUNK_SIZE && 0 <= y < CHUNK_SIZE && 0 <= z < CHUNK_SIZE
}

/// Whether every block type that occurs in `blocks` is below `types`, the
/// length of a catalog.
pub open spec fn fits(blocks: Blocks, types: int) -> bool {
    forall|x: int, y: int, z: int| inside(x, y, z) ==> (#[trigger] blocks[x][y][z]) < types
}

/// The block grids of six optional neighbours.
pub open spec fn grids(adj: [Option<&Blocks>; 6]) -> Seq<Option<Blocks>> {
    Seq::new(
        6,
        |i: int|
            match adj[i] {
                Some(b) => Some(*b),
                None => None,
            },
    )
}

/// Whether the neighbours that are loaded fit a catalog of `types` entries.
pub open spec fn neighbors_fit(adj: Seq<Option<Blocks>>, types: int) -> bool {
    forall|i: int| 0 <= i < 6 ==> ((#[trigger] adj[i]) matches Some(b) ==> fits(b, types))
}

/// The block type of the cell that the block in cell `(u, v)` of layer `w`
/// faces in direction `dir`, where that cell is loaded: in the chunk itself,
/// or across the boundary in the neighbour, whose blocks repeat the chunk's
/// coordinates modulo the chunk size.
pub open spec fn facing_block(
    blocks: Blocks,
    adj: Seq<Option<Blocks>>,
    dir: NormalDirection,
    u: int,
    v: int,
    w: int,
) -> Option<usize> {
    let (x, y, z) = dir.to_xyz(u, v, w);
    let d = dir.unit();
    let (qx, qy, qz) = (x + d.0, y + d.1, z + d.2);
    if inside(qx, qy, qz) {
        Some(blocks[qx][qy][qz])
    } else {
        match adj[dir.opposite().index()] {
            Some(other) => Some(
                other[qx % (CHUNK_SIZE as int)][qy % (CHUNK_SIZE as int)][qz % (CHUNK_SIZE as int)],
            ),
            None => None,
        }
    }
}

/// The face that the block in cell `(u, v)` of layer `w` shows towards
/// `dir`, if any: the block's colour, where the block is drawn and the cell
/// it faces is not loaded or does not hide what lies behind its face
/// towards the block.
pub open spec fn face_color(
    blocks: Blocks,
    catalog: Seq<BlockRenderData>,
    adj: Seq<Option<Blocks>>,
    dir: NormalDirection,
    u: int,
    v: int,
    w: int,
) -> Option<Color> {
    let (x, y, z) = dir.to_xyz(u, v, w);
    let own = catalog[blocks[x][y][z] as int];
    let hidden = facing_block(blocks, adj, dir, u, v, w) matches Some(id)
        && catalog[id as int].obscures_towards(dir.opposite());
    if own.should_render && !hidden {
        Some(own.color)
    } else {
        None
    }
}

/// Layer `w` of the faces that point towards `dir`, row by row.
pub open spec fn face_slice(
    blocks: Blocks,
    catalog: Seq<BlockRenderData>,
    adj: Seq<Option<Blocks>>,
    dir: NormalDirection,
    w: int,
) -> Seq<Option<Color>> {
    Seq::new(
        SLICE_AREA as nat,
        |i: int|
            face_color(
                blocks,
                catalog,
                adj,
                dir,
                i % (CHUNK_SIZE as int),
                i / (CHUNK_SIZE as int),
                w,
            ),
    )
}

/// The rectangles `rects` as quads of layer `w` that face `dir`.
pub open spec fn place_rects(rects: Seq<Rect>, dir: NormalDirection, w: int) -> Seq<Quad> {
    Seq::new(rects.len(), |k: int| Quad { dir, layer: w as usize, rect: rects[k] })
}

/// The quads of layer `w` of the faces that point towards `dir`: the
/// rectangles into which the faces of the layer are merged.
pub open spec fn layer_quads(
    blocks: Blocks,
    catalog: Seq<BlockRenderData>,
    adj: Seq<Option<Blocks>>,
    dir: NormalDirection,
    w: int,
) -> Seq<Quad> {
    place_rects(merged(face_slice(blocks, catalog, adj, dir, w)), dir, w)
}

/// The quads of the first `n` layers, in order. The layers are numbered
/// direction by direction, in meshing order, and within a direction along
/// it.
pub open spec fn quads_before(
    blocks: Blocks,
    catalog: Seq<BlockRenderData>,
    adj: Seq<Option<Blocks>>,
    n: nat,
) -> Seq<Quad>
    decreases n,
{
    if n == 0 {
        Seq::empty()
    } else {
        quads_before(blocks, catalog, adj, (n - 1) as nat) + layer_quads(
            blocks,
            catalog,
            adj,
            NormalDirection::meshing_order()[(n - 1) / (CHUNK_SIZE as int)],
            (n - 1) % (CHUNK_SIZE as int),
        )
    }
}

/// The quads of the surface of a chunk.
pub open spec fn surface_quads(
    blocks: Blocks,
    catalog: Seq<BlockRenderData>,
    adj: Seq<Option<Blocks>>,
) -> Seq<Quad> {
    quads_before(blocks, catalog, adj, LAYERS as nat)
}

/// A table of neighbours in which no chunk is loaded.
pub open spec fn no_neighbors() -> Seq<Option<Blocks>> {
    Seq::new(6, |i: int| None)
}

/// The layer of a chunk that lies at its boundary in direction `dir`.
pub open spec fn boundary_layer(dir: NormalDirection) -> int {
    if dir.is_positive() {
        CHUNK_SIZE - 1
    } else {
        0
    }
}

/// The cell `(u, v)` of a face slice is `face_color` of that cell.
pub proof fn lemma_face_slice_cell(
    blocks: Blocks,
    catalog: Seq<BlockRenderData>,
    adj: Seq<Option<Blocks>>,
    dir: NormalDirection,
    w: int,
    u: int,
    v: int,
)
    requires
        in_layer(u, v),
    ensures
        cell(face_slice(blocks, catalog, adj, dir, w), u, v) == face_color(
            blocks,
            catalog,
            adj,
            dir,
            u,
            v,
            w,
        ),
{
    let i = v * CHUNK_SIZE + u;
    assert(i % (CHUNK_SIZE as int) == u && i / (CHUNK_SIZE as int) == v);
}

/// Air shows no face and hides none: with a catalog whose entry for air is
/// as it must be, a cell of air has no face, and a drawn block that faces
/// air shows its face.
pub proof fn lemma_air(
    blocks: Blocks,
    catalog: Seq<BlockRenderData>,
    adj: Seq<Option<Blocks>>,
    dir: NormalDirection,
    u: int,
    v: int,
    w: int,
)
    requires
        valid_catalog(catalog),
    ensures
        ({
            let (x, y, z) = dir.to_xyz(u, v, w);
            let own = catalog[blocks[x][y][z] as int];
            &&& blocks[x][y][z] == AIR ==> face_color(blocks, catalog, adj, dir, u, v, w) is None
            &&& own.should_render && facing_block(blocks, adj, dir, u, v, w) == Some(AIR)
                ==> face_color(blocks, catalog, adj, dir, u, v, w) == Some(own.color)
        }),
{
    lemma_occlusion_sets(catalog[AIR as int], dir.opposite());
}

/// The faces towards `dir` do not depend on any neighbour but the one
/// consulted for `dir`: where that one is not loaded, the layer is the one
/// that the chunk has when it stands alone.
pub proof fn lemma_unloaded_neighbor(
    blocks: Blocks,
    catalog: Seq<BlockRenderData>,
    adj: Seq<Option<Blocks>>,
    dir: NormalDirection,
    w: int,
)
    requires
        adj[dir.opposite().index()] is None,
    ensures
        face_slice(blocks, catalog, adj, dir, w) == face_slice(
            blocks,
            catalog,
            no_neighbors(),
            dir,
            w,
        ),
        layer_quads(blocks, catalog, adj, dir, w) == layer_quads(
            blocks,
            catalog,
            no_neighbors(),
            dir,
            w,
        ),
{
    assert(face_slice(blocks, catalog, adj, dir, w) =~= face_slice(
        blocks,
        catalog,
        no_neighbors(),
        dir,
        w,
    ));
}

/// A block at the boundary to a neighbour that is not loaded shows its face
/// whenever it is drawn at all.
pub proof fn lemma_unloaded_boundary_shows(
    blocks: Blocks,
    catalog: Seq<BlockRenderData>,
    adj: Seq<Option<Blocks>>,
    dir: NormalDirection,
    u: int,
    v: int,
)
    requires
        in_layer(u, v),
        adj[dir.opposite().index()] is None,
    ensures
        ({
            let w = boundary_layer(dir);
            let (x, y, z) = dir.to_xyz(u, v, w);
            let own = catalog[blocks[x][y][z] as int];
            face_color(blocks, catalog, adj, dir, u, v, w) == if own.should_render {
                Some(own.color)
            } else {
                None
            }
        }),
{
}

/// A layer in which no block shows a face has no quads.
pub proof fn lemma_hidden_layer(
    blocks: Blocks,
    catalog: Seq<BlockRenderData>,
    adj: Seq<Option<Blocks>>,
    dir: NormalDirection,
    w: int,
)
    requires
        forall|u: int, v: int|
            in_layer(u, v) ==> (#[trigger] face_color(blocks, catalog, adj, dir, u, v, w)) is None,
    ensures
        layer_quads(blocks, catalog, adj, dir, w) == Seq::<Quad>::empty(),
{
    let g = face_slice(blocks, catalog, adj, dir, w);
    assert forall|x: int, y: int| in_layer(x, y) implies (#[trigger] cell(g, x, y)) is None by {
        lemma_face_slice_cell(blocks, catalog, adj, dir, w, x, y);
        assert(face_color(blocks, catalog, adj, dir, x, y, w) is None);
    }
    lemma_empty_layer(g, 0, 0);
    assert(layer_quads(blocks, catalog, adj, dir, w) =~= Seq::<Quad>::empty());
}

/// A layer in which every block shows a face of one colour has a single
/// quad, which covers the layer.
pub proof fn lemma_uniform_face_layer(
    blocks: Blocks,
    catalog: Seq<BlockRenderData>,
    adj: Seq<Option<Blocks>>,
    dir: NormalDirection,
    w: int,
    c: Color,
)
    requires
        forall|u: int, v: int|
            in_layer(u, v) ==> #[trigger] face_color(blocks, catalog, adj, dir, u, v, w) == Some(c),
    ensures
        layer_quads(blocks, catalog, adj, dir, w) == seq![
            Quad {
                dir,
                layer: w as usize,
                rect: Rect { u: 0, v: 0, width: CHUNK_SIZE, height: CHUNK_SIZE, color: c },
            },
        ],
{
    let g = face_slice(blocks, catalog, adj, dir, w);
    assert forall|x: int, y: int| in_layer(x, y) implies #[trigger] cell(g, x, y) == Some(c) by {
        lemma_face_slice_cell(blocks, catalog, adj, dir, w, x, y);
        assert(face_color(blocks, catalog, adj, dir, x, y, w) == Some(c));
    }
    lemma_uniform_layer(g, c);
    assert(layer_quads(blocks, catalog, adj, dir, w) =~= seq![
        Quad {
            dir,
            layer: w as usize,
            rect: Rect { u: 0, v: 0, width: CHUNK_SIZE, height: CHUNK_SIZE, color: c },
        },
    ]);
}

/// The quads of a layer tile the faces of the layer: each quad lies within
/// the layer and covers only cells whose block shows a face of the quad's
/// colour, every face that is shown lies in exactly one quad, and no quad
/// covers a cell whose block shows no face.
pub proof fn lemma_layer_tiled(
    blocks: Blocks,
    catalog: Seq<BlockRenderData>,
    adj: Seq<Option<Blocks>>,
    dir: NormalDirection,
    w: int,
)
    ensures
        layer_quads(blocks, catalog, adj, dir, w).len() == merged(
            face_slice(blocks, catalog, adj, dir, w),
        ).len(),
        forall|k: int|
            0 <= k < layer_quads(blocks, catalog, adj, dir, w).len() ==> #[trigger] layer_quads(
                blocks,
                catalog,
                adj,
                dir,
                w,
            )[k] == (Quad {
                dir,
                layer: w as usize,
                rect: merged(face_slice(blocks, catalog, adj, dir, w))[k],
            }),
        tiles(
            merged(face_slice(blocks, catalog, adj, dir, w)),
            face_slice(blocks, catalog, adj, dir, w),
        ),
{
    lemma_merged_tiles(face_slice(blocks, catalog, adj, dir, w));
}

/// The surface is made of its layers: every quad of the first `n` layers
/// lies within the chunk and is a quad of the layer it names.
pub proof fn lemma_surface_from_layers(
    blocks: Blocks,
    catalog: Seq<BlockRenderData>,
    adj: Seq<Option<Blocks>>,
    n: nat,
)
    requires
        n <= LAYERS,
    ensures
        forall|k: int|
            0 <= k < quads_before(blocks, catalog, adj, n).len() ==> {
                let q = #[trigger] quads_before(blocks, catalog, adj, n)[k];
                &&& q.in_chunk()
                &&& layer_quads(blocks, catalog, adj, q.dir, q.layer as int).contains(q)
            },
    decreases n,
{
    if n > 0 {
        lemma_surface_from_layers(blocks, catalog, adj, (n - 1) as nat);
        let all = quads_before(blocks, catalog, adj, n);
        let done = quads_before(blocks, catalog, adj, (n - 1) as nat);
        let dir = NormalDirection::meshing_order()[(n - 1) / (CHUNK_SIZE as int)];
        let w = (n - 1) % (CHUNK_SIZE as int);
        let layer = layer_quads(blocks, catalog, adj, dir, w);
        lemma_layer_tiled(blocks, catalog, adj, dir, w);
        assert forall|k: int| 0 <= k < all.len() implies {
            let q = #[trigger] all[k];
            &&& q.in_chunk()
            &&& layer_quads(blocks, catalog, adj, q.dir, q.layer as int).contains(q)
        } by {
            if k >= done.len() {
                let m = k - done.len();
                assert(all[k] == layer[m]);
                assert(merged(face_slice(blocks, catalog, adj, dir, w))[m].in_bounds());
            } else {
                assert(all[k] == done[k]);
            }
        }
    }
}

/// The number of layer `w` of the faces that point towards `dir`.
pub open spec fn layer_number(dir: NormalDirection, w: int) -> int {
    dir.order() * CHUNK_SIZE + w
}

/// Whether `quads` are exactly the faces that the first `n` layers show:
/// each quad belongs to one of those layers and covers only cells whose
/// block shows a face of the quad's colour, each face that is shown in
/// those layers lies in a quad, and no face lies in two quads.
pub open spec fn covers_shown_faces(
    quads: Seq<Quad>,
    blocks: Blocks,
    catalog: Seq<BlockRenderData>,
    adj: Seq<Option<Blocks>>,
    n: int,
) -> bool {
    &&& forall|k: int|
        0 <= k < quads.len() ==> (#[trigger] quads[k]).in_chunk() && layer_number(
            quads[k].dir,
            quads[k].layer as int,
        ) < n
    &&& forall|k: int, u: int, v: int|
        0 <= k < quads.len() && #[trigger] quads[k].rect.covers(u, v) ==> face_color(
            blocks,
            catalog,
            adj,
            quads[k].dir,
            u,
            v,
            quads[k].layer as int,
        ) == Some(quads[k].rect.color)
    &&& forall|dir: NormalDirection, u: int, v: int, w: int|
        in_layer(u, v) && 0 <= w < CHUNK_SIZE && layer_number(dir, w) < n && (#[trigger] face_color(
            blocks,
            catalog,
            adj,
            dir,
            u,
            v,
            w,
        )) is Some ==> exists|k: int|
            0 <= k < quads.len() && #[trigger] quads[k].covers_face(dir, u, v, w)
    &&& forall|k: int, m: int, dir: NormalDirection, u: int, v: int, w: int|
        0 <= k < quads.len() && 0 <= m < quads.len() && #[trigger] quads[k].covers_face(
            dir,
            u,
            v,
            w,
        ) && #[trigger] quads[m].covers_face(dir, u, v, w) ==> k == m
}

/// The quads of the first `n` layers are exactly the faces that those
/// layers show.
pub proof fn lemma_layers_exact(
    blocks: Blocks,
    catalog: Seq<BlockRenderData>,
    adj: Seq<Option<Blocks>>,
    n: nat,
)
    requires
        n <= LAYERS,
    ensures
        covers_shown_faces(quads_before(blocks, catalog, adj, n), blocks, catalog, adj, n as int),
    decreases n,
{
    let all = quads_before(blocks, catalog, adj, n);
    if n > 0 {
        lemma_layers_exact(blocks, catalog, adj, (n - 1) as nat);
        let done = quads_before(blocks, catalog, adj, (n - 1) as nat);
        let dir = NormalDirection::meshing_order()[(n - 1) / (CHUNK_SIZE as int)];
        let w = (n - 1) % (CHUNK_SIZE as int);
        let g = face_slice(blocks, catalog, adj, dir, w);
        let rects = merged(g);
        let layer = layer_quads(blocks, catalog, adj, dir, w);
        lemma_merged_tiles(g);
        assert(layer_number(dir, w) == n - 1);
        assert(all == done + layer);
        assert forall|k: int| done.len() <= k < all.len() implies all[k] == (Quad {
            dir,
            layer: w as usize,
            rect: rects[k - done.len()],
        }) by {
            assert(all[k] == layer[k - done.len()]);
        }
        assert forall|k: int| 0 <= k < done.len() implies all[k] == done[k] by {}
        assert forall|k: int| 0 <= k < all.len() implies (#[trigger] all[k]).in_chunk()
            && layer_number(all[k].dir, all[k].layer as int) < n by {
            if k >= done.len() {
                assert(rects[k - done.len()].in_bounds());
            } else {
                assert(done[k].in_chunk());
            }
        }
        assert forall|k: int, u: int, v: int|
            0 <= k < all.len() && #[trigger] all[k].rect.covers(u, v) implies face_color(
            blocks,
            catalog,
            adj,
            all[k].dir,
            u,
            v,
            all[k].layer as int,
        ) == Some(all[k].rect.color) by {
            if k >= done.len() {
                let r = rects[k - done.len()];
                assert(r.in_bounds());
                assert(r.covers(u, v));
                assert(cell(g, u, v) == Some(r.color));
                lemma_face_slice_cell(blocks, catalog, adj, dir, w, u, v);
            } else {
                assert(done[k].rect.covers(u, v));
            }
        }
        assert forall|d: NormalDirection, u: int, v: int, l: int|
            in_layer(u, v) && 0 <= l < CHUNK_SIZE && layer_number(d, l) < n && (#[trigger] face_color(
                blocks,
                catalog,
                adj,
                d,
                u,
                v,
                l,
            )) is Some implies exists|k: int|
            0 <= k < all.len() && #[trigger] all[k].covers_face(d, u, v, l) by {
            if layer_number(d, l) == n - 1 {
                assert(d == dir && l == w);
                lemma_face_slice_cell(blocks, catalog, adj, dir, w, u, v);
                assert(cell(g, u, v) is Some);
                let m = choose|m: int| 0 <= m < rects.len() && #[trigger] rects[m].covers(u, v);
                assert(all[done.len() + m].covers_face(d, u, v, l));
            } else {
                let k = choose|k: int|
                    0 <= k < done.len() && #[trigger] done[k].covers_face(d, u, v, l);
                assert(all[k].covers_face(d, u, v, l));
            }
        }
        assert forall|k: int, m: int, d: NormalDirection, u: int, v: int, l: int|
            0 <= k < all.len() && 0 <= m < all.len() && #[trigger] all[k].covers_face(d, u, v, l)
                && #[trigger] all[m].covers_face(d, u, v, l) implies k == m by {
            if k >= done.len() && m >= done.len() {
                assert(rects[k - done.len()].covers(u, v));
                assert(rects[m - done.len()].covers(u, v));
            } else if k < done.len() && m < done.len() {
                assert(done[k].covers_face(d, u, v, l));
                assert(done[m].covers_face(d, u, v, l));
            } else if k < done.len() {
                assert(done[k].in_chunk() && layer_number(done[k].dir, done[k].layer as int) < n - 1);
            } else {
                assert(done[m].in_chunk() && layer_number(done[m].dir, done[m].layer as int) < n - 1);
            }
        }
    }
}

/// The surface of a chunk is exactly the faces that its blocks show: each
/// quad lies within the chunk and covers only cells whose block shows a
/// face of the quad's colour in the quad's direction, each face that is
/// shown lies in a quad, and no face lies in two quads.
pub proof fn lemma_surface_exact(
    blocks: Blocks,
    catalog: Seq<BlockRenderData>,
    adj: Seq<Option<Blocks>>,
)
    ensures
        covers_shown_faces(
            surface_quads(blocks, catalog, adj),
            blocks,
            catalog,
            adj,
            LAYERS as int,
        ),
        forall|dir: NormalDirection, w: int|
            0 <= w < CHUNK_SIZE ==> #[trigger] layer_number(dir, w) < LAYERS,
{
    lemma_layers_exact(blocks, catalog, adj, LAYERS as nat);
}

/// No face is shown between a chunk and a neighbour that hides everything:
/// where the neighbour consulted for `dir` is loaded and each of its blocks
/// hides what lies behind its face towards the chunk, the surface of the
/// chunk has no quad that faces `dir` in the layer at that boundary.
pub proof fn lemma_opaque_neighbor_hides_boundary(
    blocks: Blocks,
    other: Blocks,
    catalog: Seq<BlockRenderData>,
    adj: Seq<Option<Blocks>>,
    dir: NormalDirection,
)
    requires
        adj[dir.opposite().index()] == Some(other),
        forall|x: int, y: int, z: int|
            inside(x, y, z) ==> catalog[(#[trigger] other[x][y][z]) as int].obscures_towards(
                dir.opposite(),
            ),
    ensures
        layer_quads(blocks, catalog, adj, dir, boundary_layer(dir)) == Seq::<Quad>::empty(),
        forall|k: int|
            0 <= k < surface_quads(blocks, catalog, adj).len() ==> {
                let q = #[trigger] surface_quads(blocks, catalog, adj)[k];
                !(q.dir == dir && q.layer == boundary_layer(dir))
            },
{
    let w = boundary_layer(dir);
    assert forall|u: int, v: int| in_layer(u, v) implies (#[trigger] face_color(
        blocks,
        catalog,
        adj,
        dir,
        u,
        v,
        w,
    )) is None by {
        let (x, y, z) = dir.to_xyz(u, v, w);
        let d = dir.unit();
        let (qx, qy, qz) = (x + d.0, y + d.1, z + d.2);
        let side = CHUNK_SIZE as int;
        assert(!inside(qx, qy, qz));
        assert(inside(qx % side, qy % side, qz % side));
        assert(facing_block(blocks, adj, dir, u, v, w) == Some(
            other[qx % side][qy % side][qz % side],
        ));
    }
    lemma_hidden_layer(blocks, catalog, adj, dir, w);
    lemma_surface_from_layers(blocks, catalog, adj, LAYERS as nat);
}

/// The cell next to `(x, y, z)` in direction `dir`: whether it lies inside
/// the chunk, and its coordinates, taken modulo the chunk size.
fn step(dir: NormalDirection, x: usize, y: usize, z: usize) -> (r: (bool, usize, usize, usize))
    requires
        inside(x as int, y as int, z as int),
    ensures
        r.0 == inside(x + dir.unit().0, y + dir.unit().1, z + dir.unit().2),
        r.1 == (x + dir.unit().0) % (CHUNK_SIZE as int),
        r.2 == (y + dir.unit().1) % (CHUNK_SIZE as int),
        r.3 == (z + dir.unit().2) % (CHUNK_SIZE as int),
{
    let last: usize = CHUNK_SIZE - 1;
    match dir {
        NormalDirection::Up => if z < last {
            (true, x, y, z + 1)
        } else {
            (false, x, y, 0)
        },
        NormalDirection::Down => if z > 0 {
            (true, x, y, z - 1)
        } else {
            (false, x, y, last)
        },
        NormalDirection::Right => if x < last {
            (true, x + 1, y, z)
        } else {
            (false, 0, y, z)
        },
        NormalDirection::Left => if x > 0 {
            (true, x - 1, y, z)
        } else {
            (false, last, y, z)
        },
        NormalDirection::Front => if y < last {
            (true, x, y + 1, z)
        } else {
            (false, x, 0, z)
        },
        NormalDirection::Back => if y > 0 {
            (true, x, y - 1, z)
        } else {
            (false, x, last, z)
        },
    }
}

/// The block type of the cell that one block faces in direction `dir`,
/// where that cell is loaded.
fn facing(
    blocks: &Blocks,
    adj: &[Option<&Blocks>; 6],
    dir: NormalDirection,
    u: usize,
    v: usize,
    w: usize,
) -> (id: Option<usize>)
    requires
        u < CHUNK_SIZE,
        v < CHUNK_SIZE,
        w < CHUNK_SIZE,
    ensures
        id == facing_block(*blocks, grids(*adj), dir, u as int, v as int, w as int),
        forall|types: int|
            fits(*blocks, types) && neighbors_fit(grids(*adj), types) ==> (id matches Some(t)
                ==> t < types),
{
    let (x, y, z) = dir.map_uvw(u, v, w);
    let (within, qx, qy, qz) = step(dir, x, y, z);
    if within {
        Some(blocks[qx][qy][qz])
    } else {
        let back = dir.neg();
        match adj[back.to_index()] {
            Some(other) => {
                assert(grids(*adj)[back.index()] == Some(*other));
                assert(inside(qx as int, qy as int, qz as int));
                Some(other[qx][qy][qz])
            },
            None => {
                assert(grids(*adj)[back.index()].is_none());
                None
            },
        }
    }
}

/// The face that one block shows towards `dir`.
fn face_of(
    blocks: &Blocks,
    catalog: &[BlockRenderData],
    adj: &[Option<&Blocks>; 6],
    dir: NormalDirection,
    u: usize,
    v: usize,
    w: usize,
) -> (face: Option<Color>)
    requires
        u < CHUNK_SIZE,
        v < CHUNK_SIZE,
        w < CHUNK_SIZE,
        fits(*blocks, catalog@.len() as int),
        neighbors_fit(grids(*adj), catalog@.len() as int),
    ensures
        face == face_color(*blocks, catalog@, grids(*adj), dir, u as int, v as int, w as int),
{
    let (x, y, z) = dir.map_uvw(u, v, w);
    let own = &catalog[blocks[x][y][z]];
    if !own.should_render {
        return None;
    }
    let hidden = match facing(blocks, adj, dir, u, v, w) {
        Some(id) => catalog[id].obscures(&dir.neg()),
        None => false,
    };
    if hidden {
        None
    } else {
        Some(own.color)
    }
}

/// One layer of the faces that point towards `dir`.
fn slice_of(
    blocks: &Blocks,
    catalog: &[BlockRenderData],
    adj: &[Option<&Blocks>; 6],
    dir: NormalDirection,
    w: usize,
) -> (slice: Vec<Option<Color>>)
    requires
        w < CHUNK_SIZE,
        fits(*blocks, catalog@.len() as int),
        neighbors_fit(grids(*adj), catalog@.len() as int),
    ensures
        slice@ == face_slice(*blocks, catalog@, grids(*adj), dir, w as int),
{
    let mut slice: Vec<Option<Color>> = Vec::with_capacity(SLICE_AREA);
    let mut v: usize = 0;
    while v < CHUNK_SIZE
        invariant
            w < CHUNK_SIZE,
            v <= CHUNK_SIZE,
            fits(*blocks, catalog@.len() as int),
            neighbors_fit(grids(*adj), catalog@.len() as int),
            slice.len() == v * CHUNK_SIZE,
            forall|i: int|
                0 <= i < slice.len() ==> slice@[i] == face_slice(
                    *blocks,
                    catalog@,
                    grids(*adj),
                    dir,
                    w as int,
                )[i],
        decreases CHUNK_SIZE - v,
    {
        let mut u: usize = 0;
        while u < CHUNK_SIZE
            invariant
                w < CHUNK_SIZE,
                v < CHUNK_SIZE,
                u <= CHUNK_SIZE,
                fits(*blocks, catalog@.len() as int),
                neighbors_fit(grids(*adj), catalog@.len() as int),
                slice.len() == v * CHUNK_SIZE + u,
                forall|i: int|
                    0 <= i < slice.len() ==> slice@[i] == face_slice(
                        *blocks,
                        catalog@,
                        grids(*adj),
                        dir,
                        w as int,
                    )[i],
            decreases CHUNK_SIZE - u,
        {
            let face = face_of(blocks, catalog, adj, dir, u, v, w);
            slice.push(face);
            u += 1;
        }
        v += 1;
    }
    assert(slice@ =~= face_slice(*blocks, catalog@, grids(*adj), dir, w as int));
    slice
}

/// Computes the mesh of the surface of a block grid.
///
/// `adj` holds the grids of the neighbouring chunks that are loaded, each at
/// the index of the direction in which it looks at this chunk.
pub fn mesh_blocks(
    blocks: &Blocks,
    catalog: &[BlockRenderData],
    adj: &[Option<&Blocks>; 6],
) -> (mesh: Mesh)
    requires
        fits(*blocks, catalog@.len() as int),
        neighbors_fit(grids(*adj), catalog@.len() as int),
    ensures
        mesh.holds(surface_quads(*blocks, catalog@, grids(*adj))),
        mesh.consistent(),
{
    let order = [
        NormalDirection::Up,
        NormalDirection::Down,
        NormalDirection::Left,
        NormalDirection::Right,
        NormalDirection::Front,
        NormalDirection::Back,
    ];
    assert(order@ =~= NormalDirection::meshing_order());
    let mut mesh = Mesh::new();
    let mut d: usize = 0;
    while d < 6
        invariant
            d <= 6,
            order@ == NormalDirection::meshing_order(),
            fits(*blocks, catalog@.len() as int),
            neighbors_fit(grids(*adj), catalog@.len() as int),
            mesh.holds(quads_before(*blocks, catalog@, grids(*adj), (d * CHUNK_SIZE) as nat)),
        decreases 6 - d,
    {
        let dir = order[d];
        let mut w: usize = 0;
        while w < CHUNK_SIZE
            invariant
                d < 6,
                w <= CHUNK_SIZE,
                dir == NormalDirection::meshing_order()[d as int],
                fits(*blocks, catalog@.len() as int),
                neighbors_fit(grids(*adj), catalog@.len() as int),
                mesh.holds(
                    quads_before(*blocks, catalog@, grids(*adj), (d * CHUNK_SIZE + w) as nat),
                ),
            decreases CHUNK_SIZE - w,
        {
            let slice = slice_of(blocks, catalog, adj, dir, w);
            let rects = merge_slice(slice);
            let ghost n = (d * CHUNK_SIZE + w) as nat;
            let ghost done = quads_before(*blocks, catalog@, grids(*adj), n);
            let ghost layer = layer_quads(*blocks, catalog@, grids(*adj), dir, w as int);
            assert(layer == place_rects(rects@, dir, w as int));
            let mut k: usize = 0;
            assert(done + layer.take(0) =~= done);
            while k < rects.len()
                invariant
                    k <= rects.len(),
                    w < CHUNK_SIZE,
                    layer == place_rects(rects@, dir, w as int),
                    forall|i: int| 0 <= i < rects.len() ==> (#[trigger] rects@[i]).in_bounds(),
                    mesh.holds(done + layer.take(k as int)),
                decreases rects.len() - k,
            {
                let quad = Quad { dir, layer: w, rect: rects[k] };
                mesh.push_quad(quad);
                assert((done + layer.take(k as int)).push(quad) =~= done + layer.take(k + 1));
                k += 1;
            }
            assert(layer.take(rects.len() as int) =~= layer);
            w += 1;
        }
        d += 1;
    }
    proof {
        lemma_mesh_consistent(mesh, surface_quads(*blocks, catalog@, grids(*adj)));
    }
    mesh
}

} // verus!
