//! Triangle meshes made of flat quads.

use vstd::prelude::*;
use crate::catalog::Color;
use crate::direction::NormalDirection;
use crate::greedy::Rect;
use crate::CHUNK_SIZE;

verus! {

/// A corner of a quad: where it lies in the chunk, in block units, which way
/// the quad faces, and the quad's colour.
#[derive(Debug, Copy, Clone, PartialEq, Eq)]
pub struct Vertex {
    pub position: [u8; 3],
    pub normal: [i8; 3],
    pub color: Color,
}

/// A rectangle of faces placed in a chunk: it faces `dir` and covers cells
/// of layer `layer` along that direction.
#[derive(Debug, Copy, Clone, PartialEq, Eq)]
pub struct Quad {
    pub dir: NormalDirection,
    pub layer: usize,
    pub rect: Rect,
}

/// A vertex buffer and a triangle list over it. Every quad owns four
/// consecutive vertices and six consecutive indices.
#[derive(Debug, Clone, PartialEq, Eq)]
pub struct Mesh {
    pub vertices: Vec<Vertex>,
    pub indices: Vec<u16>,
}

/// The corner of a quad that each of its six indices names: two triangles,
/// `0, 1, 2` and `3, 2, 1`.
pub open spec fn winding(j: int) -> int {
    if j == 0 {
        0
    } else if j == 1 {
        1
    } else if j == 2 {
        2
    } else if j == 3 {
        3
    } else if j == 4 {
        2
    } else {
        1
    }
}

/// A vertex number as a 16-bit index: numbers beyond the 16-bit range wrap
/// round.
pub open spec fn index16(n: int) -> u16 {
    (n % 0x1_0000) as u16
}

impl Quad {
    /// Whether the quad lies within a chunk.
    pub open spec fn in_chunk(self) -> bool {
        self.layer < CHUNK_SIZE && self.rect.in_bounds()
    }

    /// Whether the quad covers the face towards `dir` of the block in cell
    /// `(u, v)` of layer `w`.
    pub open spec fn covers_face(self, dir: NormalDirection, u: int, v: int, w: int) -> bool {
        self.dir == dir && self.layer == w && self.rect.covers(u, v)
    }

    /// The block coordinates of corner `k` of the quad, for `k` from 0 to 3.
    ///
    /// Corners 0 and 1 lie on the low `u` edge, corners 2 and 3 on the high
    /// one; corners 0 and 2 lie on the high `v` edge. A quad that faces a
    /// growing coordinate lies on the far side of its layer.
    pub open spec fn corner(self, k: int) -> (int, int, int) {
        let cu = if k == 0 || k == 1 {
            self.rect.u as int
        } else {
            self.rect.u + self.rect.width
        };
        let cv = if k == 0 || k == 2 {
            self.rect.v + self.rect.height
        } else {
            self.rect.v as int
        };
        let cw = if self.dir.is_positive() {
            self.layer + 1
        } else {
            self.layer as int
        };
        self.dir.to_xyz(cu, cv, cw)
    }

    /// Vertex `k` of the quad, for `k` from 0 to 3.
    pub open spec fn vertex(self, k: int) -> Vertex {
        let p = self.corner(k);
        let n = self.dir.unit();
        Vertex {
            position: [p.0 as u8, p.1 as u8, p.2 as u8],
            normal: [n.0 as i8, n.1 as i8, n.2 as i8],
            color: self.rect.color,
        }
    }
}

/// The four vertices of a quad.
pub open spec fn quad_vertices(quad: Quad) -> Seq<Vertex> {
    seq![quad.vertex(0), quad.vertex(1), quad.vertex(2), quad.vertex(3)]
}

/// The six indices of a quad whose first vertex has number `base`.
pub open spec fn quad_indices(base: int) -> Seq<u16> {
    Seq::new(6, |j: int| index16(base + winding(j)))
}

/// The vertex buffer of a sequence of quads.
pub open spec fn mesh_vertices(quads: Seq<Quad>) -> Seq<Vertex> {
    Seq::new(4 * quads.len(), |i: int| quads[i / 4].vertex(i % 4))
}

/// The index buffer of `n` quads.
pub open spec fn mesh_indices(n: nat) -> Seq<u16> {
    Seq::new(6 * n, |i: int| index16(4 * (i / 6) + winding(i % 6)))
}

impl Mesh {
    /// Whether the mesh is the mesh of `quads`.
    pub open spec fn holds(&self, quads: Seq<Quad>) -> bool {
        &&& self.vertices@ == mesh_vertices(quads)
        &&& self.indices@ == mesh_indices(quads.len())
    }

    /// Whether the buffers fit together: four vertices and six indices per
    /// quad, and no index beyond the vertex buffer.
    pub open spec fn consistent(&self) -> bool {
        &&& self.vertices@.len() % 4 == 0
        &&& self.indices@.len() * 4 == self.vertices@.len() * 6
        &&& forall|i: int|
            0 <= i < self.indices@.len() ==> (#[trigger] self.indices@[i] as int)
                < self.vertices@.len()
    }

    /// A mesh without quads.
    pub fn new() -> (mesh: Mesh)
        ensures
            mesh.holds(Seq::empty()),
    {
        let mesh = Mesh { vertices: Vec::new(), indices: Vec::new() };
        assert(mesh.vertices@ =~= mesh_vertices(Seq::empty()));
        assert(mesh.indices@ =~= mesh_indices(0));
        mesh
    }

    /// The number of quads in the mesh.
    pub fn quad_count(&self) -> (n: usize)
        ensures
            n == self.vertices@.len() / 4,
    {
        self.vertices.len() / 4
    }

    /// Appends a quad: its four vertices and the six indices of its two
    /// triangles.
    pub fn push_quad(&mut self, quad: Quad)
        requires
            quad.in_chunk(),
        ensures
            final(self).vertices@ == old(self).vertices@ + quad_vertices(quad),
            final(self).indices@ == old(self).indices@ + quad_indices(
                old(self).vertices@.len() as int,
            ),
            forall|quads: Seq<Quad>| #[trigger]
                old(self).holds(quads) ==> final(self).holds(quads.push(quad)),
    {
        let r = quad.rect;
        let u0: u8 = r.u as u8;
        let u1: u8 = (r.u + r.width) as u8;
        let v0: u8 = r.v as u8;
        let v1: u8 = (r.v + r.height) as u8;
        let w: u8 = match quad.dir {
            NormalDirection::Up | NormalDirection::Right | NormalDirection::Front => (quad.layer
                + 1) as u8,
            _ => quad.layer as u8,
        };
        let normal = quad.dir.to_vec_arr();
        let color = r.color;
        let base: usize = self.vertices.len() % 0x1_0000;
        proof {
            let n = quad.dir.unit();
            assert(normal =~= [n.0 as i8, n.1 as i8, n.2 as i8]);
        }
        self.vertices.push(Vertex { position: place(quad.dir, u0, v1, w), normal, color });
        self.vertices.push(Vertex { position: place(quad.dir, u0, v0, w), normal, color });
        self.vertices.push(Vertex { position: place(quad.dir, u1, v1, w), normal, color });
        self.vertices.push(Vertex { position: place(quad.dir, u1, v0, w), normal, color });
        self.indices.push((base % 0x1_0000) as u16);
        self.indices.push(((base + 1) % 0x1_0000) as u16);
        self.indices.push(((base + 2) % 0x1_0000) as u16);
        self.indices.push(((base + 3) % 0x1_0000) as u16);
        self.indices.push(((base + 2) % 0x1_0000) as u16);
        self.indices.push(((base + 1) % 0x1_0000) as u16);
        proof {
            let count = old(self).vertices@.len() as int;
            assert forall|i: int| 0 <= i < 4 implies self.vertices@[count + i] == quad_vertices(
                quad,
            )[i] by {
                assert(self.vertices@[count + i].position =~= quad.vertex(i).position);
            }
            assert(self.vertices@ =~= old(self).vertices@ + quad_vertices(quad));
            assert(self.indices@ =~= old(self).indices@ + quad_indices(count));
            assert forall|quads: Seq<Quad>| #[trigger] old(self).holds(quads) implies self.holds(
                quads.push(quad),
            ) by {
                let after = quads.push(quad);
                let k = quads.len() as int;
                assert(old(self).vertices@.len() == 4 * k);
                assert(old(self).indices@.len() == 6 * k);
                assert forall|i: int| 0 <= i < 4 * k + 4 implies self.vertices@[i]
                    == mesh_vertices(after)[i] by {
                    if i < 4 * k {
                        assert(self.vertices@[i] == old(self).vertices@[i]);
                        assert(after[i / 4] == quads[i / 4]);
                    } else {
                        assert(i / 4 == k);
                        assert(after[i / 4] == quad);
                        assert(i % 4 == i - 4 * k);
                        assert(self.vertices@[i].position =~= quad.vertex(i % 4).position);
                    }
                }
                assert(self.vertices@ =~= mesh_vertices(after));
                assert forall|i: int| 0 <= i < 6 * k + 6 implies self.indices@[i] == mesh_indices(
                    after.len(),
                )[i] by {
                    if i < 6 * k {
                        assert(self.indices@[i] == old(self).indices@[i]);
                    } else {
                        assert(i / 6 == k);
                        assert(i % 6 == i - 6 * k);
                    }
                }
                assert(self.indices@ =~= mesh_indices(after.len()));
            }
        }
    }
}

/// The position of slice-local corner `(u, v, w)` of a quad that faces `dir`.
fn place(dir: NormalDirection, u: u8, v: u8, w: u8) -> (p: [u8; 3])
    ensures
        (p[0] as int, p[1] as int, p[2] as int) == dir.to_xyz(u as int, v as int, w as int),
{
    match dir {
        NormalDirection::Up => [u, v, w],
        NormalDirection::Down => [v, u, w],
        NormalDirection::Left => [w, v, u],
        NormalDirection::Right => [w, u, v],
        NormalDirection::Front => [v, w, u],
        NormalDirection::Back => [u, w, v],
    }
}

/// The mesh of any sequence of quads is consistent: four vertices and six
/// indices for each quad, and every index names a vertex of the buffer.
pub proof fn lemma_mesh_consistent(mesh: Mesh, quads: Seq<Quad>)
    requires
        mesh.holds(quads),
    ensures
        mesh.vertices@.len() == 4 * quads.len(),
        mesh.indices@.len() == 6 * quads.len(),
        mesh.consistent(),
{
    let n = quads.len() as int;
    assert forall|i: int| 0 <= i < mesh.indices@.len() implies (#[trigger] mesh.indices@[i] as int)
        < mesh.vertices@.len() by {
        let k = i / 6;
        let j = i % 6;
        let m = 4 * k + winding(j);
        assert(0 <= k < n);
        assert(0 <= m < 4 * n);
        assert(mesh.indices@[i] == index16(m));
        assert(m % 0x1_0000 <= m);
    }
}

/// As long as a mesh has at most 16384 quads, no index wraps round: index
/// `j` of quad `k` is the number of the vertex it names.
pub proof fn lemma_indices_exact(mesh: Mesh, quads: Seq<Quad>, k: int, j: int)
    requires
        mesh.holds(quads),
        quads.len() <= 0x4000,
        0 <= k < quads.len(),
        0 <= j < 6,
    ensures
        mesh.indices@[6 * k + j] == 4 * k + winding(j),
        mesh.vertices@[4 * k + winding(j)] == quads[k].vertex(winding(j)),
{
    let i = 6 * k + j;
    assert(i / 6 == k && i % 6 == j);
    let m = 4 * k + winding(j);
    assert(m / 4 == k && m % 4 == winding(j));
    assert(m % 0x1_0000 == m);
}

} // verus!
