//! A chunk: a cube of blocks, and the buffers of its mesh once the mesh has
//! been built and handed to the rendering backend.
//!
//! The backend is given as two calls, one that makes a vertex buffer and one
//! that makes an index buffer. What they return is not interpreted here.

use vstd::prelude::*;
use std::rc::Rc;
use crate::catalog::BlockRenderData;
use crate::error::MeshCreationError;
use crate::mesh::{Mesh, Vertex};
use crate::surface::{fits, grids, mesh_blocks, neighbors_fit, surface_quads, Blocks};

verus! {

/// Another handle to the value that `rc` shares.
///
/// Wraps `Rc::clone`, which hands out a second pointer to the same
/// allocation: the value behind the result is the value behind `rc`.
#[verifier::external_body]
fn share<T>(rc: &Rc<T>) -> (r: Rc<T>)
    ensures
        r == *rc,
{
    Rc::clone(rc)
}

/// Whether a backend call takes every buffer content.
pub open spec fn accepts_all<T, B, E, U: Fn(&Vec<T>) -> Result<B, E>>(upload: U) -> bool {
    forall|data: Vec<T>| call_requires(upload, (&data,))
}

/// What handing `mesh` to the backend may give: both buffers, where the
/// backend made both; the vertex buffer's error, where it failed to make
/// that one; the index buffer's error, where it made the vertex buffer and
/// failed to make the other.
pub open spec fn upload_outcome<V, I, UV, UI>(
    mesh: Mesh,
    upload_vertices: UV,
    upload_indices: UI,
    r: Result<(Rc<V>, Rc<I>), MeshCreationError>,
) -> bool where
    UV: Fn(&Vec<Vertex>) -> Result<V, glium::vertex::BufferCreationError>,
    UI: Fn(&Vec<u16>) -> Result<I, glium::index::BufferCreationError>,
 {
    match r {
        Ok((v, i)) => {
            &&& call_ensures(upload_vertices, (&mesh.vertices,), Ok(*v))
            &&& call_ensures(upload_indices, (&mesh.indices,), Ok(*i))
        },
        Err(MeshCreationError::VertexBufferCreationFailed(e)) => call_ensures(
            upload_vertices,
            (&mesh.vertices,),
            Err(e),
        ),
        Err(MeshCreationError::IndexBufferCreationFailed(e)) => {
            &&& exists|v: V| call_ensures(upload_vertices, (&mesh.vertices,), Ok(v))
            &&& call_ensures(upload_indices, (&mesh.indices,), Err(e))
        },
    }
}

/// Hands a mesh to the rendering backend: first the vertices, then, if that
/// went well, the indices.
pub fn upload_mesh<V, I, UV, UI>(
    mesh: &Mesh,
    upload_vertices: &UV,
    upload_indices: &UI,
) -> (r: Result<(Rc<V>, Rc<I>), MeshCreationError>) where
    UV: Fn(&Vec<Vertex>) -> Result<V, glium::vertex::BufferCreationError>,
    UI: Fn(&Vec<u16>) -> Result<I, glium::index::BufferCreationError>,

    requires
        accepts_all(*upload_vertices),
        accepts_all(*upload_indices),
    ensures
        upload_outcome(*mesh, *upload_vertices, *upload_indices, r),
{
    match upload_vertices(&mesh.vertices) {
        Err(e) => Err(MeshCreationError::from(e)),
        Ok(v) => match upload_indices(&mesh.indices) {
            Err(e) => Err(MeshCreationError::from(e)),
            Ok(i) => Ok((Rc::new(v), Rc::new(i))),
        },
    }
}

/// A cube of `CHUNK_SIZE` blocks a side, with the mesh of its surface once
/// that has been built.
///
/// `V` and `I` are the backend's vertex and index buffers.
pub struct Chunk<V, I> {
    blocks: Blocks,
    mesh: Option<(Rc<V>, Rc<I>)>,
}

/// The block grid of an optional chunk.
fn grid_of<'a, V, I>(chunk: Option<&'a Chunk<V, I>>) -> (r: Option<&'a Blocks>)
    ensures
        r == (match chunk {
            Some(c) => Some(&c.grid()),
            None => None,
        }),
{
    match chunk {
        Some(c) => Some(&c.blocks),
        None => None,
    }
}

/// The block grids of six optional chunks.
pub open spec fn chunk_grids<V, I>(adj_chunks: [Option<&Chunk<V, I>>; 6]) -> Seq<Option<Blocks>> {
    Seq::new(
        6,
        |i: int|
            match adj_chunks[i] {
                Some(c) => Some(c.grid()),
                None => None,
            },
    )
}

/// Two chunks with the same blocks and the same mesh are one chunk.
pub proof fn lemma_chunk_extensional<V, I>(a: Chunk<V, I>, b: Chunk<V, I>)
    requires
        a.grid() == b.grid(),
        a.cached() == b.cached(),
    ensures
        a == b,
{
}

/// What a request for the mesh of chunk `before` gives, and the chunk
/// `after` it.
///
/// Where the mesh has been built before, its buffers are handed out and
/// nothing changes. Otherwise the mesh of the chunk's surface, whose buffers
/// fit together, is handed to the backend; what the backend made is handed
/// out and kept, and where it failed nothing is kept. The blocks stay as
/// they are.
pub open spec fn built<V, I, UV, UI>(
    before: Chunk<V, I>,
    after: Chunk<V, I>,
    catalog: Seq<BlockRenderData>,
    adj: Seq<Option<Blocks>>,
    upload_vertices: UV,
    upload_indices: UI,
    r: Result<(Rc<V>, Rc<I>), MeshCreationError>,
) -> bool where
    UV: Fn(&Vec<Vertex>) -> Result<V, glium::vertex::BufferCreationError>,
    UI: Fn(&Vec<u16>) -> Result<I, glium::index::BufferCreationError>,
 {
    &&& after.grid() == before.grid()
    &&& match before.cached() {
        Some(m) => r == Ok::<(Rc<V>, Rc<I>), MeshCreationError>(m) && after.cached() == Some(m),
        None => {
            &&& exists|mesh: Mesh|
                {
                    &&& #[trigger] mesh.holds(surface_quads(before.grid(), catalog, adj))
                    &&& mesh.consistent()
                    &&& upload_outcome(mesh, upload_vertices, upload_indices, r)
                }
            &&& after.cached() == match r {
                Ok(m) => Some(m),
                Err(_) => None,
            }
        },
    }
}

impl<V, I> Chunk<V, I> {
    /// The block types of the chunk.
    pub closed spec fn grid(&self) -> Blocks {
        self.blocks
    }

    /// The buffers of the chunk's mesh, if the mesh has been built.
    pub closed spec fn cached(&self) -> Option<(Rc<V>, Rc<I>)> {
        self.mesh
    }

    /// A chunk of the given blocks, without a mesh.
    pub fn new(blocks: Blocks) -> (chunk: Chunk<V, I>)
        ensures
            chunk.grid() == blocks,
            chunk.cached() is None,
    {
        Chunk { blocks: blocks, mesh: None }
    }

    /// The block types of the chunk.
    pub fn blocks(&self) -> (r: &Blocks)
        ensures
            *r == self.grid(),
    {
        &self.blocks
    }

    /// Whether the mesh has been built.
    pub fn has_mesh(&self) -> (r: bool)
        ensures
            r == self.cached() is Some,
    {
        self.mesh.is_some()
    }

    /// The buffers of the chunk's mesh, if the mesh has been built.
    pub fn cached_mesh(&self) -> (r: Option<(Rc<V>, Rc<I>)>)
        ensures
            r == self.cached(),
    {
        match &self.mesh {
            Some((v, i)) => Some((share(v), share(i))),
            None => None,
        }
    }

    /// Computes the mesh of the chunk's surface, whether or not one has been
    /// built before.
    pub fn surface_mesh(
        &self,
        block_render_data: &[BlockRenderData],
        adj_chunks: [Option<&Chunk<V, I>>; 6],
    ) -> (mesh: Mesh)
        requires
            fits(self.grid(), block_render_data@.len() as int),
            neighbors_fit(chunk_grids(adj_chunks), block_render_data@.len() as int),
        ensures
            mesh.holds(surface_quads(self.grid(), block_render_data@, chunk_grids(adj_chunks))),
            mesh.consistent(),
    {
        let adj = [
            grid_of(adj_chunks[0]),
            grid_of(adj_chunks[1]),
            grid_of(adj_chunks[2]),
            grid_of(adj_chunks[3]),
            grid_of(adj_chunks[4]),
            grid_of(adj_chunks[5]),
        ];
        assert(grids(adj) =~= chunk_grids(adj_chunks));
        mesh_blocks(&self.blocks, block_render_data, &adj)
    }

    /// Forgets the buffers of the chunk's mesh, so that the mesh is built
    /// again when it is next asked for.
    pub fn discard_mesh(&mut self)
        ensures
            final(self).grid() == old(self).grid(),
            final(self).cached() is None,
    {
        self.mesh = None;
    }

    /// Keeps what an upload gave: the buffers where it went well, nothing
    /// where it failed.
    pub fn store_mesh(&mut self, uploaded: &Result<(Rc<V>, Rc<I>), MeshCreationError>)
        ensures
            final(self).grid() == old(self).grid(),
            final(self).cached() == (match *uploaded {
                Ok(m) => Some(m),
                Err(_) => old(self).cached(),
            }),
    {
        if let Ok((v, i)) = uploaded {
            self.mesh = Some((share(v), share(i)));
        }
    }

    /// The buffers of the mesh of the chunk's surface.
    ///
    /// If the mesh has been built before, its buffers are returned as they
    /// are. Otherwise the mesh is computed and handed to the backend, and
    /// the buffers are kept for the next call. If the backend fails, its
    /// error is returned and nothing is kept, so a later call tries again.
    ///
    /// `adj_chunks` holds the neighbouring chunks that are loaded, each at
    /// the index of the direction in which it looks at this chunk.
    pub fn build_mesh<UV, UI>(
        &mut self,
        block_render_data: &[BlockRenderData],
        adj_chunks: [Option<&Chunk<V, I>>; 6],
        upload_vertices: &UV,
        upload_indices: &UI,
    ) -> (r: Result<(Rc<V>, Rc<I>), MeshCreationError>) where
        UV: Fn(&Vec<Vertex>) -> Result<V, glium::vertex::BufferCreationError>,
        UI: Fn(&Vec<u16>) -> Result<I, glium::index::BufferCreationError>,

        requires
            old(self).cached() is None ==> fits(
                old(self).grid(),
                block_render_data@.len() as int,
            ) && neighbors_fit(chunk_grids(adj_chunks), block_render_data@.len() as int),
            accepts_all(*upload_vertices),
            accepts_all(*upload_indices),
        ensures
            built(
                *old(self),
                *final(self),
                block_render_data@,
                chunk_grids(adj_chunks),
                *upload_vertices,
                *upload_indices,
                r,
            ),
    {
        if let Some(m) = self.cached_mesh() {
            return Ok(m);
        }
        let mesh = self.surface_mesh(block_render_data, adj_chunks);
        let r = upload_mesh(&mesh, upload_vertices, upload_indices);
        self.store_mesh(&r);
        r
    }
}

} // verus!
