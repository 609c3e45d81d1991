//! What can go wrong when a mesh is handed to the rendering backend.

use vstd::prelude::*;

verus! {

/// `glium::vertex::BufferCreationError`, the error of `glium` for a vertex
/// buffer that could not be made. Nothing is claimed of it: it is carried
/// through as it comes.
#[verifier::external_type_specification]
#[verifier::external_body]
pub struct ExVertexBufferCreationError(glium::vertex::BufferCreationError);

/// `glium::index::BufferCreationError`, the error of `glium` for an index
/// buffer that could not be made. Nothing is claimed of it: it is carried
/// through as it comes.
#[verifier::external_type_specification]
#[verifier::external_body]
pub struct ExIndexBufferCreationError(glium::index::BufferCreationError);

/// The backend could not make one of the two buffers of a mesh.
#[derive(Debug, Copy, Clone)]
pub enum MeshCreationError {
    VertexBufferCreationFailed(glium::vertex::BufferCreationError),
    IndexBufferCreationFailed(glium::index::BufferCreationError),
}

impl From<glium::vertex::BufferCreationError> for MeshCreationError {
    fn from(err: glium::vertex::BufferCreationError) -> (e: MeshCreationError) {
        MeshCreationError::VertexBufferCreationFailed(err)
    }
}

impl vstd::std_specs::convert::FromSpecImpl<glium::vertex::BufferCreationError> for MeshCreationError {
    open spec fn obeys_from_spec() -> bool {
        true
    }

    open spec fn from_spec(err: glium::vertex::BufferCreationError) -> MeshCreationError {
        MeshCreationError::VertexBufferCreationFailed(err)
    }
}

impl From<glium::index::BufferCreationError> for MeshCreationError {
    fn from(err: glium::index::BufferCreationError) -> (e: MeshCreationError) {
        MeshCreationError::IndexBufferCreationFailed(err)
    }
}

impl vstd::std_specs::convert::FromSpecImpl<glium::index::BufferCreationError> for MeshCreationError {
    open spec fn obeys_from_spec() -> bool {
        true
    }

    open spec fn from_spec(err: glium::index::BufferCreationError) -> MeshCreationError {
        MeshCreationError::IndexBufferCreationFailed(err)
    }
}

} // verus!
