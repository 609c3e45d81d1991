use std::rc::Rc;
use voxel_world::catalog::{BlockRenderData, Color, OBSCURES_ALL};
use voxel_world::chunk::{upload_mesh, Chunk};
use voxel_world::surface::Blocks;
use voxel_world::direction::NormalDirection;
use voxel_world::error::MeshCreationError;
use voxel_world::greedy::Rect;
use voxel_world::mesh::{Mesh, Quad, Vertex};
use voxel_world::CHUNK_SIZE;

type TestChunk = Chunk<Vec<Vertex>, Vec<u16>>;

fn grass() -> Color {
    [0.3f32.to_bits(), 0.4f32.to_bits(), 0.2f32.to_bits()]
}

fn catalog() -> Vec<BlockRenderData> {
    vec![
        BlockRenderData { obscures: 0, color: [0, 0, 0], should_render: false },
        BlockRenderData { obscures: OBSCURES_ALL, color: grass(), should_render: true },
    ]
}

fn empty_blocks() -> Box<Blocks> {
    Box::new([[[0usize; CHUNK_SIZE]; CHUNK_SIZE]; CHUNK_SIZE])
}

fn full_blocks() -> Box<Blocks> {
    Box::new([[[1usize; CHUNK_SIZE]; CHUNK_SIZE]; CHUNK_SIZE])
}

fn chunk_of(blocks: &Blocks) -> Box<TestChunk> {
    Box::new(Chunk::new(*blocks))
}

fn keep_vertices(v: &Vec<Vertex>) -> Result<Vec<Vertex>, glium::vertex::BufferCreationError> {
    Ok(v.clone())
}

fn keep_indices(i: &Vec<u16>) -> Result<Vec<u16>, glium::index::BufferCreationError> {
    Ok(i.clone())
}

fn mesh_alone(blocks: &Blocks) -> Mesh {
    chunk_of(blocks).surface_mesh(&catalog(), [None; 6])
}

#[test]
fn single_block_has_six_unit_quads() {
    let mut blocks = empty_blocks();
    blocks[5][6][7] = 1;
    let mesh = mesh_alone(&blocks);
    assert_eq!(mesh.vertices.len(), 24);
    assert_eq!(mesh.indices.len(), 36);
    let expected: [([i8; 3], [[u8; 3]; 4]); 6] = [
        ([0, 0, 1], [[5, 7, 8], [5, 6, 8], [6, 7, 8], [6, 6, 8]]),
        ([0, 0, -1], [[6, 6, 7], [5, 6, 7], [6, 7, 7], [5, 7, 7]]),
        ([-1, 0, 0], [[5, 7, 7], [5, 6, 7], [5, 7, 8], [5, 6, 8]]),
        ([1, 0, 0], [[6, 6, 8], [6, 6, 7], [6, 7, 8], [6, 7, 7]]),
        ([0, 1, 0], [[6, 7, 7], [5, 7, 7], [6, 7, 8], [5, 7, 8]]),
        ([0, -1, 0], [[5, 6, 8], [5, 6, 7], [6, 6, 8], [6, 6, 7]]),
    ];
    for (q, (normal, corners)) in expected.iter().enumerate() {
        for k in 0..4 {
            let vertex = mesh.vertices[4 * q + k];
            assert_eq!(vertex.normal, *normal);
            assert_eq!(vertex.position, corners[k]);
            assert_eq!(vertex.color, grass());
        }
        let base = (4 * q) as u16;
        assert_eq!(
            &mesh.indices[6 * q..6 * q + 6],
            &[base, base + 1, base + 2, base + 3, base + 2, base + 1]
        );
    }
}

#[test]
fn build_mesh_uploads_once_and_reuses_the_buffers() {
    let mut blocks = empty_blocks();
    blocks[0][0][0] = 1;
    let mut chunk = chunk_of(&blocks);
    assert!(!chunk.has_mesh());
    let first = chunk.build_mesh(&catalog(), [None; 6], &keep_vertices, &keep_indices).unwrap();
    assert_eq!(first.0.len(), 24);
    assert_eq!(first.1.len(), 36);
    assert!(chunk.has_mesh());
    let failing = |_: &Vec<Vertex>| -> Result<Vec<Vertex>, glium::vertex::BufferCreationError> {
        Err(glium::vertex::BufferCreationError::FormatNotSupported)
    };
    let second = chunk.build_mesh(&catalog(), [None; 6], &failing, &keep_indices).unwrap();
    assert!(Rc::ptr_eq(&first.0, &second.0));
    assert!(Rc::ptr_eq(&first.1, &second.1));
}

#[test]
fn failed_vertex_upload_is_reported_and_nothing_is_kept() {
    let mut chunk = chunk_of(&full_blocks());
    let failing = |_: &Vec<Vertex>| -> Result<Vec<Vertex>, glium::vertex::BufferCreationError> {
        Err(glium::vertex::BufferCreationError::FormatNotSupported)
    };
    let r = chunk.build_mesh(&catalog(), [None; 6], &failing, &keep_indices);
    assert!(matches!(
        r,
        Err(MeshCreationError::VertexBufferCreationFailed(
            glium::vertex::BufferCreationError::FormatNotSupported
        ))
    ));
    assert!(!chunk.has_mesh());
    let again = chunk.build_mesh(&catalog(), [None; 6], &keep_vertices, &keep_indices);
    assert!(again.is_ok());
    assert!(chunk.has_mesh());
}

#[test]
fn failed_index_upload_is_reported_and_nothing_is_kept() {
    let mut chunk = chunk_of(&full_blocks());
    let failing = |_: &Vec<u16>| -> Result<Vec<u16>, glium::index::BufferCreationError> {
        Err(glium::index::BufferCreationError::IndexTypeNotSupported)
    };
    let r = chunk.build_mesh(&catalog(), [None; 6], &keep_vertices, &failing);
    assert!(matches!(
        r,
        Err(MeshCreationError::IndexBufferCreationFailed(
            glium::index::BufferCreationError::IndexTypeNotSupported
        ))
    ));
    assert!(!chunk.has_mesh());
}

#[test]
fn direction_tables() {
    assert_eq!(NormalDirection::Front.to_index(), 0);
    assert_eq!(NormalDirection::Up.to_index(), 1);
    assert_eq!(NormalDirection::Right.to_index(), 2);
    assert_eq!(NormalDirection::Back.to_index(), 3);
    assert_eq!(NormalDirection::Down.to_index(), 4);
    assert_eq!(NormalDirection::Left.to_index(), 5);
    assert_eq!(-NormalDirection::Up, NormalDirection::Down);
    assert_eq!(-&NormalDirection::Left, NormalDirection::Right);
    assert_eq!(NormalDirection::Back.to_vec_arr(), [0, -1, 0]);
}

fn quads_facing(mesh: &Mesh, normal: [i8; 3]) -> Vec<[[u8; 3]; 4]> {
    let mut quads = Vec::new();
    for q in 0..mesh.vertices.len() / 4 {
        if mesh.vertices[4 * q].normal == normal {
            quads.push([
                mesh.vertices[4 * q].position,
                mesh.vertices[4 * q + 1].position,
                mesh.vertices[4 * q + 2].position,
                mesh.vertices[4 * q + 3].position,
            ]);
        }
    }
    quads
}

fn assert_consistent(mesh: &Mesh) {
    assert_eq!(mesh.vertices.len() % 4, 0);
    let quads = mesh.vertices.len() / 4;
    assert_eq!(mesh.indices.len(), 6 * quads);
    assert_eq!(mesh.indices.len() * 2, mesh.vertices.len() * 3);
    for index in &mesh.indices {
        assert!((*index as usize) < mesh.vertices.len());
    }
}

#[test]
fn air_has_no_surface() {
    let mesh = mesh_alone(&empty_blocks());
    assert!(mesh.vertices.is_empty());
    assert!(mesh.indices.is_empty());
}

#[test]
fn full_chunk_alone_has_one_quad_per_side() {
    let mesh = mesh_alone(&full_blocks());
    assert_eq!(mesh.quad_count(), 6);
    assert_consistent(&mesh);
    assert_eq!(
        quads_facing(&mesh, [0, 0, 1]),
        vec![[[0, 32, 32], [0, 0, 32], [32, 32, 32], [32, 0, 32]]]
    );
    assert_eq!(
        quads_facing(&mesh, [0, 0, -1]),
        vec![[[32, 0, 0], [0, 0, 0], [32, 32, 0], [0, 32, 0]]]
    );
    assert_eq!(
        quads_facing(&mesh, [-1, 0, 0]),
        vec![[[0, 32, 0], [0, 0, 0], [0, 32, 32], [0, 0, 32]]]
    );
    assert_eq!(
        quads_facing(&mesh, [1, 0, 0]),
        vec![[[32, 0, 32], [32, 0, 0], [32, 32, 32], [32, 32, 0]]]
    );
    assert_eq!(
        quads_facing(&mesh, [0, 1, 0]),
        vec![[[32, 32, 0], [0, 32, 0], [32, 32, 32], [0, 32, 32]]]
    );
    assert_eq!(
        quads_facing(&mesh, [0, -1, 0]),
        vec![[[0, 0, 32], [0, 0, 0], [32, 0, 32], [32, 0, 0]]]
    );
}

#[test]
fn stacked_opaque_chunks_have_no_faces_between_them() {
    let lower = chunk_of(&full_blocks());
    let upper = chunk_of(&full_blocks());
    // The upper chunk looks down at the lower one, and the lower one up at
    // the upper one.
    let mut above: [Option<&TestChunk>; 6] = [None; 6];
    above[NormalDirection::Down.to_index()] = Some(&upper);
    let mut below: [Option<&TestChunk>; 6] = [None; 6];
    below[NormalDirection::Up.to_index()] = Some(&lower);
    let lower_mesh = lower.surface_mesh(&catalog(), above);
    let upper_mesh = upper.surface_mesh(&catalog(), below);
    assert_eq!(lower_mesh.quad_count(), 5);
    assert_eq!(upper_mesh.quad_count(), 5);
    assert!(quads_facing(&lower_mesh, [0, 0, 1]).is_empty());
    assert!(quads_facing(&upper_mesh, [0, 0, -1]).is_empty());
    assert_eq!(quads_facing(&lower_mesh, [0, 0, -1]).len(), 1);
    assert_eq!(quads_facing(&upper_mesh, [0, 0, 1]).len(), 1);
    assert_consistent(&lower_mesh);
    assert_consistent(&upper_mesh);
}

#[test]
fn neighbours_in_every_direction_hide_the_whole_surface() {
    let middle = chunk_of(&full_blocks());
    let other = chunk_of(&full_blocks());
    let mesh = middle.surface_mesh(&catalog(), [Some(&other); 6]);
    assert_eq!(mesh.quad_count(), 0);
}

#[test]
fn a_neighbour_of_air_hides_nothing() {
    let middle = chunk_of(&full_blocks());
    let air = chunk_of(&empty_blocks());
    let mesh = middle.surface_mesh(&catalog(), [Some(&air); 6]);
    assert_eq!(mesh, mesh_alone(&full_blocks()));
}

#[test]
fn only_the_facing_layer_of_a_neighbour_counts() {
    // The neighbour to the right is solid only in its layer x = 0, the one
    // that touches this chunk.
    let mut touching = empty_blocks();
    for y in 0..CHUNK_SIZE {
        for z in 0..CHUNK_SIZE {
            touching[0][y][z] = 1;
        }
    }
    let mut far = empty_blocks();
    for y in 0..CHUNK_SIZE {
        for z in 0..CHUNK_SIZE {
            far[31][y][z] = 1;
        }
    }
    let middle = chunk_of(&full_blocks());
    let touching = chunk_of(&touching);
    let far = chunk_of(&far);
    let mut adj: [Option<&TestChunk>; 6] = [None; 6];
    adj[NormalDirection::Left.to_index()] = Some(&touching);
    assert!(quads_facing(&middle.surface_mesh(&catalog(), adj), [1, 0, 0]).is_empty());
    adj[NormalDirection::Left.to_index()] = Some(&far);
    assert_eq!(quads_facing(&middle.surface_mesh(&catalog(), adj), [1, 0, 0]).len(), 1);
}

#[test]
fn slab_has_one_quad_on_top_and_one_below() {
    let mut blocks = empty_blocks();
    for x in 0..CHUNK_SIZE {
        for y in 0..CHUNK_SIZE {
            blocks[x][y][0] = 1;
        }
    }
    let mesh = mesh_alone(&blocks);
    assert_eq!(mesh.quad_count(), 6);
    assert_eq!(
        quads_facing(&mesh, [0, 0, 1]),
        vec![[[0, 32, 1], [0, 0, 1], [32, 32, 1], [32, 0, 1]]]
    );
    assert_eq!(
        quads_facing(&mesh, [0, 0, -1]),
        vec![[[32, 0, 0], [0, 0, 0], [32, 32, 0], [0, 32, 0]]]
    );
    assert_eq!(quads_facing(&mesh, [1, 0, 0]).len(), 1);
    assert_eq!(quads_facing(&mesh, [-1, 0, 0]).len(), 1);
    assert_eq!(quads_facing(&mesh, [0, 1, 0]).len(), 1);
    assert_eq!(quads_facing(&mesh, [0, -1, 0]).len(), 1);
    assert_consistent(&mesh);
}

#[test]
fn faces_at_an_unloaded_boundary_are_shown() {
    // one block in each corner of the chunk
    let mut blocks = empty_blocks();
    for x in [0, 31] {
        for y in [0, 31] {
            for z in [0, 31] {
                blocks[x][y][z] = 1;
            }
        }
    }
    let mesh = mesh_alone(&blocks);
    assert_eq!(mesh.quad_count(), 48);
    assert_eq!(quads_facing(&mesh, [0, 0, 1]).len(), 8);
    assert_eq!(quads_facing(&mesh, [1, 0, 0]).len(), 8);
    // a neighbour on another side changes nothing on this one
    let chunk = chunk_of(&blocks);
    let other = chunk_of(&full_blocks());
    let mut adj: [Option<&TestChunk>; 6] = [None; 6];
    adj[NormalDirection::Up.to_index()] = Some(&other);
    let with_neighbor = chunk.surface_mesh(&catalog(), adj);
    assert_eq!(quads_facing(&with_neighbor, [0, 0, 1]), quads_facing(&mesh, [0, 0, 1]));
    assert_eq!(quads_facing(&with_neighbor, [0, 0, -1]).len(), 4);
}

#[test]
fn blocks_inside_a_solid_body_show_no_faces() {
    let mut blocks = empty_blocks();
    for x in 10..13 {
        for y in 10..13 {
            for z in 10..13 {
                blocks[x][y][z] = 1;
            }
        }
    }
    let mesh = mesh_alone(&blocks);
    assert_eq!(mesh.quad_count(), 6);
    assert_eq!(
        quads_facing(&mesh, [0, 0, 1]),
        vec![[[10, 13, 13], [10, 10, 13], [13, 13, 13], [13, 10, 13]]]
    );
}

#[test]
fn a_block_that_hides_nothing_leaves_its_neighbours_faces() {
    let glass: Color = [7, 8, 9];
    let mut types = catalog();
    types.push(BlockRenderData { obscures: 0, color: glass, should_render: true });
    let mut blocks = empty_blocks();
    blocks[3][3][3] = 1;
    blocks[4][3][3] = 2;
    let chunk = chunk_of(&blocks);
    let mesh = chunk.surface_mesh(&types, [None; 6]);
    // the solid block hides the glass block's left face; the glass block
    // hides nothing
    assert_eq!(mesh.quad_count(), 11);
    let right = quads_facing(&mesh, [1, 0, 0]);
    assert_eq!(right.len(), 2);
    assert!(right.contains(&[[4, 3, 4], [4, 3, 3], [4, 4, 4], [4, 4, 3]]));
    assert_eq!(quads_facing(&mesh, [-1, 0, 0]).len(), 1);
}

#[test]
fn occlusion_is_per_direction() {
    // A block type that hides only what lies below it.
    let lid: Color = [5, 5, 5];
    let types = vec![
        BlockRenderData { obscures: 0, color: [0, 0, 0], should_render: false },
        BlockRenderData { obscures: OBSCURES_ALL, color: grass(), should_render: true },
        BlockRenderData { obscures: 0b010000, color: lid, should_render: true },
    ];
    assert!(types[2].obscures(&NormalDirection::Down));
    assert!(!types[2].obscures(&NormalDirection::Up));
    assert!(!types[0].obscures(&NormalDirection::Front));
    assert!(types[1].obscures(&NormalDirection::Left));
    let mut blocks = empty_blocks();
    blocks[3][3][3] = 1;
    blocks[3][3][4] = 2;
    blocks[3][3][2] = 2;
    let chunk = chunk_of(&blocks);
    let mesh = chunk.surface_mesh(&types, [None; 6]);
    // The lid above hides the solid block's top face; the lid below does
    // not hide its bottom face.
    let up = quads_facing(&mesh, [0, 0, 1]);
    assert!(!up.contains(&[[3, 4, 4], [3, 3, 4], [4, 4, 4], [4, 3, 4]]));
    let down = quads_facing(&mesh, [0, 0, -1]);
    assert!(down.contains(&[[4, 3, 3], [3, 3, 3], [4, 4, 3], [3, 4, 3]]));
}

#[test]
fn buffers_are_consistent_for_a_broken_surface() {
    let mut blocks = empty_blocks();
    for x in 0..CHUNK_SIZE {
        for y in 0..CHUNK_SIZE {
            for z in 0..CHUNK_SIZE {
                if (x * 5 + y * 3 + z * 7) % 11 < 4 {
                    blocks[x][y][z] = 1;
                }
            }
        }
    }
    let mesh = mesh_alone(&blocks);
    assert!(mesh.quad_count() > 6);
    assert_consistent(&mesh);
}

#[test]
fn indices_wrap_round_beyond_sixteen_bits() {
    // A three-dimensional checkerboard: every solid block shows six faces.
    let mut blocks = empty_blocks();
    for x in 0..CHUNK_SIZE {
        for y in 0..CHUNK_SIZE {
            for z in 0..CHUNK_SIZE {
                if (x + y + z) % 2 == 0 {
                    blocks[x][y][z] = 1;
                }
            }
        }
    }
    let mesh = mesh_alone(&blocks);
    assert_eq!(mesh.quad_count(), 16384 * 6);
    assert_consistent(&mesh);
    assert_eq!(&mesh.indices[6 * 16383..6 * 16384], &[65532, 65533, 65534, 65535, 65534, 65533]);
    assert_eq!(&mesh.indices[6 * 16384..6 * 16385], &[0, 1, 2, 3, 2, 1]);
}

#[test]
fn mesh_grows_by_one_quad() {
    let mut mesh = Mesh::new();
    assert_eq!(mesh.quad_count(), 0);
    mesh.push_quad(Quad {
        dir: NormalDirection::Back,
        layer: 4,
        rect: Rect { u: 1, v: 2, width: 3, height: 5, color: grass() },
    });
    assert_eq!(mesh.quad_count(), 1);
    let positions: Vec<[u8; 3]> = mesh.vertices.iter().map(|v| v.position).collect();
    assert_eq!(positions, vec![[1, 4, 7], [1, 4, 2], [4, 4, 7], [4, 4, 2]]);
    assert_eq!(mesh.vertices[0].normal, [0, -1, 0]);
    assert_eq!(mesh.indices, vec![0, 1, 2, 3, 2, 1]);
}

#[test]
fn an_upload_can_be_made_and_kept_step_by_step() {
    let mut blocks = empty_blocks();
    blocks[1][1][1] = 1;
    let mut chunk = chunk_of(&blocks);
    assert!(chunk.cached_mesh().is_none());
    let mesh = chunk.surface_mesh(&catalog(), [None; 6]);
    let uploaded = upload_mesh(&mesh, &keep_vertices, &keep_indices);
    chunk.store_mesh(&uploaded);
    let (vertices, indices) = uploaded.unwrap();
    assert_eq!(*vertices, mesh.vertices);
    assert_eq!(*indices, mesh.indices);
    let (kept_vertices, kept_indices) = chunk.cached_mesh().unwrap();
    assert!(Rc::ptr_eq(&kept_vertices, &vertices));
    assert!(Rc::ptr_eq(&kept_indices, &indices));
    // a failed upload leaves what is kept
    let failed: Result<(Rc<Vec<Vertex>>, Rc<Vec<u16>>), MeshCreationError> =
        Err(MeshCreationError::from(glium::index::BufferCreationError::IndexTypeNotSupported));
    chunk.store_mesh(&failed);
    assert!(chunk.has_mesh());
    chunk.discard_mesh();
    assert!(!chunk.has_mesh());
    assert_eq!(chunk.blocks()[1][1][1], 1);
}

#[test]
fn the_index_upload_is_not_tried_after_a_failed_vertex_upload() {
    let mesh = mesh_alone(&full_blocks());
    let tried = std::cell::Cell::new(false);
    let failing = |_: &Vec<Vertex>| -> Result<Vec<Vertex>, glium::vertex::BufferCreationError> {
        Err(glium::vertex::BufferCreationError::FormatNotSupported)
    };
    let watching = |i: &Vec<u16>| -> Result<Vec<u16>, glium::index::BufferCreationError> {
        tried.set(true);
        Ok(i.clone())
    };
    assert!(upload_mesh(&mesh, &failing, &watching).is_err());
    assert!(!tried.get());
    assert!(upload_mesh(&mesh, &keep_vertices, &watching).is_ok());
    assert!(tried.get());
}

#[test]
fn a_cached_mesh_is_returned_without_asking_the_backend() {
    let mut chunk = chunk_of(&full_blocks());
    let calls = std::cell::Cell::new(0);
    let counting = |v: &Vec<Vertex>| -> Result<Vec<Vertex>, glium::vertex::BufferCreationError> {
        calls.set(calls.get() + 1);
        Ok(v.clone())
    };
    chunk.build_mesh(&catalog(), [None; 6], &counting, &keep_indices).unwrap();
    chunk.build_mesh(&catalog(), [None; 6], &counting, &keep_indices).unwrap();
    // the catalog is not even looked at once the mesh is there
    chunk.build_mesh(&[], [None; 6], &counting, &keep_indices).unwrap();
    assert_eq!(calls.get(), 1);
}
