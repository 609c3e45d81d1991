use voxel_world::catalog::{BlockRenderData, OBSCURES_ALL};
use voxel_world::surface::Blocks;
use voxel_world::direction::NormalDirection;
use voxel_world::mesh::Vertex;
use voxel_world::world::{ChunkHandle, World};
use voxel_world::CHUNK_SIZE;

fn terrain(x: i64, y: i64, z: i64) -> bool {
    z < (x + 2 * y).rem_euclid(7)
}

fn flat(_x: i64, _y: i64, z: i64) -> bool {
    z < 0
}

fn solid(_x: i64, _y: i64, _z: i64) -> bool {
    true
}

fn low_half(x: i64, _y: i64, _z: i64) -> bool {
    x < 0
}

type Dense = fn(i64, i64, i64) -> bool;

fn world_of(density: Dense) -> World<Dense, Vec<Vertex>, Vec<u16>> {
    World::new(density)
}

fn blocks_of(world: &World<Dense, Vec<Vertex>, Vec<u16>>, handle: ChunkHandle) -> Box<Blocks> {
    Box::new(*world.chunk(handle).unwrap().blocks())
}

#[test]
fn generated_blocks_follow_the_density() {
    let world = world_of(terrain);
    let chunk = Box::new(world.generate(3, -2, 0));
    assert!(!chunk.has_mesh());
    for i in 0..CHUNK_SIZE {
        for j in 0..CHUNK_SIZE {
            for k in 0..CHUNK_SIZE {
                let solid = terrain(96 + i as i64, -64 + j as i64, k as i64);
                assert_eq!(chunk.blocks()[i][j][k], if solid { 1 } else { 0 });
            }
        }
    }
}

#[test]
fn ground_plane_is_solid_below_zero() {
    let world = world_of(flat);
    let below = Box::new(world.generate(0, 0, -1));
    let above = Box::new(world.generate(0, 0, 0));
    assert_eq!(below.blocks()[0][0][0], 1);
    assert_eq!(below.blocks()[31][31][31], 1);
    assert_eq!(above.blocks()[0][0][0], 0);
    assert_eq!(above.blocks()[17][5][31], 0);
}

#[test]
fn generation_is_repeatable() {
    let world = world_of(terrain);
    let first = Box::new(world.generate(-7, 11, 0));
    let second = Box::new(world.generate(-7, 11, 0));
    assert!(first.blocks() == second.blocks());
}

#[test]
fn block_coordinates_wrap_round() {
    // Chunk coordinates beyond a 32nd of the range give block coordinates
    // that wrap round.
    let world = world_of(low_half);
    let x = i64::MAX / 32 + 1;
    let chunk = Box::new(world.generate(x, 0, 0));
    // 32 * x wraps round to i64::MIN
    assert_eq!(chunk.blocks()[0][0][0], 1);
    assert_eq!(chunk.blocks()[31][0][0], 1);
    let chunk = Box::new(world.generate(x - 1, 0, 0));
    assert_eq!(chunk.blocks()[31][0][0], 0);
}

#[test]
fn a_held_chunk_is_handed_out_again() {
    let mut world = world_of(terrain);
    let first = world.get_chunk(1, 2, 3);
    let second = world.get_chunk(1, 2, 3);
    assert_eq!(first, second);
    assert_eq!(first, ChunkHandle { slot: 0, generation: 0 });
    assert_eq!(world.entry_count(), 1);
    let other = world.get_chunk(1, 2, 4);
    assert_eq!(other, ChunkHandle { slot: 1, generation: 0 });
    assert_eq!(world.entry_count(), 2);
    assert_eq!(world.get_chunk(1, 2, 3), first);
}

#[test]
fn a_chunk_lives_until_its_last_handle_is_given_back() {
    let mut world = world_of(terrain);
    let first = world.get_chunk(0, 0, 0);
    let second = world.get_chunk(0, 0, 0);
    world.release(first);
    assert!(world.chunk(second).is_some());
    assert_eq!(world.get_chunk(0, 0, 0), first);
    world.release(first);
    world.release(first);
    assert!(world.chunk(first).is_none());
}

#[test]
fn a_stale_chunk_is_generated_anew() {
    let mut world = world_of(terrain);
    let first = world.get_chunk(5, 5, 0);
    let before = blocks_of(&world, first);
    world.release(first);
    assert!(world.chunk(first).is_none());
    let second = world.get_chunk(5, 5, 0);
    assert_ne!(first, second);
    assert_eq!(second, ChunkHandle { slot: 0, generation: 1 });
    assert!(world.chunk(first).is_none());
    assert!(world.chunk(second).is_some());
    assert!(*before == *blocks_of(&world, second));
    assert_eq!(world.entry_count(), 1);
}

#[test]
fn giving_back_a_stale_handle_changes_nothing() {
    let mut world = world_of(terrain);
    let first = world.get_chunk(0, 0, 0);
    world.release(first);
    let second = world.get_chunk(0, 0, 0);
    world.release(first);
    assert!(world.chunk(second).is_some());
    world.release(ChunkHandle { slot: 9, generation: 0 });
    assert!(world.chunk(second).is_some());
    assert_eq!(world.entry_count(), 1);
}

#[test]
fn world_builds_a_mesh_with_its_neighbours() {
    let catalog = vec![
        BlockRenderData { obscures: 0, color: [0, 0, 0], should_render: false },
        BlockRenderData { obscures: OBSCURES_ALL, color: [1, 2, 3], should_render: true },
    ];
    let keep_vertices =
        |v: &Vec<Vertex>| -> Result<Vec<Vertex>, glium::vertex::BufferCreationError> {
            Ok(v.clone())
        };
    let keep_indices = |i: &Vec<u16>| -> Result<Vec<u16>, glium::index::BufferCreationError> {
        Ok(i.clone())
    };
    let mut world = world_of(solid);
    let lower = world.get_chunk(0, 0, 0);
    let upper = world.get_chunk(0, 0, 1);
    let gone = world.get_chunk(1, 0, 0);
    world.release(gone);
    let mut adj = [None; 6];
    adj[NormalDirection::Down.to_index()] = Some(upper);
    // a neighbour that is no longer alive counts as not loaded
    adj[NormalDirection::Left.to_index()] = Some(gone);
    let (vertices, indices) =
        world.build_mesh(lower, adj, &catalog, &keep_vertices, &keep_indices).unwrap();
    assert_eq!(vertices.len(), 20);
    assert_eq!(indices.len(), 30);
    assert!(vertices.iter().all(|v| v.normal != [0, 0, 1]));
    assert!(vertices.iter().any(|v| v.normal == [1, 0, 0]));
    assert!(world.chunk(lower).unwrap().has_mesh());
    assert!(!world.chunk(upper).unwrap().has_mesh());
    // the mesh is dropped with the last handle
    world.release(lower);
    let again = world.get_chunk(0, 0, 0);
    assert!(!world.chunk(again).unwrap().has_mesh());
}
