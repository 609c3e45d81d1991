use std::rc::Rc;
use voxel_world::catalog::{BlockRenderData, OBSCURES_ALL};
use voxel_world::error::MeshCreationError;
use voxel_world::mesh::Vertex;
use voxel_world::region::{volume, CuboidRegion};
use voxel_world::world::{ChunkHandle, World};

type Dense = fn(i64, i64, i64) -> bool;
type TestWorld = World<Dense, Vec<Vertex>, Vec<u16>>;

fn flat(_x: i64, _y: i64, z: i64) -> bool {
    z < 0
}

fn solid(_x: i64, _y: i64, _z: i64) -> bool {
    true
}

fn catalog() -> Vec<BlockRenderData> {
    vec![
        BlockRenderData { obscures: 0, color: [0, 0, 0], should_render: false },
        BlockRenderData { obscures: OBSCURES_ALL, color: [1, 2, 3], should_render: true },
    ]
}

fn keep_vertices(v: &Vec<Vertex>) -> Result<Vec<Vertex>, glium::vertex::BufferCreationError> {
    Ok(v.clone())
}

fn keep_indices(i: &Vec<u16>) -> Result<Vec<u16>, glium::index::BufferCreationError> {
    Ok(i.clone())
}

fn handles(region: &CuboidRegion) -> Vec<ChunkHandle> {
    let (nx, ny, nz) = region.dim();
    let mut all = Vec::new();
    for i in 0..nx {
        for j in 0..ny {
            for k in 0..nz {
                all.push(region.handle(i, j, k).unwrap());
            }
        }
    }
    all
}

#[test]
fn corners_may_come_in_either_order() {
    let mut world: TestWorld = World::new(flat);
    let forward = CuboidRegion::new(&mut world, -5, -5, -5, 5, 5, 5);
    assert_eq!(world.entry_count(), 11 * 11 * 11);
    let backward = CuboidRegion::new(&mut world, 5, 5, 5, -5, -5, -5);
    assert_eq!(world.entry_count(), 11 * 11 * 11);
    assert_eq!(forward.dim(), (11, 11, 11));
    assert_eq!(backward.dim(), (11, 11, 11));
    assert_eq!(forward.start_pos(), [-5, -5, -5]);
    assert_eq!(backward.start_pos(), [-5, -5, -5]);
    let all = handles(&forward);
    assert_eq!(all.len(), 1331);
    assert_eq!(all, handles(&backward));
    // every handle is another chunk, in the order of the walk
    for (n, handle) in all.iter().enumerate() {
        assert_eq!(*handle, ChunkHandle { slot: n, generation: 0 });
    }
}

#[test]
fn corners_may_be_mixed_along_each_axis() {
    let mut world: TestWorld = World::new(flat);
    let region = CuboidRegion::new(&mut world, 2, -1, 0, 0, 1, 0);
    assert_eq!(region.dim(), (3, 3, 1));
    assert_eq!(region.start_pos(), [0, -1, 0]);
    let same = CuboidRegion::new(&mut world, 0, 1, 0, 2, -1, 0);
    assert_eq!(handles(&region), handles(&same));
    assert_eq!(world.entry_count(), 9);
}

#[test]
fn a_single_chunk_is_a_region() {
    let mut world: TestWorld = World::new(flat);
    let region = CuboidRegion::new(&mut world, 7, 7, 7, 7, 7, 7);
    assert_eq!(region.dim(), (1, 1, 1));
    assert_eq!(region.handle(0, 0, 0), Some(ChunkHandle { slot: 0, generation: 0 }));
    assert_eq!(region.handle(1, 0, 0), None);
    assert_eq!(region.handle(0, 0, 1), None);
}

#[test]
fn cells_are_walked_with_z_innermost() {
    let mut world: TestWorld = World::new(flat);
    let region = CuboidRegion::new(&mut world, 0, 0, 0, 1, 2, 3);
    assert_eq!(region.dim(), (2, 3, 4));
    for i in 0..2 {
        for j in 0..3 {
            for k in 0..4 {
                let handle = region.handle(i, j, k).unwrap();
                assert_eq!(handle.slot, (i * 3 + j) * 4 + k);
                assert_eq!(world.get_chunk(i as i64, j as i64, k as i64), handle);
            }
        }
    }
}

#[test]
fn overlapping_regions_share_their_chunks() {
    let mut world: TestWorld = World::new(flat);
    let first = CuboidRegion::new(&mut world, 0, 0, 0, 1, 0, 0);
    let second = CuboidRegion::new(&mut world, 1, 0, 0, 2, 0, 0);
    assert_eq!(first.handle(1, 0, 0), second.handle(0, 0, 0));
    assert_eq!(world.entry_count(), 3);
    let shared = second.handle(0, 0, 0).unwrap();
    let own = first.handle(0, 0, 0).unwrap();
    first.release(&mut world);
    assert!(world.chunk(shared).is_some());
    assert!(world.chunk(own).is_none());
    second.release(&mut world);
    assert!(world.chunk(shared).is_none());
}

#[test]
fn drawing_places_each_chunk_and_hides_the_faces_between_chunks() {
    let mut world: TestWorld = World::new(solid);
    let region = CuboidRegion::new(&mut world, -1, 0, 2, 0, 0, 2);
    let calls = region.draw(&mut world, &catalog(), &keep_vertices, &keep_indices).unwrap();
    assert_eq!(calls.len(), 2);
    assert_eq!(calls[0].translation, [-32, 0, 64]);
    assert_eq!(calls[1].translation, [0, 0, 64]);
    // Two solid chunks side by side: each shows five sides.
    assert_eq!(calls[0].vertices.len(), 20);
    assert_eq!(calls[1].vertices.len(), 20);
    assert!(calls[0].vertices.iter().all(|v| v.normal != [1, 0, 0]));
    assert!(calls[1].vertices.iter().all(|v| v.normal != [-1, 0, 0]));
    assert!(calls[0].vertices.iter().any(|v| v.normal == [-1, 0, 0]));
    assert!(calls[1].vertices.iter().any(|v| v.normal == [1, 0, 0]));
}

#[test]
fn drawing_again_reuses_the_meshes() {
    let mut world: TestWorld = World::new(solid);
    let region = CuboidRegion::new(&mut world, 0, 0, 0, 0, 1, 1);
    let first = region.draw(&mut world, &catalog(), &keep_vertices, &keep_indices).unwrap();
    let failing = |_: &Vec<Vertex>| -> Result<Vec<Vertex>, glium::vertex::BufferCreationError> {
        Err(glium::vertex::BufferCreationError::FormatNotSupported)
    };
    let second = region.draw(&mut world, &catalog(), &failing, &keep_indices).unwrap();
    assert_eq!(first.len(), 4);
    assert_eq!(second.len(), 4);
    for n in 0..4 {
        assert!(Rc::ptr_eq(&first[n].vertices, &second[n].vertices));
        assert!(Rc::ptr_eq(&first[n].indices, &second[n].indices));
        assert_eq!(first[n].translation, second[n].translation);
    }
    // four solid chunks in a square: each shows four sides
    assert_eq!(first[0].vertices.len(), 16);
}

#[test]
fn drawing_stops_at_the_first_failure() {
    let mut world: TestWorld = World::new(solid);
    let region = CuboidRegion::new(&mut world, 0, 0, 0, 2, 0, 0);
    let failing = |_: &Vec<u16>| -> Result<Vec<u16>, glium::index::BufferCreationError> {
        Err(glium::index::BufferCreationError::PrimitiveTypeNotSupported)
    };
    let r = region.draw(&mut world, &catalog(), &keep_vertices, &failing);
    assert!(matches!(
        r,
        Err(MeshCreationError::IndexBufferCreationFailed(
            glium::index::BufferCreationError::PrimitiveTypeNotSupported
        ))
    ));
    for i in 0..3 {
        let handle = region.handle(i, 0, 0).unwrap();
        assert!(!world.chunk(handle).unwrap().has_mesh());
    }
    // a later try succeeds
    let calls = region.draw(&mut world, &catalog(), &keep_vertices, &keep_indices).unwrap();
    assert_eq!(calls.len(), 3);
    // the chunk in the middle shows four sides, those at the ends five
    assert_eq!(calls[0].vertices.len(), 20);
    assert_eq!(calls[1].vertices.len(), 16);
    assert_eq!(calls[2].vertices.len(), 20);
}

#[test]
fn one_chunk_of_a_region_can_be_drawn_alone() {
    let mut world: TestWorld = World::new(flat);
    let region = CuboidRegion::new(&mut world, 0, 0, -1, 0, 0, 0);
    let call = region
        .draw_chunk(&mut world, 0, 0, 0, &catalog(), &keep_vertices, &keep_indices)
        .unwrap();
    assert_eq!(call.translation, [0, 0, -32]);
    // solid ground below an empty chunk: all six sides are shown, since air
    // hides nothing
    assert_eq!(call.vertices.len(), 24);
    let above = region
        .draw_chunk(&mut world, 0, 0, 1, &catalog(), &keep_vertices, &keep_indices)
        .unwrap();
    assert_eq!(above.translation, [0, 0, 0]);
    assert!(above.vertices.is_empty());
    assert!(above.indices.is_empty());
}

#[test]
fn volume_counts_the_chunks_of_a_cuboid() {
    assert_eq!(volume(-5, -5, -5, 5, 5, 5), Some(1331));
    assert_eq!(volume(5, 5, 5, -5, -5, -5), Some(1331));
    assert_eq!(volume(3, 0, -2, 3, 0, -2), Some(1));
    assert_eq!(volume(0, 0, 0, i64::MAX, 0, 0), Some(1usize << 63));
    assert_eq!(volume(i64::MIN, 0, 0, i64::MAX, 0, 0), None);
    assert_eq!(volume(0, 0, 0, i64::MAX, 1, 0), None);
    assert_eq!(volume(1, 1, 1, 1 << 22, 1 << 22, 1 << 22), None);
    assert_eq!(volume(1, 1, 1, 1 << 21, 1 << 21, 1 << 21), Some(1usize << 63));
}

#[test]
fn a_region_is_held_until_a_chunk_of_it_is_given_back() {
    let mut world: TestWorld = World::new(flat);
    let region = CuboidRegion::new(&mut world, 0, 0, 0, 1, 1, 1);
    assert!(region.is_held(&world));
    // requests for other chunks and for the same chunks change nothing
    let extra = world.get_chunk(0, 0, 0);
    world.get_chunk(9, 9, 9);
    assert!(region.is_held(&world));
    world.release(extra);
    assert!(region.is_held(&world));
    // another world does not hold it
    let other: TestWorld = World::new(flat);
    assert!(!region.is_held(&other));
    world.release(region.handle(1, 0, 1).unwrap());
    assert!(!region.is_held(&world));
}

#[test]
fn a_world_knows_where_its_chunks_lie() {
    let mut world: TestWorld = World::new(flat);
    let region = CuboidRegion::new(&mut world, -2, 4, 0, -1, 5, 0);
    assert_eq!(world.coord_of(region.handle(0, 0, 0).unwrap()), Some((-2, 4, 0)));
    assert_eq!(world.coord_of(region.handle(1, 0, 0).unwrap()), Some((-1, 4, 0)));
    assert_eq!(world.coord_of(region.handle(0, 1, 0).unwrap()), Some((-2, 5, 0)));
    let handle = region.handle(1, 1, 0).unwrap();
    assert_eq!(world.coord_of(handle), Some((-1, 5, 0)));
    region.release(&mut world);
    assert_eq!(world.coord_of(handle), None);
}
