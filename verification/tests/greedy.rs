use voxel_world::catalog::Color;
use voxel_world::greedy::{merge_slice, Rect};
use voxel_world::{CHUNK_SIZE, SLICE_AREA};

const RED: Color = [1, 0, 0];
const BLUE: Color = [0, 0, 1];

fn empty_layer() -> Vec<Option<Color>> {
    vec![None; SLICE_AREA]
}

fn put(layer: &mut Vec<Option<Color>>, u: usize, v: usize, color: Color) {
    layer[v * CHUNK_SIZE + u] = Some(color);
}

fn rect(u: usize, v: usize, width: usize, height: usize, color: Color) -> Rect {
    Rect { u, v, width, height, color }
}

#[test]
fn empty_layer_merges_into_nothing() {
    assert_eq!(merge_slice(empty_layer()), vec![]);
}

#[test]
fn uniform_layer_merges_into_one_rectangle() {
    let layer = vec![Some(RED); SLICE_AREA];
    assert_eq!(merge_slice(layer), vec![rect(0, 0, CHUNK_SIZE, CHUNK_SIZE, RED)]);
}

#[test]
fn single_cell_is_a_unit_rectangle() {
    let mut layer = empty_layer();
    put(&mut layer, 31, 31, BLUE);
    assert_eq!(merge_slice(layer), vec![rect(31, 31, 1, 1, BLUE)]);
}

#[test]
fn width_is_grown_before_height() {
    // An L: three cells in the first row, one cell below the first of them.
    let mut layer = empty_layer();
    put(&mut layer, 4, 2, RED);
    put(&mut layer, 5, 2, RED);
    put(&mut layer, 6, 2, RED);
    put(&mut layer, 4, 3, RED);
    assert_eq!(merge_slice(layer), vec![rect(4, 2, 3, 1, RED), rect(4, 3, 1, 1, RED)]);
}

#[test]
fn height_stops_at_the_first_row_that_does_not_match_the_whole_width() {
    let mut layer = empty_layer();
    for v in 0..3 {
        for u in 0..4 {
            put(&mut layer, u, v, RED);
        }
    }
    // the fourth row is one cell short
    for u in 0..3 {
        put(&mut layer, u, 3, RED);
    }
    assert_eq!(merge_slice(layer), vec![rect(0, 0, 4, 3, RED), rect(0, 3, 3, 1, RED)]);
}

#[test]
fn colours_are_not_merged_with_each_other() {
    let mut layer = empty_layer();
    put(&mut layer, 0, 0, RED);
    put(&mut layer, 1, 0, BLUE);
    put(&mut layer, 2, 0, BLUE);
    put(&mut layer, 0, 1, BLUE);
    assert_eq!(
        merge_slice(layer),
        vec![rect(0, 0, 1, 1, RED), rect(1, 0, 2, 1, BLUE), rect(0, 1, 1, 1, BLUE)]
    );
}

#[test]
fn rectangles_come_out_in_scan_order() {
    let mut layer = empty_layer();
    put(&mut layer, 10, 5, RED);
    put(&mut layer, 2, 5, RED);
    put(&mut layer, 20, 1, RED);
    put(&mut layer, 0, 9, RED);
    assert_eq!(
        merge_slice(layer),
        vec![
            rect(20, 1, 1, 1, RED),
            rect(2, 5, 1, 1, RED),
            rect(10, 5, 1, 1, RED),
            rect(0, 9, 1, 1, RED)
        ]
    );
}

#[test]
fn rectangles_tile_the_layer() {
    // a pattern with runs of varying length and two colours
    let mut layer = empty_layer();
    for v in 0..CHUNK_SIZE {
        for u in 0..CHUNK_SIZE {
            if (u * 7 + v * 3) % 5 < 3 {
                let color = if (u / 4 + v / 3) % 2 == 0 { RED } else { BLUE };
                put(&mut layer, u, v, color);
            }
        }
    }
    let rects = merge_slice(layer.clone());
    let mut covered = vec![0usize; SLICE_AREA];
    for r in &rects {
        assert!(r.width >= 1 && r.height >= 1);
        assert!(r.u + r.width <= CHUNK_SIZE && r.v + r.height <= CHUNK_SIZE);
        for v in r.v..r.v + r.height {
            for u in r.u..r.u + r.width {
                assert_eq!(layer[v * CHUNK_SIZE + u], Some(r.color));
                covered[v * CHUNK_SIZE + u] += 1;
            }
        }
    }
    for i in 0..SLICE_AREA {
        assert_eq!(covered[i], if layer[i].is_some() { 1 } else { 0 });
    }
}
