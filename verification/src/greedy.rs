//! Greedy merging of one layer of faces into rectangles.
//!
//! A layer is a `CHUNK_SIZE` by `CHUNK_SIZE` grid of cells, stored row by
//! row: cell `(u, v)` is element `v * CHUNK_SIZE + u`. A cell holds the
//! colour of the face to draw there, or nothing. The scan visits the cells in
//! storage order. At the first cell that still holds a face it grows a
//! rectangle, first along `u` and then along `v`, takes the rectangle's cells
//! out of the grid and moves on behind it.

use vstd::prelude::*;
use crate::catalog::{Color, holds_color};
use crate::{CHUNK_SIZE, SLICE_AREA};

verus! {

/// A rectangle of equally coloured faces within one layer.
#[derive(Debug, Copy, Clone, PartialEq, Eq)]
pub struct Rect {
    pub u: usize,
    pub v: usize,
    pub width: usize,
    pub height: usize,
    pub color: Color,
}

impl Rect {
    /// Whether cell `(u, v)` lies inside the rectangle.
    pub open spec fn covers(self, u: int, v: int) -> bool {
        self.u <= u < self.u + self.width && self.v <= v < self.v + self.height
    }

    /// Whether the rectangle is not empty and lies within a layer.
    pub open spec fn in_bounds(self) -> bool {
        &&& 1 <= self.width
        &&& 1 <= self.height
        &&& self.u + self.width <= CHUNK_SIZE
        &&& self.v + self.height <= CHUNK_SIZE
    }
}

/// The content of cell `(u, v)` of layer `g`.
pub open spec fn cell(g: Seq<Option<Color>>, u: int, v: int) -> Option<Color> {
    g[v * CHUNK_SIZE + u]
}

/// The number of consecutive cells of row `v`, from column `u` on, that hold
/// colour `c`.
pub open spec fn run_width(g: Seq<Option<Color>>, u: int, v: int, c: Color) -> int
    decreases CHUNK_SIZE - u,
{
    if 0 <= u < CHUNK_SIZE && cell(g, u, v) == Some(c) {
        1 + run_width(g, u + 1, v, c)
    } else {
        0
    }
}

/// Whether the `width` cells of row `v` from column `u` on all hold colour
/// `c`.
pub open spec fn row_matches(g: Seq<Option<Color>>, u: int, v: int, width: int, c: Color) -> bool {
    forall|i: int| u <= i < u + width ==> #[trigger] cell(g, i, v) == Some(c)
}

/// The number of consecutive rows, from row `v` on, whose `width` cells from
/// column `u` on all hold colour `c`.
pub open spec fn run_height(g: Seq<Option<Color>>, u: int, v: int, width: int, c: Color) -> int
    decreases CHUNK_SIZE - v,
{
    if 0 <= v < CHUNK_SIZE && row_matches(g, u, v, width, c) {
        1 + run_height(g, u, v + 1, width, c)
    } else {
        0
    }
}

/// The rectangle that the scan grows from cell `(u, v)`, which holds colour
/// `c`: as wide as the run of `c` in row `v` allows, then as tall as the rows
/// below allow at that width.
pub open spec fn rect_at(g: Seq<Option<Color>>, u: int, v: int, c: Color) -> Rect {
    let width: int = 1 + run_width(g, u + 1, v, c);
    let height: int = 1 + run_height(g, u, v + 1, width, c);
    Rect { u: u as usize, v: v as usize, width: width as usize, height: height as usize, color: c }
}

/// Layer `g` with the cells of the rectangle at `(u, v)` emptied.
pub open spec fn cleared(
    g: Seq<Option<Color>>,
    u: int,
    v: int,
    width: int,
    height: int,
) -> Seq<Option<Color>> {
    Seq::new(
        g.len(),
        |i: int|
            if u <= i % (CHUNK_SIZE as int) < u + width && v <= i / (CHUNK_SIZE as int) < v
                + height {
                None
            } else {
                g[i]
            },
    )
}

/// The rectangles that the scan emits from position `(u, v)` on, in order.
pub open spec fn merge_from(g: Seq<Option<Color>>, u: int, v: int) -> Seq<Rect>
    decreases CHUNK_SIZE - v, CHUNK_SIZE - u,
{
    if u < 0 || v < 0 || v >= CHUNK_SIZE {
        Seq::empty()
    } else if u >= CHUNK_SIZE {
        merge_from(g, 0, v + 1)
    } else {
        match cell(g, u, v) {
            None => merge_from(g, u + 1, v),
            Some(c) => {
                let r = rect_at(g, u, v, c);
                let width: int = 1 + run_width(g, u + 1, v, c);
                let height: int = 1 + run_height(g, u, v + 1, width, c);
                proof {
                    lemma_run_width_bound(g, u + 1, v, c);
                }
                seq![r] + merge_from(cleared(g, u, v, width, height), u + width, v)
            },
        }
    }
}

/// The rectangles into which a whole layer is merged.
pub open spec fn merged(g: Seq<Option<Color>>) -> Seq<Rect> {
    merge_from(g, 0, 0)
}

/// A run that starts at column `u` ends within the row.
pub proof fn lemma_run_width_bound(g: Seq<Option<Color>>, u: int, v: int, c: Color)
    requires
        0 <= u <= CHUNK_SIZE,
    ensures
        0 <= run_width(g, u, v, c) <= CHUNK_SIZE - u,
    decreases CHUNK_SIZE - u,
{
    if u < CHUNK_SIZE && cell(g, u, v) == Some(c) {
        lemma_run_width_bound(g, u + 1, v, c);
    }
}

/// A run of rows that starts at row `v` ends within the layer.
pub proof fn lemma_run_height_bound(g: Seq<Option<Color>>, u: int, v: int, width: int, c: Color)
    requires
        0 <= v <= CHUNK_SIZE,
    ensures
        0 <= run_height(g, u, v, width, c) <= CHUNK_SIZE - v,
    decreases CHUNK_SIZE - v,
{
    if v < CHUNK_SIZE && row_matches(g, u, v, width, c) {
        lemma_run_height_bound(g, u, v + 1, width, c);
    }
}

/// The width of the rectangle that the scan grows from cell `(u, v)`, which
/// holds `color`.
fn measure_width(cells: &Vec<Option<Color>>, u: usize, v: usize, color: &Color) -> (width: usize)
    requires
        cells.len() == SLICE_AREA,
        u < CHUNK_SIZE,
        v < CHUNK_SIZE,
    ensures
        width == 1 + run_width(cells@, u + 1, v as int, *color),
        1 <= width <= CHUNK_SIZE - u,
{
    let mut width: usize = 1;
    while u + width < CHUNK_SIZE && holds_color(&cells[v * CHUNK_SIZE + u + width], color)
        invariant
            cells.len() == SLICE_AREA,
            u < CHUNK_SIZE,
            v < CHUNK_SIZE,
            1 <= width <= CHUNK_SIZE - u,
            1 + run_width(cells@, u + 1, v as int, *color) == width + run_width(
                cells@,
                u + width,
                v as int,
                *color,
            ),
        decreases CHUNK_SIZE - width,
    {
        width += 1;
    }
    width
}

/// Whether the `width` cells of row `v` from column `u` on all hold `color`.
fn row_holds(
    cells: &Vec<Option<Color>>,
    u: usize,
    v: usize,
    width: usize,
    color: &Color,
) -> (r: bool)
    requires
        cells.len() == SLICE_AREA,
        v < CHUNK_SIZE,
        u + width <= CHUNK_SIZE,
    ensures
        r == row_matches(cells@, u as int, v as int, width as int, *color),
{
    let mut k: usize = 0;
    while k < width
        invariant
            cells.len() == SLICE_AREA,
            v < CHUNK_SIZE,
            u + width <= CHUNK_SIZE,
            k <= width,
            row_matches(cells@, u as int, v as int, k as int, *color),
        decreases width - k,
    {
        if !holds_color(&cells[v * CHUNK_SIZE + u + k], color) {
            assert(cell(cells@, u + k, v as int) != Some(*color));
            return false;
        }
        k += 1;
    }
    true
}

/// The height of the rectangle of the given width that the scan grows from
/// cell `(u, v)`, whose row holds `color` over that width.
fn measure_height(
    cells: &Vec<Option<Color>>,
    u: usize,
    v: usize,
    width: usize,
    color: &Color,
) -> (height: usize)
    requires
        cells.len() == SLICE_AREA,
        v < CHUNK_SIZE,
        u + width <= CHUNK_SIZE,
    ensures
        height == 1 + run_height(cells@, u as int, v + 1, width as int, *color),
        1 <= height <= CHUNK_SIZE - v,
{
    let mut height: usize = 1;
    while v + height < CHUNK_SIZE && row_holds(cells, u, v + height, width, color)
        invariant
            cells.len() == SLICE_AREA,
            v < CHUNK_SIZE,
            u + width <= CHUNK_SIZE,
            1 <= height <= CHUNK_SIZE - v,
            1 + run_height(cells@, u as int, v + 1, width as int, *color) == height + run_height(
                cells@,
                u as int,
                v + height,
                width as int,
                *color,
            ),
        decreases CHUNK_SIZE - height,
    {
        height += 1;
    }
    height
}

/// Layer `g` with the first `rows` rows of the rectangle emptied, and the
/// first `cols` cells of the row after them.
spec fn partly_cleared(
    g: Seq<Option<Color>>,
    u: int,
    v: int,
    width: int,
    rows: int,
    cols: int,
) -> Seq<Option<Color>> {
    Seq::new(
        g.len(),
        |i: int|
            {
                let iu = i % (CHUNK_SIZE as int);
                let iv = i / (CHUNK_SIZE as int);
                if (u <= iu < u + width && v <= iv < v + rows) || (u <= iu < u + cols && iv == v
                    + rows) {
                    None
                } else {
                    g[i]
                }
            },
    )
}

/// Empties the cells of a rectangle.
fn clear_rect(cells: &mut Vec<Option<Color>>, u: usize, v: usize, width: usize, height: usize)
    requires
        old(cells).len() == SLICE_AREA,
        u + width <= CHUNK_SIZE,
        v + height <= CHUNK_SIZE,
    ensures
        final(cells)@ == cleared(old(cells)@, u as int, v as int, width as int, height as int),
{
    let ghost g = cells@;
    let mut j: usize = 0;
    assert(cells@ =~= partly_cleared(g, u as int, v as int, width as int, 0, 0));
    while j < height
        invariant
            cells.len() == SLICE_AREA,
            g.len() == SLICE_AREA,
            u + width <= CHUNK_SIZE,
            v + height <= CHUNK_SIZE,
            j <= height,
            cells@ == partly_cleared(g, u as int, v as int, width as int, j as int, 0),
        decreases height - j,
    {
        let mut i: usize = 0;
        while i < width
            invariant
                cells.len() == SLICE_AREA,
                g.len() == SLICE_AREA,
                u + width <= CHUNK_SIZE,
                v + height <= CHUNK_SIZE,
                j < height,
                i <= width,
                cells@ == partly_cleared(g, u as int, v as int, width as int, j as int, i as int),
            decreases width - i,
        {
            cells[(v + j) * CHUNK_SIZE + u + i] = None;
            assert(cells@ =~= partly_cleared(
                g,
                u as int,
                v as int,
                width as int,
                j as int,
                i + 1,
            ));
            i += 1;
        }
        assert(partly_cleared(g, u as int, v as int, width as int, j as int, width as int)
            =~= partly_cleared(g, u as int, v as int, width as int, j + 1, 0));
        j += 1;
    }
    assert(partly_cleared(g, u as int, v as int, width as int, height as int, 0) =~= cleared(
        g,
        u as int,
        v as int,
        width as int,
        height as int,
    ));
}

/// Merges a layer of faces into rectangles.
///
/// The rectangles come out in scan order; the scan prefers width over
/// height.
pub fn merge_slice(slice: Vec<Option<Color>>) -> (rects: Vec<Rect>)
    requires
        slice.len() == SLICE_AREA,
    ensures
        rects@ == merged(slice@),
        forall|i: int| 0 <= i < rects.len() ==> (#[trigger] rects@[i]).in_bounds(),
{
    let mut cells = slice;
    let mut rects: Vec<Rect> = Vec::new();
    let mut v: usize = 0;
    while v < CHUNK_SIZE
        invariant
            cells.len() == SLICE_AREA,
            v <= CHUNK_SIZE,
            merged(slice@) == rects@ + merge_from(cells@, 0, v as int),
            forall|i: int| 0 <= i < rects.len() ==> (#[trigger] rects@[i]).in_bounds(),
        decreases CHUNK_SIZE - v,
    {
        let mut u: usize = 0;
        while u < CHUNK_SIZE
            invariant
                cells.len() == SLICE_AREA,
                v < CHUNK_SIZE,
                u <= CHUNK_SIZE,
                merged(slice@) == rects@ + merge_from(cells@, u as int, v as int),
                forall|i: int| 0 <= i < rects.len() ==> (#[trigger] rects@[i]).in_bounds(),
            decreases CHUNK_SIZE - u,
        {
            match cells[v * CHUNK_SIZE + u] {
                None => {
                    u += 1;
                },
                Some(color) => {
                    let width = measure_width(&cells, u, v, &color);
                    let height = measure_height(&cells, u, v, width, &color);
                    let ghost before = cells@;
                    let ghost emitted = rects@;
                    clear_rect(&mut cells, u, v, width, height);
                    let rect = Rect { u, v, width, height, color };
                    rects.push(rect);
                    proof {
                        assert(rect == rect_at(before, u as int, v as int, color));
                        assert(rects@ + merge_from(cells@, u + width, v as int) =~= emitted + (
                        seq![rect] + merge_from(cells@, u + width, v as int)));
                    }
                    u += width;
                },
            }
        }
        v += 1;
    }
    assert(rects@ + merge_from(cells@, 0, CHUNK_SIZE as int) =~= rects@);
    rects
}

/// Whether `(u, v)` names a cell of a layer.
pub open spec fn in_layer(u: int, v: int) -> bool {
    0 <= u < CHUNK_SIZE && 0 <= v < CHUNK_SIZE
}

/// Whether the scan has left every cell before position `(u, v)` empty.
pub open spec fn consumed_before(g: Seq<Option<Color>>, u: int, v: int) -> bool {
    forall|x: int, y: int|
        in_layer(x, y) && (y < v || (y == v && x < u)) ==> (#[trigger] cell(g, x, y)) is None
}

/// Whether the rectangles `rects` tile the faces of layer `g`: every
/// rectangle lies within the layer and covers only cells that hold its
/// colour, every cell that holds a face is covered, and no cell is covered
/// twice.
pub open spec fn tiles(rects: Seq<Rect>, g: Seq<Option<Color>>) -> bool {
    &&& forall|n: int| 0 <= n < rects.len() ==> (#[trigger] rects[n]).in_bounds()
    &&& forall|n: int, u: int, v: int|
        0 <= n < rects.len() && #[trigger] rects[n].covers(u, v) ==> cell(g, u, v) == Some(
            rects[n].color,
        )
    &&& forall|u: int, v: int|
        in_layer(u, v) && (#[trigger] cell(g, u, v)) is Some ==> exists|n: int|
            0 <= n < rects.len() && #[trigger] rects[n].covers(u, v)
    &&& forall|n: int, m: int, u: int, v: int|
        0 <= n < rects.len() && 0 <= m < rects.len() && #[trigger] rects[n].covers(u, v)
            && #[trigger] rects[m].covers(u, v) ==> n == m
}

/// The cells of a run hold the run's colour.
pub proof fn lemma_run_width_cells(g: Seq<Option<Color>>, u: int, v: int, c: Color, i: int)
    requires
        0 <= u,
        u <= i < u + run_width(g, u, v, c),
    ensures
        cell(g, i, v) == Some(c),
    decreases CHUNK_SIZE - u,
{
    if i > u {
        lemma_run_width_cells(g, u + 1, v, c, i);
    }
}

/// The rows of a run of rows hold the run's colour over its width.
pub proof fn lemma_run_height_rows(
    g: Seq<Option<Color>>,
    u: int,
    v: int,
    width: int,
    c: Color,
    j: int,
)
    requires
        0 <= v,
        v <= j < v + run_height(g, u, v, width, c),
    ensures
        row_matches(g, u, j, width, c),
    decreases CHUNK_SIZE - v,
{
    if j > v {
        lemma_run_height_rows(g, u, v + 1, width, c, j);
    }
}

/// A run ends at the end of the row or before a cell that does not hold its
/// colour, and a run of rows at the end of the layer or before a row that
/// does not hold its colour over the width: the rectangle cannot grow.
pub proof fn lemma_runs_are_maximal(g: Seq<Option<Color>>, u: int, v: int, width: int, c: Color)
    requires
        0 <= u <= CHUNK_SIZE,
        0 <= v <= CHUNK_SIZE,
    ensures
        u + run_width(g, u, v, c) == CHUNK_SIZE || cell(g, u + run_width(g, u, v, c), v) != Some(
            c,
        ),
        v + run_height(g, u, v, width, c) == CHUNK_SIZE || !row_matches(
            g,
            u,
            v + run_height(g, u, v, width, c),
            width,
            c,
        ),
    decreases CHUNK_SIZE - u, CHUNK_SIZE - v,
{
    if u < CHUNK_SIZE && cell(g, u, v) == Some(c) {
        lemma_runs_are_maximal(g, u + 1, v, width, c);
    }
    lemma_run_height_maximal(g, u, v, width, c);
}

proof fn lemma_run_height_maximal(g: Seq<Option<Color>>, u: int, v: int, width: int, c: Color)
    requires
        0 <= v <= CHUNK_SIZE,
    ensures
        v + run_height(g, u, v, width, c) == CHUNK_SIZE || !row_matches(
            g,
            u,
            v + run_height(g, u, v, width, c),
            width,
            c,
        ),
    decreases CHUNK_SIZE - v,
{
    if v < CHUNK_SIZE && row_matches(g, u, v, width, c) {
        lemma_run_height_maximal(g, u, v + 1, width, c);
    }
}

/// The rectangle grown from a cell lies within the layer, starts at the
/// cell, and covers only cells that hold the cell's colour.
pub proof fn lemma_rect_at(g: Seq<Option<Color>>, u: int, v: int, c: Color)
    requires
        in_layer(u, v),
        cell(g, u, v) == Some(c),
    ensures
        rect_at(g, u, v, c).in_bounds(),
        rect_at(g, u, v, c).u == u,
        rect_at(g, u, v, c).v == v,
        rect_at(g, u, v, c).width == 1 + run_width(g, u + 1, v, c),
        rect_at(g, u, v, c).height == 1 + run_height(
            g,
            u,
            v + 1,
            1 + run_width(g, u + 1, v, c),
            c,
        ),
        rect_at(g, u, v, c).color == c,
        forall|x: int, y: int| #[trigger]
            rect_at(g, u, v, c).covers(x, y) ==> cell(g, x, y) == Some(c),
{
    let width: int = 1 + run_width(g, u + 1, v, c);
    let height: int = 1 + run_height(g, u, v + 1, width, c);
    lemma_run_width_bound(g, u + 1, v, c);
    lemma_run_height_bound(g, u, v + 1, width, c);
    let r = rect_at(g, u, v, c);
    assert forall|x: int, y: int| #[trigger] r.covers(x, y) implies cell(g, x, y) == Some(c) by {
        if y == v {
            if x > u {
                lemma_run_width_cells(g, u + 1, v, c, x);
            }
        } else {
            lemma_run_height_rows(g, u, v + 1, width, c, y);
            assert(row_matches(g, u, y, width, c));
        }
    }
}

/// A cell of a layer with a rectangle emptied is empty inside the
/// rectangle and as it was outside.
pub proof fn lemma_cleared_cell(
    g: Seq<Option<Color>>,
    u: int,
    v: int,
    width: int,
    height: int,
    x: int,
    y: int,
)
    requires
        g.len() == SLICE_AREA,
        in_layer(x, y),
    ensures
        cell(cleared(g, u, v, width, height), x, y) == (if u <= x < u + width && v <= y < v
            + height {
            None
        } else {
            cell(g, x, y)
        }),
{
    let i = y * CHUNK_SIZE + x;
    assert(i % (CHUNK_SIZE as int) == x && i / (CHUNK_SIZE as int) == y);
}

/// From any position that the scan can reach, the rectangles it emits from
/// there on tile the faces that are left.
pub proof fn lemma_merge_from_tiles(g: Seq<Option<Color>>, u: int, v: int)
    requires
        g.len() == SLICE_AREA,
        0 <= u <= CHUNK_SIZE,
        0 <= v <= CHUNK_SIZE,
        consumed_before(g, u, v),
    ensures
        tiles(merge_from(g, u, v), g),
    decreases CHUNK_SIZE - v, CHUNK_SIZE - u,
{
    let rects = merge_from(g, u, v);
    if v >= CHUNK_SIZE {
        assert forall|x: int, y: int| in_layer(x, y) implies (#[trigger] cell(g, x, y)) is None by {}
    } else if u >= CHUNK_SIZE {
        assert forall|x: int, y: int|
            in_layer(x, y) && (y < v + 1 || (y == v + 1 && x < 0)) implies (#[trigger] cell(
            g,
            x,
            y,
        )) is None by {}
        lemma_merge_from_tiles(g, 0, v + 1);
    } else {
        match cell(g, u, v) {
            None => {
                assert forall|x: int, y: int|
                    in_layer(x, y) && (y < v || (y == v && x < u + 1)) implies (#[trigger] cell(
                    g,
                    x,
                    y,
                )) is None by {}
                lemma_merge_from_tiles(g, u + 1, v);
            },
            Some(c) => {
                let r = rect_at(g, u, v, c);
                let width: int = 1 + run_width(g, u + 1, v, c);
                let height: int = 1 + run_height(g, u, v + 1, width, c);
                let rest = cleared(g, u, v, width, height);
                let tail = merge_from(rest, u + width, v);
                lemma_rect_at(g, u, v, c);
                assert forall|x: int, y: int| in_layer(x, y) implies #[trigger] cell(rest, x, y)
                    == if r.covers(x, y) {
                    None
                } else {
                    cell(g, x, y)
                } by {
                    lemma_cleared_cell(g, u, v, width, height, x, y);
                }
                assert(consumed_before(rest, u + width, v));
                lemma_merge_from_tiles(rest, u + width, v);
                assert(rects == seq![r] + tail);
                assert forall|n: int| 0 <= n < rects.len() implies (#[trigger] rects[n]).in_bounds() by {
                    if n > 0 {
                        assert(rects[n] == tail[n - 1]);
                    }
                }
                assert forall|n: int, x: int, y: int|
                    0 <= n < rects.len() && #[trigger] rects[n].covers(x, y) implies cell(g, x, y)
                    == Some(rects[n].color) by {
                    if n > 0 {
                        assert(rects[n] == tail[n - 1]);
                        assert(tail[n - 1].in_bounds());
                        assert(tail[n - 1].covers(x, y));
                        assert(in_layer(x, y));
                        assert(cell(rest, x, y) == Some(tail[n - 1].color));
                    }
                }
                assert forall|x: int, y: int|
                    in_layer(x, y) && (#[trigger] cell(g, x, y)) is Some implies exists|n: int|
                    0 <= n < rects.len() && #[trigger] rects[n].covers(x, y) by {
                    if r.covers(x, y) {
                        assert(rects[0].covers(x, y));
                    } else {
                        assert(cell(rest, x, y) is Some);
                        let m = choose|m: int| 0 <= m < tail.len() && #[trigger] tail[m].covers(x, y);
                        assert(rects[m + 1] == tail[m]);
                        assert(rects[m + 1].covers(x, y));
                    }
                }
                assert forall|n: int, m: int, x: int, y: int|
                    0 <= n < rects.len() && 0 <= m < rects.len() && #[trigger] rects[n].covers(
                        x,
                        y,
                    ) && #[trigger] rects[m].covers(x, y) implies n == m by {
                    if n > 0 {
                        assert(rects[n] == tail[n - 1]);
                        assert(tail[n - 1].in_bounds());
                        assert(tail[n - 1].covers(x, y));
                        assert(in_layer(x, y));
                        assert(cell(rest, x, y) == Some(tail[n - 1].color));
                    }
                    if m > 0 {
                        assert(rects[m] == tail[m - 1]);
                        assert(tail[m - 1].in_bounds());
                        assert(tail[m - 1].covers(x, y));
                        assert(in_layer(x, y));
                        assert(cell(rest, x, y) == Some(tail[m - 1].color));
                    }
                }
            },
        }
    }
}

/// Greedy merging tiles a layer: the rectangles lie within the layer, each
/// covers only cells that hold its colour, every cell that holds a face lies
/// in exactly one rectangle, and an empty cell in none.
pub proof fn lemma_merged_tiles(g: Seq<Option<Color>>)
    requires
        g.len() == SLICE_AREA,
    ensures
        tiles(merged(g), g),
{
    lemma_merge_from_tiles(g, 0, 0);
}

/// A layer without faces merges into no rectangle.
pub proof fn lemma_empty_layer(g: Seq<Option<Color>>, u: int, v: int)
    requires
        0 <= u <= CHUNK_SIZE,
        0 <= v <= CHUNK_SIZE,
        forall|x: int, y: int| in_layer(x, y) ==> (#[trigger] cell(g, x, y)) is None,
    ensures
        merge_from(g, u, v) == Seq::<Rect>::empty(),
    decreases CHUNK_SIZE - v, CHUNK_SIZE - u,
{
    if v < CHUNK_SIZE {
        if u >= CHUNK_SIZE {
            lemma_empty_layer(g, 0, v + 1);
        } else {
            assert(cell(g, u, v) is None);
            lemma_empty_layer(g, u + 1, v);
        }
    }
}

/// Where every cell of a row from column `u` on holds colour `c`, the run
/// from `u` goes to the end of the row.
proof fn lemma_full_run_width(g: Seq<Option<Color>>, u: int, v: int, c: Color)
    requires
        0 <= u <= CHUNK_SIZE,
        0 <= v < CHUNK_SIZE,
        forall|x: int| u <= x < CHUNK_SIZE ==> #[trigger] cell(g, x, v) == Some(c),
    ensures
        run_width(g, u, v, c) == CHUNK_SIZE - u,
    decreases CHUNK_SIZE - u,
{
    if u < CHUNK_SIZE {
        assert(cell(g, u, v) == Some(c));
        lemma_full_run_width(g, u + 1, v, c);
    }
}

/// Where every row from row `v` on holds colour `c` over the whole width,
/// the run of rows from `v` goes to the end of the layer.
proof fn lemma_full_run_height(g: Seq<Option<Color>>, v: int, c: Color)
    requires
        0 <= v <= CHUNK_SIZE,
        forall|x: int, y: int| in_layer(x, y) && v <= y ==> #[trigger] cell(g, x, y) == Some(c),
    ensures
        run_height(g, 0, v, CHUNK_SIZE as int, c) == CHUNK_SIZE - v,
    decreases CHUNK_SIZE - v,
{
    if v < CHUNK_SIZE {
        assert(row_matches(g, 0, v, CHUNK_SIZE as int, c)) by {
            assert forall|i: int| 0 <= i < 0 + CHUNK_SIZE implies #[trigger] cell(g, i, v) == Some(
                c,
            ) by {
                assert(in_layer(i, v));
            }
        }
        lemma_full_run_height(g, v + 1, c);
    }
}

/// A layer whose cells all hold one colour merges into a single rectangle
/// that covers the layer.
pub proof fn lemma_uniform_layer(g: Seq<Option<Color>>, c: Color)
    requires
        g.len() == SLICE_AREA,
        forall|x: int, y: int| in_layer(x, y) ==> #[trigger] cell(g, x, y) == Some(c),
    ensures
        merged(g) == seq![Rect { u: 0, v: 0, width: CHUNK_SIZE, height: CHUNK_SIZE, color: c }],
{
    assert(in_layer(0, 0));
    assert(cell(g, 0, 0) == Some(c));
    assert forall|x: int| 1 <= x < CHUNK_SIZE implies #[trigger] cell(g, x, 0) == Some(c) by {
        assert(in_layer(x, 0));
    }
    lemma_full_run_width(g, 1, 0, c);
    lemma_full_run_height(g, 1, c);
    let side = CHUNK_SIZE as int;
    let rest = cleared(g, 0, 0, side, side);
    assert forall|x: int, y: int| in_layer(x, y) implies (#[trigger] cell(rest, x, y)) is None by {
        lemma_cleared_cell(g, 0, 0, side, side, x, y);
    }
    lemma_empty_layer(rest, side, 0);
    assert(merged(g) =~= seq![
        Rect { u: 0, v: 0, width: CHUNK_SIZE, height: CHUNK_SIZE, color: c },
    ]);
}

} // verus!
