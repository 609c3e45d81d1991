//! The table of block types: what each type looks like and which of its
//! faces hide what lies behind them.

use vstd::prelude::*;
use crate::direction::NormalDirection;

verus! {

/// An RGB triple. The meshing only copies and compares colours, so a channel
/// is an uninterpreted 32-bit code; a renderer decides what it stands for.
pub type Color = [u32; 3];

/// The identifier of the block type that stands for empty space.
pub const AIR: usize = 0;

/// How blocks of one type are drawn.
#[derive(Debug, Copy, Clone)]
pub struct BlockRenderData {
    /// The set of directions in which a block of this type hides its
    /// neighbour, one bit per direction (bit `d.index()` for direction `d`).
    pub obscures: u8,
    /// The flat colour of every face.
    pub color: Color,
    /// Whether a block of this type has any faces at all.
    pub should_render: bool,
}

/// The bit that stands for direction `dir` in an occlusion set.
pub open spec fn direction_bit(dir: NormalDirection) -> u8 {
    match dir {
        NormalDirection::Front => 0b000001u8,
        NormalDirection::Up => 0b000010u8,
        NormalDirection::Right => 0b000100u8,
        NormalDirection::Back => 0b001000u8,
        NormalDirection::Down => 0b010000u8,
        NormalDirection::Left => 0b100000u8,
    }
}

/// The occlusion set that holds all six directions.
pub const OBSCURES_ALL: u8 = 0b111111;

impl BlockRenderData {
    /// Whether the occlusion set holds `dir`.
    pub open spec fn obscures_towards(self, dir: NormalDirection) -> bool {
        self.obscures & direction_bit(dir) != 0
    }

    /// Whether a block of this type hides what lies behind its face `dir`.
    pub fn obscures(&self, dir: &NormalDirection) -> (r: bool)
        ensures
            r == self.obscures_towards(*dir),
    {
        let bit: u8 = match dir {
            NormalDirection::Front => 0b000001,
            NormalDirection::Up => 0b000010,
            NormalDirection::Right => 0b000100,
            NormalDirection::Back => 0b001000,
            NormalDirection::Down => 0b010000,
            NormalDirection::Left => 0b100000,
        };
        self.obscures & bit != 0
    }
}

/// What a catalog must satisfy: it has an entry for air, and air is neither
/// drawn nor hides anything.
pub open spec fn valid_catalog(catalog: Seq<BlockRenderData>) -> bool {
    &&& catalog.len() > AIR
    &&& !catalog[AIR as int].should_render
    &&& catalog[AIR as int].obscures == 0
}

/// Whether two colours are the same triple.
pub fn same_color(a: &Color, b: &Color) -> (r: bool)
    ensures
        r == (*a == *b),
{
    let r = a[0] == b[0] && a[1] == b[1] && a[2] == b[2];
    proof {
        if r {
            assert(*a =~= *b);
        }
    }
    r
}

/// Whether a cell of a face slice holds a face of colour `color`.
pub fn holds_color(cell: &Option<Color>, color: &Color) -> (r: bool)
    ensures
        r == (*cell == Some(*color)),
{
    match cell {
        Some(c) => same_color(c, color),
        None => false,
    }
}

/// An empty occlusion set hides nothing, and the full set hides in every
/// direction.
pub proof fn lemma_occlusion_sets(data: BlockRenderData, dir: NormalDirection)
    ensures
        data.obscures == 0 ==> !data.obscures_towards(dir),
        data.obscures == OBSCURES_ALL ==> data.obscures_towards(dir),
{
    let bit = direction_bit(dir);
    assert(0u8 & bit == 0) by (bit_vector);
    assert(bit == 1 || bit == 2 || bit == 4 || bit == 8 || bit == 16 || bit == 32);
    assert((bit == 1 || bit == 2 || bit == 4 || bit == 8 || bit == 16 || bit == 32) ==> 0b111111u8
        & bit != 0) by (bit_vector);
}

} // verus!
