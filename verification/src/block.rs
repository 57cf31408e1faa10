//! Voxel materials and placed blocks.

use vstd::prelude::*;

verus! {

/// Closed set of voxel materials. The position of a variant fixes both its
/// numeric tag and its bit in the occlusion bitmasks; the ordering carries no
/// further meaning.
#[derive(Clone, Copy, PartialEq, Eq, Structural, Debug)]
pub enum BlockType {
    Air,
    Dirt,
    Grass,
    Stone,
    AcaciaL,
    Sand,
}

impl BlockType {
    /// How many material variants exist.
    pub fn variants() -> (n: usize)
        ensures
            n == 6,
    {
        6
    }

    /// Numeric tag of a material, used for array indexing.
    pub open spec fn spec_as_raw(self) -> u32 {
        match self {
            BlockType::Air => 0,
            BlockType::Dirt => 1,
            BlockType::Grass => 2,
            BlockType::Stone => 3,
            BlockType::AcaciaL => 4,
            BlockType::Sand => 5,
        }
    }

    /// Numeric tag of a material.
    pub fn as_raw(&self) -> (r: u32)
        ensures
            r == self.spec_as_raw(),
    {
        match self {
            BlockType::Air => 0,
            BlockType::Dirt => 1,
            BlockType::Grass => 2,
            BlockType::Stone => 3,
            BlockType::AcaciaL => 4,
            BlockType::Sand => 5,
        }
    }

    /// One bit per material: bit `spec_as_raw(self)` is set and nothing else.
    pub open spec fn spec_bit_mask(self) -> u64 {
        match self {
            BlockType::Air => 1,
            BlockType::Dirt => 2,
            BlockType::Grass => 4,
            BlockType::Stone => 8,
            BlockType::AcaciaL => 16,
            BlockType::Sand => 32,
        }
    }

    /// Bitmask of a material, used for the one-of-several air tests during
    /// occlusion culling.
    pub fn bit_mask(&self) -> (r: u64)
        ensures
            r == self.spec_bit_mask(),
    {
        match self {
            BlockType::Air => 1,
            BlockType::Dirt => 2,
            BlockType::Grass => 4,
            BlockType::Stone => 8,
            BlockType::AcaciaL => 16,
            BlockType::Sand => 32,
        }
    }
}

/// A placed voxel: integer world-space position plus its material.
#[derive(Clone, Copy, PartialEq, Eq, Structural, Debug)]
pub struct Block {
    pub x: i64,
    pub y: i64,
    pub z: i64,
    pub block_type: BlockType,
}

impl Block {
    pub fn new(x: i64, y: i64, z: i64, block_type: BlockType) -> (b: Block)
        ensures
            b == (Block { x, y, z, block_type }),
    {
        Block { x, y, z, block_type }
    }
}

/// Atlas face indices of one material, one index per cuboid face.
#[derive(Clone, Copy, PartialEq, Eq, Structural, Debug)]
pub struct TextureFaces {
    pub right: u32,
    pub left: u32,
    pub top: u32,
    pub bottom: u32,
    pub front: u32,
    pub back: u32,
}

impl TextureFaces {
    /// All six faces mapped to the same atlas cell.
    pub open spec fn spec_uniform(index: u32) -> TextureFaces {
        TextureFaces {
            right: index,
            left: index,
            top: index,
            bottom: index,
            front: index,
            back: index,
        }
    }

    pub fn uniform(index: u32) -> (t: TextureFaces)
        ensures
            t == TextureFaces::spec_uniform(index),
    {
        TextureFaces { right: index, left: index, top: index, bottom: index, front: index, back: index }
    }
}

/// The fixed texture-atlas table, one entry per material.
pub struct Materials {}

/// Width of the texture atlas in cells.
pub const ATLAS_WIDTH: u32 = 29;

impl Materials {
    /// Atlas faces of each material, indexed by `BlockType::as_raw`. Air keeps
    /// the zero entry; grass uses a distinct top and a dirt bottom, acacia
    /// leaves a distinct top and bottom.
    pub open spec fn spec_faces(t: BlockType) -> TextureFaces {
        match t {
            BlockType::Air => TextureFaces::spec_uniform(0),
            BlockType::Dirt => TextureFaces::spec_uniform((8 * ATLAS_WIDTH + 16) as u32),
            BlockType::Grass => TextureFaces {
                top: (14 * ATLAS_WIDTH + 16 + 1) as u32,
                bottom: (8 * ATLAS_WIDTH + 16) as u32,
                ..TextureFaces::spec_uniform((10 * ATLAS_WIDTH + 16) as u32)
            },
            BlockType::Stone => TextureFaces::spec_uniform(12),
            BlockType::AcaciaL => TextureFaces { top: 2, bottom: 2, ..TextureFaces::spec_uniform(1) },
            BlockType::Sand => TextureFaces::spec_uniform((11 * ATLAS_WIDTH + 15) as u32),
        }
    }

    /// The whole table: entry `i` holds the faces of the material whose tag
    /// is `i`.
    pub fn get_all() -> (r: Vec<TextureFaces>)
        ensures
            r@.len() == 6,
            forall|t: BlockType| r@[t.spec_as_raw() as int] == Materials::spec_faces(t),
    {
        let dirt_index: u32 = 8 * ATLAS_WIDTH + 16;
        let grass_side: u32 = 10 * ATLAS_WIDTH + 16;
        let grass_top: u32 = 14 * ATLAS_WIDTH + 16 + 1;
        let sand_index: u32 = 11 * ATLAS_WIDTH + 15;

        let mut r: Vec<TextureFaces> = Vec::new();
        r.push(TextureFaces::uniform(0));
        r.push(TextureFaces::uniform(dirt_index));
        let mut grass = TextureFaces::uniform(grass_side);
        grass.top = grass_top;
        grass.bottom = dirt_index;
        r.push(grass);
        r.push(TextureFaces::uniform(12));
        let mut acacia = TextureFaces::uniform(1);
        acacia.top = 2;
        acacia.bottom = 2;
        r.push(acacia);
        r.push(TextureFaces::uniform(sand_index));
        r
    }
}

} // verus!
