//! Renderer-facing bookkeeping: descriptor bindings, buffer alignment and
//! texture-atlas layout. The graphics API itself lives outside this crate;
//! only the arithmetic it depends on is kept here.

use vstd::prelude::*;

verus! {

/// The descriptor-set binding slots, in slot order.
#[derive(Clone, Copy, PartialEq, Eq, Structural, Debug)]
pub enum Binding {
    CombinedImage,
    StorageImage,
    StorageBuffer,
    UniformBuffer,
    UNDEFINED,
}

impl Binding {
    /// Number of real binding slots; the undefined marker is not counted.
    pub fn variants() -> (n: usize)
        ensures
            n == 4,
    {
        4
    }
}

/// Rounds `size` up to the next multiple of `min_aligment`, which must be
/// a power of two: the result is the smallest aligned size not below
/// `size`.
pub fn pad_size_to_min_aligment(size: u32, min_aligment: u32) -> (r: u32)
    requires
        min_aligment >= 1,
        (min_aligment & ((min_aligment - 1) as u32)) == 0,
        size + min_aligment <= 0x1_0000_0000,
    ensures
        r % min_aligment == 0,
        size <= r < size + min_aligment,
{
    let am1: u32 = min_aligment - 1;
    let sum: u32 = size + am1;
    let r: u32 = sum & !am1;
    proof {
        let a = min_aligment;
        let s = size;
        assert(r % a == 0 && s <= r && r < s + a) by (bit_vector)
            requires
                a >= 1,
                (a & am1) == 0,
                am1 + 1 == a,
                sum == s + am1,
                s + a <= 0x1_0000_0000,
                r == sum & !am1,
        ;
    }
    r
}

/// A decoded texture atlas rearranged for an array upload: the source
/// image dimensions, the side length of one tile, the bytes per pixel and
/// the rearranged pixel data.
pub struct TextureArray {
    pub dimensions: (u32, u32),
    pub grid: u32,
    pub pixel_size: u32,
    pub data: Vec<u8>,
}

impl TextureArray {
    /// The data holds exactly one tile-sized slice per whole tile of the
    /// source image.
    pub open spec fn wf(self) -> bool {
        self.data@.len() == (self.dimensions.0 / self.grid) * (self.dimensions.1 / self.grid) * (
        self.grid * self.grid * self.pixel_size)
    }

    /// How many bytes a rearranged atlas of this shape holds.
    pub fn expected_data_len(dimensions: (u32, u32), grid: u32, pixel_size: u32) -> (r: u64)
        requires
            1 <= grid <= 16384,
            dimensions.0 <= 16384,
            dimensions.1 <= 16384,
            pixel_size <= 16,
        ensures
            r == (dimensions.0 / grid) * (dimensions.1 / grid) * (grid * grid * pixel_size),
    {
        let cx: u64 = (dimensions.0 / grid) as u64;
        let cy: u64 = (dimensions.1 / grid) as u64;
        proof {
            vstd::arithmetic::div_mod::lemma_div_nonincreasing(dimensions.0 as int, grid as int);
            vstd::arithmetic::div_mod::lemma_div_nonincreasing(dimensions.1 as int, grid as int);
            vstd::arithmetic::div_mod::lemma_div_pos_is_pos(dimensions.0 as int, grid as int);
            vstd::arithmetic::div_mod::lemma_div_pos_is_pos(dimensions.1 as int, grid as int);
        }
        assert((grid as u64) * (grid as u64) <= 16384 * 16384 && (grid as u64) * (grid as u64)
            * (pixel_size as u64) <= 16384 * 16384 * 16) by (nonlinear_arith)
            requires
                1 <= grid <= 16384,
                0 <= pixel_size <= 16,
        ;
        let tile: u64 = (grid as u64) * (grid as u64) * (pixel_size as u64);
        assert(cx * cy <= 16384 * 16384 && cx * cy * tile <= 0x1000_0000_0000_0000)
            by (nonlinear_arith)
            requires
                0 <= cx <= 16384,
                0 <= cy <= 16384,
                0 <= tile <= 16384 * 16384 * 16,
        ;
        cx * cy * tile
    }
}

} // verus!
