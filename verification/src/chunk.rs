//! Voxel chunks: procedural generation and neighbor-aware occlusion culling.
//!
//! A chunk is a fixed-footprint column of voxels stored as a flat grid of
//! materials, indexed `y * W * W + z * W + x` (row-major, Y-major outer).
//! The generation and culling algorithms are written over an arbitrary
//! footprint `width` and `height` so that their contracts hold for any size;
//! the chunk type itself instantiates them at the fixed dimensions.

use vstd::prelude::*;
use crate::block::{Block, BlockType};
use crate::noise::SimplexNoise;

verus! {

/// Side length of a chunk footprint in voxels.
pub const CHUNK_LENGTH: usize = 64;

/// Height of every chunk column in voxels.
pub const CHUNK_HEIGHT: usize = 90;

/// First layer of the surface band (nine tenths of the chunk height,
/// rounded): dirt from here up to the column height, stone below.
pub const SURFACE_START: usize = 81;

/// World units per voxel.
pub const VOXEL_SCALE: i64 = 1;

/// Chunk grid coordinates are kept within this bound so that every noise
/// sample stays inside the sampler's coordinate range.
pub const MAX_CHUNK_COORD: i64 = 256;

/// Largest seed the noisy height mode accepts.
pub const MAX_SEED: u32 = 16384;

/// Largest amplitude, in blocks, the noisy height mode accepts.
pub const MAX_HEIGHT_AMPLITUDE: i64 = 1000;

/// Rough biome tag of a region; generation currently varies only by height
/// mode, the tag is kept for the streaming policy.
pub enum Biome {
    FlatLand,
    Desert,
    Forest,
    Mountain,
}

/// How column heights are derived: a flat debug surface at the surface band,
/// or fractal-noise heights above it.
#[derive(Clone, Copy, PartialEq, Eq, Structural, Debug)]
pub enum HeightMode {
    Flat,
    Noisy { seed: u32, octaves: u32, persistence: i64, amplitude: i64 },
}

impl HeightMode {
    /// The parameter ranges the noise sampler accepts.
    pub open spec fn wf(self) -> bool {
        match self {
            HeightMode::Flat => true,
            HeightMode::Noisy { seed, octaves, persistence, amplitude } => {
                &&& seed <= MAX_SEED
                &&& 1 <= octaves <= 15
                &&& 0 <= persistence <= 65536
                &&& 0 <= amplitude <= MAX_HEIGHT_AMPLITUDE
            },
        }
    }

    /// Checks the parameter ranges of the mode.
    pub fn is_valid(&self) -> (r: bool)
        ensures
            r == self.wf(),
    {
        match self {
            HeightMode::Flat => true,
            HeightMode::Noisy { seed, octaves, persistence, amplitude } => {
                *seed <= MAX_SEED && 1 <= *octaves && *octaves <= 15 && 0 <= *persistence
                    && *persistence <= 65536 && 0 <= *amplitude && *amplitude
                    <= MAX_HEIGHT_AMPLITUDE
            },
        }
    }
}

/// Flat index of the cell `(x, z, y)` in a grid of footprint `w`.
pub open spec fn cell_index(w: int, x: int, z: int, y: int) -> int {
    y * (w * w) + z * w + x
}

/// Flat index of the column `(x, z)` in a heightmap of footprint `w`.
pub open spec fn col_index(w: int, x: int, z: int) -> int {
    z * w + x
}

/// Index bounds of one cell in the flat grid layout, used to carry the
/// per-row and per-layer loop invariants across appends.
pub proof fn lemma_grid_index_bounds(w: int, x: int, z: int, y: int)
    requires
        0 <= x < w,
        0 <= z < w,
        0 <= y,
    ensures
        0 <= z * w + x < w * w,
        z * w + x < (z + 1) * w,
        (z + 1) * w <= w * w,
        (y + 1) * (w * w) == y * (w * w) + w * w,
        0 <= y * (w * w),
        cell_index(w, x, z, y) == y * (w * w) + (z * w + x),
        0 <= cell_index(w, x, z, y) < (y + 1) * (w * w),
{
    assert(0 <= z * w && z * w + x < (z + 1) * w && (z + 1) * w <= w * w && (y + 1) * (w * w) == y
        * (w * w) + w * w && 0 <= y * (w * w)) by (nonlinear_arith)
        requires
            0 <= x < w,
            0 <= z < w,
            0 <= y,
    ;
}

/// Multiplying both sides of `a <= b` by a nonnegative `w` keeps the order.
pub proof fn lemma_mul_mono(a: int, b: int, w: int)
    requires
        a <= b,
        0 <= w,
    ensures
        a * w <= b * w,
{
    assert(a * w <= b * w) by (nonlinear_arith)
        requires
            a <= b,
            0 <= w,
    ;
}

/// Surface height of the column at world coordinate `(wx, wz)`: the flat
/// band, or the band raised by an amplitude-scaled fractal sample.
pub open spec fn spec_height(mode: HeightMode, wx: int, wz: int) -> int {
    match mode {
        HeightMode::Flat => SURFACE_START as int,
        HeightMode::Noisy { seed, octaves, persistence, amplitude } => {
            let n = SimplexNoise::spec_generate_noise(
                (wx + seed) * 65536,
                (wz + seed) * 65536,
                octaves,
                persistence as int,
            );
            SURFACE_START + (n * amplitude) / 65536
        },
    }
}

/// Material of the voxel at height `y` in a column of height `h`: air above
/// the surface, dirt in the surface band, stone below it.
pub open spec fn spec_block_at(mode: HeightMode, wx: int, wz: int, y: int) -> BlockType {
    let h = spec_height(mode, wx, wz);
    if y > h {
        BlockType::Air
    } else if y >= SURFACE_START {
        BlockType::Dirt
    } else {
        BlockType::Stone
    }
}

/// Surface height of one column in blocks.
fn column_height(mode: &HeightMode, wx: i64, wz: i64) -> (h: i64)
    requires
        mode.wf(),
        -16384 <= wx <= 16383,
        -16384 <= wz <= 16383,
    ensures
        h == spec_height(*mode, wx as int, wz as int),
        81 <= h <= 81 + MAX_HEIGHT_AMPLITUDE,
{
    match mode {
        HeightMode::Flat => 81,
        HeightMode::Noisy { seed, octaves, persistence, amplitude } => {
            let n: i64 = SimplexNoise::generate_noise(
                (wx + (*seed as i64)) * 65536,
                (wz + (*seed as i64)) * 65536,
                *octaves,
                *persistence,
            );
            assert(0 <= n * *amplitude <= 65536 * MAX_HEIGHT_AMPLITUDE) by (nonlinear_arith)
                requires
                    0 <= n <= 65536,
                    0 <= *amplitude <= MAX_HEIGHT_AMPLITUDE,
            ;
            81 + (n * *amplitude) / 65536
        },
    }
}

/// Generates the block grid of the chunk at grid coordinate
/// `(chunk_x, chunk_z)`: exactly `width * width * height` materials in
/// `y`-major order, each one fixed by its column's surface height.
pub fn generate_grid(
    chunk_x: i64,
    chunk_z: i64,
    width: usize,
    height: usize,
    mode: &HeightMode,
) -> (r: Vec<BlockType>)
    requires
        1 <= width <= 64,
        1 <= height <= 256,
        -MAX_CHUNK_COORD <= chunk_x < MAX_CHUNK_COORD,
        -MAX_CHUNK_COORD <= chunk_z < MAX_CHUNK_COORD,
        mode.wf(),
    ensures
        r@.len() == width * width * height,
        forall|x: int, z: int, y: int|
            0 <= x < width && 0 <= z < width && 0 <= y < height ==> #[trigger] r@[cell_index(
                width as int,
                x,
                z,
                y,
            )] == spec_block_at(*mode, chunk_x * width + x, chunk_z * width + z, y),
{
    let w: usize = width;
    let mut hm: Vec<i64> = Vec::new();
    let mut z: usize = 0;
    while z < w
        invariant
            0 <= z <= w,
            1 <= w <= 64,
            -MAX_CHUNK_COORD <= chunk_x < MAX_CHUNK_COORD,
            -MAX_CHUNK_COORD <= chunk_z < MAX_CHUNK_COORD,
            mode.wf(),
            hm@.len() == z * w,
            forall|xx: int, zz: int|
                0 <= xx < w && 0 <= zz < z ==> #[trigger] hm@[col_index(w as int, xx, zz)]
                    == spec_height(*mode, chunk_x * w + xx, chunk_z * w + zz),
        decreases w - z,
    {
        let mut x: usize = 0;
        while x < w
            invariant
                0 <= x <= w,
                0 <= z < w,
                1 <= w <= 64,
                -MAX_CHUNK_COORD <= chunk_x < MAX_CHUNK_COORD,
                -MAX_CHUNK_COORD <= chunk_z < MAX_CHUNK_COORD,
                mode.wf(),
                hm@.len() == z * w + x,
                forall|xx: int, zz: int|
                    0 <= xx < w && 0 <= zz < z ==> #[trigger] hm@[col_index(w as int, xx, zz)]
                        == spec_height(*mode, chunk_x * w + xx, chunk_z * w + zz),
                forall|xx: int|
                    0 <= xx < x ==> #[trigger] hm@[col_index(w as int, xx, z as int)]
                        == spec_height(*mode, chunk_x * w + xx, chunk_z * w + z),
            decreases w - x,
        {
            assert(-16384 <= chunk_x * (w as i64) && chunk_x * (w as i64) + (w as i64) <= 16384)
                by (nonlinear_arith)
                requires
                    -256 <= chunk_x <= 255,
                    1 <= w <= 64,
            ;
            assert(-16384 <= chunk_z * (w as i64) && chunk_z * (w as i64) + (w as i64) <= 16384)
                by (nonlinear_arith)
                requires
                    -256 <= chunk_z <= 255,
                    1 <= w <= 64,
            ;
            let wx: i64 = chunk_x * (w as i64) + (x as i64);
            let wz: i64 = chunk_z * (w as i64) + (z as i64);
            let h: i64 = column_height(mode, wx, wz);
            hm.push(h);
            proof {
                assert forall|xx: int, zz: int| 0 <= xx < w && 0 <= zz < z implies #[trigger] hm@[col_index(
                    w as int,
                    xx,
                    zz,
                )] == spec_height(*mode, chunk_x * w + xx, chunk_z * w + zz) by {
                    lemma_grid_index_bounds(w as int, xx, zz, 0);
                    lemma_mul_mono(zz + 1, z as int, w as int);
                };
            }
            x = x + 1;
        }
        z = z + 1;
        assert(z * w == (z - 1) * w + w) by (nonlinear_arith);
    }
    assert(hm@.len() == w * w) by (nonlinear_arith)
        requires
            hm@.len() == w * w,
    ;

    let mut r: Vec<BlockType> = Vec::new();
    let mut y: usize = 0;
    while y < height
        invariant
            0 <= y <= height,
            1 <= w <= 64,
            1 <= height <= 256,
            -MAX_CHUNK_COORD <= chunk_x < MAX_CHUNK_COORD,
            -MAX_CHUNK_COORD <= chunk_z < MAX_CHUNK_COORD,
            mode.wf(),
            hm@.len() == w * w,
            forall|xx: int, zz: int|
                0 <= xx < w && 0 <= zz < w ==> #[trigger] hm@[col_index(w as int, xx, zz)]
                    == spec_height(*mode, chunk_x * w + xx, chunk_z * w + zz),
            r@.len() == y * (w * w),
            forall|xx: int, zz: int, yy: int|
                0 <= xx < w && 0 <= zz < w && 0 <= yy < y ==> #[trigger] r@[cell_index(
                    w as int,
                    xx,
                    zz,
                    yy,
                )] == spec_block_at(*mode, chunk_x * w + xx, chunk_z * w + zz, yy),
        decreases height - y,
    {
        let mut z2: usize = 0;
        while z2 < w
            invariant
                0 <= z2 <= w,
                0 <= y < height,
                1 <= w <= 64,
                1 <= height <= 256,
                -MAX_CHUNK_COORD <= chunk_x < MAX_CHUNK_COORD,
                -MAX_CHUNK_COORD <= chunk_z < MAX_CHUNK_COORD,
                mode.wf(),
                hm@.len() == w * w,
                forall|xx: int, zz: int|
                    0 <= xx < w && 0 <= zz < w ==> #[trigger] hm@[col_index(w as int, xx, zz)]
                        == spec_height(*mode, chunk_x * w + xx, chunk_z * w + zz),
                r@.len() == y * (w * w) + z2 * w,
                forall|xx: int, zz: int, yy: int|
                    0 <= xx < w && 0 <= zz < w && 0 <= yy < y ==> #[trigger] r@[cell_index(
                        w as int,
                        xx,
                        zz,
                        yy,
                    )] == spec_block_at(*mode, chunk_x * w + xx, chunk_z * w + zz, yy),
                forall|xx: int, zz: int|
                    0 <= xx < w && 0 <= zz < z2 ==> #[trigger] r@[cell_index(
                        w as int,
                        xx,
                        zz,
                        y as int,
                    )] == spec_block_at(*mode, chunk_x * w + xx, chunk_z * w + zz, y as int),
            decreases w - z2,
        {
            let mut x2: usize = 0;
            while x2 < w
                invariant
                    0 <= x2 <= w,
                    0 <= z2 < w,
                    0 <= y < height,
                    1 <= w <= 64,
                    1 <= height <= 256,
                    -MAX_CHUNK_COORD <= chunk_x < MAX_CHUNK_COORD,
                    -MAX_CHUNK_COORD <= chunk_z < MAX_CHUNK_COORD,
                    mode.wf(),
                    hm@.len() == w * w,
                    forall|xx: int, zz: int|
                        0 <= xx < w && 0 <= zz < w ==> #[trigger] hm@[col_index(w as int, xx, zz)]
                            == spec_height(*mode, chunk_x * w + xx, chunk_z * w + zz),
                    r@.len() == y * (w * w) + z2 * w + x2,
                    forall|xx: int, zz: int, yy: int|
                        0 <= xx < w && 0 <= zz < w && 0 <= yy < y ==> #[trigger] r@[cell_index(
                            w as int,
                            xx,
                            zz,
                            yy,
                        )] == spec_block_at(*mode, chunk_x * w + xx, chunk_z * w + zz, yy),
                    forall|xx: int, zz: int|
                        0 <= xx < w && 0 <= zz < z2 ==> #[trigger] r@[cell_index(
                            w as int,
                            xx,
                            zz,
                            y as int,
                        )] == spec_block_at(*mode, chunk_x * w + xx, chunk_z * w + zz, y as int),
                    forall|xx: int|
                        0 <= xx < x2 ==> #[trigger] r@[cell_index(w as int, xx, z2 as int, y as int)]
                            == spec_block_at(
                            *mode,
                            chunk_x * w + xx,
                            chunk_z * w + z2 as int,
                            y as int,
                        ),
                decreases w - x2,
            {
                assert(z2 * w + x2 < w * w && w * w <= 4096) by (nonlinear_arith)
                    requires
                        0 <= z2 < w,
                        0 <= x2 < w,
                        w <= 64,
                ;
                let hi: usize = z2 * w + x2;
                let h: i64 = hm[hi];
                assert(hi == col_index(w as int, x2 as int, z2 as int));
                assert(hm@[col_index(w as int, x2 as int, z2 as int)] == spec_height(
                    *mode,
                    chunk_x * w + x2,
                    chunk_z * w + z2,
                ));
                let b: BlockType = if (y as i64) > h {
                    BlockType::Air
                } else if y >= SURFACE_START {
                    BlockType::Dirt
                } else {
                    BlockType::Stone
                };
                assert(y * (w * w) + z2 * w + x2 == cell_index(
                    w as int,
                    x2 as int,
                    z2 as int,
                    y as int,
                ));
                r.push(b);
                proof {
                    assert forall|xx: int, zz: int, yy: int|
                        0 <= xx < w && 0 <= zz < w && 0 <= yy < y implies #[trigger] r@[cell_index(
                        w as int,
                        xx,
                        zz,
                        yy,
                    )] == spec_block_at(*mode, chunk_x * w + xx, chunk_z * w + zz, yy) by {
                        lemma_grid_index_bounds(w as int, xx, zz, yy);
                        lemma_mul_mono(yy + 1, y as int, (w as int) * (w as int));
                    };
                    assert forall|xx: int, zz: int| 0 <= xx < w && 0 <= zz < z2 implies #[trigger] r@[cell_index(
                        w as int,
                        xx,
                        zz,
                        y as int,
                    )] == spec_block_at(*mode, chunk_x * w + xx, chunk_z * w + zz, y as int) by {
                        lemma_grid_index_bounds(w as int, xx, zz, y as int);
                        lemma_mul_mono(zz + 1, z2 as int, w as int);
                    };
                }
                x2 = x2 + 1;
            }
            z2 = z2 + 1;
            assert(y * (w * w) + (z2 - 1) * w + w == y * (w * w) + z2 * w) by (nonlinear_arith);
        }
        y = y + 1;
        assert((y - 1) * (w * w) + w * w == y * (w * w)) by (nonlinear_arith);
    }
    proof {
        assert(height * (w * w) == w * w * height) by (nonlinear_arith);
    }
    r
}

/// Corner cells of a footprint: both coordinates on the rim.
pub open spec fn is_corner_cell(w: int, x: int, z: int) -> bool {
    (x == 0 || x == w - 1) && (z == 0 || z == w - 1)
}

/// Edge cells: on the rim, corners excluded.
pub open spec fn is_edge_cell(w: int, x: int, z: int) -> bool {
    (x == 0 || x == w - 1 || z == 0 || z == w - 1) && !is_corner_cell(w, x, z)
}

/// Interior cells: not touching the rim.
pub open spec fn is_interior_cell(w: int, x: int, z: int) -> bool {
    0 < x < w - 1 && 0 < z < w - 1
}

/// Every cell of a footprint is a corner, an edge or an interior cell, and
/// only one of the three.
pub proof fn lemma_cell_class_partition(w: int, x: int, z: int)
    requires
        0 <= x < w,
        0 <= z < w,
    ensures
        is_corner_cell(w, x, z) || is_edge_cell(w, x, z) || is_interior_cell(w, x, z),
        is_corner_cell(w, x, z) ==> !is_edge_cell(w, x, z) && !is_interior_cell(w, x, z),
        is_edge_cell(w, x, z) ==> !is_corner_cell(w, x, z) && !is_interior_cell(w, x, z),
        is_interior_cell(w, x, z) ==> !is_corner_cell(w, x, z) && !is_edge_cell(w, x, z),
{
}

/// The occlusion test of one cell: true when one of the five consulted
/// face neighbors is air. The topmost layer of the world counts as exposed;
/// at the four side rims the matching boundary column of the neighbor chunk
/// is read instead. The downward face is never consulted, as a solid floor
/// is assumed below the world.
pub open spec fn spec_cell_exposed(
    grid: Seq<BlockType>,
    ng: Seq<BlockType>,
    sg: Seq<BlockType>,
    eg: Seq<BlockType>,
    wg: Seq<BlockType>,
    w: int,
    h: int,
    x: int,
    z: int,
    y: int,
) -> bool {
    let north_air = if z == w - 1 {
        ng[cell_index(w, x, 0, y)] is Air
    } else {
        grid[cell_index(w, x, z + 1, y)] is Air
    };
    let south_air = if z == 0 {
        sg[cell_index(w, x, w - 1, y)] is Air
    } else {
        grid[cell_index(w, x, z - 1, y)] is Air
    };
    let east_air = if x == w - 1 {
        eg[cell_index(w, 0, z, y)] is Air
    } else {
        grid[cell_index(w, x + 1, z, y)] is Air
    };
    let west_air = if x == 0 {
        wg[cell_index(w, w - 1, z, y)] is Air
    } else {
        grid[cell_index(w, x - 1, z, y)] is Air
    };
    let up_air = y == h - 1 || grid[cell_index(w, x, z, y + 1)] is Air;
    north_air || south_air || east_air || west_air || up_air
}

/// A cell survives culling when it holds a solid block with at least one
/// exposed face.
pub open spec fn spec_cell_kept(
    grid: Seq<BlockType>,
    ng: Seq<BlockType>,
    sg: Seq<BlockType>,
    eg: Seq<BlockType>,
    wg: Seq<BlockType>,
    w: int,
    h: int,
    x: int,
    z: int,
    y: int,
) -> bool {
    !(grid[cell_index(w, x, z, y)] is Air) && spec_cell_exposed(grid, ng, sg, eg, wg, w, h, x, z, y)
}

/// A culled entry is sound: its world position decodes to an in-range cell
/// that survives culling, and it carries that cell's material.
pub open spec fn spec_entry_ok(
    b: Block,
    grid: Seq<BlockType>,
    ng: Seq<BlockType>,
    sg: Seq<BlockType>,
    eg: Seq<BlockType>,
    wg: Seq<BlockType>,
    cx: int,
    cz: int,
    w: int,
    h: int,
) -> bool {
    let x = b.x - cx * w;
    let z = b.z - cz * w;
    let y = b.y;
    &&& 0 <= x < w
    &&& 0 <= z < w
    &&& 0 <= y < h
    &&& b.block_type == grid[cell_index(w, x, z, y as int)]
    &&& spec_cell_kept(grid, ng, sg, eg, wg, w, h, x, z, y as int)
}

/// The culled list holds an entry for the cell `(x, z, y)` of the chunk at
/// `(cx, cz)`.
pub open spec fn spec_contains_cell(
    culled: Seq<Block>,
    cx: int,
    cz: int,
    w: int,
    x: int,
    z: int,
    y: int,
) -> bool {
    exists|i: int|
        0 <= i < culled.len() && (#[trigger] culled[i]).x == cx * w + x && culled[i].z == cz * w + z
            && culled[i].y == y
}

/// No two culled entries stand at the same world position.
pub open spec fn spec_positions_distinct(culled: Seq<Block>) -> bool {
    forall|i: int, j: int|
        0 <= i < j < culled.len() ==> !((#[trigger] culled[i]).x == (#[trigger] culled[j]).x
            && culled[i].y == culled[j].y && culled[i].z == culled[j].z)
}

/// The full contract of occlusion culling: sound entries, one entry for
/// every surviving cell, and no cell listed twice.
pub open spec fn spec_cull_valid(
    culled: Seq<Block>,
    grid: Seq<BlockType>,
    ng: Seq<BlockType>,
    sg: Seq<BlockType>,
    eg: Seq<BlockType>,
    wg: Seq<BlockType>,
    cx: int,
    cz: int,
    w: int,
    h: int,
) -> bool {
    &&& forall|i: int|
        0 <= i < culled.len() ==> spec_entry_ok(
            #[trigger] culled[i],
            grid,
            ng,
            sg,
            eg,
            wg,
            cx,
            cz,
            w,
            h,
        )
    &&& forall|x: int, z: int, y: int|
        0 <= x < w && 0 <= z < w && 0 <= y < h && #[trigger] spec_cell_kept(
            grid,
            ng,
            sg,
            eg,
            wg,
            w,
            h,
            x,
            z,
            y,
        ) ==> spec_contains_cell(culled, cx, cz, w, x, z, y)
    &&& spec_positions_distinct(culled)
}

/// One material read from a flat grid.
pub(crate) fn cell_at(g: &Vec<BlockType>, w: usize, hh: usize, x: usize, z: usize, y: usize) -> (b: BlockType)
    requires
        g@.len() == w * w * hh,
        1 <= w <= 64,
        hh <= 256,
        x < w,
        z < w,
        y < hh,
    ensures
        b == g@[cell_index(w as int, x as int, z as int, y as int)],
{
    proof {
        lemma_grid_index_bounds(w as int, x as int, z as int, y as int);
        lemma_mul_mono(y as int + 1, hh as int, (w as int) * (w as int));
        assert(hh * (w * w) == w * w * hh) by (nonlinear_arith);
        assert(w * w <= 4096 && (y as int) * ((w as int) * (w as int)) <= 256 * 4096)
            by (nonlinear_arith)
            requires
                1 <= w <= 64,
                0 <= y <= 256,
        ;
    }
    let idx: usize = y * (w * w) + z * w + x;
    g[idx]
}

/// Whether a cell of a flat grid holds air.
pub(crate) fn cell_is_air(g: &Vec<BlockType>, w: usize, hh: usize, x: usize, z: usize, y: usize) -> (r: bool)
    requires
        g@.len() == w * w * hh,
        1 <= w <= 64,
        hh <= 256,
        x < w,
        z < w,
        y < hh,
    ensures
        r == (g@[cell_index(w as int, x as int, z as int, y as int)] is Air),
{
    let b: BlockType = cell_at(g, w, hh, x, z, y);
    matches!(b, BlockType::Air)
}

/// The exposure test of one cell, over the grid and its four neighbors.
fn cell_exposed(
    grid: &Vec<BlockType>,
    ng: &Vec<BlockType>,
    sg: &Vec<BlockType>,
    eg: &Vec<BlockType>,
    wg: &Vec<BlockType>,
    w: usize,
    h: usize,
    x: usize,
    z: usize,
    y: usize,
) -> (r: bool)
    requires
        grid@.len() == w * w * h,
        ng@.len() == w * w * h,
        sg@.len() == w * w * h,
        eg@.len() == w * w * h,
        wg@.len() == w * w * h,
        1 <= w <= 64,
        1 <= h <= 256,
        x < w,
        z < w,
        y < h,
    ensures
        r == spec_cell_exposed(
            grid@,
            ng@,
            sg@,
            eg@,
            wg@,
            w as int,
            h as int,
            x as int,
            z as int,
            y as int,
        ),
{
    let north_air: bool = if z == w - 1 {
        cell_is_air(ng, w, h, x, 0, y)
    } else {
        cell_is_air(grid, w, h, x, z + 1, y)
    };
    let south_air: bool = if z == 0 {
        cell_is_air(sg, w, h, x, w - 1, y)
    } else {
        cell_is_air(grid, w, h, x, z - 1, y)
    };
    let east_air: bool = if x == w - 1 {
        cell_is_air(eg, w, h, 0, z, y)
    } else {
        cell_is_air(grid, w, h, x + 1, z, y)
    };
    let west_air: bool = if x == 0 {
        cell_is_air(wg, w, h, w - 1, z, y)
    } else {
        cell_is_air(grid, w, h, x - 1, z, y)
    };
    let up_air: bool = y == h - 1 || cell_is_air(grid, w, h, x, z, y + 1);
    north_air || south_air || east_air || west_air || up_air
}

/// The survival test of one cell.
fn cell_kept(
    grid: &Vec<BlockType>,
    ng: &Vec<BlockType>,
    sg: &Vec<BlockType>,
    eg: &Vec<BlockType>,
    wg: &Vec<BlockType>,
    w: usize,
    h: usize,
    x: usize,
    z: usize,
    y: usize,
) -> (r: bool)
    requires
        grid@.len() == w * w * h,
        ng@.len() == w * w * h,
        sg@.len() == w * w * h,
        eg@.len() == w * w * h,
        wg@.len() == w * w * h,
        1 <= w <= 64,
        1 <= h <= 256,
        x < w,
        z < w,
        y < h,
    ensures
        r == spec_cell_kept(
            grid@,
            ng@,
            sg@,
            eg@,
            wg@,
            w as int,
            h as int,
            x as int,
            z as int,
            y as int,
        ),
{
    let solid: bool = !cell_is_air(grid, w, h, x, z, y);
    solid && cell_exposed(grid, ng, sg, eg, wg, w, h, x, z, y)
}

/// Appends the block of the cell `(x, z, y)` to `out` when the cell
/// survives culling; the entries already collected stay untouched.
fn push_if_kept(
    out: &mut Vec<Block>,
    grid: &Vec<BlockType>,
    ng: &Vec<BlockType>,
    sg: &Vec<BlockType>,
    eg: &Vec<BlockType>,
    wg: &Vec<BlockType>,
    cx: i64,
    cz: i64,
    w: usize,
    h: usize,
    x: usize,
    z: usize,
    y: usize,
)
    requires
        grid@.len() == w * w * h,
        ng@.len() == w * w * h,
        sg@.len() == w * w * h,
        eg@.len() == w * w * h,
        wg@.len() == w * w * h,
        1 <= w <= 64,
        1 <= h <= 256,
        x < w,
        z < w,
        y < h,
        -MAX_CHUNK_COORD <= cx < MAX_CHUNK_COORD,
        -MAX_CHUNK_COORD <= cz < MAX_CHUNK_COORD,
    ensures
        forall|i: int| 0 <= i < old(out)@.len() ==> final(out)@[i] == old(out)@[i],
        spec_cell_kept(
            grid@,
            ng@,
            sg@,
            eg@,
            wg@,
            w as int,
            h as int,
            x as int,
            z as int,
            y as int,
        ) ==> final(out)@.len() == old(out)@.len() + 1 && final(out)@[old(out)@.len() as int].x == cx
            * w + x && final(out)@[old(out)@.len() as int].y == y && final(out)@[old(
            out,
        )@.len() as int].z == cz * w + z && final(out)@[old(out)@.len() as int].block_type == grid@[cell_index(
            w as int,
            x as int,
            z as int,
            y as int,
        )] && spec_entry_ok(
            final(out)@[old(out)@.len() as int],
            grid@,
            ng@,
            sg@,
            eg@,
            wg@,
            cx as int,
            cz as int,
            w as int,
            h as int,
        ),
        !spec_cell_kept(
            grid@,
            ng@,
            sg@,
            eg@,
            wg@,
            w as int,
            h as int,
            x as int,
            z as int,
            y as int,
        ) ==> final(out)@ == old(out)@,
{
    assert(-16384 <= cx * (w as i64) <= 16384 && -16384 <= cz * (w as i64) <= 16384)
        by (nonlinear_arith)
        requires
            -256 <= cx <= 255,
            -256 <= cz <= 255,
            1 <= w <= 64,
    ;
    if cell_kept(grid, ng, sg, eg, wg, w, h, x, z, y) {
        let b: BlockType = cell_at(grid, w, h, x, z, y);
        out.push(
            Block {
                x: cx * (w as i64) + (x as i64),
                y: y as i64,
                z: cz * (w as i64) + (z as i64),
                block_type: b,
            },
        );
    }
}

/// Culls the four corner cells of every layer, the cells whose exposure
/// reads two neighbor chunks.
#[verifier::rlimit(100)]
fn corner_pass(
    grid: &Vec<BlockType>,
    ng: &Vec<BlockType>,
    sg: &Vec<BlockType>,
    eg: &Vec<BlockType>,
    wg: &Vec<BlockType>,
    cx: i64,
    cz: i64,
    w: usize,
    h: usize,
) -> (r: Vec<Block>)
    requires
        grid@.len() == w * w * h,
        ng@.len() == w * w * h,
        sg@.len() == w * w * h,
        eg@.len() == w * w * h,
        wg@.len() == w * w * h,
        2 <= w <= 64,
        1 <= h <= 256,
        -MAX_CHUNK_COORD <= cx < MAX_CHUNK_COORD,
        -MAX_CHUNK_COORD <= cz < MAX_CHUNK_COORD,
    ensures
        forall|i: int|
            0 <= i < r@.len() ==> spec_entry_ok(
                #[trigger] r@[i],
                grid@,
                ng@,
                sg@,
                eg@,
                wg@,
                cx as int,
                cz as int,
                w as int,
                h as int,
            ) && is_corner_cell(w as int, r@[i].x - cx * w, r@[i].z - cz * w),
        forall|x: int, z: int, y: int|
            0 <= x < w && 0 <= z < w && 0 <= y < h && is_corner_cell(w as int, x, z)
                && #[trigger] spec_cell_kept(
                grid@,
                ng@,
                sg@,
                eg@,
                wg@,
                w as int,
                h as int,
                x,
                z,
                y,
            ) ==> spec_contains_cell(r@, cx as int, cz as int, w as int, x, z, y),
        spec_positions_distinct(r@),
        r@.len() <= 4 * h,
{
    let mut r: Vec<Block> = Vec::new();
    let mut y: usize = 0;
    while y < h
        invariant
            grid@.len() == w * w * h,
            ng@.len() == w * w * h,
            sg@.len() == w * w * h,
            eg@.len() == w * w * h,
            wg@.len() == w * w * h,
            2 <= w <= 64,
            1 <= h <= 256,
            -MAX_CHUNK_COORD <= cx < MAX_CHUNK_COORD,
            -MAX_CHUNK_COORD <= cz < MAX_CHUNK_COORD,
            0 <= y <= h,
            r@.len() <= 4 * y,
            forall|i: int|
                0 <= i < r@.len() ==> spec_entry_ok(
                    #[trigger] r@[i],
                    grid@,
                    ng@,
                    sg@,
                    eg@,
                    wg@,
                    cx as int,
                    cz as int,
                    w as int,
                    h as int,
                ) && is_corner_cell(w as int, r@[i].x - cx * w, r@[i].z - cz * w) && 0 <= r@[i].y
                    < y,
            forall|x: int, z: int, yy: int|
                0 <= x < w && 0 <= z < w && 0 <= yy < y && is_corner_cell(w as int, x, z)
                    && #[trigger] spec_cell_kept(
                    grid@,
                    ng@,
                    sg@,
                    eg@,
                    wg@,
                    w as int,
                    h as int,
                    x,
                    z,
                    yy,
                ) ==> spec_contains_cell(r@, cx as int, cz as int, w as int, x, z, yy),
            spec_positions_distinct(r@),
        decreases h - y,
    {
        let ghost r_entry = r@;
        push_if_kept(&mut r, grid, ng, sg, eg, wg, cx, cz, w, h, 0, 0, y);
        let ghost l1 = r@.len() as int;
        push_if_kept(&mut r, grid, ng, sg, eg, wg, cx, cz, w, h, w - 1, 0, y);
        let ghost l2 = r@.len() as int;
        push_if_kept(&mut r, grid, ng, sg, eg, wg, cx, cz, w, h, 0, w - 1, y);
        let ghost l3 = r@.len() as int;
        push_if_kept(&mut r, grid, ng, sg, eg, wg, cx, cz, w, h, w - 1, w - 1, y);
        proof {
            assert(forall|i: int| 0 <= i < r_entry.len() ==> r@[i] == r_entry[i]);
            assert forall|x: int, z: int, yy: int|
                0 <= x < w && 0 <= z < w && 0 <= yy < y + 1 && is_corner_cell(w as int, x, z)
                    && #[trigger] spec_cell_kept(
                    grid@,
                    ng@,
                    sg@,
                    eg@,
                    wg@,
                    w as int,
                    h as int,
                    x,
                    z,
                    yy,
                ) implies spec_contains_cell(r@, cx as int, cz as int, w as int, x, z, yy) by {
                if yy < y {
                    let i0 = choose|i: int|
                        0 <= i < r_entry.len() && (#[trigger] r_entry[i]).x == cx * w + x
                            && r_entry[i].z == cz * w + z && r_entry[i].y == yy;
                    assert(r@[i0].x == cx * w + x && r@[i0].z == cz * w + z && r@[i0].y == yy);
                } else {
                    if x == 0 && z == 0 {
                        assert(r@[r_entry.len() as int].x == cx * w + x);
                    } else if x == w - 1 && z == 0 {
                        assert(r@[l1].x == cx * w + x);
                    } else if x == 0 && z == w - 1 {
                        assert(r@[l2].x == cx * w + x);
                    } else {
                        assert(r@[l3].x == cx * w + x);
                    }
                }
            }
        }
        y = y + 1;
    }
    r
}

/// Order in which the edge scan visits the rim: the cell `(dx, dz)` has
/// been visited before scan step `x` of a layer.
pub open spec fn edge_seen_before(w: int, x: int, dx: int, dz: int) -> bool {
    if dz == 0 || dz == w - 1 {
        dx < x
    } else {
        dz < x
    }
}

/// Culls the rim cells of every layer outside the corners, the cells whose
/// exposure reads one neighbor chunk.
#[verifier::rlimit(100)]
fn edge_pass(
    grid: &Vec<BlockType>,
    ng: &Vec<BlockType>,
    sg: &Vec<BlockType>,
    eg: &Vec<BlockType>,
    wg: &Vec<BlockType>,
    cx: i64,
    cz: i64,
    w: usize,
    h: usize,
) -> (r: Vec<Block>)
    requires
        grid@.len() == w * w * h,
        ng@.len() == w * w * h,
        sg@.len() == w * w * h,
        eg@.len() == w * w * h,
        wg@.len() == w * w * h,
        2 <= w <= 64,
        1 <= h <= 256,
        -MAX_CHUNK_COORD <= cx < MAX_CHUNK_COORD,
        -MAX_CHUNK_COORD <= cz < MAX_CHUNK_COORD,
    ensures
        forall|i: int|
            0 <= i < r@.len() ==> spec_entry_ok(
                #[trigger] r@[i],
                grid@,
                ng@,
                sg@,
                eg@,
                wg@,
                cx as int,
                cz as int,
                w as int,
                h as int,
            ) && is_edge_cell(w as int, r@[i].x - cx * w, r@[i].z - cz * w),
        forall|x: int, z: int, y: int|
            0 <= x < w && 0 <= z < w && 0 <= y < h && is_edge_cell(w as int, x, z)
                && #[trigger] spec_cell_kept(
                grid@,
                ng@,
                sg@,
                eg@,
                wg@,
                w as int,
                h as int,
                x,
                z,
                y,
            ) ==> spec_contains_cell(r@, cx as int, cz as int, w as int, x, z, y),
        spec_positions_distinct(r@),
{
    let mut r: Vec<Block> = Vec::new();
    let mut y: usize = 0;
    while y < h
        invariant
            grid@.len() == w * w * h,
            ng@.len() == w * w * h,
            sg@.len() == w * w * h,
            eg@.len() == w * w * h,
            wg@.len() == w * w * h,
            2 <= w <= 64,
            1 <= h <= 256,
            -MAX_CHUNK_COORD <= cx < MAX_CHUNK_COORD,
            -MAX_CHUNK_COORD <= cz < MAX_CHUNK_COORD,
            0 <= y <= h,
            forall|i: int|
                0 <= i < r@.len() ==> spec_entry_ok(
                    #[trigger] r@[i],
                    grid@,
                    ng@,
                    sg@,
                    eg@,
                    wg@,
                    cx as int,
                    cz as int,
                    w as int,
                    h as int,
                ) && is_edge_cell(w as int, r@[i].x - cx * w, r@[i].z - cz * w) && 0 <= r@[i].y
                    < y,
            forall|x: int, z: int, yy: int|
                0 <= x < w && 0 <= z < w && 0 <= yy < y && is_edge_cell(w as int, x, z)
                    && #[trigger] spec_cell_kept(
                    grid@,
                    ng@,
                    sg@,
                    eg@,
                    wg@,
                    w as int,
                    h as int,
                    x,
                    z,
                    yy,
                ) ==> spec_contains_cell(r@, cx as int, cz as int, w as int, x, z, yy),
            spec_positions_distinct(r@),
        decreases h - y,
    {
        let mut x: usize = 1;
        while x < w - 1
            invariant
                grid@.len() == w * w * h,
                ng@.len() == w * w * h,
                sg@.len() == w * w * h,
                eg@.len() == w * w * h,
                wg@.len() == w * w * h,
                2 <= w <= 64,
                1 <= h <= 256,
                -MAX_CHUNK_COORD <= cx < MAX_CHUNK_COORD,
                -MAX_CHUNK_COORD <= cz < MAX_CHUNK_COORD,
                0 <= y < h,
                1 <= x <= w - 1,
                forall|i: int|
                    0 <= i < r@.len() ==> spec_entry_ok(
                        #[trigger] r@[i],
                        grid@,
                        ng@,
                        sg@,
                        eg@,
                        wg@,
                        cx as int,
                        cz as int,
                        w as int,
                        h as int,
                    ) && is_edge_cell(w as int, r@[i].x - cx * w, r@[i].z - cz * w) && (r@[i].y < y
                        || (r@[i].y == y && edge_seen_before(
                        w as int,
                        x as int,
                        r@[i].x - cx * w,
                        r@[i].z - cz * w,
                    ))),
                forall|xx: int, zz: int, yy: int|
                    0 <= xx < w && 0 <= zz < w && 0 <= yy < y && is_edge_cell(w as int, xx, zz)
                        && #[trigger] spec_cell_kept(
                        grid@,
                        ng@,
                        sg@,
                        eg@,
                        wg@,
                        w as int,
                        h as int,
                        xx,
                        zz,
                        yy,
                    ) ==> spec_contains_cell(r@, cx as int, cz as int, w as int, xx, zz, yy),
                forall|xx: int, zz: int|
                    0 <= xx < w && 0 <= zz < w && is_edge_cell(w as int, xx, zz)
                        && edge_seen_before(w as int, x as int, xx, zz) && #[trigger] spec_cell_kept(
                        grid@,
                        ng@,
                        sg@,
                        eg@,
                        wg@,
                        w as int,
                        h as int,
                        xx,
                        zz,
                        y as int,
                    ) ==> spec_contains_cell(r@, cx as int, cz as int, w as int, xx, zz, y as int),
                spec_positions_distinct(r@),
            decreases w - 1 - x,
        {
            let ghost r_entry = r@;
            push_if_kept(&mut r, grid, ng, sg, eg, wg, cx, cz, w, h, x, 0, y);
            let ghost l1 = r@.len() as int;
            push_if_kept(&mut r, grid, ng, sg, eg, wg, cx, cz, w, h, x, w - 1, y);
            let ghost l2 = r@.len() as int;
            push_if_kept(&mut r, grid, ng, sg, eg, wg, cx, cz, w, h, 0, x, y);
            let ghost l3 = r@.len() as int;
            push_if_kept(&mut r, grid, ng, sg, eg, wg, cx, cz, w, h, w - 1, x, y);
            proof {
                assert(forall|i: int| 0 <= i < r_entry.len() ==> r@[i] == r_entry[i]);
                assert forall|xx: int, zz: int, yy: int|
                    0 <= xx < w && 0 <= zz < w && 0 <= yy < y && is_edge_cell(w as int, xx, zz)
                        && #[trigger] spec_cell_kept(
                        grid@,
                        ng@,
                        sg@,
                        eg@,
                        wg@,
                        w as int,
                        h as int,
                        xx,
                        zz,
                        yy,
                    ) implies spec_contains_cell(r@, cx as int, cz as int, w as int, xx, zz, yy) by {
                    let i0 = choose|i: int|
                        0 <= i < r_entry.len() && (#[trigger] r_entry[i]).x == cx * w + xx
                            && r_entry[i].z == cz * w + zz && r_entry[i].y == yy;
                    assert(r@[i0].x == cx * w + xx && r@[i0].z == cz * w + zz && r@[i0].y == yy);
                }
                assert forall|xx: int, zz: int|
                    0 <= xx < w && 0 <= zz < w && is_edge_cell(w as int, xx, zz)
                        && edge_seen_before(w as int, x + 1, xx, zz) && #[trigger] spec_cell_kept(
                        grid@,
                        ng@,
                        sg@,
                        eg@,
                        wg@,
                        w as int,
                        h as int,
                        xx,
                        zz,
                        y as int,
                    ) implies spec_contains_cell(
                    r@,
                    cx as int,
                    cz as int,
                    w as int,
                    xx,
                    zz,
                    y as int,
                ) by {
                    if edge_seen_before(w as int, x as int, xx, zz) {
                        let i0 = choose|i: int|
                            0 <= i < r_entry.len() && (#[trigger] r_entry[i]).x == cx * w + xx
                                && r_entry[i].z == cz * w + zz && r_entry[i].y == y;
                        assert(r@[i0].x == cx * w + xx && r@[i0].z == cz * w + zz && r@[i0].y
                            == y);
                    } else {
                        if zz == 0 {
                            assert(r@[r_entry.len() as int].x == cx * w + xx);
                        } else if zz == w - 1 {
                            assert(r@[l1].x == cx * w + xx);
                        } else if xx == 0 {
                            assert(r@[l2].x == cx * w + xx);
                        } else {
                            assert(r@[l3].x == cx * w + xx);
                        }
                    }
                }
            }
            x = x + 1;
        }
        y = y + 1;
    }
    r
}

/// Culls the interior cells of every layer, the cells whose exposure reads
/// only the chunk's own grid (and the world top).
#[verifier::rlimit(100)]
fn middle_pass(
    grid: &Vec<BlockType>,
    ng: &Vec<BlockType>,
    sg: &Vec<BlockType>,
    eg: &Vec<BlockType>,
    wg: &Vec<BlockType>,
    cx: i64,
    cz: i64,
    w: usize,
    h: usize,
) -> (r: Vec<Block>)
    requires
        grid@.len() == w * w * h,
        ng@.len() == w * w * h,
        sg@.len() == w * w * h,
        eg@.len() == w * w * h,
        wg@.len() == w * w * h,
        2 <= w <= 64,
        1 <= h <= 256,
        -MAX_CHUNK_COORD <= cx < MAX_CHUNK_COORD,
        -MAX_CHUNK_COORD <= cz < MAX_CHUNK_COORD,
    ensures
        forall|i: int|
            0 <= i < r@.len() ==> spec_entry_ok(
                #[trigger] r@[i],
                grid@,
                ng@,
                sg@,
                eg@,
                wg@,
                cx as int,
                cz as int,
                w as int,
                h as int,
            ) && is_interior_cell(w as int, r@[i].x - cx * w, r@[i].z - cz * w),
        forall|x: int, z: int, y: int|
            0 <= x < w && 0 <= z < w && 0 <= y < h && is_interior_cell(w as int, x, z)
                && #[trigger] spec_cell_kept(
                grid@,
                ng@,
                sg@,
                eg@,
                wg@,
                w as int,
                h as int,
                x,
                z,
                y,
            ) ==> spec_contains_cell(r@, cx as int, cz as int, w as int, x, z, y),
        spec_positions_distinct(r@),
{
    let mut r: Vec<Block> = Vec::new();
    let mut y: usize = 0;
    while y < h
        invariant
            grid@.len() == w * w * h,
            ng@.len() == w * w * h,
            sg@.len() == w * w * h,
            eg@.len() == w * w * h,
            wg@.len() == w * w * h,
            2 <= w <= 64,
            1 <= h <= 256,
            -MAX_CHUNK_COORD <= cx < MAX_CHUNK_COORD,
            -MAX_CHUNK_COORD <= cz < MAX_CHUNK_COORD,
            0 <= y <= h,
            forall|i: int|
                0 <= i < r@.len() ==> spec_entry_ok(
                    #[trigger] r@[i],
                    grid@,
                    ng@,
                    sg@,
                    eg@,
                    wg@,
                    cx as int,
                    cz as int,
                    w as int,
                    h as int,
                ) && is_interior_cell(w as int, r@[i].x - cx * w, r@[i].z - cz * w) && 0 <= r@[i].y
                    < y,
            forall|xx: int, zz: int, yy: int|
                0 <= xx < w && 0 <= zz < w && 0 <= yy < y && is_interior_cell(w as int, xx, zz)
                    && #[trigger] spec_cell_kept(
                    grid@,
                    ng@,
                    sg@,
                    eg@,
                    wg@,
                    w as int,
                    h as int,
                    xx,
                    zz,
                    yy,
                ) ==> spec_contains_cell(r@, cx as int, cz as int, w as int, xx, zz, yy),
            spec_positions_distinct(r@),
        decreases h - y,
    {
        let mut z: usize = 1;
        while z < w - 1
            invariant
                grid@.len() == w * w * h,
                ng@.len() == w * w * h,
                sg@.len() == w * w * h,
                eg@.len() == w * w * h,
                wg@.len() == w * w * h,
                2 <= w <= 64,
                1 <= h <= 256,
                -MAX_CHUNK_COORD <= cx < MAX_CHUNK_COORD,
                -MAX_CHUNK_COORD <= cz < MAX_CHUNK_COORD,
                0 <= y < h,
                1 <= z <= w - 1,
                forall|i: int|
                    0 <= i < r@.len() ==> spec_entry_ok(
                        #[trigger] r@[i],
                        grid@,
                        ng@,
                        sg@,
                        eg@,
                        wg@,
                        cx as int,
                        cz as int,
                        w as int,
                        h as int,
                    ) && is_interior_cell(w as int, r@[i].x - cx * w, r@[i].z - cz * w) && (r@[i].y
                        < y || (r@[i].y == y && r@[i].z - cz * w < z)),
                forall|xx: int, zz: int, yy: int|
                    0 <= xx < w && 0 <= zz < w && 0 <= yy < y && is_interior_cell(w as int, xx, zz)
                        && #[trigger] spec_cell_kept(
                        grid@,
                        ng@,
                        sg@,
                        eg@,
                        wg@,
                        w as int,
                        h as int,
                        xx,
                        zz,
                        yy,
                    ) ==> spec_contains_cell(r@, cx as int, cz as int, w as int, xx, zz, yy),
                forall|xx: int, zz: int|
                    0 <= xx < w && 0 <= zz < z && is_interior_cell(w as int, xx, zz)
                        && #[trigger] spec_cell_kept(
                        grid@,
                        ng@,
                        sg@,
                        eg@,
                        wg@,
                        w as int,
                        h as int,
                        xx,
                        zz,
                        y as int,
                    ) ==> spec_contains_cell(r@, cx as int, cz as int, w as int, xx, zz, y as int),
                spec_positions_distinct(r@),
            decreases w - 1 - z,
        {
            let mut x: usize = 1;
            while x < w - 1
                invariant
                    grid@.len() == w * w * h,
                    ng@.len() == w * w * h,
                    sg@.len() == w * w * h,
                    eg@.len() == w * w * h,
                    wg@.len() == w * w * h,
                    2 <= w <= 64,
                    1 <= h <= 256,
                    -MAX_CHUNK_COORD <= cx < MAX_CHUNK_COORD,
                    -MAX_CHUNK_COORD <= cz < MAX_CHUNK_COORD,
                    0 <= y < h,
                    1 <= z < w - 1,
                    1 <= x <= w - 1,
                    forall|i: int|
                        0 <= i < r@.len() ==> spec_entry_ok(
                            #[trigger] r@[i],
                            grid@,
                            ng@,
                            sg@,
                            eg@,
                            wg@,
                            cx as int,
                            cz as int,
                            w as int,
                            h as int,
                        ) && is_interior_cell(w as int, r@[i].x - cx * w, r@[i].z - cz * w) && (
                        r@[i].y < y || (r@[i].y == y && (r@[i].z - cz * w < z || (r@[i].z - cz * w
                            == z && r@[i].x - cx * w < x)))),
                    forall|xx: int, zz: int, yy: int|
                        0 <= xx < w && 0 <= zz < w && 0 <= yy < y && is_interior_cell(
                            w as int,
                            xx,
                            zz,
                        ) && #[trigger] spec_cell_kept(
                            grid@,
                            ng@,
                            sg@,
                            eg@,
                            wg@,
                            w as int,
                            h as int,
                            xx,
                            zz,
                            yy,
                        ) ==> spec_contains_cell(r@, cx as int, cz as int, w as int, xx, zz, yy),
                    forall|xx: int, zz: int|
                        0 <= xx < w && 0 <= zz < w && is_interior_cell(w as int, xx, zz) && (zz < z
                            || (zz == z && xx < x)) && #[trigger] spec_cell_kept(
                            grid@,
                            ng@,
                            sg@,
                            eg@,
                            wg@,
                            w as int,
                            h as int,
                            xx,
                            zz,
                            y as int,
                        ) ==> spec_contains_cell(
                            r@,
                            cx as int,
                            cz as int,
                            w as int,
                            xx,
                            zz,
                            y as int,
                        ),
                    spec_positions_distinct(r@),
                decreases w - 1 - x,
            {
                let ghost r_entry = r@;
                push_if_kept(&mut r, grid, ng, sg, eg, wg, cx, cz, w, h, x, z, y);
                proof {
                    assert(forall|i: int| 0 <= i < r_entry.len() ==> r@[i] == r_entry[i]);
                    assert forall|xx: int, zz: int, yy: int|
                        0 <= xx < w && 0 <= zz < w && 0 <= yy < y && is_interior_cell(
                            w as int,
                            xx,
                            zz,
                        ) && #[trigger] spec_cell_kept(
                            grid@,
                            ng@,
                            sg@,
                            eg@,
                            wg@,
                            w as int,
                            h as int,
                            xx,
                            zz,
                            yy,
                        ) implies spec_contains_cell(
                        r@,
                        cx as int,
                        cz as int,
                        w as int,
                        xx,
                        zz,
                        yy,
                    ) by {
                        let i0 = choose|i: int|
                            0 <= i < r_entry.len() && (#[trigger] r_entry[i]).x == cx * w + xx
                                && r_entry[i].z == cz * w + zz && r_entry[i].y == yy;
                        assert(r@[i0].x == cx * w + xx && r@[i0].z == cz * w + zz && r@[i0].y
                            == yy);
                    }
                    assert forall|xx: int, zz: int|
                        0 <= xx < w && 0 <= zz < w && is_interior_cell(w as int, xx, zz) && (zz < z
                            || (zz == z && xx < x + 1)) && #[trigger] spec_cell_kept(
                            grid@,
                            ng@,
                            sg@,
                            eg@,
                            wg@,
                            w as int,
                            h as int,
                            xx,
                            zz,
                            y as int,
                        ) implies spec_contains_cell(
                        r@,
                        cx as int,
                        cz as int,
                        w as int,
                        xx,
                        zz,
                        y as int,
                    ) by {
                        if zz < z || (zz == z && xx < x) {
                            let i0 = choose|i: int|
                                0 <= i < r_entry.len() && (#[trigger] r_entry[i]).x == cx * w + xx
                                    && r_entry[i].z == cz * w + zz && r_entry[i].y == y;
                            assert(r@[i0].x == cx * w + xx && r@[i0].z == cz * w + zz && r@[i0].y
                                == y);
                        } else {
                            assert(r@[r_entry.len() as int].x == cx * w + xx);
                        }
                    }
                }
                x = x + 1;
            }
            z = z + 1;
        }
        y = y + 1;
    }
    r
}

/// Occlusion-culls one chunk grid against its four neighbor grids: the
/// result holds exactly one block for every solid cell with an exposed
/// face, evaluated in three disjoint passes (corners, edges, interior).
#[verifier::rlimit(100)]
pub fn occlusion_cull(
    grid: &Vec<BlockType>,
    ng: &Vec<BlockType>,
    sg: &Vec<BlockType>,
    eg: &Vec<BlockType>,
    wg: &Vec<BlockType>,
    cx: i64,
    cz: i64,
    w: usize,
    h: usize,
) -> (culled: Vec<Block>)
    requires
        grid@.len() == w * w * h,
        ng@.len() == w * w * h,
        sg@.len() == w * w * h,
        eg@.len() == w * w * h,
        wg@.len() == w * w * h,
        2 <= w <= 64,
        1 <= h <= 256,
        -MAX_CHUNK_COORD <= cx < MAX_CHUNK_COORD,
        -MAX_CHUNK_COORD <= cz < MAX_CHUNK_COORD,
    ensures
        spec_cull_valid(
            culled@,
            grid@,
            ng@,
            sg@,
            eg@,
            wg@,
            cx as int,
            cz as int,
            w as int,
            h as int,
        ),
{
    let mut culled: Vec<Block> = corner_pass(grid, ng, sg, eg, wg, cx, cz, w, h);
    let mut edges: Vec<Block> = edge_pass(grid, ng, sg, eg, wg, cx, cz, w, h);
    let mut middles: Vec<Block> = middle_pass(grid, ng, sg, eg, wg, cx, cz, w, h);
    let ghost c1 = culled@;
    let ghost c2 = edges@;
    let ghost c3 = middles@;
    culled.append(&mut edges);
    culled.append(&mut middles);
    proof {
        assert(culled@ == c1 + c2 + c3);
        let l1 = c1.len() as int;
        let l2 = c2.len() as int;
        let l3 = c3.len() as int;
        assert forall|i: int| 0 <= i < culled@.len() implies spec_entry_ok(
            #[trigger] culled@[i],
            grid@,
            ng@,
            sg@,
            eg@,
            wg@,
            cx as int,
            cz as int,
            w as int,
            h as int,
        ) by {
            if i < l1 {
                assert(culled@[i] == c1[i]);
            } else if i < l1 + l2 {
                assert(culled@[i] == c2[i - l1]);
            } else {
                assert(culled@[i] == c3[i - l1 - l2]);
            }
        }
        assert forall|x: int, z: int, y: int|
            0 <= x < w && 0 <= z < w && 0 <= y < h && #[trigger] spec_cell_kept(
                grid@,
                ng@,
                sg@,
                eg@,
                wg@,
                w as int,
                h as int,
                x,
                z,
                y,
            ) implies spec_contains_cell(culled@, cx as int, cz as int, w as int, x, z, y) by {
            lemma_cell_class_partition(w as int, x, z);
            if is_corner_cell(w as int, x, z) {
                let i0 = choose|i: int|
                    0 <= i < c1.len() && (#[trigger] c1[i]).x == cx * w + x && c1[i].z == cz * w
                        + z && c1[i].y == y;
                assert(culled@[i0] == c1[i0]);
                assert(culled@[i0].x == cx * w + x && culled@[i0].z == cz * w + z && culled@[i0].y
                    == y);
            } else if is_edge_cell(w as int, x, z) {
                let i0 = choose|i: int|
                    0 <= i < c2.len() && (#[trigger] c2[i]).x == cx * w + x && c2[i].z == cz * w
                        + z && c2[i].y == y;
                assert(culled@[l1 + i0] == c2[i0]);
                assert(culled@[l1 + i0].x == cx * w + x && culled@[l1 + i0].z == cz * w + z
                    && culled@[l1 + i0].y == y);
            } else {
                let i0 = choose|i: int|
                    0 <= i < c3.len() && (#[trigger] c3[i]).x == cx * w + x && c3[i].z == cz * w
                        + z && c3[i].y == y;
                assert(culled@[l1 + l2 + i0] == c3[i0]);
                assert(culled@[l1 + l2 + i0].x == cx * w + x && culled@[l1 + l2 + i0].z == cz * w
                    + z && culled@[l1 + l2 + i0].y == y);
            }
        }
        assert forall|i: int, j: int| 0 <= i < j < culled@.len() implies !((
        #[trigger] culled@[i]).x == (#[trigger] culled@[j]).x && culled@[i].y == culled@[j].y
            && culled@[i].z == culled@[j].z) by {
            if i < l1 {
                assert(culled@[i] == c1[i]);
            } else if i < l1 + l2 {
                assert(culled@[i] == c2[i - l1]);
            } else {
                assert(culled@[i] == c3[i - l1 - l2]);
            }
            if j < l1 {
                assert(culled@[j] == c1[j]);
            } else if j < l1 + l2 {
                assert(culled@[j] == c2[j - l1]);
            } else {
                assert(culled@[j] == c3[j - l1 - l2]);
            }
        }
    }
    culled
}

/// Occlusion culling is idempotent on the output set: any two culled lists
/// that satisfy the culling contract for the same inputs contain exactly
/// the same blocks, so running the cull twice yields the same set.
pub proof fn lemma_cull_same_set(
    c1: Seq<Block>,
    c2: Seq<Block>,
    grid: Seq<BlockType>,
    ng: Seq<BlockType>,
    sg: Seq<BlockType>,
    eg: Seq<BlockType>,
    wg: Seq<BlockType>,
    cx: int,
    cz: int,
    w: int,
    h: int,
)
    requires
        spec_cull_valid(c1, grid, ng, sg, eg, wg, cx, cz, w, h),
        spec_cull_valid(c2, grid, ng, sg, eg, wg, cx, cz, w, h),
    ensures
        forall|b: Block| c1.contains(b) <==> c2.contains(b),
{
    assert forall|b: Block| c1.contains(b) implies c2.contains(b) by {
        lemma_cull_subsumed(c1, c2, grid, ng, sg, eg, wg, cx, cz, w, h, b);
    }
    assert forall|b: Block| c2.contains(b) implies c1.contains(b) by {
        lemma_cull_subsumed(c2, c1, grid, ng, sg, eg, wg, cx, cz, w, h, b);
    }
}

proof fn lemma_cull_subsumed(
    c1: Seq<Block>,
    c2: Seq<Block>,
    grid: Seq<BlockType>,
    ng: Seq<BlockType>,
    sg: Seq<BlockType>,
    eg: Seq<BlockType>,
    wg: Seq<BlockType>,
    cx: int,
    cz: int,
    w: int,
    h: int,
    b: Block,
)
    requires
        spec_cull_valid(c1, grid, ng, sg, eg, wg, cx, cz, w, h),
        spec_cull_valid(c2, grid, ng, sg, eg, wg, cx, cz, w, h),
        c1.contains(b),
    ensures
        c2.contains(b),
{
    let i = choose|i: int| 0 <= i < c1.len() && c1[i] == b;
    assert(spec_entry_ok(c1[i], grid, ng, sg, eg, wg, cx, cz, w, h));
    let x = b.x - cx * w;
    let z = b.z - cz * w;
    let y = b.y as int;
    assert(spec_cell_kept(grid, ng, sg, eg, wg, w, h, x, z, y));
    assert(spec_contains_cell(c2, cx, cz, w, x, z, y));
    let j = choose|j: int|
        0 <= j < c2.len() && (#[trigger] c2[j]).x == cx * w + x && c2[j].z == cz * w + z
            && c2[j].y == y;
    assert(spec_entry_ok(c2[j], grid, ng, sg, eg, wg, cx, cz, w, h));
    assert(c2[j].block_type == grid[cell_index(w, x, z, y)]);
    assert(c2[j] == b);
}

/// How many of the first `n` cells of a layer, scanned row-major, are
/// corner cells.
pub open spec fn corner_count_upto(w: int, n: nat) -> int
    decreases n,
{
    if n == 0 {
        0
    } else {
        corner_count_upto(w, (n - 1) as nat) + if is_corner_cell(
            w,
            ((n - 1) as int) % w,
            ((n - 1) as int) / w,
        ) {
            1int
        } else {
            0int
        }
    }
}

/// How many of the first `n` cells of a layer are edge cells.
pub open spec fn edge_count_upto(w: int, n: nat) -> int
    decreases n,
{
    if n == 0 {
        0
    } else {
        edge_count_upto(w, (n - 1) as nat) + if is_edge_cell(
            w,
            ((n - 1) as int) % w,
            ((n - 1) as int) / w,
        ) {
            1int
        } else {
            0int
        }
    }
}

/// How many of the first `n` cells of a layer are interior cells.
pub open spec fn interior_count_upto(w: int, n: nat) -> int
    decreases n,
{
    if n == 0 {
        0
    } else {
        interior_count_upto(w, (n - 1) as nat) + if is_interior_cell(
            w,
            ((n - 1) as int) % w,
            ((n - 1) as int) / w,
        ) {
            1int
        } else {
            0int
        }
    }
}

/// The corner, edge and interior cells partition every horizontal layer:
/// counted over all `w * w` cells of a layer, the three class counts sum to
/// exactly the cell count, with no cell missed and none counted twice.
pub proof fn lemma_layer_partition_counts(w: int, n: nat)
    requires
        1 <= w,
        n <= w * w,
    ensures
        corner_count_upto(w, n) + edge_count_upto(w, n) + interior_count_upto(w, n) == n,
    decreases n,
{
    if n > 0 {
        lemma_layer_partition_counts(w, (n - 1) as nat);
        let k = (n - 1) as int;
        let x = k % w;
        let z = k / w;
        assert(0 <= x < w && 0 <= z < w) by (nonlinear_arith)
            requires
                0 <= k,
                k < w * w,
                1 <= w,
                x == k % w,
                z == k / w,
        ;
        lemma_cell_class_partition(w, x, z);
    }
}

/// A fixed-footprint column of voxels: the generated grid, the blocks that
/// survived occlusion culling, and the merged quads of the meshed layer.
pub struct Chunk {
    /// Grid coordinate along `x`.
    pub x: i64,
    /// Grid coordinate along `z`.
    pub z: i64,
    /// The full material grid, `CHUNK_LENGTH * CHUNK_LENGTH * CHUNK_HEIGHT`
    /// cells in `y`-major order.
    pub all_blocks: Vec<BlockType>,
    /// The renderable blocks left by the occlusion pass; empty until the
    /// owning area wires the chunk to its neighbors.
    pub culled_blocks: Vec<Block>,
    /// The merged rectangles of the meshed bottom layer.
    pub quads: Vec<crate::mesh::Quad>,
}

/// The chunk's grid holds exactly the materials generation assigns for its
/// coordinate under the given height mode.
pub open spec fn spec_chunk_generated(c: Chunk, mode: HeightMode) -> bool {
    forall|x: int, z: int, y: int|
        0 <= x < CHUNK_LENGTH && 0 <= z < CHUNK_LENGTH && 0 <= y < CHUNK_HEIGHT
            ==> #[trigger] c.all_blocks@[cell_index(CHUNK_LENGTH as int, x, z, y)] == spec_block_at(
            mode,
            c.x * CHUNK_LENGTH + x,
            c.z * CHUNK_LENGTH + z,
            y,
        )
}

impl Chunk {
    /// Basic well-formedness: a full grid and in-range coordinates.
    pub open spec fn wf(self) -> bool {
        &&& self.all_blocks@.len() == CHUNK_LENGTH * CHUNK_LENGTH * CHUNK_HEIGHT
        &&& -MAX_CHUNK_COORD <= self.x < MAX_CHUNK_COORD
        &&& -MAX_CHUNK_COORD <= self.z < MAX_CHUNK_COORD
    }

    /// Generates and meshes the chunk at grid coordinate `(x, z)`. The
    /// culled list stays empty until a `ChunkArea` supplies the neighbors.
    pub fn new(x: i64, z: i64, mode: &HeightMode) -> (c: Chunk)
        requires
            -MAX_CHUNK_COORD <= x < MAX_CHUNK_COORD,
            -MAX_CHUNK_COORD <= z < MAX_CHUNK_COORD,
            mode.wf(),
        ensures
            c.wf(),
            c.x == x,
            c.z == z,
            spec_chunk_generated(c, *mode),
            crate::mesh::spec_quads_valid(c.quads@, c.all_blocks@, CHUNK_LENGTH as int, 0),
            c.culled_blocks@.len() == 0,
    {
        let all_blocks: Vec<BlockType> = generate_grid(x, z, CHUNK_LENGTH, CHUNK_HEIGHT, mode);
        let quads = crate::mesh::GreedyMesh::create_quads(&all_blocks, CHUNK_LENGTH, CHUNK_HEIGHT, 0);
        Chunk { x, z, all_blocks, culled_blocks: Vec::new(), quads }
    }

    /// Culls the chunk's grid against the grids of its four neighbors:
    /// `front` faces `+z`, `back` faces `-z`, `right` faces `+x` and `left`
    /// faces `-x`.
    pub fn occlusion_cull(
        objects: &Vec<BlockType>,
        cx: i64,
        cz: i64,
        right: &Chunk,
        left: &Chunk,
        front: &Chunk,
        back: &Chunk,
    ) -> (culled: Vec<Block>)
        requires
            objects@.len() == CHUNK_LENGTH * CHUNK_LENGTH * CHUNK_HEIGHT,
            right.wf(),
            left.wf(),
            front.wf(),
            back.wf(),
            -MAX_CHUNK_COORD <= cx < MAX_CHUNK_COORD,
            -MAX_CHUNK_COORD <= cz < MAX_CHUNK_COORD,
        ensures
            spec_cull_valid(
                culled@,
                objects@,
                front.all_blocks@,
                back.all_blocks@,
                right.all_blocks@,
                left.all_blocks@,
                cx as int,
                cz as int,
                CHUNK_LENGTH as int,
                CHUNK_HEIGHT as int,
            ),
    {
        occlusion_cull(
            objects,
            &front.all_blocks,
            &back.all_blocks,
            &right.all_blocks,
            &left.all_blocks,
            cx,
            cz,
            CHUNK_LENGTH,
            CHUNK_HEIGHT,
        )
    }
}

/// Chunks per side of one streaming area, the one-chunk halo not counted.
pub const CHUNK_AREA_LENGTH: usize = 16;

/// Flat index of the chunk `(ax, az)` in an area grid including the halo.
pub open spec fn area_index(ax: int, az: int) -> int {
    az * 18 + ax
}

/// One streaming granule: a square of chunks plus a one-chunk halo kept
/// only as a neighbor-read source for boundary occlusion.
pub struct ChunkArea {
    /// The `(16 + 2) * (16 + 2)` chunks, row-major from the low corner.
    pub chunks: Vec<Chunk>,
    /// Area grid coordinate.
    pub offset: (i64, i64),
}

/// The full contract of a wired area: every chunk generated at its derived
/// coordinate, every interior chunk culled against its four grid
/// neighbors, and the halo ring left without culled blocks.
pub open spec fn spec_area_valid(chunks: Seq<Chunk>, offset: (i64, i64), mode: HeightMode) -> bool {
    &&& chunks.len() == 18 * 18
    &&& forall|ax: int, az: int|
        0 <= ax < 18 && 0 <= az < 18 ==> {
            let c = #[trigger] chunks[area_index(ax, az)];
            c.wf() && c.x == offset.0 * 16 - 1 + ax && c.z == offset.1 * 16 - 1 + az
                && spec_chunk_generated(c, mode)
        }
    &&& forall|ax: int, az: int|
        1 <= ax <= 16 && 1 <= az <= 16 ==> spec_cull_valid(
            (#[trigger] chunks[area_index(ax, az)]).culled_blocks@,
            chunks[area_index(ax, az)].all_blocks@,
            chunks[area_index(ax, az + 1)].all_blocks@,
            chunks[area_index(ax, az - 1)].all_blocks@,
            chunks[area_index(ax + 1, az)].all_blocks@,
            chunks[area_index(ax - 1, az)].all_blocks@,
            chunks[area_index(ax, az)].x as int,
            chunks[area_index(ax, az)].z as int,
            CHUNK_LENGTH as int,
            CHUNK_HEIGHT as int,
        )
    &&& forall|ax: int, az: int|
        0 <= ax < 18 && 0 <= az < 18 && !(1 <= ax <= 16 && 1 <= az <= 16) ==> (
        #[trigger] chunks[area_index(ax, az)]).culled_blocks@.len() == 0
}

impl ChunkArea {
    /// Generates the full `18 x 18` chunk grid of the area at `offset` and
    /// runs occlusion culling over the interior `16 x 16` chunks, reading
    /// boundary columns from the halo.
    #[verifier::rlimit(100)]
    pub fn new(offset: (i64, i64), mode: &HeightMode) -> (area: ChunkArea)
        requires
            -15 <= offset.0 <= 14,
            -15 <= offset.1 <= 14,
            mode.wf(),
        ensures
            area.offset == offset,
            spec_area_valid(area.chunks@, offset, *mode),
    {
        let start_x: i64 = offset.0 * 16 - 1;
        let start_z: i64 = offset.1 * 16 - 1;
        let mut chunks: Vec<Chunk> = Vec::new();
        let mut az: usize = 0;
        while az < 18
            invariant
                -15 <= offset.0 <= 14,
                -15 <= offset.1 <= 14,
                start_x == offset.0 * 16 - 1,
                start_z == offset.1 * 16 - 1,
                mode.wf(),
                0 <= az <= 18,
                chunks@.len() == az * 18,
                forall|x2: int, z2: int|
                    0 <= x2 < 18 && 0 <= z2 < az ==> {
                        let c = #[trigger] chunks@[area_index(x2, z2)];
                        c.wf() && c.x == offset.0 * 16 - 1 + x2 && c.z == offset.1 * 16 - 1 + z2
                            && spec_chunk_generated(c, *mode) && c.culled_blocks@.len() == 0
                    },
            decreases 18 - az,
        {
            let mut ax: usize = 0;
            while ax < 18
                invariant
                    -15 <= offset.0 <= 14,
                    -15 <= offset.1 <= 14,
                    start_x == offset.0 * 16 - 1,
                    start_z == offset.1 * 16 - 1,
                    mode.wf(),
                    0 <= az < 18,
                    0 <= ax <= 18,
                    chunks@.len() == az * 18 + ax,
                    forall|x2: int, z2: int|
                        0 <= x2 < 18 && 0 <= z2 < az ==> {
                            let c = #[trigger] chunks@[area_index(x2, z2)];
                            c.wf() && c.x == offset.0 * 16 - 1 + x2 && c.z == offset.1 * 16 - 1
                                + z2 && spec_chunk_generated(c, *mode) && c.culled_blocks@.len()
                                == 0
                        },
                    forall|x2: int|
                        0 <= x2 < ax ==> {
                            let c = #[trigger] chunks@[area_index(x2, az as int)];
                            c.wf() && c.x == offset.0 * 16 - 1 + x2 && c.z == offset.1 * 16 - 1
                                + az && spec_chunk_generated(c, *mode) && c.culled_blocks@.len()
                                == 0
                        },
                decreases 18 - ax,
            {
                let c = Chunk::new(start_x + ax as i64, start_z + az as i64, mode);
                chunks.push(c);
                ax = ax + 1;
            }
            az = az + 1;
        }

        let mut culled_all: Vec<Vec<Block>> = Vec::new();
        let mut az2: usize = 0;
        while az2 < 18
            invariant
                mode.wf(),
                chunks@.len() == 18 * 18,
                forall|x2: int, z2: int|
                    0 <= x2 < 18 && 0 <= z2 < 18 ==> {
                        let c = #[trigger] chunks@[area_index(x2, z2)];
                        c.wf() && c.x == offset.0 * 16 - 1 + x2 && c.z == offset.1 * 16 - 1 + z2
                            && spec_chunk_generated(c, *mode) && c.culled_blocks@.len() == 0
                    },
                -15 <= offset.0 <= 14,
                -15 <= offset.1 <= 14,
                0 <= az2 <= 18,
                culled_all@.len() == az2 * 18,
                forall|x2: int, z2: int|
                    0 <= x2 < 18 && 0 <= z2 < az2 ==> spec_area_slot_ok(
                        culled_all@,
                        chunks@,
                        x2,
                        z2,
                    ),
            decreases 18 - az2,
        {
            let mut ax2: usize = 0;
            while ax2 < 18
                invariant
                    mode.wf(),
                    chunks@.len() == 18 * 18,
                    forall|x2: int, z2: int|
                        0 <= x2 < 18 && 0 <= z2 < 18 ==> {
                            let c = #[trigger] chunks@[area_index(x2, z2)];
                            c.wf() && c.x == offset.0 * 16 - 1 + x2 && c.z == offset.1 * 16 - 1
                                + z2 && spec_chunk_generated(c, *mode) && c.culled_blocks@.len()
                                == 0
                        },
                    -15 <= offset.0 <= 14,
                    -15 <= offset.1 <= 14,
                    0 <= az2 < 18,
                    0 <= ax2 <= 18,
                    culled_all@.len() == az2 * 18 + ax2,
                    forall|x2: int, z2: int|
                        0 <= x2 < 18 && 0 <= z2 < az2 ==> spec_area_slot_ok(
                            culled_all@,
                            chunks@,
                            x2,
                            z2,
                        ),
                    forall|x2: int|
                        0 <= x2 < ax2 ==> spec_area_slot_ok(culled_all@, chunks@, x2, az2 as int),
                decreases 18 - ax2,
            {
                let ghost prevc = culled_all@;
                if 1 <= ax2 && ax2 <= 16 && 1 <= az2 && az2 <= 16 {
                    let idx: usize = az2 * 18 + ax2;
                    proof {
                        assert(idx == area_index(ax2 as int, az2 as int));
                        assert(chunks@[area_index(ax2 as int, az2 as int)].wf());
                        assert(idx + 1 == area_index(ax2 as int + 1, az2 as int));
                        assert(chunks@[area_index(ax2 as int + 1, az2 as int)].wf());
                        assert(idx - 1 == area_index(ax2 as int - 1, az2 as int));
                        assert(chunks@[area_index(ax2 as int - 1, az2 as int)].wf());
                        assert(idx + 18 == area_index(ax2 as int, az2 as int + 1));
                        assert(chunks@[area_index(ax2 as int, az2 as int + 1)].wf());
                        assert(idx - 18 == area_index(ax2 as int, az2 as int - 1));
                        assert(chunks@[area_index(ax2 as int, az2 as int - 1)].wf());
                    }
                    let cl: Vec<Block> = Chunk::occlusion_cull(
                        &chunks[idx].all_blocks,
                        chunks[idx].x,
                        chunks[idx].z,
                        &chunks[idx + 1],
                        &chunks[idx - 1],
                        &chunks[idx + 18],
                        &chunks[idx - 18],
                    );
                    culled_all.push(cl);
                    proof {
                        assert(culled_all@[area_index(ax2 as int, az2 as int)] == cl);
                        assert(spec_area_slot_ok(culled_all@, chunks@, ax2 as int, az2 as int));
                    }
                } else {
                    culled_all.push(Vec::new());
                    proof {
                        assert(culled_all@[area_index(ax2 as int, az2 as int)]@.len() == 0);
                        assert(spec_area_slot_ok(culled_all@, chunks@, ax2 as int, az2 as int));
                    }
                }
                proof {
                    assert forall|x2: int, z2: int|
                        0 <= x2 < 18 && 0 <= z2 < az2 implies spec_area_slot_ok(
                        culled_all@,
                        chunks@,
                        x2,
                        z2,
                    ) by {
                        assert(spec_area_slot_ok(prevc, chunks@, x2, z2));
                        assert(culled_all@[area_index(x2, z2)] == prevc[area_index(x2, z2)]);
                    }
                    assert forall|x2: int|
                        0 <= x2 < ax2 + 1 implies spec_area_slot_ok(
                        culled_all@,
                        chunks@,
                        x2,
                        az2 as int,
                    ) by {
                        if x2 < ax2 {
                            assert(spec_area_slot_ok(prevc, chunks@, x2, az2 as int));
                            assert(culled_all@[area_index(x2, az2 as int)] == prevc[area_index(
                                x2,
                                az2 as int,
                            )]);
                        }
                    }
                }
                ax2 = ax2 + 1;
            }
            az2 = az2 + 1;
        }

        let ghost chunks0 = chunks@;
        let ghost culled0 = culled_all@;
        let mut rebuilt: Vec<Chunk> = Vec::new();
        let mut i: usize = 0;
        while i < 324
            invariant
                chunks0.len() == 324,
                culled0.len() == 324,
                0 <= i <= 324,
                chunks@ =~= chunks0.subrange(i as int, 324),
                culled_all@ =~= culled0.subrange(i as int, 324),
                rebuilt@.len() == i,
                forall|j: int|
                    0 <= j < i ==> {
                        let c = #[trigger] rebuilt@[j];
                        c.x == chunks0[j].x && c.z == chunks0[j].z && c.all_blocks
                            == chunks0[j].all_blocks && c.quads == chunks0[j].quads
                            && c.culled_blocks@ == culled0[j]@
                    },
            decreases 324 - i,
        {
            let mut ch: Chunk = chunks.remove(0);
            let cl: Vec<Block> = culled_all.remove(0);
            ch.culled_blocks = cl;
            rebuilt.push(ch);
            proof {
                assert(chunks@ =~= chunks0.subrange(i + 1, 324));
                assert(culled_all@ =~= culled0.subrange(i + 1, 324));
            }
            i = i + 1;
        }
        proof {
            assert forall|ax: int, az: int| 0 <= ax < 18 && 0 <= az < 18 implies {
                let c = #[trigger] rebuilt@[area_index(ax, az)];
                c.wf() && c.x == offset.0 * 16 - 1 + ax && c.z == offset.1 * 16 - 1 + az
                    && spec_chunk_generated(c, *mode)
            } by {
                assert(0 <= area_index(ax, az) < 324);
                assert(chunks0[area_index(ax, az)].wf());
            }
            assert forall|ax: int, az: int| 1 <= ax <= 16 && 1 <= az <= 16 implies spec_cull_valid(
                (#[trigger] rebuilt@[area_index(ax, az)]).culled_blocks@,
                rebuilt@[area_index(ax, az)].all_blocks@,
                rebuilt@[area_index(ax, az + 1)].all_blocks@,
                rebuilt@[area_index(ax, az - 1)].all_blocks@,
                rebuilt@[area_index(ax + 1, az)].all_blocks@,
                rebuilt@[area_index(ax - 1, az)].all_blocks@,
                rebuilt@[area_index(ax, az)].x as int,
                rebuilt@[area_index(ax, az)].z as int,
                CHUNK_LENGTH as int,
                CHUNK_HEIGHT as int,
            ) by {
                assert(spec_area_slot_ok(culled0, chunks0, ax, az));
            }
            assert forall|ax: int, az: int|
                0 <= ax < 18 && 0 <= az < 18 && !(1 <= ax <= 16 && 1 <= az <= 16) implies (
            #[trigger] rebuilt@[area_index(ax, az)]).culled_blocks@.len() == 0 by {
                assert(spec_area_slot_ok(culled0, chunks0, ax, az));
            }
        }
        ChunkArea { chunks: rebuilt, offset }
    }
}

/// Sum of the cell `(x, y)` of a heightmap grid and those of its present
/// neighbors, gathered by the blur's scan: the left neighbor first, then
/// (when a row below exists) the three below, then the right neighbor and
/// (when a row above exists) the three above.
pub open spec fn spec_blur_total(g: Seq<u32>, x: int, y: int) -> int {
    let center = g[x * 16 + y] as int;
    let left = if x > 0 {
        g[(x - 1) * 16 + y] as int
    } else {
        0
    };
    let below = if x > 0 && y > 0 {
        g[(x - 1) * 16 + (y - 1)] + g[x * 16 + (y - 1)] + (if x < 15 {
            g[(x + 1) * 16 + (y - 1)] as int
        } else {
            0
        })
    } else {
        0
    };
    let right = if x < 15 {
        g[(x + 1) * 16 + y] as int
    } else {
        0
    };
    let above = if x < 15 && y < 15 {
        g[(x + 1) * 16 + (y + 1)] + g[x * 16 + (y + 1)] + (if x > 0 {
            g[(x - 1) * 16 + (y + 1)] as int
        } else {
            0
        })
    } else {
        0
    };
    center + left + below + right + above
}

/// How many cells the blur's scan gathered at `(x, y)`.
pub open spec fn spec_blur_div(x: int, y: int) -> int {
    1 + (if x > 0 {
        1int
    } else {
        0int
    }) + (if x > 0 && y > 0 {
        2 + (if x < 15 {
            1int
        } else {
            0int
        })
    } else {
        0
    }) + (if x < 15 {
        1int
    } else {
        0int
    }) + (if x < 15 && y < 15 {
        2 + (if x > 0 {
            1int
        } else {
            0int
        })
    } else {
        0
    })
}

/// The grid after the first `k` cells of the sequential blur: each step
/// averages a cell with its gathered neighbors in place, so later cells
/// read already blurred values.
pub open spec fn spec_blur_upto(g0: Seq<u32>, k: nat) -> Seq<u32>
    decreases k,
{
    if k == 0 {
        g0
    } else {
        let g = spec_blur_upto(g0, (k - 1) as nat);
        let x = ((k - 1) as int) / 16;
        let y = ((k - 1) as int) % 16;
        g.update(k - 1, (spec_blur_total(g, x, y) / spec_blur_div(x, y)) as u32)
    }
}

impl Chunk {
    /// Smooths a `16 x 16` heightmap with a single in-place box-blur pass:
    /// every cell becomes the average of itself and its present neighbors,
    /// scanned column-major, each average reading the cells already blurred
    /// before it.
    pub fn box_blur(grid: Vec<u32>) -> (r: Vec<u32>)
        requires
            grid@.len() == 256,
        ensures
            r@ == spec_blur_upto(grid@, 256),
    {
        let ghost g0 = grid@;
        let mut g: Vec<u32> = grid;
        let mut k: usize = 0;
        while k < 256
            invariant
                g@.len() == 256,
                0 <= k <= 256,
                g@ == spec_blur_upto(g0, k as nat),
            decreases 256 - k,
        {
            let x: usize = k / 16;
            let y: usize = k % 16;
            let mut total: u64 = g[x * 16 + y] as u64;
            let mut divide_by: u64 = 1;
            if x > 0 {
                total = total + g[(x - 1) * 16 + y] as u64;
                divide_by = divide_by + 1;
                if y > 0 {
                    total = total + g[(x - 1) * 16 + (y - 1)] as u64;
                    total = total + g[x * 16 + (y - 1)] as u64;
                    divide_by = divide_by + 2;
                    if x < 15 {
                        total = total + g[(x + 1) * 16 + (y - 1)] as u64;
                        divide_by = divide_by + 1;
                    }
                }
            }
            if x < 15 {
                total = total + g[(x + 1) * 16 + y] as u64;
                divide_by = divide_by + 1;
                if y < 15 {
                    total = total + g[(x + 1) * 16 + (y + 1)] as u64;
                    total = total + g[x * 16 + (y + 1)] as u64;
                    divide_by = divide_by + 2;
                    if x > 0 {
                        total = total + g[(x - 1) * 16 + (y + 1)] as u64;
                        divide_by = divide_by + 1;
                    }
                }
            }
            let v: u64 = total / divide_by;
            assert(total == spec_blur_total(g@, x as int, y as int));
            assert(divide_by == spec_blur_div(x as int, y as int));
            assert(total <= divide_by * 0xFFFF_FFFFu64);
            proof {
                vstd::arithmetic::div_mod::lemma_div_is_ordered(
                    total as int,
                    divide_by * 0xFFFF_FFFF,
                    divide_by as int,
                );
                vstd::arithmetic::div_mod::lemma_div_multiples_vanish(
                    0xFFFF_FFFF,
                    divide_by as int,
                );
            }
            assert(v <= 0xFFFF_FFFF);
            g.set(k, v as u32);
            k = k + 1;
        }
        g
    }
}

/// The quads of the first `n` interior chunks of an area, scanned row-major
/// over the `16 x 16` interior, concatenated.
pub open spec fn spec_area_quads_upto(chunks: Seq<Chunk>, n: int) -> Seq<crate::mesh::Quad>
    decreases n,
{
    if n <= 0 {
        Seq::empty()
    } else {
        spec_area_quads_upto(chunks, n - 1) + chunks[area_index(
            1 + (n - 1) % 16,
            1 + (n - 1) / 16,
        )].quads@
    }
}

impl ChunkArea {
    /// The merged quads of all interior chunks, concatenated row-major; the
    /// halo contributes nothing.
    pub fn get_culled_objects(&self) -> (r: Vec<crate::mesh::Quad>)
        requires
            self.chunks@.len() == 18 * 18,
        ensures
            r@ == spec_area_quads_upto(self.chunks@, 256),
    {
        let mut r: Vec<crate::mesh::Quad> = Vec::new();
        let mut n: usize = 0;
        while n < 256
            invariant
                self.chunks@.len() == 18 * 18,
                0 <= n <= 256,
                r@ == spec_area_quads_upto(self.chunks@, n as int),
            decreases 256 - n,
        {
            let az: usize = 1 + n / 16;
            let ax: usize = 1 + n % 16;
            let idx: usize = az * 18 + ax;
            assert(idx == area_index(1 + (n as int) % 16, 1 + (n as int) / 16));
            let ghost r_before = r@;
            let mut j: usize = 0;
            while j < self.chunks[idx].quads.len()
                invariant
                    self.chunks@.len() == 18 * 18,
                    idx < 324,
                    0 <= j <= self.chunks@[idx as int].quads@.len(),
                    r@ == r_before + self.chunks@[idx as int].quads@.subrange(0, j as int),
                decreases self.chunks@[idx as int].quads@.len() - j,
            {
                r.push(self.chunks[idx].quads[j]);
                proof {
                    assert(self.chunks@[idx as int].quads@.subrange(0, j + 1)
                        =~= self.chunks@[idx as int].quads@.subrange(0, j as int).push(
                        self.chunks@[idx as int].quads@[j as int],
                    ));
                    assert(r@ =~= r_before + self.chunks@[idx as int].quads@.subrange(0, j + 1));
                }
                j = j + 1;
            }
            proof {
                assert(self.chunks@[idx as int].quads@.subrange(
                    0,
                    self.chunks@[idx as int].quads@.len() as int,
                ) =~= self.chunks@[idx as int].quads@);
                assert(r@ =~= spec_area_quads_upto(self.chunks@, n + 1));
            }
            n = n + 1;
        }
        r
    }
}

/// The culled list collected for the slot `(ax, az)` satisfies the culling
/// contract against the chunk grids of the slot and its neighbors; halo
/// slots stay empty.
pub open spec fn spec_area_slot_ok(
    culled: Seq<Vec<Block>>,
    chunks: Seq<Chunk>,
    ax: int,
    az: int,
) -> bool {
    if 1 <= ax <= 16 && 1 <= az <= 16 {
        spec_cull_valid(
            culled[area_index(ax, az)]@,
            chunks[area_index(ax, az)].all_blocks@,
            chunks[area_index(ax, az + 1)].all_blocks@,
            chunks[area_index(ax, az - 1)].all_blocks@,
            chunks[area_index(ax + 1, az)].all_blocks@,
            chunks[area_index(ax - 1, az)].all_blocks@,
            chunks[area_index(ax, az)].x as int,
            chunks[area_index(ax, az)].z as int,
            CHUNK_LENGTH as int,
            CHUNK_HEIGHT as int,
        )
    } else {
        culled[area_index(ax, az)]@.len() == 0
    }
}

} // verus!
