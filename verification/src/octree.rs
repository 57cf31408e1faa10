//! The spatial index: a quadtree over the world footprint that lazily
//! materializes chunks around a viewpoint and answers point-location
//! queries.
//!
//! Coordinates are integer world units. A node is a square region given by
//! its center and side length; an internal node owns exactly four children
//! covering its quadrants, a leaf owns the chunks of its footprint.

use vstd::prelude::*;
use crate::block::Block;
use crate::chunk::{Chunk, HeightMode, spec_chunk_generated};

verus! {

/// Bound on node centers and query points; keeps every squared distance
/// within the machine range.
pub const COORD_LIMIT: i64 = 0x2000_0000;

/// One square region of world space.
pub struct Node {
    /// Center of the region along `x`.
    pub x: i64,
    /// Center of the region along `z`.
    pub z: i64,
    /// Side length of the square region.
    pub size: i64,
    /// Either empty, or exactly four quadrant children in the order
    /// upper-left, upper-right, lower-left, lower-right (`+z` is up).
    pub children: Vec<Node>,
    /// The chunks of the footprint; populated only at loaded leaves.
    pub chunks: Vec<Chunk>,
}

impl Node {
    /// Geometric well-formedness of the subtree: positive in-range sizes,
    /// and each internal node split exactly into its four half-size
    /// quadrants, owning no chunks itself.
    pub open spec fn wf(self) -> bool
        decreases self,
    {
        &&& 0 < self.size <= COORD_LIMIT
        &&& -COORD_LIMIT <= self.x - self.size / 2 && self.x + self.size / 2 <= COORD_LIMIT
        &&& -COORD_LIMIT <= self.z - self.size / 2 && self.z + self.size / 2 <= COORD_LIMIT
        &&& (self.children.len() == 0 || self.children.len() == 4)
        &&& (self.children.len() == 4 ==> {
            &&& self.size % 4 == 0
            &&& self.chunks.len() == 0
            &&& (forall|i: int| 0 <= i < 4 ==> (#[trigger] self.children@[i]).wf())
            &&& self.children@[0].x == self.x - self.size / 4
            &&& self.children@[0].z == self.z + self.size / 4
            &&& self.children@[1].x == self.x + self.size / 4
            &&& self.children@[1].z == self.z + self.size / 4
            &&& self.children@[2].x == self.x - self.size / 4
            &&& self.children@[2].z == self.z - self.size / 4
            &&& self.children@[3].x == self.x + self.size / 4
            &&& self.children@[3].z == self.z - self.size / 4
            &&& (forall|i: int| 0 <= i < 4 ==> (#[trigger] self.children@[i]).size == self.size / 2)
        })
    }

    /// The closed square of the node contains the point.
    pub open spec fn spec_contains(self, px: int, pz: int) -> bool {
        &&& self.x - self.size / 2 <= px <= self.x + self.size / 2
        &&& self.z - self.size / 2 <= pz <= self.z + self.size / 2
    }

    /// The point lies strictly inside the node's square.
    pub open spec fn spec_strictly_inside(self, px: int, pz: int) -> bool {
        &&& self.x - self.size / 2 < px < self.x + self.size / 2
        &&& self.z - self.size / 2 < pz < self.z + self.size / 2
    }

    /// The conservative view metric: squared distance from the node center
    /// to the point, minus half the node size. Not a true surface distance,
    /// only a monotone stand-in used to decide loading.
    pub open spec fn spec_distance(self, px: int, pz: int) -> int {
        (self.x - px) * (self.x - px) + (self.z - pz) * (self.z - pz) - self.size / 2
    }

    /// A childless, chunkless node covering the given square.
    pub fn new(x: i64, z: i64, size: i64) -> (n: Node)
        requires
            0 < size <= COORD_LIMIT,
            -COORD_LIMIT <= x - size / 2 && x + size / 2 <= COORD_LIMIT,
            -COORD_LIMIT <= z - size / 2 && z + size / 2 <= COORD_LIMIT,
        ensures
            n.wf(),
            n.x == x,
            n.z == z,
            n.size == size,
            n.children@.len() == 0,
            n.chunks@.len() == 0,
    {
        Node { x, z, size, children: Vec::new(), chunks: Vec::new() }
    }

    /// Whether the node's closed square contains the point.
    pub fn is_inside(&self, px: i64, pz: i64) -> (r: bool)
        requires
            self.wf(),
            -COORD_LIMIT <= px <= COORD_LIMIT,
            -COORD_LIMIT <= pz <= COORD_LIMIT,
        ensures
            r == self.spec_contains(px as int, pz as int),
    {
        let half: i64 = self.size / 2;
        !(px > self.x + half || px < self.x - half || pz > self.z + half || pz < self.z - half)
    }

    /// The view metric of the node for the given point.
    pub fn distance(&self, px: i64, pz: i64) -> (r: i64)
        requires
            self.wf(),
            -COORD_LIMIT <= px <= COORD_LIMIT,
            -COORD_LIMIT <= pz <= COORD_LIMIT,
        ensures
            r == self.spec_distance(px as int, pz as int),
    {
        let dx: i64 = self.x - px;
        let dz: i64 = self.z - pz;
        assert(0 <= dx * dx <= 0x1000_0000_0000_0000 && 0 <= dz * dz <= 0x1000_0000_0000_0000)
            by (nonlinear_arith)
            requires
                -0x4000_0000 <= dx <= 0x4000_0000,
                -0x4000_0000 <= dz <= 0x4000_0000,
        ;
        dx * dx + dz * dz - self.size / 2
    }

    /// Splits the node into its four quadrant children, each of exactly
    /// half the parent's side length, covering the parent's square without
    /// gap or overlap (shown by `lemma_split_partition`).
    pub fn split(&mut self)
        requires
            old(self).wf(),
            old(self).children@.len() == 0,
            old(self).chunks@.len() == 0,
            old(self).size % 4 == 0,
            4 <= old(self).size,
        ensures
            final(self).wf(),
            final(self).x == old(self).x,
            final(self).z == old(self).z,
            final(self).size == old(self).size,
            final(self).chunks@.len() == 0,
            final(self).children@.len() == 4,
            forall|i: int|
                0 <= i < 4 ==> (#[trigger] final(self).children@[i]).size == old(self).size / 2
                    && final(self).children@[i].children@.len() == 0
                    && final(self).children@[i].chunks@.len() == 0,
            final(self).children@[0].x == old(self).x - old(self).size / 4,
            final(self).children@[0].z == old(self).z + old(self).size / 4,
            final(self).children@[1].x == old(self).x + old(self).size / 4,
            final(self).children@[1].z == old(self).z + old(self).size / 4,
            final(self).children@[2].x == old(self).x - old(self).size / 4,
            final(self).children@[2].z == old(self).z - old(self).size / 4,
            final(self).children@[3].x == old(self).x + old(self).size / 4,
            final(self).children@[3].z == old(self).z - old(self).size / 4,
    {
        let q: i64 = self.size / 4;
        let s_child: i64 = self.size / 2;
        let mut children: Vec<Node> = Vec::new();
        children.push(Node::new(self.x - q, self.z + q, s_child));
        children.push(Node::new(self.x + q, self.z + q, s_child));
        children.push(Node::new(self.x - q, self.z - q, s_child));
        children.push(Node::new(self.x + q, self.z - q, s_child));
        self.children = children;
    }

    /// The blocks of every chunk the node owns, reconstructed with their
    /// world positions, chunk by chunk in grid order. Air cells are
    /// included; visibility is the culled sets' business.
    pub fn get_objects(&self) -> (r: Vec<Block>)
        requires
            forall|i: int| 0 <= i < self.chunks@.len() ==> (#[trigger] self.chunks@[i]).wf(),
        ensures
            r@ == spec_node_objects(self.chunks@, self.chunks@.len() as int),
    {
        let mut r: Vec<Block> = Vec::new();
        let mut i: usize = 0;
        while i < self.chunks.len()
            invariant
                0 <= i <= self.chunks@.len(),
                forall|k: int| 0 <= k < self.chunks@.len() ==> (#[trigger] self.chunks@[k]).wf(),
                r@ == spec_node_objects(self.chunks@, i as int),
            decreases self.chunks@.len() - i,
        {
            let c: &Chunk = &self.chunks[i];
            let ghost r_base = r@;
            let mut j: usize = 0;
            while j < 368640
                invariant
                    c.wf(),
                    c == self.chunks@[i as int],
                    0 <= j <= 368640,
                    r@ == r_base + spec_chunk_objects(*c).subrange(0, j as int),
                decreases 368640 - j,
            {
                let x: usize = j % 64;
                let z: usize = (j / 64) % 64;
                let y: usize = j / 4096;
                r.push(
                    Block {
                        x: c.x * 64 + x as i64,
                        y: y as i64,
                        z: c.z * 64 + z as i64,
                        block_type: c.all_blocks[j],
                    },
                );
                proof {
                    assert(spec_chunk_objects(*c)[j as int] == (Block {
                        x: (c.x * 64 + x as i64) as i64,
                        y: y as i64,
                        z: (c.z * 64 + z as i64) as i64,
                        block_type: c.all_blocks@[j as int],
                    }));
                    assert(spec_chunk_objects(*c).subrange(0, j + 1) =~= spec_chunk_objects(
                        *c,
                    ).subrange(0, j as int).push(spec_chunk_objects(*c)[j as int]));
                }
                j = j + 1;
            }
            proof {
                assert(spec_chunk_objects(*c).subrange(0, 368640) =~= spec_chunk_objects(*c));
            }
            i = i + 1;
        }
        r
    }

    /// Clears the node's chunk list; children are never merged back.
    pub fn unload_chunk(&mut self)
        ensures
            final(self).chunks@.len() == 0,
            final(self).x == old(self).x,
            final(self).z == old(self).z,
            final(self).size == old(self).size,
            final(self).children == old(self).children,
    {
        self.chunks = Vec::new();
    }
}

/// The blocks of one chunk with their world positions, in grid order: the
/// cell at flat index `j` decodes to its column and layer.
pub open spec fn spec_chunk_objects(c: Chunk) -> Seq<Block> {
    Seq::new(
        368640,
        |j: int|
            Block {
                x: (c.x * 64 + j % 64) as i64,
                y: (j / 4096) as i64,
                z: (c.z * 64 + (j / 64) % 64) as i64,
                block_type: c.all_blocks[j],
            },
    )
}

/// The blocks of the first `k` chunks of a node, concatenated.
pub open spec fn spec_node_objects(chunks: Seq<Chunk>, k: int) -> Seq<Block>
    decreases k,
{
    if k <= 0 {
        Seq::empty()
    } else {
        spec_node_objects(chunks, k - 1) + spec_chunk_objects(chunks[k - 1])
    }
}

/// Quotient of an exact multiple of the chunk length.
fn div64_exact(a: i64) -> (q: i64)
    requires
        -0x4000_0000 <= a <= 0x4000_0000,
        (a as int) % 64 == 0,
    ensures
        q == a as int / 64,
        64 * q == a,
{
    proof {
        vstd::arithmetic::div_mod::lemma_fundamental_div_mod(a as int, 64);
    }
    if a >= 0 {
        a / 64
    } else {
        let m: i64 = -a;
        proof {
            vstd::arithmetic::div_mod::lemma_div_multiples_vanish(-((a as int) / 64), 64);
        }
        -(m / 64)
    }
}

/// The node is a leaf whose whole footprint is materialized: one generated
/// chunk per chunk-sized cell, row-major from the low corner.
pub open spec fn spec_leaf_loaded(n: Node, mode: HeightMode) -> bool {
    let fit = n.size as int / 64;
    let bx = (n.x - n.size as int / 2) / 64;
    let bz = (n.z - n.size as int / 2) / 64;
    &&& n.chunks@.len() == fit * fit
    &&& forall|cx: int, cz: int|
        0 <= cx < fit && 0 <= cz < fit ==> {
            let c = #[trigger] n.chunks@[crate::chunk::col_index(fit, cx, cz)];
            c.wf() && c.x == bx + cx && c.z == bz + cz && spec_chunk_generated(c, mode)
        }
}

/// A subtree that owns nothing yet: no children, no chunks.
pub open spec fn spec_empty_subtree(n: Node) -> bool {
    n.children@.len() == 0 && n.chunks@.len() == 0
}

impl Node {
    /// Materializes the chunks covering the leaf's footprint, row-major
    /// from the low corner; each chunk's grid coordinate is the node-local
    /// offset divided by the chunk length, which must divide evenly.
    #[verifier::rlimit(100)]
    pub fn load_chunks(&mut self, mode: &HeightMode)
        requires
            old(self).wf(),
            old(self).children@.len() == 0,
            old(self).chunks@.len() == 0,
            mode.wf(),
            old(self).size as int % 64 == 0,
            (old(self).x - old(self).size as int / 2) % 64 == 0,
            (old(self).z - old(self).size as int / 2) % 64 == 0,
            -16384 <= old(self).x - old(self).size as int / 2,
            old(self).x + old(self).size as int / 2 <= 16384,
            -16384 <= old(self).z - old(self).size as int / 2,
            old(self).z + old(self).size as int / 2 <= 16384,
        ensures
            final(self).wf(),
            final(self).x == old(self).x,
            final(self).z == old(self).z,
            final(self).size == old(self).size,
            final(self).children@.len() == 0,
            spec_leaf_loaded(*final(self), *mode),
    {
        proof {
            vstd::arithmetic::div_mod::lemma_fundamental_div_mod(self.size as int, 64);
        }
        let half: i64 = self.size / 2;
        let low_x: i64 = self.x - half;
        let low_z: i64 = self.z - half;
        let bx: i64 = div64_exact(low_x);
        let bz: i64 = div64_exact(low_z);
        let fit_i: i64 = self.size / 64;
        let fit: usize = fit_i as usize;
        proof {
            assert(64 * (fit as int) == self.size);
            assert(64 * (bx + fit) == low_x + self.size);
            assert(64 * (bz + fit) == low_z + self.size);
        }
        let mut chunks: Vec<Chunk> = Vec::new();
        let mut cz: usize = 0;
        while cz < fit
            invariant
                mode.wf(),
                1 <= fit <= 512,
                -256 <= bx,
                bx + fit <= 256,
                -256 <= bz,
                bz + fit <= 256,
                0 <= cz <= fit,
                chunks@.len() == cz * fit,
                forall|x2: int, z2: int|
                    0 <= x2 < fit && 0 <= z2 < cz ==> {
                        let c = #[trigger] chunks@[crate::chunk::col_index(fit as int, x2, z2)];
                        c.wf() && c.x == bx + x2 && c.z == bz + z2 && spec_chunk_generated(
                            c,
                            *mode,
                        )
                    },
            decreases fit - cz,
        {
            let mut cx: usize = 0;
            while cx < fit
                invariant
                    mode.wf(),
                    1 <= fit <= 512,
                    -256 <= bx,
                    bx + fit <= 256,
                    -256 <= bz,
                    bz + fit <= 256,
                    0 <= cz < fit,
                    0 <= cx <= fit,
                    chunks@.len() == cz * fit + cx,
                    forall|x2: int, z2: int|
                        0 <= x2 < fit && 0 <= z2 < cz ==> {
                            let c = #[trigger] chunks@[crate::chunk::col_index(fit as int, x2, z2)];
                            c.wf() && c.x == bx + x2 && c.z == bz + z2 && spec_chunk_generated(
                                c,
                                *mode,
                            )
                        },
                    forall|x2: int|
                        0 <= x2 < cx ==> {
                            let c = #[trigger] chunks@[crate::chunk::col_index(
                                fit as int,
                                x2,
                                cz as int,
                            )];
                            c.wf() && c.x == bx + x2 && c.z == bz + cz && spec_chunk_generated(
                                c,
                                *mode,
                            )
                        },
                decreases fit - cx,
            {
                let c = Chunk::new(bx + cx as i64, bz + cz as i64, mode);
                chunks.push(c);
                proof {
                    assert forall|x2: int, z2: int|
                        0 <= x2 < fit && 0 <= z2 < cz implies {
                        let c2 = #[trigger] chunks@[crate::chunk::col_index(fit as int, x2, z2)];
                        c2.wf() && c2.x == bx + x2 && c2.z == bz + z2 && spec_chunk_generated(
                            c2,
                            *mode,
                        )
                    } by {
                        crate::chunk::lemma_grid_index_bounds(fit as int, x2, z2, 0);
                        crate::chunk::lemma_mul_mono(z2 + 1, cz as int, fit as int);
                    }
                }
                cx = cx + 1;
            }
            cz = cz + 1;
            assert(cz * fit == (cz - 1) * fit + fit) by (nonlinear_arith);
        }
        self.chunks = chunks;
    }

    /// Recursive viewer-driven loading: at positive depth the node splits
    /// and only the quadrants whose view metric is within `dist` are
    /// descended into; at depth zero the leaf materializes its chunks.
    /// Quadrants out of range are left unpopulated.
    #[verifier::rlimit(100)]
    pub fn load_player_nodes(&mut self, depth: u32, px: i64, pz: i64, dist: i64, mode: &HeightMode)
        requires
            old(self).wf(),
            spec_empty_subtree(*old(self)),
            mode.wf(),
            depth <= 9,
            old(self).size == 64 * vstd::arithmetic::power2::pow2(depth as nat),
            (old(self).x - old(self).size as int / 2) % 64 == 0,
            (old(self).z - old(self).size as int / 2) % 64 == 0,
            -16384 <= old(self).x - old(self).size as int / 2,
            old(self).x + old(self).size as int / 2 <= 16384,
            -16384 <= old(self).z - old(self).size as int / 2,
            old(self).z + old(self).size as int / 2 <= 16384,
            -COORD_LIMIT <= px <= COORD_LIMIT,
            -COORD_LIMIT <= pz <= COORD_LIMIT,
        ensures
            final(self).wf(),
            final(self).x == old(self).x,
            final(self).z == old(self).z,
            final(self).size == old(self).size,
            spec_loaded_for(*final(self), depth as nat, px as int, pz as int, dist as int, *mode),
        decreases depth,
    {
        proof {
            vstd::arithmetic::power2::lemma2_to64();
            vstd::arithmetic::power2::lemma_pow2_pos(depth as nat);
            if depth >= 1 {
                vstd::arithmetic::power2::lemma_pow2_unfold(depth as nat);
                vstd::arithmetic::power2::lemma_pow2_pos((depth - 1) as nat);
                if depth <= 9 {
                    vstd::arithmetic::power2::lemma_pow2_strictly_increases(
                        (depth - 1) as nat,
                        9,
                    );
                }
            }
            if depth < 9 {
                vstd::arithmetic::power2::lemma_pow2_strictly_increases(depth as nat, 9);
            }
        }
        if depth > 0 {
            self.split();
            let ghost parent_x = self.x as int;
            let ghost parent_z = self.z as int;
            let ghost parent_size = self.size as int;
            let mut children: Vec<Node> = Vec::new();
            core::mem::swap(&mut children, &mut self.children);
            let ghost children0 = children@;
            let mut processed: Vec<Node> = Vec::new();
            let mut i: usize = 0;
            while i < 4
                invariant
                    children0.len() == 4,
                    0 <= i <= 4,
                    children@ =~= children0.subrange(i as int, 4),
                    processed@.len() == i,
                    mode.wf(),
                    depth >= 1,
                    depth <= 9,
                    -COORD_LIMIT <= px <= COORD_LIMIT,
                    -COORD_LIMIT <= pz <= COORD_LIMIT,
                    forall|j: int|
                        0 <= j < 4 ==> {
                            let c = #[trigger] children0[j];
                            c.wf() && c.children@.len() == 0 && c.chunks@.len() == 0 && c.size
                                == 64 * vstd::arithmetic::power2::pow2((depth - 1) as nat) && (c.x
                                - c.size as int / 2) % 64 == 0 && (c.z - c.size as int / 2) % 64
                                == 0 && -16384 <= c.x - c.size as int / 2 && c.x + c.size as int
                                / 2 <= 16384 && -16384 <= c.z - c.size as int / 2 && c.z
                                + c.size as int / 2 <= 16384
                        },
                    forall|j: int|
                        0 <= j < i ==> {
                            let c = #[trigger] processed@[j];
                            c.wf() && c.x == children0[j].x && c.z == children0[j].z && c.size
                                == children0[j].size && (if c.spec_distance(px as int, pz as int)
                                <= dist {
                                spec_loaded_for(
                                    c,
                                    (depth - 1) as nat,
                                    px as int,
                                    pz as int,
                                    dist as int,
                                    *mode,
                                )
                            } else {
                                spec_empty_subtree(c)
                            })
                        },
                decreases 4 - i,
            {
                let mut c: Node = children.remove(0);
                proof {
                    assert(c == children0[i as int]);
                    assert(children@ =~= children0.subrange(i + 1, 4));
                }
                if c.distance(px, pz) <= dist {
                    c.load_player_nodes(depth - 1, px, pz, dist, mode);
                }
                processed.push(c);
                i = i + 1;
            }
            self.children = processed;
        } else {
            self.load_chunks(mode);
        }
    }
}

/// How a node looks after `load_player_nodes`: at depth zero a loaded
/// leaf; above that, four children of which exactly those within the view
/// metric are recursively loaded while the rest stay unpopulated.
pub open spec fn spec_loaded_for(
    n: Node,
    depth: nat,
    px: int,
    pz: int,
    dist: int,
    mode: HeightMode,
) -> bool
    decreases depth,
{
    if depth == 0 {
        spec_leaf_loaded(n, mode)
    } else {
        n.children@.len() == 4 && forall|i: int|
            0 <= i < 4 ==> {
                let c = #[trigger] n.children@[i];
                if c.spec_distance(px, pz) <= dist {
                    spec_loaded_for(c, (depth - 1) as nat, px, pz, dist, mode)
                } else {
                    spec_empty_subtree(c)
                }
            }
    }
}

/// Summary of a located node: its square, whether it is a leaf, and how
/// many chunks it holds.
#[derive(Clone, Copy, PartialEq, Eq, Structural, Debug)]
pub struct NodeInfo {
    pub x: i64,
    pub z: i64,
    pub size: i64,
    pub is_leaf: bool,
    pub chunk_count: usize,
}

impl Node {
    /// The node's summary.
    pub open spec fn spec_info(self) -> NodeInfo {
        NodeInfo {
            x: self.x,
            z: self.z,
            size: self.size,
            is_leaf: self.children@.len() == 0,
            chunk_count: self.chunks@.len() as usize,
        }
    }

    /// Point location: descend toward the point, stopping at the first
    /// node without children or when the depth budget runs out; at each
    /// level the first child (in quadrant order) whose closed square holds
    /// the point is taken. A point outside the node finds nothing.
    pub open spec fn spec_find(self, depth: nat, px: int, pz: int) -> Option<NodeInfo>
        decreases depth,
    {
        if !self.spec_contains(px, pz) {
            None
        } else if depth == 0 || self.children@.len() != 4 {
            Some(self.spec_info())
        } else {
            if self.children@[0].spec_contains(px, pz) {
                self.children@[0].spec_find((depth - 1) as nat, px, pz)
            } else if self.children@[1].spec_contains(px, pz) {
                self.children@[1].spec_find((depth - 1) as nat, px, pz)
            } else if self.children@[2].spec_contains(px, pz) {
                self.children@[2].spec_find((depth - 1) as nat, px, pz)
            } else if self.children@[3].spec_contains(px, pz) {
                self.children@[3].spec_find((depth - 1) as nat, px, pz)
            } else {
                None
            }
        }
    }

    /// Locates the node holding the point, or returns nothing when the
    /// point lies outside this node's square.
    pub fn find_node(&self, depth: u32, px: i64, pz: i64) -> (r: Option<NodeInfo>)
        requires
            self.wf(),
            -COORD_LIMIT <= px <= COORD_LIMIT,
            -COORD_LIMIT <= pz <= COORD_LIMIT,
        ensures
            r == self.spec_find(depth as nat, px as int, pz as int),
        decreases depth,
    {
        if !self.is_inside(px, pz) {
            None
        } else if depth == 0 || self.children.len() != 4 {
            Some(
                NodeInfo {
                    x: self.x,
                    z: self.z,
                    size: self.size,
                    is_leaf: self.children.len() == 0,
                    chunk_count: self.chunks.len(),
                },
            )
        } else {
            if self.children[0].is_inside(px, pz) {
                self.children[0].find_node(depth - 1, px, pz)
            } else if self.children[1].is_inside(px, pz) {
                self.children[1].find_node(depth - 1, px, pz)
            } else if self.children[2].is_inside(px, pz) {
                self.children[2].find_node(depth - 1, px, pz)
            } else if self.children[3].is_inside(px, pz) {
                self.children[3].find_node(depth - 1, px, pz)
            } else {
                None
            }
        }
    }
}

/// The node reached from `n` by taking the child picked by each step of
/// `path` in turn.
pub open spec fn spec_node_at(n: Node, path: Seq<int>) -> Option<Node>
    decreases path.len(),
{
    if path.len() == 0 {
        Some(n)
    } else if n.children@.len() == 4 && 0 <= path[0] < 4 {
        spec_node_at(n.children@[path[0]], path.drop_first())
    } else {
        None
    }
}

/// Each child's square lies within its parent's square.
pub proof fn lemma_child_in_parent(n: Node, i: int)
    requires
        n.wf(),
        n.children@.len() == 4,
        0 <= i < 4,
    ensures
        n.children@[i].x - n.children@[i].size / 2 >= n.x - n.size / 2,
        n.children@[i].x + n.children@[i].size / 2 <= n.x + n.size / 2,
        n.children@[i].z - n.children@[i].size / 2 >= n.z - n.size / 2,
        n.children@[i].z + n.children@[i].size / 2 <= n.z + n.size / 2,
{
    let s = n.size as int;
    let t = s / 4;
    vstd::arithmetic::div_mod::lemma_fundamental_div_mod(s, 4);
    assert(s == 4 * t);
    vstd::arithmetic::div_mod::lemma_div_multiples_vanish(2 * t, 2);
    assert(s / 2 == 2 * t);
    vstd::arithmetic::div_mod::lemma_div_multiples_vanish(t, 2);
    assert((2 * t) / 2 == t);
    assert(n.children@[i].size == 2 * t);
    assert(n.children@[i].size / 2 == t);
}

/// Every node on a path stays within the square of the node the path
/// starts from.
pub proof fn lemma_descendant_box(n: Node, path: Seq<int>, d: Node)
    requires
        n.wf(),
        spec_node_at(n, path) == Some(d),
    ensures
        d.x - d.size / 2 >= n.x - n.size / 2,
        d.x + d.size / 2 <= n.x + n.size / 2,
        d.z - d.size / 2 >= n.z - n.size / 2,
        d.z + d.size / 2 <= n.z + n.size / 2,
        d.wf(),
    decreases path.len(),
{
    if path.len() > 0 {
        lemma_child_in_parent(n, path[0]);
        lemma_descendant_box(n.children@[path[0]], path.drop_first(), d);
    }
}

/// Point location on a point inside the node always finds a node, and the
/// found square contains the point and lies within the searched square.
pub proof fn lemma_find_contained(n: Node, depth: nat, px: int, pz: int)
    requires
        n.wf(),
        n.spec_contains(px, pz),
    ensures
        n.spec_find(depth, px, pz) is Some,
        ({
            let info = n.spec_find(depth, px, pz)->Some_0;
            &&& info.x - info.size / 2 >= n.x - n.size / 2
            &&& info.x + info.size / 2 <= n.x + n.size / 2
            &&& info.z - info.size / 2 >= n.z - n.size / 2
            &&& info.z + info.size / 2 <= n.z + n.size / 2
            &&& info.x - info.size / 2 <= px <= info.x + info.size / 2
            &&& info.z - info.size / 2 <= pz <= info.z + info.size / 2
        }),
    decreases depth,
{
    if depth == 0 || n.children@.len() != 4 {
    } else {
        let s = n.size as int;
        let t = s / 4;
        vstd::arithmetic::div_mod::lemma_fundamental_div_mod(s, 4);
        vstd::arithmetic::div_mod::lemma_div_multiples_vanish(2 * t, 2);
        lemma_child_in_parent(n, 0);
        lemma_child_in_parent(n, 1);
        lemma_child_in_parent(n, 2);
        lemma_child_in_parent(n, 3);
        if n.children@[0].spec_contains(px, pz) {
            lemma_find_contained(n.children@[0], (depth - 1) as nat, px, pz);
        } else if n.children@[1].spec_contains(px, pz) {
            lemma_find_contained(n.children@[1], (depth - 1) as nat, px, pz);
        } else if n.children@[2].spec_contains(px, pz) {
            lemma_find_contained(n.children@[2], (depth - 1) as nat, px, pz);
        } else if n.children@[3].spec_contains(px, pz) {
            lemma_find_contained(n.children@[3], (depth - 1) as nat, px, pz);
        } else {
            // the four closed quadrants cover the parent's square
            if px <= n.x {
                if pz >= n.z {
                    assert(n.children@[0].spec_contains(px, pz));
                } else {
                    assert(n.children@[2].spec_contains(px, pz));
                }
            } else {
                if pz >= n.z {
                    assert(n.children@[1].spec_contains(px, pz));
                } else {
                    assert(n.children@[3].spec_contains(px, pz));
                }
            }
            assert(false);
        }
    }
}

/// Reflexive containment of point location: searching for a point that
/// lies strictly inside any node of the tree returns that node itself or a
/// descendant of it, and the found square contains the point.
pub proof fn lemma_find_returns_node(
    n: Node,
    depth: nat,
    path: Seq<int>,
    d: Node,
    px: int,
    pz: int,
)
    requires
        n.wf(),
        spec_node_at(n, path) == Some(d),
        path.len() <= depth,
        d.spec_strictly_inside(px, pz),
    ensures
        n.spec_find(depth, px, pz) is Some,
        ({
            let info = n.spec_find(depth, px, pz)->Some_0;
            &&& info.x - info.size / 2 >= d.x - d.size / 2
            &&& info.x + info.size / 2 <= d.x + d.size / 2
            &&& info.z - info.size / 2 >= d.z - d.size / 2
            &&& info.z + info.size / 2 <= d.z + d.size / 2
            &&& info.x - info.size / 2 <= px <= info.x + info.size / 2
            &&& info.z - info.size / 2 <= pz <= info.z + info.size / 2
        }),
    decreases path.len(),
{
    lemma_descendant_box(n, path, d);
    if path.len() == 0 {
        lemma_find_contained(n, depth, px, pz);
    } else {
        let i0 = path[0];
        let c = n.children@[i0];
        lemma_child_in_parent(n, i0);
        lemma_descendant_box(c, path.drop_first(), d);
        // strictly inside the descendant means strictly inside the child
        assert(c.spec_strictly_inside(px, pz));
        let s = n.size as int;
        let t = s / 4;
        vstd::arithmetic::div_mod::lemma_fundamental_div_mod(s, 4);
        vstd::arithmetic::div_mod::lemma_div_multiples_vanish(2 * t, 2);
        lemma_child_in_parent(n, 0);
        lemma_child_in_parent(n, 1);
        lemma_child_in_parent(n, 2);
        lemma_child_in_parent(n, 3);
        // a point strictly inside one quadrant is outside every other
        assert(forall|j: int|
            0 <= j < 4 && j != i0 ==> !(#[trigger] n.children@[j]).spec_contains(px, pz));
        lemma_find_returns_node(c, (depth - 1) as nat, path.drop_first(), d, px, pz);
    }
}

/// A split covers the parent exactly: on the half-open grid every point of
/// the parent's square lies in exactly one child quadrant, and each child's
/// side is exactly half the parent's (so the four areas sum to the
/// parent's).
pub proof fn lemma_split_partition(n: Node, px: int, pz: int)
    requires
        n.wf(),
        n.children@.len() == 4,
    ensures
        forall|i: int| 0 <= i < 4 ==> (#[trigger] n.children@[i]).size == n.size / 2,
        4 * ((n.size / 2) * (n.size / 2)) == n.size * n.size,
        (n.x - n.size / 2 <= px < n.x + n.size / 2 && n.z - n.size / 2 <= pz < n.z + n.size / 2)
            <==> exists|i: int|
            0 <= i < 4 && {
                let c = #[trigger] n.children@[i];
                c.x - c.size / 2 <= px < c.x + c.size / 2 && c.z - c.size / 2 <= pz < c.z + c.size
                    / 2
            },
        forall|i: int, j: int|
            0 <= i < j < 4 ==> !({
                let c = #[trigger] n.children@[i];
                c.x - c.size / 2 <= px < c.x + c.size / 2 && c.z - c.size / 2 <= pz < c.z + c.size
                    / 2
            } && {
                let c = #[trigger] n.children@[j];
                c.x - c.size / 2 <= px < c.x + c.size / 2 && c.z - c.size / 2 <= pz < c.z + c.size
                    / 2
            }),
{
    let s = n.size as int;
    let t = s / 4;
    vstd::arithmetic::div_mod::lemma_fundamental_div_mod(s, 4);
    assert(s == 4 * t);
    vstd::arithmetic::div_mod::lemma_div_multiples_vanish(2 * t, 2);
    assert(s / 2 == 2 * t);
    assert(4 * ((2 * t) * (2 * t)) == (4 * t) * (4 * t)) by (nonlinear_arith);
    assert(4 * ((s / 2) * (s / 2)) == s * s);
    let h = s / 2;
    let q = s / 4;
    assert(q + q == h && h + h == s);
    if n.x - h <= px < n.x + h && n.z - h <= pz < n.z + h {
        if px < n.x {
            if pz >= n.z {
                assert({
                    let c = n.children@[0];
                    c.x - c.size / 2 <= px < c.x + c.size / 2 && c.z - c.size / 2 <= pz < c.z
                        + c.size / 2
                });
            } else {
                assert({
                    let c = n.children@[2];
                    c.x - c.size / 2 <= px < c.x + c.size / 2 && c.z - c.size / 2 <= pz < c.z
                        + c.size / 2
                });
            }
        } else {
            if pz >= n.z {
                assert({
                    let c = n.children@[1];
                    c.x - c.size / 2 <= px < c.x + c.size / 2 && c.z - c.size / 2 <= pz < c.z
                        + c.size / 2
                });
            } else {
                assert({
                    let c = n.children@[3];
                    c.x - c.size / 2 <= px < c.x + c.size / 2 && c.z - c.size / 2 <= pz < c.z
                        + c.size / 2
                });
            }
        }
    }
}

/// Why a world configuration is rejected before any terrain is touched.
#[derive(Clone, Copy, PartialEq, Eq, Structural, Debug)]
pub enum WorldError {
    /// Fewer than two levels leave a root whose footprint is not a whole
    /// number of aligned chunks.
    DepthTooSmall,
    /// The requested depth would push the world past the coordinate range
    /// the generators accept.
    DepthTooLarge,
    /// The view distance exceeds what the resident-chunk budget allows.
    ViewDistanceTooLarge,
}

/// The root of the spatial index plus its fixed depth.
pub struct Octree {
    pub root: Node,
    pub max_depth: u32,
}

impl Octree {
    /// A well-formed index: an in-range depth and a well-formed root
    /// centered on the origin whose size is fixed by the depth.
    pub open spec fn wf(self) -> bool {
        &&& self.root.wf()
        &&& 2 <= self.max_depth <= 10
        &&& self.root.x == 0
        &&& self.root.z == 0
        &&& self.root.size == 64 * vstd::arithmetic::power2::pow2((self.max_depth - 1) as nat)
    }

    /// Builds the world tree and loads the leaves around `(target_x,
    /// target_z)` that lie within `player_view` chunks. Configurations
    /// whose geometry cannot hold aligned chunks are rejected up front.
    pub fn new(
        target_x: i64,
        target_z: i64,
        player_view: usize,
        max_depth: u32,
        mode: &HeightMode,
    ) -> (r: Result<Octree, WorldError>)
        requires
            -COORD_LIMIT <= target_x <= COORD_LIMIT,
            -COORD_LIMIT <= target_z <= COORD_LIMIT,
            mode.wf(),
        ensures
            max_depth <= 1 ==> r == Result::<Octree, WorldError>::Err(WorldError::DepthTooSmall),
            max_depth > 10 ==> r == Result::<Octree, WorldError>::Err(WorldError::DepthTooLarge),
            2 <= max_depth <= 10 && player_view > 512 ==> r == Result::<
                Octree,
                WorldError,
            >::Err(WorldError::ViewDistanceTooLarge),
            2 <= max_depth <= 10 && player_view <= 512 ==> r is Ok && {
                let o = r->Ok_0;
                &&& o.wf()
                &&& o.max_depth == max_depth
                &&& spec_loaded_for(
                    o.root,
                    (max_depth - 1) as nat,
                    target_x as int,
                    target_z as int,
                    player_view * 64,
                    *mode,
                )
            },
    {
        if max_depth <= 1 {
            return Result::Err(WorldError::DepthTooSmall);
        }
        if max_depth > 10 {
            return Result::Err(WorldError::DepthTooLarge);
        }
        if player_view > 512 {
            return Result::Err(WorldError::ViewDistanceTooLarge);
        }
        let d: u32 = max_depth - 1;
        proof {
            vstd::arithmetic::power2::lemma2_to64();
        }
        let mut size: i64 = 64;
        let mut k: u32 = 0;
        while k < d
            invariant
                k <= d <= 9,
                size == 64 * vstd::arithmetic::power2::pow2(k as nat),
                64 <= size <= 32768,
            decreases d - k,
        {
            proof {
                vstd::arithmetic::power2::lemma_pow2_unfold((k + 1) as nat);
                vstd::arithmetic::power2::lemma_pow2_pos(k as nat);
                if k + 1 <= 9 {
                    vstd::arithmetic::power2::lemma2_to64();
                    if k + 1 < 9 {
                        vstd::arithmetic::power2::lemma_pow2_strictly_increases(
                            (k + 1) as nat,
                            9,
                        );
                    }
                }
            }
            size = size * 2;
            k = k + 1;
        }
        let mut root = Node::new(0, 0, size);
        let dist: i64 = (player_view as i64) * 64;
        proof {
            vstd::arithmetic::power2::lemma_pow2_unfold(d as nat);
            vstd::arithmetic::power2::lemma_pow2_pos((d - 1) as nat);
            assert(size / 2 == 64 * vstd::arithmetic::power2::pow2((d - 1) as nat) as int) by {
                vstd::arithmetic::div_mod::lemma_div_multiples_vanish(
                    64 * vstd::arithmetic::power2::pow2((d - 1) as nat) as int,
                    2,
                );
            }
            vstd::arithmetic::div_mod::lemma_mod_multiples_basic(
                -(vstd::arithmetic::power2::pow2((d - 1) as nat) as int),
                64,
            );
        }
        root.load_player_nodes(d, target_x, target_z, dist, mode);
        Result::Ok(Octree { root, max_depth })
    }

    /// Locates the node holding `(px, pz)`, or nothing when the point lies
    /// outside the world square.
    pub fn find_node(&self, px: i64, pz: i64) -> (r: Option<NodeInfo>)
        requires
            self.wf(),
            -COORD_LIMIT <= px <= COORD_LIMIT,
            -COORD_LIMIT <= pz <= COORD_LIMIT,
        ensures
            r == self.root.spec_find(self.max_depth as nat, px as int, pz as int),
    {
        self.root.find_node(self.max_depth, px, pz)
    }
}

/// The streamed world: the viewer state it was last loaded for and the
/// spatial index that owns the terrain.
pub struct World {
    pub player_pos: (i64, i64, i64),
    pub player_distance: usize,
    pub root: Octree,
}

/// Depth of the world tree every `World` is built with.
pub const WORLD_DEPTH: u32 = 5;

impl World {
    /// Builds a five-level world around the player and loads the leaves
    /// within `player_distance` chunks of the player's ground position.
    pub fn new(player_pos: (i64, i64, i64), player_distance: usize, mode: &HeightMode) -> (r:
        Result<World, WorldError>)
        requires
            -COORD_LIMIT <= player_pos.0 <= COORD_LIMIT,
            -COORD_LIMIT <= player_pos.2 <= COORD_LIMIT,
            mode.wf(),
        ensures
            player_distance > 512 ==> r == Result::<World, WorldError>::Err(
                WorldError::ViewDistanceTooLarge,
            ),
            player_distance <= 512 ==> r is Ok && {
                let w = r->Ok_0;
                &&& w.player_pos == player_pos
                &&& w.player_distance == player_distance
                &&& w.root.wf()
                &&& w.root.max_depth == WORLD_DEPTH
                &&& spec_loaded_for(
                    w.root.root,
                    (WORLD_DEPTH - 1) as nat,
                    player_pos.0 as int,
                    player_pos.2 as int,
                    player_distance * 64,
                    *mode,
                )
            },
    {
        let root = Octree::new(player_pos.0, player_pos.2, player_distance, WORLD_DEPTH, mode);
        match root {
            Result::Ok(root) => Result::Ok(World { player_pos, player_distance, root }),
            Result::Err(e) => Result::Err(e),
        }
    }

    /// Locates the node under a world position, or nothing when the
    /// position lies outside the world.
    pub fn find_node(&self, px: i64, pz: i64) -> (r: Option<NodeInfo>)
        requires
            self.root.wf(),
            -COORD_LIMIT <= px <= COORD_LIMIT,
            -COORD_LIMIT <= pz <= COORD_LIMIT,
        ensures
            r == self.root.root.spec_find(self.root.max_depth as nat, px as int, pz as int),
    {
        self.root.find_node(px, pz)
    }
}

} // verus!
