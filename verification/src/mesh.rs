//! Greedy meshing: merging the exposed cells of a horizontal layer into
//! maximal rectangles, and expanding each rectangle into a renderable
//! cuboid of vertices.

use vstd::prelude::*;
use crate::block::BlockType;
use crate::chunk::{cell_index, col_index, cell_is_air, lemma_grid_index_bounds};

verus! {

/// The six faces of a cuboid, in the order the vertex buffers use.
pub enum Face {
    Right,
    Left,
    Top,
    Bottom,
    Front,
    Back,
}

/// A mesh with no per-vertex data, for pipelines that generate geometry
/// on their own.
#[derive(Clone, Copy, PartialEq, Eq, Structural, Debug, Default)]
pub struct EmptyVertex;

/// One merged rectangle of solid cells within a horizontal layer.
#[derive(Clone, Copy, PartialEq, Eq, Structural, Debug)]
pub struct Quad {
    /// Lowest covered cell column.
    pub x: usize,
    /// Lowest covered cell row.
    pub z: usize,
    /// Extent along `x`, at least one.
    pub width: usize,
    /// Extent along `z`, at least one.
    pub length: usize,
}

/// The quad covers the cell `(x, z)`.
pub open spec fn quad_covers(q: Quad, x: int, z: int) -> bool {
    q.x <= x < q.x + q.width && q.z <= z < q.z + q.length
}

/// Some quad of the list covers the cell `(x, z)`.
pub open spec fn quads_cover(qs: Seq<Quad>, x: int, z: int) -> bool {
    exists|i: int| 0 <= i < qs.len() && quad_covers(#[trigger] qs[i], x, z)
}

/// The quad lies within a footprint of `w` and is not degenerate.
pub open spec fn quad_in_bounds(q: Quad, w: int) -> bool {
    &&& 1 <= q.width
    &&& 1 <= q.length
    &&& q.x + q.width <= w
    &&& q.z + q.length <= w
}

/// No cell is covered by both quads.
pub open spec fn quads_disjoint(q1: Quad, q2: Quad) -> bool {
    forall|x: int, z: int| !(#[trigger] quad_covers(q1, x, z) && quad_covers(q2, x, z))
}

/// The rectangle `qs[i]` is merged as far right as the scan allows: at its
/// right edge the layer ends, the next cell is air, or a rectangle emitted
/// before it already covers that cell. In particular no rectangle starts
/// at another's right edge in the same row.
pub open spec fn quad_right_maximal(
    qs: Seq<Quad>,
    grid: Seq<BlockType>,
    w: int,
    y: int,
    i: int,
) -> bool {
    let q = qs[i];
    ||| q.x + q.width == w
    ||| grid[cell_index(w, q.x + q.width, q.z as int, y)] is Air
    ||| quads_cover(qs.subrange(0, i), q.x + q.width, q.z as int)
}

/// The full contract of greedy meshing over one layer: the quads stay in
/// bounds, cover exactly the solid cells of the layer, overlap nowhere,
/// and each is merged right as far as the scan allows.
pub open spec fn spec_quads_valid(qs: Seq<Quad>, grid: Seq<BlockType>, w: int, y: int) -> bool {
    &&& forall|i: int| 0 <= i < qs.len() ==> quad_in_bounds(#[trigger] qs[i], w)
    &&& forall|x: int, z: int|
        0 <= x < w && 0 <= z < w ==> (#[trigger] quads_cover(qs, x, z) <==> !(grid[cell_index(
            w,
            x,
            z,
            y,
        )] is Air))
    &&& forall|i: int, j: int| 0 <= i < j < qs.len() ==> quads_disjoint(qs[i], qs[j])
    &&& forall|i: int| 0 <= i < qs.len() ==> #[trigger] quad_right_maximal(qs, grid, w, y, i)
}

/// Two different columns of one footprint have different flat indices.
pub proof fn lemma_col_index_injective(w: int, x1: int, z1: int, x2: int, z2: int)
    requires
        0 <= x1 < w,
        0 <= z1 < w,
        0 <= x2 < w,
        0 <= z2 < w,
        col_index(w, x1, z1) == col_index(w, x2, z2),
    ensures
        x1 == x2,
        z1 == z2,
{
    assert(z1 == z2 && x1 == x2) by (nonlinear_arith)
        requires
            0 <= x1 < w,
            0 <= z1 < w,
            0 <= x2 < w,
            0 <= z2 < w,
            z1 * w + x1 == z2 * w + x2,
    ;
}

/// Whether the cell `(x, z)` of layer `y` is solid.
fn solid_at(grid: &Vec<BlockType>, w: usize, h: usize, x: usize, z: usize, y: usize) -> (r: bool)
    requires
        grid@.len() == w * w * h,
        1 <= w <= 64,
        h <= 256,
        x < w,
        z < w,
        y < h,
    ensures
        r == !(grid@[cell_index(w as int, x as int, z as int, y as int)] is Air),
{
    !cell_is_air(grid, w, h, x, z, y)
}

/// The cell `(xx, zz)` of layer `y` is solid and not yet covered by an
/// emitted quad.
pub open spec fn cell_free(
    grid: Seq<BlockType>,
    consumed: Seq<bool>,
    w: int,
    xx: int,
    zz: int,
    y: int,
) -> bool {
    !consumed[col_index(w, xx, zz)] && !(grid[cell_index(w, xx, zz, y)] is Air)
}

/// The cells `x0 <= xx < x1` of row `zz` are all solid and not yet covered
/// by an emitted quad.
pub open spec fn row_clear(
    grid: Seq<BlockType>,
    consumed: Seq<bool>,
    w: int,
    x0: int,
    x1: int,
    zz: int,
    y: int,
) -> bool {
    forall|xx: int| x0 <= xx < x1 ==> #[trigger] cell_free(grid, consumed, w, xx, zz, y)
}

/// Whether a whole row of `width` cells at row `zz` is still free to merge:
/// solid and not yet covered by an earlier quad.
fn row_free(
    grid: &Vec<BlockType>,
    consumed: &Vec<bool>,
    w: usize,
    h: usize,
    x: usize,
    width: usize,
    zz: usize,
    y: usize,
) -> (r: bool)
    requires
        grid@.len() == w * w * h,
        consumed@.len() == w * w,
        1 <= w <= 64,
        h <= 256,
        x < w,
        1 <= width,
        x + width <= w,
        zz < w,
        y < h,
    ensures
        r ==> row_clear(grid@, consumed@, w as int, x as int, x + width, zz as int, y as int),
{
    let mut dx: usize = 0;
    while dx < width
        invariant
            grid@.len() == w * w * h,
            consumed@.len() == w * w,
            1 <= w <= 64,
            h <= 256,
            x < w,
            1 <= width,
            x + width <= w,
            zz < w,
            y < h,
            0 <= dx <= width,
            row_clear(grid@, consumed@, w as int, x as int, x + dx, zz as int, y as int),
        decreases width - dx,
    {
        proof {
            lemma_grid_index_bounds(w as int, x + dx, zz as int, 0);
        }
        assert(zz * w + (x + dx) < 4096) by (nonlinear_arith)
            requires
                zz < w,
                x + dx < w,
                w <= 64,
        ;
        let ci: usize = zz * w + (x + dx);
        assert(ci == col_index(w as int, x + dx, zz as int));
        if consumed[ci] || !solid_at(grid, w, h, x + dx, zz, y) {
            return false;
        }
        proof {
            let x0 = x as int;
            let x1 = x as int + dx as int + 1;
            assert forall|xx: int| x0 <= xx < x1 implies #[trigger] cell_free(
                grid@,
                consumed@,
                w as int,
                xx,
                zz as int,
                y as int,
            ) by {
                if xx < x0 + dx {
                    assert(cell_free(grid@, consumed@, w as int, xx, zz as int, y as int));
                } else {
                    assert(xx == x as int + dx as int);
                    assert(!consumed@[col_index(w as int, xx, zz as int)]);
                    assert(!(grid@[cell_index(w as int, xx, zz as int, y as int)] is Air));
                }
            }
            assert(row_clear(grid@, consumed@, w as int, x0, x1, zz as int, y as int));
        }
        dx = dx + 1;
    }
    true
}

/// Covering a list extended by one quad covers a cell exactly when the
/// list already covered it or the new quad does.
pub proof fn lemma_quads_cover_push(qs: Seq<Quad>, q: Quad, x: int, z: int)
    ensures
        quads_cover(qs.push(q), x, z) == (quads_cover(qs, x, z) || quad_covers(q, x, z)),
{
    if quads_cover(qs.push(q), x, z) {
        let i = choose|i: int| 0 <= i < qs.push(q).len() && quad_covers(#[trigger] qs.push(q)[i], x, z);
        if i < qs.len() {
            assert(qs[i] == qs.push(q)[i]);
            assert(quads_cover(qs, x, z));
        } else {
            assert(qs.push(q)[i] == q);
        }
    }
    if quads_cover(qs, x, z) {
        let i = choose|i: int| 0 <= i < qs.len() && quad_covers(#[trigger] qs[i], x, z);
        assert(quad_covers(qs.push(q)[i], x, z));
    }
    if quad_covers(q, x, z) {
        assert(quad_covers(qs.push(q)[qs.len() as int], x, z));
    }
}

/// The greedy mesher over the chunk grids.
pub struct GreedyMesh;

impl GreedyMesh {

/// The greedy mesh of one horizontal layer: scan the layer row-major; at
/// each uncovered solid cell grow a rectangle first along `x`, then row by
/// row along `z`, mark its cells, and emit it. The emitted quads cover
/// exactly the solid cells of the layer, without overlap, and each is
/// merged rightward as far as the scan allows.
#[verifier::rlimit(100)]
pub fn create_quads(grid: &Vec<BlockType>, w: usize, h: usize, y: usize) -> (qs: Vec<Quad>)
    requires
        grid@.len() == w * w * h,
        1 <= w <= 64,
        h <= 256,
        y < h,
    ensures
        spec_quads_valid(qs@, grid@, w as int, y as int),
{
    let mut consumed: Vec<bool> = Vec::new();
    let mut k: usize = 0;
    assert(w * w <= 4096) by (nonlinear_arith)
        requires
            w <= 64,
    ;
    while k < w * w
        invariant
            consumed@.len() == k,
            k <= w * w,
            w * w <= 4096,
            forall|i: int| 0 <= i < k ==> !(#[trigger] consumed@[i]),
        decreases w * w - k,
    {
        consumed.push(false);
        k = k + 1;
    }
    let mut qs: Vec<Quad> = Vec::new();
    proof {
        assert forall|xx: int, zz: int| 0 <= xx < w && 0 <= zz < w implies (#[trigger] quads_cover(
            qs@,
            xx,
            zz,
        ) <==> consumed@[col_index(w as int, xx, zz)]) by {
            lemma_grid_index_bounds(w as int, xx, zz, 0);
            assert(!consumed@[col_index(w as int, xx, zz)]);
            if quads_cover(qs@, xx, zz) {
                let i = choose|i: int|
                    0 <= i < qs@.len() && quad_covers(#[trigger] qs@[i], xx, zz);
                assert(false);
            }
        }
    }
    let mut z: usize = 0;
    while z < w
        invariant
            grid@.len() == w * w * h,
            consumed@.len() == w * w,
            w * w <= 4096,
            1 <= w <= 64,
            h <= 256,
            y < h,
            0 <= z <= w,
            forall|i: int| 0 <= i < qs@.len() ==> quad_in_bounds(#[trigger] qs@[i], w as int),
            forall|xx: int, zz: int|
                0 <= xx < w && 0 <= zz < w ==> (#[trigger] quads_cover(qs@, xx, zz) <==> consumed@[col_index(
                    w as int,
                    xx,
                    zz,
                )]),
            forall|xx: int, zz: int|
                0 <= xx < w && 0 <= zz < w && #[trigger] quads_cover(qs@, xx, zz) ==> !(
                grid@[cell_index(w as int, xx, zz, y as int)] is Air),
            forall|xx: int, zz: int|
                0 <= xx < w && 0 <= zz < z && !(grid@[#[trigger] cell_index(
                    w as int,
                    xx,
                    zz,
                    y as int,
                )] is Air) ==> consumed@[col_index(w as int, xx, zz)],
            forall|i: int, j: int| 0 <= i < j < qs@.len() ==> quads_disjoint(qs@[i], qs@[j]),
            forall|i: int|
                0 <= i < qs@.len() ==> #[trigger] quad_right_maximal(
                    qs@,
                    grid@,
                    w as int,
                    y as int,
                    i,
                ),
        decreases w - z,
    {
        let mut x: usize = 0;
        while x < w
            invariant
                grid@.len() == w * w * h,
                consumed@.len() == w * w,
                w * w <= 4096,
                1 <= w <= 64,
                h <= 256,
                y < h,
                0 <= z < w,
                0 <= x <= w,
                forall|i: int| 0 <= i < qs@.len() ==> quad_in_bounds(#[trigger] qs@[i], w as int),
                forall|xx: int, zz: int|
                    0 <= xx < w && 0 <= zz < w ==> (#[trigger] quads_cover(qs@, xx, zz)
                        <==> consumed@[col_index(w as int, xx, zz)]),
                forall|xx: int, zz: int|
                    0 <= xx < w && 0 <= zz < w && #[trigger] quads_cover(qs@, xx, zz) ==> !(
                    grid@[cell_index(w as int, xx, zz, y as int)] is Air),
                forall|xx: int, zz: int|
                    0 <= xx < w && 0 <= zz < z && !(grid@[#[trigger] cell_index(
                        w as int,
                        xx,
                        zz,
                        y as int,
                    )] is Air) ==> consumed@[col_index(w as int, xx, zz)],
                forall|xx: int|
                    0 <= xx < x && !(grid@[#[trigger] cell_index(
                        w as int,
                        xx,
                        z as int,
                        y as int,
                    )] is Air) ==> consumed@[col_index(w as int, xx, z as int)],
                forall|i: int, j: int| 0 <= i < j < qs@.len() ==> quads_disjoint(qs@[i], qs@[j]),
                forall|i: int|
                    0 <= i < qs@.len() ==> #[trigger] quad_right_maximal(
                        qs@,
                        grid@,
                        w as int,
                        y as int,
                        i,
                    ),
            decreases w - x,
        {
            assert(z * w + x < w * w) by (nonlinear_arith)
                requires
                    0 <= z < w,
                    0 <= x < w,
            ;
            let ci: usize = z * w + x;
            assert(ci == col_index(w as int, x as int, z as int));
            if !consumed[ci] && solid_at(grid, w, h, x, z, y) {
                // grow the rectangle along x
                let mut qw: usize = 1;
                proof {
                    assert forall|xx: int| x <= xx < x + 1 implies #[trigger] cell_free(
                        grid@,
                        consumed@,
                        w as int,
                        xx,
                        z as int,
                        y as int,
                    ) by {
                        assert(xx == x as int);
                    }
                }
                let mut grow: bool = true;
                while grow && x + qw < w
                    invariant
                        grid@.len() == w * w * h,
                        consumed@.len() == w * w,
                        w * w <= 4096,
                        1 <= w <= 64,
                        h <= 256,
                        y < h,
                        0 <= z < w,
                        0 <= x < w,
                        1 <= qw,
                        x + qw <= w,
                        row_clear(
                            grid@,
                            consumed@,
                            w as int,
                            x as int,
                            x + qw,
                            z as int,
                            y as int,
                        ),
                        grow || (x + qw < w && !cell_free(
                            grid@,
                            consumed@,
                            w as int,
                            x + qw,
                            z as int,
                            y as int,
                        )),
                    decreases w - qw, (if grow {
                        1int
                    } else {
                        0int
                    }),
                {
                    proof {
                        lemma_grid_index_bounds(w as int, x + qw, z as int, 0);
                    }
                    let cj: usize = z * w + (x + qw);
                    assert(cj == col_index(w as int, x + qw, z as int));
                    if !consumed[cj] && solid_at(grid, w, h, x + qw, z, y) {
                        proof {
                        let x0 = x as int;
                        let x1 = x as int + qw as int + 1;
                        assert forall|xx: int| x0 <= xx < x1 implies #[trigger] cell_free(
                            grid@,
                            consumed@,
                            w as int,
                            xx,
                            z as int,
                            y as int,
                        ) by {
                            if xx < x0 + qw {
                                assert(cell_free(
                                    grid@,
                                    consumed@,
                                    w as int,
                                    xx,
                                    z as int,
                                    y as int,
                                ));
                            } else {
                                assert(xx == x as int + qw as int);
                            }
                        }
                        }
                        qw = qw + 1;
                    } else {
                        assert(!cell_free(
                            grid@,
                            consumed@,
                            w as int,
                            x + qw,
                            z as int,
                            y as int,
                        ));
                        grow = false;
                    }
                }
                proof {
                    assert(x + qw == w || !cell_free(
                        grid@,
                        consumed@,
                        w as int,
                        x + qw,
                        z as int,
                        y as int,
                    ));
                }
                // grow the rectangle along z
                let mut ql: usize = 1;
                while z + ql < w && row_free(grid, &consumed, w, h, x, qw, z + ql, y)
                    invariant
                        grid@.len() == w * w * h,
                        consumed@.len() == w * w,
                        w * w <= 4096,
                        1 <= w <= 64,
                        h <= 256,
                        y < h,
                        0 <= z < w,
                        0 <= x < w,
                        1 <= qw,
                        x + qw <= w,
                        1 <= ql,
                        z + ql <= w,
                        forall|zz: int|
                            z <= zz < z + ql ==> #[trigger] row_clear(
                                grid@,
                                consumed@,
                                w as int,
                                x as int,
                                x + qw,
                                zz,
                                y as int,
                            ),
                    decreases w - ql,
                {
                    proof {
                        assert forall|zz: int| z <= zz < z + ql + 1 implies #[trigger] row_clear(
                            grid@,
                            consumed@,
                            w as int,
                            x as int,
                            x + qw,
                            zz,
                            y as int,
                        ) by {
                            if zz < z + ql {
                                assert(row_clear(
                                    grid@,
                                    consumed@,
                                    w as int,
                                    x as int,
                                    x + qw,
                                    zz,
                                    y as int,
                                ));
                            } else {
                                assert(zz == z as int + ql as int);
                            }
                        }
                    }
                    ql = ql + 1;
                }
                let q = Quad { x, z, width: qw, length: ql };
                // every cell of the rectangle is solid and was uncovered
                let ghost pre = consumed@;
                proof {
                    assert forall|xx: int, zz: int| quad_covers(q, xx, zz) implies cell_free(
                        grid@,
                        pre,
                        w as int,
                        xx,
                        zz,
                        y as int,
                    ) by {
                        assert(row_clear(grid@, pre, w as int, x as int, x + qw, zz, y as int));
                    }
                }
                // mark the rectangle as consumed
                let mut dz: usize = 0;
                while dz < ql
                    invariant
                        consumed@.len() == w * w,
                        w * w <= 4096,
                        1 <= w <= 64,
                        0 <= z < w,
                        0 <= x < w,
                        1 <= qw,
                        x + qw <= w,
                        1 <= ql,
                        z + ql <= w,
                        0 <= dz <= ql,
                        q == (Quad { x, z, width: qw, length: ql }),
                        forall|xx: int, zz: int|
                            0 <= xx < w && 0 <= zz < w ==> consumed@[#[trigger] col_index(
                                w as int,
                                xx,
                                zz,
                            )] == (pre[col_index(w as int, xx, zz)] || (quad_covers(q, xx, zz) && zz
                                < z + dz)),
                    decreases ql - dz,
                {
                    let mut dx: usize = 0;
                    while dx < qw
                        invariant
                            consumed@.len() == w * w,
                            w * w <= 4096,
                            1 <= w <= 64,
                            0 <= z < w,
                            0 <= x < w,
                            1 <= qw,
                            x + qw <= w,
                            1 <= ql,
                            z + ql <= w,
                            0 <= dz < ql,
                            0 <= dx <= qw,
                            q == (Quad { x, z, width: qw, length: ql }),
                            forall|xx: int, zz: int|
                                0 <= xx < w && 0 <= zz < w ==> consumed@[#[trigger] col_index(
                                    w as int,
                                    xx,
                                    zz,
                                )] == (pre[col_index(w as int, xx, zz)] || (quad_covers(q, xx, zz)
                                    && (zz < z + dz || (zz == z + dz && xx < x + dx)))),
                        decreases qw - dx,
                    {
                        proof {
                            lemma_grid_index_bounds(w as int, x + dx, z + dz, 0);
                        }
                        assert((z + dz) * w + (x + dx) < w * w) by (nonlinear_arith)
                            requires
                                0 <= z + dz < w,
                                0 <= x + dx < w,
                        ;
                        let cm: usize = (z + dz) * w + (x + dx);
                        assert(cm == col_index(w as int, x + dx, z + dz));
                        let ghost before = consumed@;
                        consumed.set(cm, true);
                        proof {
                            assert forall|xx: int, zz: int|
                                0 <= xx < w && 0 <= zz < w implies consumed@[#[trigger] col_index(
                                w as int,
                                xx,
                                zz,
                            )] == (pre[col_index(w as int, xx, zz)] || (quad_covers(q, xx, zz) && (
                            zz < z + dz || (zz == z + dz && xx < x + dx + 1)))) by {
                                lemma_grid_index_bounds(w as int, xx, zz, 0);
                                if col_index(w as int, xx, zz) == cm {
                                    lemma_col_index_injective(
                                        w as int,
                                        xx,
                                        zz,
                                        x + dx,
                                        z + dz,
                                    );
                                } else {
                                    assert(consumed@[col_index(w as int, xx, zz)] == before[col_index(
                                        w as int,
                                        xx,
                                        zz,
                                    )]);
                                }
                            }
                        }
                        dx = dx + 1;
                    }
                    dz = dz + 1;
                }
                let ghost qs_old = qs@;
                qs.push(q);
                proof {
                    assert forall|xx: int, zz: int| 0 <= xx < w && 0 <= zz < w implies (
                    #[trigger] quads_cover(qs@, xx, zz) <==> consumed@[col_index(
                        w as int,
                        xx,
                        zz,
                    )]) by {
                        lemma_quads_cover_push(qs_old, q, xx, zz);
                        assert(consumed@[col_index(w as int, xx, zz)] == (pre[col_index(
                            w as int,
                            xx,
                            zz,
                        )] || quad_covers(q, xx, zz)));
                    }
                    assert forall|xx: int, zz: int|
                        0 <= xx < w && 0 <= zz < w && #[trigger] quads_cover(
                            qs@,
                            xx,
                            zz,
                        ) implies !(grid@[cell_index(w as int, xx, zz, y as int)] is Air) by {
                        lemma_quads_cover_push(qs_old, q, xx, zz);
                        if quad_covers(q, xx, zz) {
                            assert(cell_free(grid@, pre, w as int, xx, zz, y as int));
                        }
                    }
                    assert forall|i: int, j: int|
                        0 <= i < j < qs@.len() implies quads_disjoint(qs@[i], qs@[j]) by {
                        if j < qs_old.len() {
                            assert(quads_disjoint(qs_old[i], qs_old[j]));
                            assert(qs@[i] == qs_old[i] && qs@[j] == qs_old[j]);
                        } else {
                            assert(qs@[j] == q && qs@[i] == qs_old[i]);
                            assert forall|xx: int, zz: int|
                                !(#[trigger] quad_covers(qs@[i], xx, zz) && quad_covers(
                                    q,
                                    xx,
                                    zz,
                                )) by {
                                if quad_covers(qs@[i], xx, zz) && quad_covers(q, xx, zz) {
                                    assert(quad_in_bounds(qs_old[i], w as int));
                                    assert(0 <= xx < w && 0 <= zz < w);
                                    assert(cell_free(grid@, pre, w as int, xx, zz, y as int));
                                    assert(quads_cover(qs_old, xx, zz));
                                    assert(pre[col_index(w as int, xx, zz)]);
                                }
                            }
                        }
                    }
                    assert forall|xx: int|
                        0 <= xx < x + 1 && !(grid@[#[trigger] cell_index(
                            w as int,
                            xx,
                            z as int,
                            y as int,
                        )] is Air) implies consumed@[col_index(w as int, xx, z as int)] by {
                        if xx < x {
                            assert(pre[col_index(w as int, xx, z as int)]);
                        } else {
                            assert(quad_covers(q, xx, z as int));
                        }
                    }
                    assert forall|i: int|
                        0 <= i < qs@.len() implies #[trigger] quad_right_maximal(
                        qs@,
                        grid@,
                        w as int,
                        y as int,
                        i,
                    ) by {
                        if i < qs_old.len() {
                            assert(quad_right_maximal(qs_old, grid@, w as int, y as int, i));
                            assert(qs@[i] == qs_old[i]);
                            assert(qs@.subrange(0, i) =~= qs_old.subrange(0, i));
                        } else {
                            assert(qs@[i] == q);
                            assert(qs@.subrange(0, i) =~= qs_old);
                            if x + qw < w && !(grid@[cell_index(
                                w as int,
                                x + qw,
                                z as int,
                                y as int,
                            )] is Air) {
                                assert(pre[col_index(w as int, x + qw, z as int)]);
                                assert(quads_cover(qs_old, x + qw, z as int));
                            }
                        }
                    }
                }
            } else {
                proof {
                    assert forall|xx: int|
                        0 <= xx < x + 1 && !(grid@[#[trigger] cell_index(
                            w as int,
                            xx,
                            z as int,
                            y as int,
                        )] is Air) implies consumed@[col_index(w as int, xx, z as int)] by {
                    }
                }
            }
            x = x + 1;
        }
        z = z + 1;
    }
    qs
}

/// Meshes the bottom layer of a chunk grid and expands every merged quad
/// into its 36-vertex cuboid, one unit tall, sitting just below the layer:
/// the result is exactly the expansion, group by group, of a quad list
/// that covers the layer's solid cells.
pub fn create_greedy(grid: &Vec<BlockType>, w: usize, h: usize) -> (r: Vec<VertexBlock>)
    requires
        grid@.len() == w * w * h,
        1 <= w <= 64,
        1 <= h <= 256,
    ensures
        exists|qs: Seq<Quad>|
            #[trigger] spec_quads_valid(qs, grid@, w as int, 0) && r@.len() == qs.len() * 36
                && r@ == spec_expanded_quads(qs, qs.len() as int),
{
    let qs: Vec<Quad> = Self::create_quads(grid, w, h, 0);
    let mut r: Vec<VertexBlock> = Vec::new();
    let mut i: usize = 0;
    while i < qs.len()
        invariant
            1 <= w <= 64,
            i <= qs@.len(),
            forall|j: int| 0 <= j < qs@.len() ==> quad_in_bounds(#[trigger] qs@[j], w as int),
            r@.len() == i * 36,
            r@ == spec_expanded_quads(qs@, i as int),
        decreases qs.len() - i,
    {
        let q: Quad = qs[i];
        let mut vs: Vec<VertexBlock> = VertexBlock::new_quad(
            q.x as i64,
            -1,
            q.z as i64,
            q.width as i64,
            1,
            q.length as i64,
        );
        r.append(&mut vs);
        proof {
            assert(r@ =~= spec_expanded_quads(qs@, i + 1));
        }
        i = i + 1;
    }
    assert(spec_quads_valid(qs@, grid@, w as int, 0));
    assert(r@ == spec_expanded_quads(qs@, qs@.len() as int));
    r
}

}

/// One renderable vertex: integer position, unit normal, texture
/// coordinate and the index of the cuboid face it belongs to.
#[derive(Clone, Copy, PartialEq, Eq, Structural, Debug)]
pub struct VertexBlock {
    pub px: i64,
    pub py: i64,
    pub pz: i64,
    pub nx: i64,
    pub ny: i64,
    pub nz: i64,
    pub u: i64,
    pub v: i64,
    pub face_index: u32,
}

/// The face drawn by the `k`-th group of six vertices of a cuboid: right,
/// left, top, bottom, then the far and near `z` faces.
pub open spec fn spec_face_order(k: int) -> u32 {
    if k == 0 {
        0
    } else if k == 1 {
        1
    } else if k == 2 {
        2
    } else if k == 3 {
        3
    } else if k == 4 {
        5
    } else {
        4
    }
}

/// The vertex sits on a corner of the cuboid spanned by `(x, y, z)` and the
/// extents `(sx, sy, sz)`, and its normal is one signed unit axis.
pub open spec fn spec_cuboid_vertex(
    vb: VertexBlock,
    x: int,
    y: int,
    z: int,
    sx: int,
    sy: int,
    sz: int,
) -> bool {
    &&& (vb.px == x || vb.px == x + sx)
    &&& (vb.py == y || vb.py == y + sy)
    &&& (vb.pz == z || vb.pz == z + sz)
    &&& ((vb.nx == 1 || vb.nx == -1) && vb.ny == 0 && vb.nz == 0 || vb.nx == 0 && (vb.ny == 1
        || vb.ny == -1) && vb.nz == 0 || vb.nx == 0 && vb.ny == 0 && (vb.nz == 1 || vb.nz == -1))
}

/// The exact 36 vertices `new_quad` emits for the cuboid at `(x, y, z)`
/// with extents `(sx, sy, sz)`: six faces in the fixed order, each face's
/// six vertices on that face's four corners, sharing that face's outward
/// unit normal, with texture coordinates spanning the face's extents.
pub open spec fn spec_quad_vertices(x: int, y: int, z: int, sx: int, sy: int, sz: int) -> Seq<
    VertexBlock,
> {
    let xl = x as i64;
    let yl = y as i64;
    let zl = z as i64;
    let xe = (x + sx) as i64;
    let ye = (y + sy) as i64;
    let ze = (z + sz) as i64;
    let us = sx as i64;
    let vs = sy as i64;
    let ws = sz as i64;
    seq![
        // right face (+x)
        VertexBlock { px: xe, py: ye, pz: ze, nx: 1, ny: 0, nz: 0, u: 0, v: 0, face_index: 0 },
        VertexBlock { px: xe, py: ye, pz: zl, nx: 1, ny: 0, nz: 0, u: us, v: 0, face_index: 0 },
        VertexBlock { px: xe, py: yl, pz: zl, nx: 1, ny: 0, nz: 0, u: us, v: vs, face_index: 0 },
        VertexBlock { px: xe, py: yl, pz: zl, nx: 1, ny: 0, nz: 0, u: us, v: vs, face_index: 0 },
        VertexBlock { px: xe, py: yl, pz: ze, nx: 1, ny: 0, nz: 0, u: 0, v: vs, face_index: 0 },
        VertexBlock { px: xe, py: ye, pz: ze, nx: 1, ny: 0, nz: 0, u: 0, v: 0, face_index: 0 },
        // left face (-x)
        VertexBlock { px: xl, py: ye, pz: ze, nx: -1i64, ny: 0, nz: 0, u: us, v: 0, face_index: 1 },
        VertexBlock { px: xl, py: yl, pz: zl, nx: -1i64, ny: 0, nz: 0, u: 0, v: vs, face_index: 1 },
        VertexBlock { px: xl, py: ye, pz: zl, nx: -1i64, ny: 0, nz: 0, u: 0, v: 0, face_index: 1 },
        VertexBlock { px: xl, py: yl, pz: zl, nx: -1i64, ny: 0, nz: 0, u: 0, v: vs, face_index: 1 },
        VertexBlock { px: xl, py: ye, pz: ze, nx: -1i64, ny: 0, nz: 0, u: us, v: 0, face_index: 1 },
        VertexBlock { px: xl, py: yl, pz: ze, nx: -1i64, ny: 0, nz: 0, u: us, v: vs, face_index: 1 },
        // top face (+y)
        VertexBlock { px: xl, py: ye, pz: zl, nx: 0, ny: 1, nz: 0, u: 0, v: ws, face_index: 2 },
        VertexBlock { px: xe, py: ye, pz: zl, nx: 0, ny: 1, nz: 0, u: us, v: ws, face_index: 2 },
        VertexBlock { px: xe, py: ye, pz: ze, nx: 0, ny: 1, nz: 0, u: us, v: 0, face_index: 2 },
        VertexBlock { px: xe, py: ye, pz: ze, nx: 0, ny: 1, nz: 0, u: us, v: 0, face_index: 2 },
        VertexBlock { px: xl, py: ye, pz: ze, nx: 0, ny: 1, nz: 0, u: 0, v: 0, face_index: 2 },
        VertexBlock { px: xl, py: ye, pz: zl, nx: 0, ny: 1, nz: 0, u: 0, v: ws, face_index: 2 },
        // bottom face (-y)
        VertexBlock { px: xl, py: yl, pz: zl, nx: 0, ny: -1i64, nz: 0, u: 0, v: ws, face_index: 3 },
        VertexBlock { px: xe, py: yl, pz: ze, nx: 0, ny: -1i64, nz: 0, u: us, v: 0, face_index: 3 },
        VertexBlock { px: xe, py: yl, pz: zl, nx: 0, ny: -1i64, nz: 0, u: us, v: ws, face_index: 3 },
        VertexBlock { px: xe, py: yl, pz: ze, nx: 0, ny: -1i64, nz: 0, u: us, v: 0, face_index: 3 },
        VertexBlock { px: xl, py: yl, pz: zl, nx: 0, ny: -1i64, nz: 0, u: 0, v: ws, face_index: 3 },
        VertexBlock { px: xl, py: yl, pz: ze, nx: 0, ny: -1i64, nz: 0, u: 0, v: 0, face_index: 3 },
        // far z face
        VertexBlock { px: xe, py: yl, pz: ze, nx: 0, ny: 0, nz: 1, u: us, v: vs, face_index: 5 },
        VertexBlock { px: xl, py: ye, pz: ze, nx: 0, ny: 0, nz: 1, u: 0, v: 0, face_index: 5 },
        VertexBlock { px: xl, py: yl, pz: ze, nx: 0, ny: 0, nz: 1, u: 0, v: vs, face_index: 5 },
        VertexBlock { px: xl, py: ye, pz: ze, nx: 0, ny: 0, nz: 1, u: 0, v: 0, face_index: 5 },
        VertexBlock { px: xe, py: yl, pz: ze, nx: 0, ny: 0, nz: 1, u: us, v: vs, face_index: 5 },
        VertexBlock { px: xe, py: ye, pz: ze, nx: 0, ny: 0, nz: 1, u: us, v: 0, face_index: 5 },
        // near z face
        VertexBlock { px: xe, py: yl, pz: zl, nx: 0, ny: 0, nz: -1i64, u: us, v: vs, face_index: 4 },
        VertexBlock { px: xl, py: yl, pz: zl, nx: 0, ny: 0, nz: -1i64, u: 0, v: vs, face_index: 4 },
        VertexBlock { px: xl, py: ye, pz: zl, nx: 0, ny: 0, nz: -1i64, u: 0, v: 0, face_index: 4 },
        VertexBlock { px: xl, py: ye, pz: zl, nx: 0, ny: 0, nz: -1i64, u: 0, v: 0, face_index: 4 },
        VertexBlock { px: xe, py: ye, pz: zl, nx: 0, ny: 0, nz: -1i64, u: us, v: 0, face_index: 4 },
        VertexBlock { px: xe, py: yl, pz: zl, nx: 0, ny: 0, nz: -1i64, u: us, v: vs, face_index: 4 },
    ]
}

/// The vertex expansion of the first `k` quads of a list: each quad's
/// 36-vertex cuboid, one unit tall and sitting just below the layer,
/// concatenated in quad order.
pub open spec fn spec_expanded_quads(qs: Seq<Quad>, k: int) -> Seq<VertexBlock>
    decreases k,
{
    if k <= 0 {
        Seq::empty()
    } else {
        spec_expanded_quads(qs, k - 1) + spec_quad_vertices(
            qs[k - 1].x as int,
            -1,
            qs[k - 1].z as int,
            qs[k - 1].width as int,
            1,
            qs[k - 1].length as int,
        )
    }
}

impl VertexBlock {
    /// Expands one merged quad at `(x, y, z)` with extents `(sx, sy, sz)`
    /// into the 36 vertices of a six-faced cuboid: six faces in the fixed
    /// order, six vertices each, every vertex on a cuboid corner.
    #[verifier::rlimit(100)]
    pub fn new_quad(x: i64, y: i64, z: i64, sx: i64, sy: i64, sz: i64) -> (r: Vec<VertexBlock>)
        requires
            -0x10000000 <= x <= 0x10000000,
            -0x10000000 <= y <= 0x10000000,
            -0x10000000 <= z <= 0x10000000,
            0 <= sx <= 0x10000,
            0 <= sy <= 0x10000,
            0 <= sz <= 0x10000,
        ensures
            r@.len() == 36,
            forall|i: int|
                0 <= i < 36 ==> #[trigger] spec_cuboid_vertex(
                    r@[i],
                    x as int,
                    y as int,
                    z as int,
                    sx as int,
                    sy as int,
                    sz as int,
                ),
            forall|i: int| 0 <= i < 36 ==> (#[trigger] r@[i]).face_index == spec_face_order(i / 6),
            r@ == spec_quad_vertices(x as int, y as int, z as int, sx as int, sy as int, sz as int),
    {
        let x1: i64 = x + sx;
        let y1: i64 = y + sy;
        let z1: i64 = z + sz;
        let mut r: Vec<VertexBlock> = Vec::new();
        // right face (+x)
        r.push(VertexBlock { px: x1, py: y1, pz: z1, nx: 1, ny: 0, nz: 0, u: 0, v: 0, face_index: 0 });
        r.push(VertexBlock { px: x1, py: y1, pz: z, nx: 1, ny: 0, nz: 0, u: sx, v: 0, face_index: 0 });
        r.push(VertexBlock { px: x1, py: y, pz: z, nx: 1, ny: 0, nz: 0, u: sx, v: sy, face_index: 0 });
        r.push(VertexBlock { px: x1, py: y, pz: z, nx: 1, ny: 0, nz: 0, u: sx, v: sy, face_index: 0 });
        r.push(VertexBlock { px: x1, py: y, pz: z1, nx: 1, ny: 0, nz: 0, u: 0, v: sy, face_index: 0 });
        r.push(VertexBlock { px: x1, py: y1, pz: z1, nx: 1, ny: 0, nz: 0, u: 0, v: 0, face_index: 0 });
        // left face (-x)
        r.push(VertexBlock { px: x, py: y1, pz: z1, nx: -1, ny: 0, nz: 0, u: sx, v: 0, face_index: 1 });
        r.push(VertexBlock { px: x, py: y, pz: z, nx: -1, ny: 0, nz: 0, u: 0, v: sy, face_index: 1 });
        r.push(VertexBlock { px: x, py: y1, pz: z, nx: -1, ny: 0, nz: 0, u: 0, v: 0, face_index: 1 });
        r.push(VertexBlock { px: x, py: y, pz: z, nx: -1, ny: 0, nz: 0, u: 0, v: sy, face_index: 1 });
        r.push(VertexBlock { px: x, py: y1, pz: z1, nx: -1, ny: 0, nz: 0, u: sx, v: 0, face_index: 1 });
        r.push(VertexBlock { px: x, py: y, pz: z1, nx: -1, ny: 0, nz: 0, u: sx, v: sy, face_index: 1 });
        // top face (+y)
        r.push(VertexBlock { px: x, py: y1, pz: z, nx: 0, ny: 1, nz: 0, u: 0, v: sz, face_index: 2 });
        r.push(VertexBlock { px: x1, py: y1, pz: z, nx: 0, ny: 1, nz: 0, u: sx, v: sz, face_index: 2 });
        r.push(VertexBlock { px: x1, py: y1, pz: z1, nx: 0, ny: 1, nz: 0, u: sx, v: 0, face_index: 2 });
        r.push(VertexBlock { px: x1, py: y1, pz: z1, nx: 0, ny: 1, nz: 0, u: sx, v: 0, face_index: 2 });
        r.push(VertexBlock { px: x, py: y1, pz: z1, nx: 0, ny: 1, nz: 0, u: 0, v: 0, face_index: 2 });
        r.push(VertexBlock { px: x, py: y1, pz: z, nx: 0, ny: 1, nz: 0, u: 0, v: sz, face_index: 2 });
        // bottom face (-y)
        r.push(VertexBlock { px: x, py: y, pz: z, nx: 0, ny: -1, nz: 0, u: 0, v: sz, face_index: 3 });
        r.push(VertexBlock { px: x1, py: y, pz: z1, nx: 0, ny: -1, nz: 0, u: sx, v: 0, face_index: 3 });
        r.push(VertexBlock { px: x1, py: y, pz: z, nx: 0, ny: -1, nz: 0, u: sx, v: sz, face_index: 3 });
        r.push(VertexBlock { px: x1, py: y, pz: z1, nx: 0, ny: -1, nz: 0, u: sx, v: 0, face_index: 3 });
        r.push(VertexBlock { px: x, py: y, pz: z, nx: 0, ny: -1, nz: 0, u: 0, v: sz, face_index: 3 });
        r.push(VertexBlock { px: x, py: y, pz: z1, nx: 0, ny: -1, nz: 0, u: 0, v: 0, face_index: 3 });
        // far z face
        r.push(VertexBlock { px: x1, py: y, pz: z1, nx: 0, ny: 0, nz: 1, u: sx, v: sy, face_index: 5 });
        r.push(VertexBlock { px: x, py: y1, pz: z1, nx: 0, ny: 0, nz: 1, u: 0, v: 0, face_index: 5 });
        r.push(VertexBlock { px: x, py: y, pz: z1, nx: 0, ny: 0, nz: 1, u: 0, v: sy, face_index: 5 });
        r.push(VertexBlock { px: x, py: y1, pz: z1, nx: 0, ny: 0, nz: 1, u: 0, v: 0, face_index: 5 });
        r.push(VertexBlock { px: x1, py: y, pz: z1, nx: 0, ny: 0, nz: 1, u: sx, v: sy, face_index: 5 });
        r.push(VertexBlock { px: x1, py: y1, pz: z1, nx: 0, ny: 0, nz: 1, u: sx, v: 0, face_index: 5 });
        // near z face
        r.push(VertexBlock { px: x1, py: y, pz: z, nx: 0, ny: 0, nz: -1, u: sx, v: sy, face_index: 4 });
        r.push(VertexBlock { px: x, py: y, pz: z, nx: 0, ny: 0, nz: -1, u: 0, v: sy, face_index: 4 });
        r.push(VertexBlock { px: x, py: y1, pz: z, nx: 0, ny: 0, nz: -1, u: 0, v: 0, face_index: 4 });
        r.push(VertexBlock { px: x, py: y1, pz: z, nx: 0, ny: 0, nz: -1, u: 0, v: 0, face_index: 4 });
        r.push(VertexBlock { px: x1, py: y1, pz: z, nx: 0, ny: 0, nz: -1, u: sx, v: 0, face_index: 4 });
        r.push(VertexBlock { px: x1, py: y, pz: z, nx: 0, ny: 0, nz: -1, u: sx, v: sy, face_index: 4 });
        proof {
            assert(r@ =~= spec_quad_vertices(
                x as int,
                y as int,
                z as int,
                sx as int,
                sy as int,
                sz as int,
            ));
        }
        r
    }
}

} // verus!
