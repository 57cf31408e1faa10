use voxelengine::block::BlockType;
use voxelengine::chunk::{Chunk, HeightMode, CHUNK_LENGTH};
use voxelengine::mesh::{GreedyMesh, Quad, VertexBlock};

fn layer_grid(w: usize, solid: &[(usize, usize)]) -> Vec<BlockType> {
    let mut grid = vec![BlockType::Air; w * w];
    for &(x, z) in solid {
        grid[z * w + x] = BlockType::Stone;
    }
    grid
}

#[test]
fn a_single_cell_becomes_a_unit_quad() {
    let grid = layer_grid(2, &[(0, 0)]);
    let quads = GreedyMesh::create_quads(&grid, 2, 1, 0);
    assert_eq!(quads, vec![Quad { x: 0, z: 0, width: 1, length: 1 }]);
}

#[test]
fn a_full_layer_merges_into_one_quad() {
    let grid = vec![BlockType::Dirt; 4 * 4];
    let quads = GreedyMesh::create_quads(&grid, 4, 1, 0);
    assert_eq!(quads, vec![Quad { x: 0, z: 0, width: 4, length: 4 }]);
}

#[test]
fn greedy_extends_along_x_first_then_z() {
    // an L of three cells: the first quad takes the full first row, the
    // remaining cell gets its own quad
    let grid = layer_grid(3, &[(0, 0), (1, 0), (0, 1)]);
    let quads = GreedyMesh::create_quads(&grid, 3, 1, 0);
    assert_eq!(
        quads,
        vec![
            Quad { x: 0, z: 0, width: 2, length: 1 },
            Quad { x: 0, z: 1, width: 1, length: 1 },
        ]
    );
}

#[test]
fn greedy_merges_rectangles_across_rows() {
    // a 2x2 block plus a lone cell
    let grid = layer_grid(4, &[(1, 1), (2, 1), (1, 2), (2, 2), (0, 0)]);
    let quads = GreedyMesh::create_quads(&grid, 4, 1, 0);
    assert_eq!(
        quads,
        vec![
            Quad { x: 0, z: 0, width: 1, length: 1 },
            Quad { x: 1, z: 1, width: 2, length: 2 },
        ]
    );
}

#[test]
fn quads_cover_exactly_the_solid_cells() {
    // an irregular pattern: the quads' cells must be exactly the solid
    // cells, each covered once
    let w = 5;
    let solid = [(0, 0), (1, 0), (3, 0), (0, 1), (1, 1), (3, 1), (3, 2), (4, 2), (2, 4)];
    let grid = layer_grid(w, &solid);
    let quads = GreedyMesh::create_quads(&grid, w, 1, 0);
    let mut covered = vec![0u32; w * w];
    for q in &quads {
        assert!(q.width >= 1 && q.length >= 1);
        assert!(q.x + q.width <= w && q.z + q.length <= w);
        for dz in 0..q.length {
            for dx in 0..q.width {
                covered[(q.z + dz) * w + (q.x + dx)] += 1;
            }
        }
    }
    for z in 0..w {
        for x in 0..w {
            let is_solid = solid.contains(&(x, z));
            assert_eq!(covered[z * w + x], if is_solid { 1 } else { 0 });
        }
    }
}

#[test]
fn quad_expansion_yields_a_full_cuboid() {
    let vs = VertexBlock::new_quad(2, -1, 3, 4, 1, 5);
    assert_eq!(vs.len(), 36);
    for v in &vs {
        assert!(v.px == 2 || v.px == 6);
        assert!(v.py == -1 || v.py == 0);
        assert!(v.pz == 3 || v.pz == 8);
        let n = (v.nx, v.ny, v.nz);
        assert!(
            n == (1, 0, 0)
                || n == (-1, 0, 0)
                || n == (0, 1, 0)
                || n == (0, -1, 0)
                || n == (0, 0, 1)
                || n == (0, 0, -1)
        );
    }
    // six faces, six vertices each, in the fixed face order
    let order: Vec<u32> = vs.iter().map(|v| v.face_index).collect();
    for k in 0..6 {
        let expect = [0, 1, 2, 3, 5, 4][k];
        for i in 0..6 {
            assert_eq!(order[6 * k + i], expect);
        }
    }
    // each face group shares its face's outward normal and stays in its plane
    for k in 0..6 {
        let (nx, ny, nz) = [(1, 0, 0), (-1, 0, 0), (0, 1, 0), (0, -1, 0), (0, 0, 1), (0, 0, -1)][k];
        for i in 0..6 {
            let v = vs[6 * k + i];
            assert_eq!((v.nx, v.ny, v.nz), (nx, ny, nz));
            match k {
                0 => assert_eq!(v.px, 6),
                1 => assert_eq!(v.px, 2),
                2 => assert_eq!(v.py, 0),
                3 => assert_eq!(v.py, -1),
                4 => assert_eq!(v.pz, 8),
                _ => assert_eq!(v.pz, 3),
            }
        }
    }
    // exact first vertices of the first two faces
    assert_eq!((vs[0].px, vs[0].py, vs[0].pz, vs[0].u, vs[0].v), (6, 0, 8, 0, 0));
    assert_eq!((vs[6].px, vs[6].py, vs[6].pz, vs[6].u, vs[6].v), (2, 0, 8, 4, 0));
}

#[test]
fn create_greedy_expands_each_quad() {
    let grid = vec![BlockType::Dirt; 3 * 3];
    let vs = GreedyMesh::create_greedy(&grid, 3, 1);
    assert_eq!(vs.len(), 36);
}

#[test]
fn a_flat_chunk_meshes_its_bottom_layer_into_one_quad() {
    let c = Chunk::new(1, -1, &HeightMode::Flat);
    assert_eq!(
        c.quads,
        vec![Quad { x: 0, z: 0, width: CHUNK_LENGTH, length: CHUNK_LENGTH }]
    );
}

#[test]
fn no_quad_starts_at_anothers_right_edge_in_its_row() {
    // a ragged pattern: two quads starting in the same row never abut in
    // x, since the scan would have merged them
    let w = 6;
    let solid = [
        (0, 0), (1, 0), (2, 0), (4, 0),
        (0, 1), (1, 1), (3, 1), (4, 1), (5, 1),
        (2, 3), (3, 3), (4, 3),
    ];
    let grid = layer_grid(w, &solid);
    let quads = GreedyMesh::create_quads(&grid, w, 1, 0);
    for (i, q) in quads.iter().enumerate() {
        for (j, p) in quads.iter().enumerate() {
            if i != j && p.z == q.z {
                assert_ne!(q.x, p.x + p.width, "quad {} abuts quad {}", i, j);
            }
        }
    }
}
