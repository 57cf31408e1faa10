use voxelengine::block::{Block, BlockType, Materials};
use voxelengine::chunk::{
    generate_grid, occlusion_cull, Chunk, ChunkArea, HeightMode, CHUNK_HEIGHT, CHUNK_LENGTH,
    SURFACE_START,
};

fn cell(grid: &Vec<BlockType>, w: usize, x: usize, z: usize, y: usize) -> BlockType {
    grid[y * w * w + z * w + x]
}

#[test]
fn block_type_tags_and_masks() {
    assert_eq!(BlockType::variants(), 6);
    assert_eq!(BlockType::Air.as_raw(), 0);
    assert_eq!(BlockType::Sand.as_raw(), 5);
    assert_eq!(BlockType::Air.bit_mask(), 1);
    assert_eq!(BlockType::Dirt.bit_mask(), 2);
    assert_eq!(BlockType::Sand.bit_mask(), 32);
}

#[test]
fn materials_table_matches_the_atlas() {
    let all = Materials::get_all();
    assert_eq!(all.len(), 6);
    let dirt = all[BlockType::Dirt.as_raw() as usize];
    assert_eq!(dirt.top, 8 * 29 + 16);
    assert_eq!(dirt.bottom, 8 * 29 + 16);
    let grass = all[BlockType::Grass.as_raw() as usize];
    assert_eq!(grass.top, 14 * 29 + 17);
    assert_eq!(grass.bottom, 8 * 29 + 16);
    assert_eq!(grass.front, 10 * 29 + 16);
    let stone = all[BlockType::Stone.as_raw() as usize];
    assert_eq!(stone.left, 12);
}

#[test]
fn flat_generation_fills_every_cell() {
    let grid = generate_grid(0, 0, 4, 8, &HeightMode::Flat);
    assert_eq!(grid.len(), 4 * 4 * 8);
    // the flat surface sits far above an eight-cell column: all stone
    for b in &grid {
        assert_eq!(*b, BlockType::Stone);
    }
}

#[test]
fn full_chunk_generation_matches_the_surface_bands() {
    let c = Chunk::new(0, 0, &HeightMode::Flat);
    assert_eq!(c.all_blocks.len(), CHUNK_LENGTH * CHUNK_LENGTH * CHUNK_HEIGHT);
    assert_eq!(c.x, 0);
    assert_eq!(c.z, 0);
    // below the surface band: stone; the band layer: dirt; above: air
    assert_eq!(cell(&c.all_blocks, CHUNK_LENGTH, 0, 0, 0), BlockType::Stone);
    assert_eq!(cell(&c.all_blocks, CHUNK_LENGTH, 13, 7, SURFACE_START - 1), BlockType::Stone);
    assert_eq!(cell(&c.all_blocks, CHUNK_LENGTH, 63, 63, SURFACE_START), BlockType::Dirt);
    assert_eq!(cell(&c.all_blocks, CHUNK_LENGTH, 5, 60, SURFACE_START + 1), BlockType::Air);
    assert_eq!(cell(&c.all_blocks, CHUNK_LENGTH, 0, 0, CHUNK_HEIGHT - 1), BlockType::Air);
}

#[test]
fn noisy_generation_is_consistent_with_column_heights() {
    let mode = HeightMode::Noisy { seed: 7, octaves: 4, persistence: 32768, amplitude: 9 };
    let w = 8;
    let h = 100;
    let grid = generate_grid(-3, 5, w, h, &mode);
    assert_eq!(grid.len(), w * w * h);
    for z in 0..w {
        for x in 0..w {
            // find where the column turns to air
            let mut first_air = h;
            for y in 0..h {
                if cell(&grid, w, x, z, y) == BlockType::Air {
                    first_air = y;
                    break;
                }
            }
            // the surface band starts at the flat level and rises at most
            // by the amplitude
            assert!(first_air > SURFACE_START);
            assert!(first_air <= SURFACE_START + 10);
            for y in 0..h {
                let b = cell(&grid, w, x, z, y);
                if y < SURFACE_START && y < first_air {
                    assert_eq!(b, BlockType::Stone);
                } else if y < first_air {
                    assert_eq!(b, BlockType::Dirt);
                } else {
                    assert_eq!(b, BlockType::Air);
                }
            }
        }
    }
}

fn uniform_grid(w: usize, h: usize, t: BlockType) -> Vec<BlockType> {
    vec![t; w * w * h]
}

#[test]
fn culling_keeps_only_exposed_blocks() {
    // a solid 4x4x3 grid surrounded by solid neighbors: only the top layer
    // (treated as exposed by definition) survives
    let w = 4;
    let h = 3;
    let grid = uniform_grid(w, h, BlockType::Stone);
    let solid = uniform_grid(w, h, BlockType::Dirt);
    let culled = occlusion_cull(&grid, &solid, &solid, &solid, &solid, 0, 0, w, h);
    assert_eq!(culled.len(), w * w);
    for b in &culled {
        assert_eq!(b.y, (h - 1) as i64);
        assert_eq!(b.block_type, BlockType::Stone);
    }
}

#[test]
fn culling_is_idempotent_on_the_same_inputs() {
    let w = 4;
    let h = 3;
    let grid = uniform_grid(w, h, BlockType::Stone);
    let air = uniform_grid(w, h, BlockType::Air);
    let once = occlusion_cull(&grid, &air, &air, &air, &air, 2, -1, w, h);
    let twice = occlusion_cull(&grid, &air, &air, &air, &air, 2, -1, w, h);
    assert_eq!(once, twice);
}

#[test]
fn isolated_chunks_keep_every_solid_block() {
    // two single-layer chunks whose neighbors are all air: every solid
    // block touches boundary air above, so every one is retained
    let w = 4;
    let h = 1;
    let air = uniform_grid(w, h, BlockType::Air);
    for chunk_coord in [(0i64, 0i64), (-2, 3)] {
        let grid = uniform_grid(w, h, BlockType::Grass);
        let culled = occlusion_cull(
            &grid,
            &air,
            &air,
            &air,
            &air,
            chunk_coord.0,
            chunk_coord.1,
            w,
            h,
        );
        assert_eq!(culled.len(), w * w);
        // each cell appears exactly once
        let mut seen: Vec<(i64, i64, i64)> = culled.iter().map(|b| (b.x, b.y, b.z)).collect();
        seen.sort();
        seen.dedup();
        assert_eq!(seen.len(), w * w);
    }
}

#[test]
fn culling_reads_neighbor_boundary_columns() {
    // solid grid, solid neighbors except the west one: only the west rim
    // (and the top layer) stays visible
    let w = 4;
    let h = 2;
    let grid = uniform_grid(w, h, BlockType::Stone);
    let solid = uniform_grid(w, h, BlockType::Sand);
    let air = uniform_grid(w, h, BlockType::Air);
    let culled = occlusion_cull(&grid, &solid, &solid, &solid, &air, 0, 0, w, h);
    for z in 0..w {
        // west rim blocks of the lower layer survive through the air neighbor
        assert!(culled.iter().any(|b| b.x == 0 && b.y == 0 && b.z == z as i64));
        // the interior of the lower layer does not
        assert!(!culled.iter().any(|b| b.x == 2 && b.y == 0 && b.z == z as i64));
    }
}

#[test]
fn corner_edge_interior_partition_covers_each_layer() {
    let w = 64usize;
    let mut corners = 0;
    let mut edges = 0;
    let mut interior = 0;
    for z in 0..w {
        for x in 0..w {
            let on_x_rim = x == 0 || x == w - 1;
            let on_z_rim = z == 0 || z == w - 1;
            if on_x_rim && on_z_rim {
                corners += 1;
            } else if on_x_rim || on_z_rim {
                edges += 1;
            } else {
                interior += 1;
            }
        }
    }
    assert_eq!(corners, 4);
    assert_eq!(edges, 4 * (w - 2));
    assert_eq!(interior, (w - 2) * (w - 2));
    assert_eq!(corners + edges + interior, w * w);
}

#[test]
fn chunk_area_wires_interior_chunks_to_their_neighbors() {
    let area = ChunkArea::new((0, 0), &HeightMode::Flat);
    assert_eq!(area.chunks.len(), 18 * 18);
    // the low corner of the area is the halo chunk at (-1, -1)
    assert_eq!(area.chunks[0].x, -1);
    assert_eq!(area.chunks[0].z, -1);
    // halo chunks carry no culled geometry, interior chunks do
    assert!(area.chunks[0].culled_blocks.is_empty());
    let interior = &area.chunks[18 + 1];
    assert_eq!(interior.x, 0);
    assert_eq!(interior.z, 0);
    // the flat surface leaves exactly the top solid layer visible
    assert_eq!(interior.culled_blocks.len(), CHUNK_LENGTH * CHUNK_LENGTH);
    for b in &interior.culled_blocks {
        assert_eq!(b.y, SURFACE_START as i64);
        assert_eq!(b.block_type, BlockType::Dirt);
    }
    let quads = area.get_culled_objects();
    // one merged quad per interior chunk: the fully solid bottom layer
    assert_eq!(quads.len(), 16 * 16);
}

#[test]
fn culled_blocks_carry_world_positions() {
    let w = 2;
    let h = 1;
    let grid = uniform_grid(w, h, BlockType::Dirt);
    let air = uniform_grid(w, h, BlockType::Air);
    let culled = occlusion_cull(&grid, &air, &air, &air, &air, 3, -2, w, h);
    assert_eq!(culled.len(), 4);
    assert!(culled.contains(&Block { x: 6, y: 0, z: -4, block_type: BlockType::Dirt }));
    assert!(culled.contains(&Block { x: 7, y: 0, z: -3, block_type: BlockType::Dirt }));
}

#[test]
fn box_blur_averages_each_cell_in_place() {
    let mut grid = vec![0u32; 256];
    grid[0] = 90;
    let r = Chunk::box_blur(grid);
    // the corner averages over itself and its three present neighbors
    assert_eq!(r[0], 22);
    assert_eq!(r[1], 0);
    // the next column reads the already blurred corner value
    assert_eq!(r[16], 3);
    // a uniform grid is a fixed point of the blur
    let uniform = Chunk::box_blur(vec![100u32; 256]);
    assert!(uniform.iter().all(|&v| v == 100));
}

#[test]
fn height_mode_parameters_are_validated() {
    assert!(HeightMode::Flat.is_valid());
    let good = HeightMode::Noisy { seed: 1, octaves: 4, persistence: 30000, amplitude: 10 };
    assert!(good.is_valid());
    let no_octaves = HeightMode::Noisy { seed: 1, octaves: 0, persistence: 30000, amplitude: 10 };
    assert!(!no_octaves.is_valid());
    let wild_seed = HeightMode::Noisy { seed: 999999, octaves: 4, persistence: 30000, amplitude: 10 };
    assert!(!wild_seed.is_valid());
}
