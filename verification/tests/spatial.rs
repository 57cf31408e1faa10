use voxelengine::chunk::HeightMode;
use voxelengine::octree::{Node, Octree, World, WorldError};

#[test]
fn split_produces_four_half_size_quadrants() {
    let mut n = Node::new(0, 0, 256);
    n.split();
    assert_eq!(n.children.len(), 4);
    let centers: Vec<(i64, i64)> = n.children.iter().map(|c| (c.x, c.z)).collect();
    assert_eq!(centers, vec![(-64, 64), (64, 64), (-64, -64), (64, -64)]);
    for c in &n.children {
        assert_eq!(c.size, 128);
    }
    // four quarter areas make up the parent's area exactly
    let area_sum: i64 = n.children.iter().map(|c| c.size * c.size).sum();
    assert_eq!(area_sum, 256 * 256);
}

#[test]
fn node_distance_is_squared_distance_minus_half_size() {
    let n = Node::new(64, 64, 128);
    assert_eq!(n.distance(0, 0), 64 * 64 + 64 * 64 - 64);
    assert_eq!(n.distance(64, 64), -64);
}

#[test]
fn node_containment_is_a_closed_square() {
    let n = Node::new(0, 0, 128);
    assert!(n.is_inside(64, -64));
    assert!(n.is_inside(0, 0));
    assert!(!n.is_inside(65, 0));
    assert!(!n.is_inside(0, -65));
}

#[test]
fn unload_clears_the_chunk_list() {
    let mut o = Octree::new(0, 0, 127, 3, &HeightMode::Flat).unwrap();
    // the quadrant nearest the origin was loaded with one chunk
    let leaf = &mut o.root.children[0].children[3];
    assert_eq!(leaf.chunks.len(), 1);
    leaf.unload_chunk();
    assert!(leaf.chunks.is_empty());
}

#[test]
fn world_configuration_is_validated_up_front() {
    assert!(matches!(
        Octree::new(0, 0, 4, 0, &HeightMode::Flat),
        Err(WorldError::DepthTooSmall)
    ));
    assert!(matches!(
        Octree::new(0, 0, 4, 1, &HeightMode::Flat),
        Err(WorldError::DepthTooSmall)
    ));
    assert!(matches!(
        Octree::new(0, 0, 4, 11, &HeightMode::Flat),
        Err(WorldError::DepthTooLarge)
    ));
    assert!(matches!(
        Octree::new(0, 0, 513, 5, &HeightMode::Flat),
        Err(WorldError::ViewDistanceTooLarge)
    ));
    assert!(World::new((0, 0, 0), 600, &HeightMode::Flat).is_err());
}

#[test]
fn viewer_out_of_range_loads_no_leaf() {
    // a three-level world of 64-unit chunks viewed from the origin with a
    // view distance of one chunk: every quadrant's metric (64^2 + 64^2 -
    // 64) exceeds the distance, so no leaf is populated
    let o = Octree::new(0, 0, 1, 3, &HeightMode::Flat).unwrap();
    assert_eq!(o.root.children.len(), 4);
    for c in &o.root.children {
        assert!(c.distance(0, 0) > 64);
        assert!(c.children.is_empty());
        assert!(c.chunks.is_empty());
    }
}

#[test]
fn viewer_in_range_loads_exactly_the_near_leaves() {
    // with the distance raised to cover the quadrant metric, each quadrant
    // splits and exactly its origin-nearest leaf is materialized
    let dist_chunks = 127;
    let o = Octree::new(0, 0, dist_chunks, 3, &HeightMode::Flat).unwrap();
    assert_eq!(o.root.children.len(), 4);
    for (ci, c) in o.root.children.iter().enumerate() {
        assert!(c.distance(0, 0) <= 127 * 64);
        assert_eq!(c.children.len(), 4);
        for (gi, g) in c.children.iter().enumerate() {
            let near = g.distance(0, 0) <= 127 * 64;
            if near {
                assert_eq!(g.chunks.len(), 1, "child {} grandchild {}", ci, gi);
            } else {
                assert!(g.chunks.is_empty());
            }
        }
        // exactly one grandchild per quadrant touches the origin
        let loaded = c.children.iter().filter(|g| !g.chunks.is_empty()).count();
        assert_eq!(loaded, 1);
    }
}

#[test]
fn find_node_returns_the_node_at_a_center_point() {
    let o = Octree::new(0, 0, 1, 3, &HeightMode::Flat).unwrap();
    // the world is 256 wide; its quadrants are unsplit leaves
    let tr = &o.root.children[1];
    let info = o.find_node(tr.x, tr.z).unwrap();
    assert_eq!((info.x, info.z, info.size), (64, 64, 128));
    assert!(info.is_leaf);
    assert_eq!(info.chunk_count, 0);
}

#[test]
fn find_node_rejects_points_outside_the_world() {
    let o = Octree::new(0, 0, 1, 3, &HeightMode::Flat).unwrap();
    assert!(o.find_node(129, 0).is_none());
    assert!(o.find_node(0, -129).is_none());
    assert!(o.find_node(1000, 1000).is_none());
    // boundary points still resolve
    assert!(o.find_node(128, 128).is_some());
}

#[test]
fn world_builds_and_locates_nodes() {
    let w = World::new((10, 0, -20), 2, &HeightMode::Flat).unwrap();
    assert_eq!(w.player_distance, 2);
    assert_eq!(w.root.max_depth, 5);
    // world size is 2^4 * 64 = 1024
    assert_eq!(w.root.root.size, 1024);
    let info = w.find_node(10, -20).unwrap();
    assert!(info.size >= 64);
    assert!(w.find_node(513, 0).is_none());
}

#[test]
fn get_objects_reconstructs_world_positions() {
    let o = Octree::new(0, 0, 127, 3, &HeightMode::Flat).unwrap();
    // the loaded leaf of the first quadrant covers chunk (-1, 0)
    let leaf = &o.root.children[0].children[3];
    let objects = leaf.get_objects();
    assert_eq!(objects.len(), 64 * 64 * 90);
    assert_eq!(objects[0].x, -64);
    assert_eq!(objects[0].y, 0);
    assert_eq!(objects[0].z, 0);
    assert_eq!(objects[1].x, -63);
    // the last block sits at the far corner of the topmost layer
    let last = objects[objects.len() - 1];
    assert_eq!((last.x, last.y, last.z), (-1, 89, 63));
}
