//! The spatial index, exercised at a fixed-point scale of ten units per
//! pixel where a scenario involves fractional coordinates, and at unit
//! scale where everything is integral.

use boids::geom::Vec2i;
use boids::voxel::VoxelHashMap;

fn v(x: i64, y: i64) -> Vec2i {
    Vec2i::new(x, y)
}

#[test]
fn test_vec2_to_key() {
    // Coordinates scaled by ten: cell size 1.0 becomes 10.
    let mut voxel = VoxelHashMap::new();
    voxel.set_cell_size(10);
    assert_eq!(voxel.vec2_to_key(v(0, 0)), (0, 0));
    assert_eq!(voxel.vec2_to_key(v(18, 10)), (1, 1));
    assert_eq!(voxel.vec2_to_key(v(10, 0)), (1, 0));
    assert_eq!(voxel.vec2_to_key(v(0, 11)), (0, 1));
    assert_eq!(voxel.vec2_to_key(v(0, 110)), (0, 11));
    assert_eq!(voxel.vec2_to_key(v(180, 10)), (18, 1));
}

#[test]
fn test_vec2_to_key_with_voxel_dim() {
    // Cell size 2.0 at scale ten.
    let mut voxel = VoxelHashMap::new();
    voxel.set_cell_size(20);
    assert_eq!(voxel.vec2_to_key(v(0, 0)), (0, 0));
    assert_eq!(voxel.vec2_to_key(v(18, 10)), (0, 0));
    assert_eq!(voxel.vec2_to_key(v(10, 0)), (0, 0));
    assert_eq!(voxel.vec2_to_key(v(0, 11)), (0, 0));
    assert_eq!(voxel.vec2_to_key(v(0, 110)), (0, 5));
    assert_eq!(voxel.vec2_to_key(v(180, 10)), (9, 0));
}

#[test]
fn test_key_to_vec2() {
    // Cell size 12.5 at scale ten.
    let mut voxel = VoxelHashMap::new();
    voxel.set_cell_size(125);
    assert_eq!(voxel.key_to_vec2((0, 0)), v(0, 0));
    assert_eq!(voxel.key_to_vec2((1, 1)), v(125, 125));
    assert_eq!(voxel.key_to_vec2((1, 0)), v(125, 0));
    assert_eq!(voxel.key_to_vec2((0, 1)), v(0, 125));
    assert_eq!(voxel.key_to_vec2((0, 11)), v(0, 1375));
    assert_eq!(voxel.key_to_vec2((18, 1)), v(2250, 125));
}

#[test]
fn test_get_neighbor_keys() {
    // Cell size 10.0 at scale ten.
    let mut voxel = VoxelHashMap::new();
    voxel.set_cell_size(100);

    let neighbours = voxel.get_neighbor_keys(v(0, 0));
    assert_eq!(neighbours.len(), 8);
    assert!(neighbours.contains(&(1, 0)));
    assert!(neighbours.contains(&(1, 1)));
    assert!(neighbours.contains(&(0, 1)));
    assert!(neighbours.contains(&(-1, 1)));
    assert!(neighbours.contains(&(-1, 0)));
    assert!(neighbours.contains(&(-1, -1)));
    assert!(neighbours.contains(&(0, -1)));
    assert!(neighbours.contains(&(1, -1)));

    let neighbours = voxel.get_neighbor_keys(v(500, 500));
    assert_eq!(neighbours.len(), 8);
    assert!(neighbours.contains(&(6, 5)));
    assert!(neighbours.contains(&(6, 6)));
    assert!(neighbours.contains(&(5, 6)));
    assert!(neighbours.contains(&(4, 6)));
    assert!(neighbours.contains(&(4, 5)));
    assert!(neighbours.contains(&(4, 4)));
    assert!(neighbours.contains(&(5, 4)));
    assert!(neighbours.contains(&(6, 4)));
}

#[test]
fn test_get_neighbor_entities() {
    let mut voxel = VoxelHashMap::new();
    voxel.set_cell_size(100);

    let entity_1 = 0u64;
    voxel.insert(v(550, 200), entity_1);

    let entity_2 = 1u64;
    voxel.insert(v(600, 300), entity_2);

    let entity_3 = 2u64;
    voxel.insert(v(650, 400), entity_3);

    let entities = voxel.get_neighbor_entities(v(550, 200));
    assert_eq!(entities.len(), 1);
    assert!(entities.contains(&entity_2));
    assert!(!entities.contains(&entity_1));
    assert!(!entities.contains(&entity_3));

    let entities = voxel.get_neighbor_entities(v(600, 300));
    assert_eq!(entities.len(), 2);
    assert!(entities.contains(&entity_1));
    assert!(entities.contains(&entity_3));
    assert!(!entities.contains(&entity_2));

    let entities = voxel.get_neighbor_entities(v(650, 400));
    assert_eq!(entities.len(), 1);
    assert!(entities.contains(&entity_2));
    assert!(!entities.contains(&entity_1));
    assert!(!entities.contains(&entity_3));
}

#[test]
fn test_insert() {
    let mut voxel = VoxelHashMap::new();
    voxel.set_cell_size(100);

    let entity_1 = 0u64;
    voxel.insert(v(550, 200), entity_1);

    assert_eq!(voxel.num_cells(), 1);
    assert_eq!(voxel.cell_count((5, 2)), 1);
    assert!(voxel.contains(v(550, 200), entity_1));

    let entity_2 = 1u64;
    voxel.insert(v(599, 299), entity_2);

    // The second entity lands in the same voxel.
    assert_eq!(voxel.num_cells(), 1);
    assert_eq!(voxel.cell_count((5, 2)), 2);
    assert!(voxel.contains(v(550, 200), entity_1));
    assert!(voxel.contains(v(599, 299), entity_2));

    let entity_3 = 2u64;
    voxel.insert(v(600, 300), entity_3);

    // The third entity lands in another voxel.
    assert_eq!(voxel.num_cells(), 2);
    assert_eq!(voxel.cell_count((5, 2)), 2);
    assert!(voxel.contains(v(550, 200), entity_1));
    assert!(voxel.contains(v(550, 200), entity_2));
    assert_eq!(voxel.cell_count((6, 3)), 1);
    assert!(voxel.contains(v(600, 300), entity_3));
    assert!(!voxel.contains(v(550, 200), entity_3));
}

#[test]
fn test_insert_idempotent() {
    let mut voxel = VoxelHashMap::new();
    voxel.set_cell_size(100);
    voxel.insert(v(550, 200), 7);
    voxel.insert(v(550, 200), 7);
    voxel.insert(v(555, 205), 7);
    assert_eq!(voxel.num_cells(), 1);
    assert_eq!(voxel.cell_count((5, 2)), 1);
}

#[test]
fn test_contains() {
    let mut voxel = VoxelHashMap::new();
    voxel.set_cell_size(100);

    let entity_1 = 0u64;
    voxel.insert(v(550, 200), entity_1);

    assert!(voxel.contains(v(550, 200), entity_1));
    assert!(!voxel.contains(v(550, 200), 1u64));
}

#[test]
fn test_remove() {
    let mut voxel = VoxelHashMap::new();
    voxel.set_cell_size(100);

    let entity_1 = 0u64;
    voxel.insert(v(550, 200), entity_1);

    assert_eq!(voxel.num_cells(), 1);
    assert_eq!(voxel.cell_count((5, 2)), 1);
    assert!(voxel.contains(v(550, 200), entity_1));

    voxel.remove(v(550, 200), entity_1);

    // The emptied cell is pruned, not merely left empty.
    assert_eq!(voxel.num_cells(), 0);
    assert!(!voxel.has_cell((5, 2)));
    assert_eq!(voxel.cell_count((5, 2)), 0);
}

#[test]
fn test_remove_absent_is_noop() {
    let mut voxel = VoxelHashMap::new();
    voxel.set_cell_size(100);
    voxel.insert(v(550, 200), 0);
    voxel.remove(v(550, 200), 9);
    voxel.remove(v(50, 50), 0);
    assert_eq!(voxel.num_cells(), 1);
    assert!(voxel.contains(v(550, 200), 0));
}

#[test]
fn test_move_to() {
    let mut voxel = VoxelHashMap::new();
    voxel.set_cell_size(100);

    let entity_1 = 0u64;
    voxel.insert(v(550, 200), entity_1);

    assert_eq!(voxel.num_cells(), 1);
    assert_eq!(voxel.cell_count((5, 2)), 1);
    assert!(voxel.contains(v(550, 200), entity_1));

    voxel.move_to(v(550, 200), v(600, 300), entity_1);

    assert_eq!(voxel.num_cells(), 1);
    assert!(!voxel.has_cell((5, 2)));
    assert_eq!(voxel.cell_count((6, 3)), 1);
    assert!(voxel.contains(v(600, 300), entity_1));
}

#[test]
fn test_update_entity() {
    let mut voxel = VoxelHashMap::new();
    voxel.set_cell_size(100);

    let entity_1 = 0u64;
    voxel.insert(v(550, 200), entity_1);

    assert_eq!(voxel.num_cells(), 1);
    assert_eq!(voxel.cell_count((5, 2)), 1);
    assert!(voxel.contains(v(550, 200), entity_1));

    voxel.update_entity(v(550, 200), v(600, 300), entity_1);

    assert_eq!(voxel.num_cells(), 1);
    assert!(!voxel.has_cell((5, 2)));
    assert_eq!(voxel.cell_count((6, 3)), 1);
    assert!(voxel.contains(v(600, 300), entity_1));

    voxel.update_entity(v(600, 300), v(650, 400), entity_1);

    assert_eq!(voxel.num_cells(), 1);
    assert!(!voxel.has_cell((6, 3)));
    assert_eq!(voxel.cell_count((6, 4)), 1);
    assert!(voxel.contains(v(650, 400), entity_1));
}

#[test]
fn test_update_entity_same_cell_is_noop() {
    let mut voxel = VoxelHashMap::new();
    voxel.set_cell_size(100);
    voxel.insert(v(550, 200), 0);
    voxel.update_entity(v(550, 200), v(599, 299), 0);
    assert_eq!(voxel.num_cells(), 1);
    assert_eq!(voxel.cell_count((5, 2)), 1);
    assert!(voxel.contains(v(550, 200), 0));
}

#[test]
fn test_candidates_near_superset() {
    // Unit scale: cell size 10, entity A at (55, 20) in cell (5, 2), entity
    // B at (60, 30) in cell (6, 3); B is about 11.18 away from A, so a
    // query of radius 12 around A must report it. A itself may appear: the
    // caller, not the index, excludes the querying entity.
    let mut voxel = VoxelHashMap::new();
    voxel.set_cell_size(10);

    let a = 0u64;
    let b = 1u64;
    voxel.insert(v(55, 20), a);
    voxel.insert(v(60, 30), b);
    assert_eq!(voxel.vec2_to_key(v(55, 20)), (5, 2));
    assert_eq!(voxel.vec2_to_key(v(60, 30)), (6, 3));

    let candidates = voxel.candidates_near(v(55, 20), 12);
    assert!(candidates.contains(&b));
    for id in &candidates {
        assert!(*id == a || *id == b);
    }
}

#[test]
fn test_neighbor_keys_within_block() {
    let mut voxel = VoxelHashMap::new();
    voxel.set_cell_size(10);
    // radius 12 spans ceil(12 / 10) = 2 rings: a 5 x 5 block.
    let keys = voxel.get_neighbor_keys_within(v(55, 20), 12);
    assert_eq!(keys.len(), 25);
    assert!(keys.contains(&(5, 2)));
    assert!(keys.contains(&(3, 0)));
    assert!(keys.contains(&(7, 4)));
    assert!(!keys.contains(&(8, 2)));
}
