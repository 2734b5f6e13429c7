//! The foliage consumption and regrowth cycle.

use rabbit_sim::foliage::{
    consume_foliage, initial_foliage_spawn, regenerate_foliage, spawn_single_foliage, Foliage,
    FoliageConsumedEvent,
};
use rabbit_sim::world::{Loc, VoxelType, WorldMap};

fn grass_grid(width: usize, height: usize) -> WorldMap {
    let columns = vec![vec![VoxelType::GrassVoxel; height]; width];
    WorldMap::spawn_world(width, height, columns)
}

#[test]
fn consumed_patch_regrows_after_twenty_one_ticks() {
    let mut field = vec![spawn_single_foliage(Loc { x: 3, z: 3 })];
    consume_foliage(&mut field, &vec![FoliageConsumedEvent(0)]);
    assert!(field[0].consumed);
    assert_eq!(field[0].regen_counter, 0);
    for tick in 1..=21 {
        regenerate_foliage(&mut field);
        assert!(field[0].consumed, "still consumed at tick {}", tick);
        assert_eq!(field[0].regen_counter, tick);
    }
    regenerate_foliage(&mut field);
    assert!(!field[0].consumed);
    assert_eq!(field[0].regen_counter, 0);
}

#[test]
fn consume_resets_counter_and_spares_others() {
    let mut field = vec![
        spawn_single_foliage(Loc { x: 1, z: 1 }),
        spawn_single_foliage(Loc { x: 2, z: 2 }),
    ];
    consume_foliage(&mut field, &vec![FoliageConsumedEvent(1), FoliageConsumedEvent(1)]);
    assert!(!field[0].consumed);
    assert!(field[1].consumed);
    assert_eq!(field[1].regen_counter, 0);
    assert_eq!(field[1].location, Loc { x: 2, z: 2 });
}

#[test]
fn consume_skips_unknown_patch_index() {
    let mut field = vec![spawn_single_foliage(Loc { x: 1, z: 1 })];
    consume_foliage(&mut field, &vec![FoliageConsumedEvent(7)]);
    assert_eq!(field.len(), 1);
    assert!(!field[0].consumed);
}

#[test]
fn regrowth_leaves_available_patches_alone() {
    let mut field = vec![spawn_single_foliage(Loc { x: 1, z: 1 })];
    regenerate_foliage(&mut field);
    assert!(!field[0].consumed);
    assert_eq!(field[0].regen_counter, 0);
}

#[test]
fn initial_foliage_only_on_grass() {
    let mut columns = vec![vec![VoxelType::GrassVoxel; 30]; 30];
    for x in 0..30 {
        for z in 0..30 {
            if (x + z) % 3 == 0 {
                columns[x][z] = VoxelType::WaterVoxel;
            } else if (x + z) % 3 == 1 {
                columns[x][z] = VoxelType::SandVoxel;
            }
        }
    }
    let grid = WorldMap::spawn_world(30, 30, columns.clone());
    let field: Vec<Foliage> = initial_foliage_spawn(&grid);
    for p in &field {
        assert_eq!(columns[p.location.x][p.location.z], VoxelType::GrassVoxel);
        assert!(!p.consumed);
        assert_eq!(p.regen_counter, 0);
    }
    // no two patches share a cell
    for i in 0..field.len() {
        for j in (i + 1)..field.len() {
            assert_ne!(field[i].location, field[j].location);
        }
    }
}

#[test]
fn seeding_an_all_grass_field_places_some_patches() {
    // 40 * 40 grass cells at one-in-ten each: seeing none is vanishingly
    // unlikely, and would point at the seeding never sampling its chance
    let grid = grass_grid(40, 40);
    let field = initial_foliage_spawn(&grid);
    assert!(field.len() > 0);
    assert!(field.len() < 1600);
}
