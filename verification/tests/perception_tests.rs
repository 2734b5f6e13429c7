//! Perception: sight windows, resource lists and partner lists.

use rabbit_sim::foliage::spawn_single_foliage;
use rabbit_sim::perception::{update_rabbit_nearby_resources, update_rabbit_partner_list};
use rabbit_sim::rabbit::Rabbit;
use rabbit_sim::world::{Loc, VoxelType, WorldMap};

fn grass_grid(width: usize, height: usize) -> WorldMap {
    let columns = vec![vec![VoxelType::GrassVoxel; height]; width];
    WorldMap::spawn_world(width, height, columns)
}

fn make_rabbit(entity: u64, id: u32, x: usize, z: usize) -> Rabbit {
    Rabbit {
        entity,
        id,
        hunger: 50,
        thirst: 50,
        location: Loc { x, z },
        plants_in_range: Vec::new(),
        water_in_range: Vec::new(),
        partner_in_range: Vec::new(),
        sight_distance: 3,
        satisfaction_threshold: 50,
        full_threshold: 70,
        age: 0,
        mating_cooldown: 0,
    }
}

#[test]
fn sight_window_is_chebyshev_inclusive() {
    let grid = grass_grid(20, 20);
    // (8, 8) lies on the corner of the radius-3 box; (9, 5) lies outside it
    let foliage = vec![
        spawn_single_foliage(Loc { x: 8, z: 8 }),
        spawn_single_foliage(Loc { x: 9, z: 5 }),
    ];
    let mut rabbits = vec![make_rabbit(0, 0, 5, 5)];
    update_rabbit_nearby_resources(&mut rabbits, &foliage, &grid);
    assert_eq!(rabbits[0].plants_in_range, vec![0]);
}

#[test]
fn consumed_patches_are_invisible() {
    let grid = grass_grid(20, 20);
    let mut patch = spawn_single_foliage(Loc { x: 6, z: 6 });
    patch.consumed = true;
    let foliage = vec![patch];
    let mut rabbits = vec![make_rabbit(0, 0, 5, 5)];
    update_rabbit_nearby_resources(&mut rabbits, &foliage, &grid);
    assert!(rabbits[0].plants_in_range.is_empty());
}

#[test]
fn water_list_in_row_major_order() {
    let mut columns = vec![vec![VoxelType::GrassVoxel; 20]; 20];
    columns[6][6] = VoxelType::WaterVoxel;
    columns[3][4] = VoxelType::WaterVoxel;
    columns[15][15] = VoxelType::WaterVoxel; // out of sight
    let grid = WorldMap::spawn_world(20, 20, columns);
    let mut rabbits = vec![make_rabbit(0, 0, 5, 5)];
    update_rabbit_nearby_resources(&mut rabbits, &Vec::new(), &grid);
    assert_eq!(
        rabbits[0].water_in_range,
        vec![Loc { x: 3, z: 4 }, Loc { x: 6, z: 6 }]
    );
}

#[test]
fn partner_list_takes_adults_off_cooldown_in_sight() {
    let mut scout = make_rabbit(0, 0, 5, 5);
    scout.age = 25;
    let mut adult = make_rabbit(1, 1, 6, 6);
    adult.age = 20;
    let mut young = make_rabbit(2, 2, 5, 6);
    young.age = 10;
    let mut cooling = make_rabbit(3, 3, 4, 5);
    cooling.age = 30;
    cooling.mating_cooldown = 5;
    let mut far = make_rabbit(4, 4, 12, 5);
    far.age = 30;
    let mut rabbits = vec![scout, adult, young, cooling, far];
    update_rabbit_partner_list(&mut rabbits);
    assert_eq!(rabbits[0].partner_in_range, vec![1]);
}

#[test]
fn underage_scout_keeps_empty_partner_list() {
    let mut scout = make_rabbit(0, 0, 5, 5);
    scout.age = 19;
    let mut adult = make_rabbit(1, 1, 5, 6);
    adult.age = 30;
    let mut rabbits = vec![scout, adult];
    update_rabbit_partner_list(&mut rabbits);
    assert!(rabbits[0].partner_in_range.is_empty());
    // the adult sees nobody eligible either: the other rabbit is underage
    assert!(rabbits[1].partner_in_range.is_empty());
}

#[test]
fn a_rabbit_is_not_its_own_partner() {
    let mut lone = make_rabbit(0, 0, 5, 5);
    lone.age = 30;
    let mut rabbits = vec![lone];
    update_rabbit_partner_list(&mut rabbits);
    assert!(rabbits[0].partner_in_range.is_empty());
}
