//! The decision policy: priorities, seeking, drinking, eating, random walks
//! and starvation.

use rabbit_sim::foliage::{consume_foliage, spawn_single_foliage};
use rabbit_sim::movement::rabbit_movement;
use rabbit_sim::perception::{update_rabbit_nearby_resources, update_rabbit_partner_list};
use rabbit_sim::rabbit::{Rabbit, RabbitResource};
use rabbit_sim::sim::Simulation;
use rabbit_sim::lifecycle::RabbitAgeLocalCounter;
use rabbit_sim::world::{Loc, VoxelType, WorldMap};

fn grass_grid(width: usize, height: usize) -> WorldMap {
    let columns = vec![vec![VoxelType::GrassVoxel; height]; width];
    WorldMap::spawn_world(width, height, columns)
}

fn make_rabbit(entity: u64, id: u32, x: usize, z: usize) -> Rabbit {
    Rabbit {
        entity,
        id,
        hunger: 50,
        thirst: 50,
        location: Loc { x, z },
        plants_in_range: Vec::new(),
        water_in_range: Vec::new(),
        partner_in_range: Vec::new(),
        sight_distance: 3,
        satisfaction_threshold: 50,
        full_threshold: 70,
        age: 0,
        mating_cooldown: 0,
    }
}

fn sim_with(grid: WorldMap, rabbits: Vec<Rabbit>) -> Simulation {
    let next = rabbits.len() as u64;
    Simulation {
        grid,
        foliage: Vec::new(),
        rabbits: RabbitResource { rabbits, next_entity: next },
        age_counter: RabbitAgeLocalCounter { counter: 0 },
    }
}

#[test]
fn adjacent_water_is_drunk_without_moving() {
    // one water cell at (10, 10); a thirsty agent right below it at (10, 9)
    let mut columns = vec![vec![VoxelType::GrassVoxel; 60]; 60];
    columns[10][10] = VoxelType::WaterVoxel;
    let grid = WorldMap::spawn_world(60, 60, columns);
    let mut r = make_rabbit(0, 0, 10, 9);
    r.thirst = 30;
    r.hunger = 60;
    let mut sim = sim_with(grid, vec![r]);
    sim.gated_tick();
    assert_eq!(sim.rabbits.rabbits.len(), 1);
    assert_eq!(sim.rabbits.rabbits[0].thirst, 40);
    assert_eq!(sim.rabbits.rabbits[0].hunger, 60);
    assert_eq!(sim.rabbits.rabbits[0].location, Loc { x: 10, z: 9 });
}

#[test]
fn distant_water_draws_a_step() {
    let mut columns = vec![vec![VoxelType::GrassVoxel; 20]; 20];
    columns[2][5] = VoxelType::WaterVoxel;
    let grid = WorldMap::spawn_world(20, 20, columns);
    let mut r = make_rabbit(0, 0, 5, 5);
    r.hunger = 65;
    r.thirst = 60;
    let mut rabbits = vec![r];
    update_rabbit_nearby_resources(&mut rabbits, &Vec::new(), &grid);
    let (breeding, consumed) = rabbit_movement(&mut rabbits, &Vec::new(), &grid);
    assert!(breeding.is_empty());
    assert!(consumed.is_empty());
    assert_eq!(rabbits[0].location, Loc { x: 4, z: 5 });
    assert_eq!(rabbits[0].thirst, 60);
}

#[test]
fn diagonal_water_is_not_drinkable() {
    // the drink rule asks for a single-axis offset of one; a diagonal
    // neighbour only draws a step (the tie breaks along z)
    let mut columns = vec![vec![VoxelType::GrassVoxel; 20]; 20];
    columns[6][6] = VoxelType::WaterVoxel;
    let grid = WorldMap::spawn_world(20, 20, columns);
    let mut r = make_rabbit(0, 0, 5, 5);
    r.hunger = 65;
    r.thirst = 60;
    let mut rabbits = vec![r];
    update_rabbit_nearby_resources(&mut rabbits, &Vec::new(), &grid);
    rabbit_movement(&mut rabbits, &Vec::new(), &grid);
    assert_eq!(rabbits[0].thirst, 60);
    assert_eq!(rabbits[0].location, Loc { x: 5, z: 6 });
}

#[test]
fn vital_gain_clamps_only_at_the_counter_limit() {
    // consumption gains are uncapped by any rule of the simulation; only the
    // width of the counter bounds them
    let grid = grass_grid(20, 20);
    let foliage = vec![spawn_single_foliage(Loc { x: 5, z: 5 })];
    let mut r = make_rabbit(0, 0, 5, 5);
    r.hunger = u32::MAX - 5;
    r.thirst = u32::MAX;
    r.full_threshold = u32::MAX;
    let mut rabbits = vec![r];
    update_rabbit_nearby_resources(&mut rabbits, &foliage, &grid);
    rabbit_movement(&mut rabbits, &foliage, &grid);
    assert_eq!(rabbits[0].hunger, u32::MAX);
}

#[test]
fn hungry_rabbit_steps_toward_nearest_plant() {
    let grid = grass_grid(20, 20);
    let foliage = vec![spawn_single_foliage(Loc { x: 5, z: 7 })];
    let mut r = make_rabbit(0, 0, 5, 5);
    r.hunger = 60;
    r.thirst = 65;
    let mut rabbits = vec![r];
    update_rabbit_nearby_resources(&mut rabbits, &foliage, &grid);
    let (_, consumed) = rabbit_movement(&mut rabbits, &foliage, &grid);
    assert!(consumed.is_empty());
    assert_eq!(rabbits[0].location, Loc { x: 5, z: 6 });
    assert_eq!(rabbits[0].hunger, 60);
}

#[test]
fn first_found_wins_distance_ties() {
    let grid = grass_grid(20, 20);
    // both patches lie two cells away; the first in scan order wins
    let foliage = vec![
        spawn_single_foliage(Loc { x: 7, z: 5 }),
        spawn_single_foliage(Loc { x: 5, z: 7 }),
    ];
    let mut r = make_rabbit(0, 0, 5, 5);
    r.hunger = 60;
    r.thirst = 65;
    let mut rabbits = vec![r];
    update_rabbit_nearby_resources(&mut rabbits, &foliage, &grid);
    rabbit_movement(&mut rabbits, &foliage, &grid);
    assert_eq!(rabbits[0].location, Loc { x: 6, z: 5 });
}

#[test]
fn standing_on_a_plant_eats_it() {
    let grid = grass_grid(20, 20);
    let mut foliage = vec![spawn_single_foliage(Loc { x: 5, z: 5 })];
    let mut r = make_rabbit(0, 0, 5, 5);
    r.hunger = 60;
    r.thirst = 65;
    let mut rabbits = vec![r];
    update_rabbit_nearby_resources(&mut rabbits, &foliage, &grid);
    let (_, consumed) = rabbit_movement(&mut rabbits, &foliage, &grid);
    assert_eq!(consumed.len(), 1);
    assert_eq!(consumed[0].0, 0);
    assert_eq!(rabbits[0].hunger, 70);
    assert_eq!(rabbits[0].location, Loc { x: 5, z: 5 });
    consume_foliage(&mut foliage, &consumed);
    assert!(foliage[0].consumed);
}

#[test]
fn mate_seek_beats_food_seek() {
    // both rabbits are hungry enough for food-seek (hunger below the full
    // threshold, a patch in range), but every mate-seek precondition holds,
    // so they breed instead of eating
    let grid = grass_grid(20, 20);
    let foliage = vec![spawn_single_foliage(Loc { x: 5, z: 5 })];
    let mut a = make_rabbit(0, 0, 5, 5);
    a.age = 25;
    let mut b = make_rabbit(1, 1, 5, 5);
    b.age = 25;
    let mut rabbits = vec![a, b];
    update_rabbit_nearby_resources(&mut rabbits, &foliage, &grid);
    update_rabbit_partner_list(&mut rabbits);
    let (breeding, consumed) = rabbit_movement(&mut rabbits, &foliage, &grid);
    assert_eq!(breeding.len(), 2);
    assert!(consumed.is_empty());
    assert_eq!(rabbits[0].hunger, 50);
    assert_eq!(rabbits[1].hunger, 50);
    assert_eq!(rabbits[0].location, Loc { x: 5, z: 5 });
}

#[test]
fn distant_partner_draws_a_step() {
    let grid = grass_grid(20, 20);
    let mut a = make_rabbit(0, 0, 5, 5);
    a.age = 25;
    let mut b = make_rabbit(1, 1, 5, 8);
    b.age = 25;
    let mut rabbits = vec![a, b];
    update_rabbit_partner_list(&mut rabbits);
    let (breeding, _) = rabbit_movement(&mut rabbits, &Vec::new(), &grid);
    // three cells apart on one axis: both step toward each other instead
    assert!(breeding.is_empty());
    assert_eq!(rabbits[0].location, Loc { x: 5, z: 6 });
    assert_eq!(rabbits[1].location, Loc { x: 5, z: 7 });
}

#[test]
fn sated_rabbit_walks_among_legal_neighbours_and_decays() {
    // diagonals around (5, 5) are water, so the legal moves are exactly the
    // four axis neighbours; the sated rabbit picks one and its vitals decay
    let mut columns = vec![vec![VoxelType::GrassVoxel; 11]; 11];
    columns[4][4] = VoxelType::WaterVoxel;
    columns[4][6] = VoxelType::WaterVoxel;
    columns[6][4] = VoxelType::WaterVoxel;
    columns[6][6] = VoxelType::WaterVoxel;
    let grid = WorldMap::spawn_world(11, 11, columns);
    let mut r = make_rabbit(0, 0, 5, 5);
    r.hunger = 80;
    r.thirst = 80;
    let mut rabbits = vec![r];
    update_rabbit_nearby_resources(&mut rabbits, &Vec::new(), &grid);
    rabbit_movement(&mut rabbits, &Vec::new(), &grid);
    let landed = rabbits[0].location;
    let allowed = [
        Loc { x: 4, z: 5 },
        Loc { x: 6, z: 5 },
        Loc { x: 5, z: 4 },
        Loc { x: 5, z: 6 },
    ];
    assert!(allowed.contains(&landed), "landed on {:?}", landed);
    assert_eq!(rabbits[0].hunger, 79);
    assert_eq!(rabbits[0].thirst, 79);
}

#[test]
fn starving_rabbit_is_removed_exactly_once() {
    // no food or water anywhere: the rabbit is blind, random-walks, and its
    // hunger hits zero this tick
    let grid = grass_grid(10, 10);
    let mut dying = make_rabbit(0, 0, 5, 5);
    dying.hunger = 1;
    dying.thirst = 5;
    let healthy = make_rabbit(1, 1, 2, 2);
    let mut rabbits = vec![dying, healthy];
    update_rabbit_nearby_resources(&mut rabbits, &Vec::new(), &grid);
    rabbit_movement(&mut rabbits, &Vec::new(), &grid);
    assert_eq!(rabbits.len(), 1);
    assert_eq!(rabbits[0].entity, 1);
}

#[test]
fn rabbit_with_no_legal_moves_idles() {
    // an island: one grass cell surrounded by water; even a thirsty rabbit
    // has no eligible action
    let mut columns = vec![vec![VoxelType::WaterVoxel; 3]; 3];
    columns[1][1] = VoxelType::GrassVoxel;
    let grid = WorldMap::spawn_world(3, 3, columns);
    let mut r = make_rabbit(0, 0, 1, 1);
    r.hunger = 1;
    r.thirst = 1;
    let mut rabbits = vec![r];
    update_rabbit_nearby_resources(&mut rabbits, &Vec::new(), &grid);
    rabbit_movement(&mut rabbits, &Vec::new(), &grid);
    assert_eq!(rabbits.len(), 1);
    assert_eq!(rabbits[0].location, Loc { x: 1, z: 1 });
    assert_eq!(rabbits[0].hunger, 1);
    assert_eq!(rabbits[0].thirst, 1);
}

#[test]
fn nobody_ends_a_tick_on_water() {
    let mut columns = vec![vec![VoxelType::GrassVoxel; 30]; 30];
    for x in 0..30 {
        for z in 0..30 {
            if (3 * x + 7 * z) % 5 == 0 {
                columns[x][z] = VoxelType::WaterVoxel;
            }
        }
    }
    columns[5][5] = VoxelType::GrassVoxel;
    let grid = WorldMap::spawn_world(30, 30, columns.clone());
    let mut seed_rabbits = Vec::new();
    for e in 0..6u64 {
        let mut r = make_rabbit(e, e as u32, 5, 5);
        r.age = 25;
        r.hunger = 40 + (e as u32) * 9;
        r.thirst = 85 - (e as u32) * 11;
        seed_rabbits.push(r);
    }
    let mut sim = sim_with(grid, seed_rabbits);
    for _ in 0..50 {
        sim.gated_tick();
        for r in sim.rabbits.rabbits.iter() {
            assert_ne!(columns[r.location.x][r.location.z], VoxelType::WaterVoxel);
        }
    }
}
