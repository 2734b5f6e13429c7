//! Breeding under the population cap, and the aging step.

use rabbit_sim::breeding::{spawn_new_rabbit, update_details_on_breeding};
use rabbit_sim::lifecycle::{rabbit_age_tick, RabbitAgeLocalCounter};
use rabbit_sim::rabbit::{Rabbit, RabbitBreedingEvent, RabbitResource};
use rabbit_sim::sim::Simulation;
use rabbit_sim::world::{Loc, VoxelType, WorldMap};

fn grass_grid(width: usize, height: usize) -> WorldMap {
    let columns = vec![vec![VoxelType::GrassVoxel; height]; width];
    WorldMap::spawn_world(width, height, columns)
}

fn make_rabbit(entity: u64, id: u32, x: usize, z: usize) -> Rabbit {
    Rabbit {
        entity,
        id,
        hunger: 50,
        thirst: 50,
        location: Loc { x, z },
        plants_in_range: Vec::new(),
        water_in_range: Vec::new(),
        partner_in_range: Vec::new(),
        sight_distance: 3,
        satisfaction_threshold: 50,
        full_threshold: 70,
        age: 0,
        mating_cooldown: 0,
    }
}

fn crowd(n: usize) -> Vec<Rabbit> {
    let mut rabbits = Vec::new();
    for e in 0..n {
        rabbits.push(make_rabbit(e as u64, e as u32, 3, 3));
    }
    rabbits
}

#[test]
fn colocated_adults_breed_within_one_tick() {
    // two adults on the same cell, sated to the satisfaction threshold,
    // each inside the other's sight window
    let grid = grass_grid(20, 20);
    let mut a = make_rabbit(0, 3, 5, 5);
    a.age = 25;
    let mut b = make_rabbit(1, 5, 5, 5);
    b.age = 25;
    let mut sim = Simulation {
        grid,
        foliage: Vec::new(),
        rabbits: RabbitResource { rabbits: vec![a, b], next_entity: 2 },
        age_counter: RabbitAgeLocalCounter { counter: 0 },
    };
    sim.gated_tick();
    // each adult emitted a request, each request spawns a litter of 1 or 2
    let total = sim.rabbits.rabbits.len();
    assert!(total >= 4 && total <= 6, "population {}", total);
    for baby in sim.rabbits.rabbits.iter().skip(2) {
        assert_eq!(baby.id, 8);
        assert_eq!(baby.hunger, 50);
        assert_eq!(baby.thirst, 50);
        assert_eq!(baby.age, 0);
        assert_eq!(baby.mating_cooldown, 0);
        assert_eq!(baby.location, Loc { x: 5, z: 5 });
    }
    assert_eq!(sim.rabbits.rabbits[0].mating_cooldown, 20);
    assert_eq!(sim.rabbits.rabbits[1].mating_cooldown, 20);
}

#[test]
fn offspring_take_x_from_one_parent_and_z_from_the_other() {
    let grid = grass_grid(20, 20);
    let mut reg = RabbitResource { rabbits: vec![make_rabbit(0, 1, 4, 9), make_rabbit(1, 2, 5, 8)], next_entity: 2 };
    let events = vec![RabbitBreedingEvent(0, 1)];
    spawn_new_rabbit(&mut reg, &events, &grid);
    assert!(reg.rabbits.len() > 2);
    for baby in reg.rabbits.iter().skip(2) {
        assert_eq!(baby.location, Loc { x: 4, z: 8 });
        assert_eq!(baby.id, 3);
    }
}

#[test]
fn capped_registry_discards_requests_but_cools_parents() {
    let grid = grass_grid(20, 20);
    let mut reg = RabbitResource { rabbits: crowd(200), next_entity: 200 };
    let events = vec![RabbitBreedingEvent(0, 1)];
    spawn_new_rabbit(&mut reg, &events, &grid);
    assert_eq!(reg.rabbits.len(), 200);
    update_details_on_breeding(&mut reg.rabbits, &events);
    assert_eq!(reg.rabbits[0].mating_cooldown, 20);
    assert_eq!(reg.rabbits[1].mating_cooldown, 20);
    assert_eq!(reg.rabbits[2].mating_cooldown, 0);
}

#[test]
fn breeding_never_lifts_population_past_the_cap() {
    let grid = grass_grid(20, 20);
    let mut reg = RabbitResource { rabbits: crowd(199), next_entity: 199 };
    let events = vec![RabbitBreedingEvent(0, 1), RabbitBreedingEvent(2, 3)];
    spawn_new_rabbit(&mut reg, &events, &grid);
    assert_eq!(reg.rabbits.len(), 200);
}

#[test]
fn request_with_a_dead_parent_is_skipped() {
    let grid = grass_grid(20, 20);
    let mut reg = RabbitResource { rabbits: vec![make_rabbit(0, 1, 4, 4)], next_entity: 7 };
    let events = vec![RabbitBreedingEvent(0, 6)];
    spawn_new_rabbit(&mut reg, &events, &grid);
    assert_eq!(reg.rabbits.len(), 1);
    update_details_on_breeding(&mut reg.rabbits, &events);
    // the surviving parent is still cooled down
    assert_eq!(reg.rabbits[0].mating_cooldown, 20);
}

#[test]
fn aging_fires_every_fifth_gated_tick() {
    let grid = grass_grid(10, 10);
    let mut counter = RabbitAgeLocalCounter { counter: 0 };
    let mut rabbits = vec![make_rabbit(0, 0, 5, 5)];
    rabbits[0].mating_cooldown = 20;
    for tick in 1..=4 {
        rabbit_age_tick(&mut counter, &mut rabbits, &grid);
        assert_eq!(counter.counter, tick);
        assert_eq!(rabbits[0].age, 0);
        assert_eq!(rabbits[0].mating_cooldown, 20);
    }
    rabbit_age_tick(&mut counter, &mut rabbits, &grid);
    assert_eq!(counter.counter, 0);
    assert_eq!(rabbits[0].age, 1);
    assert_eq!(rabbits[0].mating_cooldown, 19);
}

#[test]
fn centenarian_is_removed_at_the_next_aging_step() {
    let grid = grass_grid(10, 10);
    let mut counter = RabbitAgeLocalCounter { counter: 4 };
    let mut old_rabbit = make_rabbit(0, 0, 5, 5);
    old_rabbit.age = 100;
    let young = make_rabbit(1, 1, 2, 2);
    let mut rabbits = vec![old_rabbit, young];
    rabbit_age_tick(&mut counter, &mut rabbits, &grid);
    assert_eq!(rabbits.len(), 1);
    assert_eq!(rabbits[0].entity, 1);
    assert_eq!(rabbits[0].age, 1);
}

#[test]
fn rabbit_aging_to_ninety_nine_faces_certain_death_only_at_hundred() {
    // at age 98 the step gives age 99 and survival odds of 1 - 1/1 = 0:
    // MAX_AGE - age is 1, so the roll below 1 is always 0 and it dies
    let grid = grass_grid(10, 10);
    let mut counter = RabbitAgeLocalCounter { counter: 4 };
    let mut elder = make_rabbit(0, 0, 5, 5);
    elder.age = 98;
    let mut rabbits = vec![elder];
    rabbit_age_tick(&mut counter, &mut rabbits, &grid);
    assert_eq!(rabbits.len(), 0);
}

#[test]
fn youth_survives_aging_untouched_by_death() {
    let grid = grass_grid(10, 10);
    let mut counter = RabbitAgeLocalCounter { counter: 4 };
    let mut rabbits = crowd(30);
    for r in rabbits.iter_mut() {
        r.age = 12;
    }
    rabbit_age_tick(&mut counter, &mut rabbits, &grid);
    assert_eq!(rabbits.len(), 30);
    for (i, r) in rabbits.iter().enumerate() {
        assert_eq!(r.age, 13);
        // survivors keep their registry order
        assert_eq!(r.entity, i as u64);
    }
}

#[test]
fn initial_population_seeds_on_grass() {
    // one grass cell in a watery world: every rabbit must stand on it
    let mut columns = vec![vec![VoxelType::WaterVoxel; 8]; 8];
    columns[3][4] = VoxelType::GrassVoxel;
    let grid = WorldMap::spawn_world(8, 8, columns);
    let sim = Simulation::new(grid);
    assert_eq!(sim.rabbits.rabbits.len(), 12);
    for (i, r) in sim.rabbits.rabbits.iter().enumerate() {
        assert_eq!(r.location, Loc { x: 3, z: 4 });
        assert_eq!(r.entity, i as u64);
        assert_eq!(r.id, i as u32);
        assert_eq!(r.hunger, 50);
        assert_eq!(r.thirst, 50);
        assert_eq!(r.age, 0);
        assert_eq!(r.mating_cooldown, 0);
        assert_eq!(r.sight_distance, 3);
        assert_eq!(r.satisfaction_threshold, 50);
        assert_eq!(r.full_threshold, 70);
        assert!(r.plants_in_range.is_empty());
        assert!(r.water_in_range.is_empty());
        assert!(r.partner_in_range.is_empty());
    }
}
