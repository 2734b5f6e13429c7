//! The simulation: one owner of the world, the foliage field, the population
//! registry and the aging counter, and the gated tick that runs the pipeline
//! in its required order — perception, decision & movement, breeding,
//! lifecycle.

use vstd::prelude::*;

use crate::breeding::{
    cooldown_rel, spawn_new_rabbit, spawn_rel, update_details_on_breeding,
};
use crate::foliage::{
    consume_foliage, consume_rel, initial_foliage_spawn, patch_wf, regen_rel, regen_step,
    regenerate_foliage, spec_consume, Foliage, FoliageConsumedEvent,
};
use crate::lifecycle::{
    aged_version_of, aging_rel, rabbit_age_tick, spec_aged, RabbitAgeLocalCounter, AGING_PERIOD,
};
use crate::movement::{core_kept, movement_pass_rel, rabbit_movement, same_rabbit_core};
use crate::perception::{
    partners_pass_rel, resources_pass_rel, update_rabbit_nearby_resources,
    update_rabbit_partner_list,
};
use crate::rabbit::{
    entities_unique, rabbit_wf, registry_wf, spawn_initial_rabbits, Rabbit, RabbitBreedingEvent,
    RabbitResource, INITIAL_RABBIT_POPULATION, POPULATION_CAP,
};
use crate::world::{VoxelType, WorldMap};

verus! {

/// The whole simulation state.
pub struct Simulation {
    pub grid: WorldMap,
    pub foliage: Vec<Foliage>,
    pub rabbits: RabbitResource,
    pub age_counter: RabbitAgeLocalCounter,
}

/// The intermediate states one gated tick passes through, in pipeline order:
/// the registry after each pass, the events the movement pass drained, the
/// foliage after the consumption drain, and the handle counter after
/// breeding.
pub struct TickTrace {
    pub after_resources: Seq<Rabbit>,
    pub after_partners: Seq<Rabbit>,
    pub after_movement: Seq<Rabbit>,
    pub breeding: Seq<RabbitBreedingEvent>,
    pub consumed: Seq<FoliageConsumedEvent>,
    pub after_consumption: Seq<Foliage>,
    pub after_spawn: Seq<Rabbit>,
    pub next_after_spawn: u64,
    pub after_cooldowns: Seq<Rabbit>,
}

/// One gated tick is the composition of the pipeline's stage relations
/// through the intermediate states of `t`: resource perception, partner
/// perception, decision & movement with its drained events, the consumption
/// drain on the foliage, breeding from those events, the parents' cooldowns,
/// foliage regrowth, and the aging step.
pub open spec fn tick_rel(pre: Simulation, t: TickTrace, post: Simulation) -> bool {
    &&& resources_pass_rel(pre.rabbits.rabbits@, t.after_resources, pre.foliage@, &pre.grid)
    &&& partners_pass_rel(t.after_resources, t.after_partners)
    &&& movement_pass_rel(
        &pre.grid,
        pre.foliage@,
        t.after_partners,
        t.after_movement,
        t.breeding,
        t.consumed,
    )
    &&& consume_rel(pre.foliage@, t.after_consumption, t.consumed)
    &&& spawn_rel(
        &pre.grid,
        t.breeding,
        t.after_movement,
        pre.rabbits.next_entity,
        t.after_spawn,
        t.next_after_spawn,
    )
    &&& cooldown_rel(t.breeding, t.after_spawn, t.after_cooldowns)
    &&& regen_rel(t.after_consumption, post.foliage@)
    &&& aging_rel(
        pre.age_counter.counter,
        post.age_counter.counter,
        t.after_cooldowns,
        post.rabbits.rabbits@,
    )
    &&& post.rabbits.next_entity == t.next_after_spawn
    &&& post.grid == pre.grid
}

impl Simulation {
    /// Well-formedness of the whole state: the grid is rectangular, every
    /// rabbit is live on a land cell with positive vitals, handles are
    /// unique, every patch sits on a grass cell, and the aging counter sits
    /// inside its period.
    pub open spec fn wf(&self) -> bool {
        &&& self.grid.wf()
        &&& registry_wf(&self.grid, &self.rabbits)
        &&& forall|i: int|
            0 <= i < self.foliage@.len() ==> patch_wf(&self.grid, #[trigger] self.foliage@[i])
        &&& self.age_counter.counter < AGING_PERIOD
    }

    /// Builds a simulation over a generated grid: seeds the foliage field
    /// and the initial population, both placed on grass cells only.
    pub fn new(grid: WorldMap) -> (sim: Simulation)
        requires
            grid.wf(),
        ensures
            sim.wf(),
            sim.grid == grid,
            sim.age_counter.counter == 0,
            (exists|x: int, z: int|
                0 <= x < grid.spec_width() && 0 <= z < grid.spec_height() && grid.cell(x, z)
                    == VoxelType::GrassVoxel) ==> sim.rabbits.rabbits@.len()
                == INITIAL_RABBIT_POPULATION,
            forall|i: int|
                0 <= i < sim.foliage@.len() ==> !(#[trigger] sim.foliage@[i]).consumed
                    && sim.foliage@[i].regen_counter == 0 && grid.cell(
                    sim.foliage@[i].location.x as int,
                    sim.foliage@[i].location.z as int,
                ) == VoxelType::GrassVoxel,
            forall|i: int|
                0 <= i < sim.rabbits.rabbits@.len() ==> {
                    let r = #[trigger] sim.rabbits.rabbits@[i];
                    r.entity == i && r.id == i && r.age == 0 && r.mating_cooldown == 0 && grid.cell(
                        r.location.x as int,
                        r.location.z as int,
                    ) == VoxelType::GrassVoxel
                },
    {
        let foliage = initial_foliage_spawn(&grid);
        let rabbits = spawn_initial_rabbits(&grid, INITIAL_RABBIT_POPULATION);
        Simulation { grid, foliage, rabbits, age_counter: RabbitAgeLocalCounter { counter: 0 } }
    }

    /// One gated tick of the pipeline: perception, decision & movement (with
    /// its consumption effects drained into the foliage field), breeding,
    /// foliage regrowth and the aging step — the whole composition is pinned
    /// by `tick_rel` over some trace of intermediate states. Well-formedness
    /// is preserved — in particular no rabbit ever stands on water — and
    /// breeding never lifts the population above the cap: a population at or
    /// under the cap stays there, and one already above it cannot grow.
    pub fn gated_tick(&mut self)
        requires
            old(self).wf(),
        ensures
            exists|t: TickTrace| #[trigger] tick_rel(*old(self), t, *final(self)),
            final(self).wf(),
            final(self).grid == old(self).grid,
            old(self).rabbits.rabbits@.len() <= POPULATION_CAP
                ==> final(self).rabbits.rabbits@.len() <= POPULATION_CAP,
            final(self).rabbits.rabbits@.len() <= old(self).rabbits.rabbits@.len()
                || final(self).rabbits.rabbits@.len() <= POPULATION_CAP,
            final(self).foliage@.len() == old(self).foliage@.len(),
            old(self).age_counter.counter + 1 < AGING_PERIOD ==> final(self).age_counter.counter
                == old(self).age_counter.counter + 1,
            old(self).age_counter.counter + 1 >= AGING_PERIOD ==> final(self).age_counter.counter
                == 0,
    {
        let ghost g = self.grid;
        let ghost r0 = self.rabbits.rabbits@;
        // perception: plant and water lists
        update_rabbit_nearby_resources(&mut self.rabbits.rabbits, &self.foliage, &self.grid);
        proof {
            let cur = self.rabbits.rabbits@;
            assert forall|i: int| 0 <= i < cur.len() implies rabbit_wf(&g, #[trigger] cur[i])
                && cur[i].entity == r0[i].entity by {
                assert(rabbit_wf(&g, r0[i]));
            }
            assert(entities_unique(cur));
        }
        // perception: partner lists
        let ghost r1 = self.rabbits.rabbits@;
        update_rabbit_partner_list(&mut self.rabbits.rabbits);
        proof {
            let cur = self.rabbits.rabbits@;
            assert forall|i: int| 0 <= i < cur.len() implies rabbit_wf(&g, #[trigger] cur[i])
                && cur[i].entity == r1[i].entity by {
                assert(rabbit_wf(&g, r1[i]));
            }
            assert(entities_unique(cur));
            assert(registry_wf(&g, &self.rabbits));
        }
        // decision & movement
        let ghost r2 = self.rabbits.rabbits@;
        let events = rabbit_movement(&mut self.rabbits.rabbits, &self.foliage, &self.grid);
        let breeding = events.0;
        let consumed = events.1;
        proof {
            let cur = self.rabbits.rabbits@;
            assert forall|i: int| 0 <= i < cur.len() implies (#[trigger] cur[i]).entity
                < self.rabbits.next_entity by {
                assert(core_kept(r2, cur[i]));
                let k = choose|k: int|
                    0 <= k < r2.len() && same_rabbit_core(#[trigger] r2[k], cur[i]);
                assert(r2[k].entity < self.rabbits.next_entity);
            }
            assert(registry_wf(&g, &self.rabbits));
        }
        // consumption effects on the foliage field
        let ghost f0 = self.foliage@;
        consume_foliage(&mut self.foliage, &consumed);
        proof {
            assert forall|i: int| 0 <= i < self.foliage@.len() implies patch_wf(
                &g,
                #[trigger] self.foliage@[i],
            ) by {
                assert(patch_wf(&g, f0[i]));
                assert(self.foliage@[i] == f0[i] || self.foliage@[i] == spec_consume(f0[i]));
            }
        }
        // breeding: spawn offspring under the cap, then reset cooldowns
        let ghost r3 = self.rabbits.rabbits@;
        spawn_new_rabbit(&mut self.rabbits, &breeding, &self.grid);
        let ghost r4 = self.rabbits.rabbits@;
        let ghost n4 = self.rabbits.next_entity;
        update_details_on_breeding(&mut self.rabbits.rabbits, &breeding);
        proof {
            let cur = self.rabbits.rabbits@;
            assert forall|i: int| 0 <= i < cur.len() implies rabbit_wf(&g, #[trigger] cur[i])
                && cur[i].entity == r4[i].entity by {
                assert(rabbit_wf(&g, r4[i]));
            }
            assert(entities_unique(cur));
            assert(registry_wf(&g, &self.rabbits));
        }
        // foliage regrowth
        let ghost f1 = self.foliage@;
        regenerate_foliage(&mut self.foliage);
        proof {
            assert forall|i: int| 0 <= i < self.foliage@.len() implies patch_wf(
                &g,
                #[trigger] self.foliage@[i],
            ) by {
                assert(patch_wf(&g, f1[i]));
                assert(self.foliage@[i] == regen_step(f1[i]));
            }
        }
        // aging and death
        let ghost r5 = self.rabbits.rabbits@;
        let ghost c5 = self.age_counter.counter;
        rabbit_age_tick(&mut self.age_counter, &mut self.rabbits.rabbits, &self.grid);
        proof {
            let cur = self.rabbits.rabbits@;
            assert forall|i: int| 0 <= i < cur.len() implies (#[trigger] cur[i]).entity
                < self.rabbits.next_entity by {
                if c5 + 1 >= AGING_PERIOD {
                    assert(aged_version_of(r5, cur[i]));
                    let k = choose|k: int|
                        0 <= k < r5.len() && cur[i] == spec_aged(#[trigger] r5[k]);
                    assert(r5[k].entity < self.rabbits.next_entity);
                } else {
                    assert(cur[i] == r5[i]);
                }
            }
            assert(registry_wf(&g, &self.rabbits));
        }
        proof {
            let t = TickTrace {
                after_resources: r1,
                after_partners: r2,
                after_movement: r3,
                breeding: breeding@,
                consumed: consumed@,
                after_consumption: f1,
                after_spawn: r4,
                next_after_spawn: n4,
                after_cooldowns: r5,
            };
            assert(tick_rel(*old(self), t, *self));
        }
    }
}

/// The terrain invariant: in a well-formed simulation no live rabbit's
/// location is classified as water; `gated_tick` preserves well-formedness,
/// so this holds after any number of ticks.
pub proof fn lemma_no_rabbit_on_water(sim: Simulation)
    requires
        sim.wf(),
    ensures
        forall|i: int|
            0 <= i < sim.rabbits.rabbits@.len() ==> sim.grid.cell(
                (#[trigger] sim.rabbits.rabbits@[i]).location.x as int,
                sim.rabbits.rabbits@[i].location.z as int,
            ) != VoxelType::WaterVoxel,
{
    assert forall|i: int| 0 <= i < sim.rabbits.rabbits@.len() implies sim.grid.cell(
        (#[trigger] sim.rabbits.rabbits@[i]).location.x as int,
        sim.rabbits.rabbits@[i].location.z as int,
    ) != VoxelType::WaterVoxel by {
        assert(rabbit_wf(&sim.grid, sim.rabbits.rabbits@[i]));
    }
}

} // verus!
