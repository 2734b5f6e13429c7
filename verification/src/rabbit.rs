//! Agents and the population registry.
//!
//! A rabbit carries its vitals, its location, and three transient in-range
//! sets that perception recomputes every gated tick. The registry owns the
//! live population; every rabbit in it holds a unique `entity` handle, so a
//! handle kept across a removal can be looked up again and found gone rather
//! than resolving to the wrong agent.

use vstd::prelude::*;

use crate::rng::rand_below;
use crate::world::{Loc, VoxelType, WorldMap};

verus! {

/// Hard ceiling on live agents; breeding spawns above it are dropped.
pub const POPULATION_CAP: usize = 200;

/// How many rabbits the initial seeding places.
pub const INITIAL_RABBIT_POPULATION: u32 = 12;

/// Chebyshev radius of the sight window.
pub const DEFAULT_SIGHT_DISTANCE: u32 = 3;

/// Vital level above which a rabbit stops actively seeking that resource.
pub const DEFAULT_SATISFACTION_THRESHOLD: u32 = 50;

/// Vital level at or above which a rabbit counts as fully sated.
pub const DEFAULT_FULL_THRESHOLD: u32 = 70;

/// Hunger and thirst of a freshly spawned rabbit.
pub const NEWBORN_VITALS: u32 = 50;

/// Aging steps a parent must wait after breeding before it is eligible again.
pub const MATING_COOLDOWN_TICKS: u32 = 20;

/// Age at which a rabbit becomes visible as a potential partner.
pub const ADULT_AGE: u32 = 20;

/// At this age removal at the aging step is deterministic.
pub const MAX_AGE: u32 = 100;

/// A live agent.
#[derive(Clone, Debug)]
pub struct Rabbit {
    /// Unique registry handle, never reused within a simulation.
    pub entity: u64,
    /// Display identifier; offspring combine both parents' identifiers.
    pub id: u32,
    pub hunger: u32,
    pub thirst: u32,
    pub location: Loc,
    /// Indices of unconsumed patches inside the sight window, in scan order.
    pub plants_in_range: Vec<usize>,
    /// Water cells inside the sight window, in scan order.
    pub water_in_range: Vec<Loc>,
    /// Handles of eligible partners inside the sight window, in registry order.
    pub partner_in_range: Vec<u64>,
    pub sight_distance: u32,
    pub satisfaction_threshold: u32,
    pub full_threshold: u32,
    pub age: u32,
    pub mating_cooldown: u32,
}

/// Two rabbits intend to breed; the payloads are their registry handles.
#[derive(Clone, Copy, PartialEq, Eq, Structural, Debug)]
pub struct RabbitBreedingEvent(pub u64, pub u64);

/// A rabbit is well formed when it stands on a land cell of the grid, its
/// vitals have not reached zero (a zero vital removes it within the same
/// tick), and its age has not run past the deterministic-death bound.
pub open spec fn rabbit_wf(grid: &WorldMap, r: Rabbit) -> bool {
    &&& grid.spec_in_bounds(r.location.x as int, r.location.z as int)
    &&& grid.is_land(r.location.x as int, r.location.z as int)
    &&& r.hunger >= 1
    &&& r.thirst >= 1
    &&& r.age <= MAX_AGE
}

/// No two rabbits share a registry handle.
pub open spec fn entities_unique(s: Seq<Rabbit>) -> bool {
    forall|i: int, j: int|
        0 <= i < j < s.len() ==> (#[trigger] s[i]).entity != (#[trigger] s[j]).entity
}

/// The population registry: the ordered collection of live agents, plus the
/// next handle to hand out.
pub struct RabbitResource {
    pub rabbits: Vec<Rabbit>,
    pub next_entity: u64,
}

/// Every live rabbit is well formed, handles are unique, and every handle in
/// use is below the allocation counter (so a fresh handle collides with none).
pub open spec fn registry_wf(grid: &WorldMap, reg: &RabbitResource) -> bool {
    &&& forall|i: int|
        0 <= i < reg.rabbits@.len() ==> rabbit_wf(grid, #[trigger] reg.rabbits@[i])
    &&& entities_unique(reg.rabbits@)
    &&& forall|i: int|
        0 <= i < reg.rabbits@.len() ==> (#[trigger] reg.rabbits@[i]).entity < reg.next_entity
}

/// A freshly spawned rabbit: newborn vitals, default thresholds, empty
/// in-range sets, age zero and no cooldown.
pub fn new_rabbit(entity: u64, id: u32, location: Loc) -> (r: Rabbit)
    ensures
        r.entity == entity,
        r.id == id,
        r.hunger == NEWBORN_VITALS,
        r.thirst == NEWBORN_VITALS,
        r.location == location,
        r.plants_in_range@.len() == 0,
        r.water_in_range@.len() == 0,
        r.partner_in_range@.len() == 0,
        r.sight_distance == DEFAULT_SIGHT_DISTANCE,
        r.satisfaction_threshold == DEFAULT_SATISFACTION_THRESHOLD,
        r.full_threshold == DEFAULT_FULL_THRESHOLD,
        r.age == 0,
        r.mating_cooldown == 0,
{
    Rabbit {
        entity,
        id,
        hunger: NEWBORN_VITALS,
        thirst: NEWBORN_VITALS,
        location,
        plants_in_range: Vec::new(),
        water_in_range: Vec::new(),
        partner_in_range: Vec::new(),
        sight_distance: DEFAULT_SIGHT_DISTANCE,
        satisfaction_threshold: DEFAULT_SATISFACTION_THRESHOLD,
        full_threshold: DEFAULT_FULL_THRESHOLD,
        age: 0,
        mating_cooldown: 0,
    }
}

/// Index of the first rabbit holding `e`, scanning from the front.
pub open spec fn spec_find_rabbit(s: Seq<Rabbit>, e: u64) -> Option<int>
    decreases s.len(),
{
    if s.len() == 0 {
        Option::None
    } else if s[0].entity == e {
        Option::Some(0int)
    } else {
        match spec_find_rabbit(s.drop_first(), e) {
            Option::None => Option::None,
            Option::Some(i) => Option::Some(i + 1),
        }
    }
}

/// `spec_find_rabbit` returns the first live index of the handle, or nothing
/// when the handle is not live.
pub proof fn lemma_spec_find_rabbit(s: Seq<Rabbit>, e: u64)
    ensures
        match spec_find_rabbit(s, e) {
            Option::None => forall|j: int| 0 <= j < s.len() ==> (#[trigger] s[j]).entity != e,
            Option::Some(i) => 0 <= i < s.len() && s[i].entity == e && forall|j: int|
                0 <= j < i ==> (#[trigger] s[j]).entity != e,
        },
    decreases s.len(),
{
    if s.len() > 0 && s[0].entity != e {
        let rest = s.drop_first();
        lemma_spec_find_rabbit(rest, e);
        assert(forall|j: int| 0 <= j < rest.len() ==> #[trigger] rest[j] == s[j + 1]);
        match spec_find_rabbit(rest, e) {
            Option::None => {
                assert forall|j: int| 0 <= j < s.len() implies (#[trigger] s[j]).entity != e by {
                    if j > 0 {
                        assert(rest[j - 1] == s[j]);
                    }
                }
            },
            Option::Some(i) => {
                assert(s[i + 1].entity == e);
                assert forall|j: int| 0 <= j < i + 1 implies (#[trigger] s[j]).entity != e by {
                    if j > 0 {
                        assert(rest[j - 1] == s[j]);
                    }
                }
            },
        }
    }
}

/// Index of the first rabbit holding `entity`, if any is live.
pub fn find_rabbit(rabbits: &Vec<Rabbit>, entity: u64) -> (found: Option<usize>)
    ensures
        match found {
            Some(i) => 0 <= i < rabbits@.len() && rabbits@[i as int].entity == entity
                && forall|j: int| 0 <= j < i ==> (#[trigger] rabbits@[j]).entity != entity,
            None => forall|j: int|
                0 <= j < rabbits@.len() ==> (#[trigger] rabbits@[j]).entity != entity,
        },
{
    let mut i: usize = 0;
    while i < rabbits.len()
        invariant
            i <= rabbits@.len(),
            forall|j: int| 0 <= j < i ==> (#[trigger] rabbits@[j]).entity != entity,
        decreases rabbits@.len() - i,
    {
        if rabbits[i].entity == entity {
            return Some(i);
        }
        i = i + 1;
    }
    None
}

/// Removes the first rabbit holding `entity`, keeping the order of the rest;
/// reports whether one was live. A handle that is not live removes nothing,
/// so a second removal of the same handle within a tick is a no-op.
pub fn remove_rabbit(rabbits: &mut Vec<Rabbit>, entity: u64) -> (removed: bool)
    ensures
        removed == (exists|j: int|
            0 <= j < old(rabbits)@.len() && (#[trigger] old(rabbits)@[j]).entity == entity),
        !removed ==> final(rabbits)@ == old(rabbits)@,
        forall|i: int|
            (0 <= i < old(rabbits)@.len() && (#[trigger] old(rabbits)@[i]).entity == entity
                && (forall|j: int| 0 <= j < i ==> (#[trigger] old(rabbits)@[j]).entity != entity))
                ==> final(rabbits)@ == old(rabbits)@.remove(i),
{
    match find_rabbit(rabbits, entity) {
        Some(i) => {
            rabbits.remove(i);
            true
        },
        None => false,
    }
}

/// All grass cells of the grid, in row-major scan order; every grass cell
/// appears exactly once.
pub fn grass_cells(grid: &WorldMap) -> (cells: Vec<Loc>)
    requires
        grid.wf(),
    ensures
        forall|i: int|
            0 <= i < cells@.len()
                ==> grid.spec_in_bounds(
                    (#[trigger] cells@[i]).x as int,
                    cells@[i].z as int,
                ) && grid.cell(cells@[i].x as int, cells@[i].z as int) == VoxelType::GrassVoxel,
        forall|x: int, z: int|
            0 <= x < grid.spec_width() && 0 <= z < grid.spec_height() && grid.cell(x, z)
                == VoxelType::GrassVoxel ==> cells@.contains(
                Loc { x: x as usize, z: z as usize },
            ),
{
    let width = grid.width();
    let height = grid.height();
    let mut cells: Vec<Loc> = Vec::new();
    let mut x: usize = 0;
    while x < width
        invariant
            x <= width,
            grid.wf(),
            width == grid.spec_width(),
            height == grid.spec_height(),
            forall|i: int|
                0 <= i < cells@.len()
                    ==> grid.spec_in_bounds(
                        (#[trigger] cells@[i]).x as int,
                        cells@[i].z as int,
                    ) && grid.cell(cells@[i].x as int, cells@[i].z as int)
                        == VoxelType::GrassVoxel,
            forall|a: int, b: int|
                0 <= a < x && 0 <= b < height && grid.cell(a, b) == VoxelType::GrassVoxel
                    ==> cells@.contains(Loc { x: a as usize, z: b as usize }),
        decreases width - x,
    {
        let mut z: usize = 0;
        while z < height
            invariant
                x < width,
                z <= height,
                grid.wf(),
                width == grid.spec_width(),
                height == grid.spec_height(),
                forall|i: int|
                    0 <= i < cells@.len()
                        ==> grid.spec_in_bounds(
                            (#[trigger] cells@[i]).x as int,
                            cells@[i].z as int,
                        ) && grid.cell(cells@[i].x as int, cells@[i].z as int)
                            == VoxelType::GrassVoxel,
                forall|a: int, b: int|
                    0 <= a < x && 0 <= b < height && grid.cell(a, b) == VoxelType::GrassVoxel
                        ==> cells@.contains(Loc { x: a as usize, z: b as usize }),
                forall|b: int|
                    0 <= b < z && grid.cell(x as int, b) == VoxelType::GrassVoxel
                        ==> cells@.contains(Loc { x: x, z: b as usize }),
            decreases height - z,
        {
            let ghost pre = cells@;
            if grid.classify(x, z) == VoxelType::GrassVoxel {
                cells.push(Loc { x, z });
            }
            proof {
                assert forall|a: int, b: int|
                    0 <= a < x && 0 <= b < height && grid.cell(a, b)
                        == VoxelType::GrassVoxel implies cells@.contains(
                    Loc { x: a as usize, z: b as usize },
                ) by {
                    assert(pre.contains(Loc { x: a as usize, z: b as usize }));
                    let w = choose|w: int| 0 <= w < pre.len() && pre[w] == Loc {
                        x: a as usize,
                        z: b as usize,
                    };
                    assert(cells@[w] == Loc { x: a as usize, z: b as usize });
                }
                assert forall|b: int|
                    0 <= b < z + 1 && grid.cell(x as int, b)
                        == VoxelType::GrassVoxel implies cells@.contains(
                    Loc { x: x, z: b as usize },
                ) by {
                    if b < z {
                        assert(pre.contains(Loc { x: x, z: b as usize }));
                        let w = choose|w: int| 0 <= w < pre.len() && pre[w] == Loc {
                            x: x,
                            z: b as usize,
                        };
                        assert(cells@[w] == Loc { x: x, z: b as usize });
                    } else {
                        assert(cells@[cells@.len() - 1] == Loc { x: x, z: b as usize });
                    }
                }
            }
            z = z + 1;
        }
        x = x + 1;
    }
    cells
}

/// Seeds the initial population: `count` newborn rabbits, each placed
/// uniformly at random on a grass cell, with identifiers and handles counted
/// up from zero. A grid without grass cells seeds an empty population.
pub fn spawn_initial_rabbits(grid: &WorldMap, count: u32) -> (reg: RabbitResource)
    requires
        grid.wf(),
    ensures
        registry_wf(grid, &reg),
        reg.next_entity == count as u64,
        (exists|x: int, z: int|
            0 <= x < grid.spec_width() && 0 <= z < grid.spec_height() && grid.cell(x, z)
                == VoxelType::GrassVoxel) ==> reg.rabbits@.len() == count,
        reg.rabbits@.len() == count || reg.rabbits@.len() == 0,
        forall|i: int|
            0 <= i < reg.rabbits@.len() ==> {
                let r = #[trigger] reg.rabbits@[i];
                &&& r.entity == i
                &&& r.id == i
                &&& r.hunger == NEWBORN_VITALS
                &&& r.thirst == NEWBORN_VITALS
                &&& r.age == 0
                &&& r.mating_cooldown == 0
                &&& r.sight_distance == DEFAULT_SIGHT_DISTANCE
                &&& r.satisfaction_threshold == DEFAULT_SATISFACTION_THRESHOLD
                &&& r.full_threshold == DEFAULT_FULL_THRESHOLD
                &&& r.plants_in_range@.len() == 0
                &&& r.water_in_range@.len() == 0
                &&& r.partner_in_range@.len() == 0
                &&& grid.cell(r.location.x as int, r.location.z as int) == VoxelType::GrassVoxel
            },
{
    let cells = grass_cells(grid);
    let mut rabbits: Vec<Rabbit> = Vec::new();
    if cells.len() == 0 {
        proof {
            assert forall|x: int, z: int|
                !(0 <= x < grid.spec_width() && 0 <= z < grid.spec_height() && grid.cell(x, z)
                    == VoxelType::GrassVoxel) by {
                if 0 <= x < grid.spec_width() && 0 <= z < grid.spec_height() && grid.cell(x, z)
                    == VoxelType::GrassVoxel {
                    assert(cells@.contains(Loc { x: x as usize, z: z as usize }));
                }
            }
        }
        return RabbitResource { rabbits, next_entity: count as u64 };
    }
    let mut i: u32 = 0;
    while i < count
        invariant
            i <= count,
            cells@.len() >= 1,
            grid.wf(),
            forall|k: int|
                0 <= k < cells@.len()
                    ==> grid.spec_in_bounds(
                        (#[trigger] cells@[k]).x as int,
                        cells@[k].z as int,
                    ) && grid.cell(cells@[k].x as int, cells@[k].z as int)
                        == VoxelType::GrassVoxel,
            rabbits@.len() == i,
            forall|k: int|
                0 <= k < rabbits@.len() ==> {
                    let r = #[trigger] rabbits@[k];
                    &&& r.entity == k
                    &&& r.id == k
                    &&& r.hunger == NEWBORN_VITALS
                    &&& r.thirst == NEWBORN_VITALS
                    &&& r.age == 0
                    &&& r.mating_cooldown == 0
                    &&& r.sight_distance == DEFAULT_SIGHT_DISTANCE
                    &&& r.satisfaction_threshold == DEFAULT_SATISFACTION_THRESHOLD
                    &&& r.full_threshold == DEFAULT_FULL_THRESHOLD
                    &&& r.plants_in_range@.len() == 0
                    &&& r.water_in_range@.len() == 0
                    &&& r.partner_in_range@.len() == 0
                    &&& grid.spec_in_bounds(r.location.x as int, r.location.z as int)
                    &&& grid.cell(r.location.x as int, r.location.z as int)
                        == VoxelType::GrassVoxel
                },
        decreases count - i,
    {
        let pick = rand_below(cells.len());
        let rabbit = new_rabbit(i as u64, i, cells[pick]);
        rabbits.push(rabbit);
        i = i + 1;
    }
    RabbitResource { rabbits, next_entity: count as u64 }
}

} // verus!
