//! Decision & movement: one action per agent per gated tick.
//!
//! A fixed priority policy (mate-seek, random-walk, food-seek, water-seek,
//! idle) is evaluated against the freshly computed in-range sets. Seek
//! branches pick the nearest target by Manhattan distance, first found
//! winning ties, and step one cell along the axis with the larger offset,
//! stepping along z on a tie. The random-walk branch is the only one in
//! which hunger and thirst decay and starvation is checked.
//!
//! The pass runs in two phases, as the pipeline requires: plans for every
//! rabbit are computed from a snapshot of the registry, then applied.

use vstd::prelude::*;

use crate::foliage::{Foliage, FoliageConsumedEvent};
use crate::rabbit::{
    entities_unique, find_rabbit, lemma_spec_find_rabbit, rabbit_wf, spec_find_rabbit, Rabbit,
    RabbitBreedingEvent, ADULT_AGE,
};
use crate::rng::rand_below;
use crate::world::{Loc, VoxelType, WorldMap};

verus! {

/// Distance between two coordinates along one axis.
pub open spec fn axis_dist(a: usize, b: usize) -> int {
    if a >= b {
        a - b
    } else {
        b - a
    }
}

/// Manhattan distance between two cells.
pub open spec fn manhattan(a: Loc, b: Loc) -> int {
    axis_dist(a.x, b.x) + axis_dist(a.z, b.z)
}

pub fn manhattan_dist(a: Loc, b: Loc) -> (d: u128)
    ensures
        d == manhattan(a, b),
{
    let dx = if a.x >= b.x {
        a.x - b.x
    } else {
        b.x - a.x
    };
    let dz = if a.z >= b.z {
        a.z - b.z
    } else {
        b.z - a.z
    };
    (dx as u128) + (dz as u128)
}

/// `b` is one of the eight neighbours of `a`.
pub open spec fn spec_adjacent(a: Loc, b: Loc) -> bool {
    &&& !(a.x == b.x && a.z == b.z)
    &&& axis_dist(a.x, b.x) <= 1
    &&& axis_dist(a.z, b.z) <= 1
}

/// A cell an agent may step onto: on the grid and not water.
pub open spec fn legal_cell(grid: &WorldMap, l: Loc) -> bool {
    &&& grid.spec_in_bounds(l.x as int, l.z as int)
    &&& grid.is_land(l.x as int, l.z as int)
}

/// A legal single step from `from`: a neighbouring land cell.
pub open spec fn legal_move_from(grid: &WorldMap, from: Loc, to: Loc) -> bool {
    &&& spec_adjacent(from, to)
    &&& legal_cell(grid, to)
}

/// What a neighbourhood scan must produce: exactly the legal single steps,
/// in row-major scan order.
pub open spec fn moves_ok(grid: &WorldMap, from: Loc, v: Seq<Loc>) -> bool {
    &&& forall|k: int| 0 <= k < v.len() ==> legal_move_from(grid, from, #[trigger] v[k])
    &&& forall|m: Loc| legal_move_from(grid, from, m) ==> v.contains(m)
    &&& forall|a: int, b: int|
        0 <= a < b < v.len()
            ==> ((#[trigger] v[a]).x < (#[trigger] v[b]).x || (v[a].x == v[b].x && v[a].z
                < v[b].z))
}

/// The legal adjacent cells around `from`: the 3-by-3 neighbourhood clamped
/// at the grid edges, the current cell excluded, filtered to land.
pub fn legal_moves(grid: &WorldMap, from: Loc) -> (v: Vec<Loc>)
    requires
        grid.wf(),
        grid.spec_in_bounds(from.x as int, from.z as int),
    ensures
        moves_ok(grid, from, v@),
{
    let width = grid.width();
    let height = grid.height();
    let xlo = if from.x > 0 {
        from.x - 1
    } else {
        0
    };
    let xhi = if from.x + 1 < width {
        from.x + 1
    } else {
        width - 1
    };
    let zlo = if from.z > 0 {
        from.z - 1
    } else {
        0
    };
    let zhi = if from.z + 1 < height {
        from.z + 1
    } else {
        height - 1
    };
    let mut v: Vec<Loc> = Vec::new();
    let mut x = xlo;
    while x <= xhi
        invariant
            grid.wf(),
            width == grid.spec_width(),
            height == grid.spec_height(),
            from.x < width,
            from.z < height,
            xlo <= x <= xhi + 1,
            xlo == if from.x > 0 { from.x - 1 } else { 0 },
            xhi == if from.x + 1 < width { from.x + 1 } else { (width - 1) as int },
            zlo == if from.z > 0 { from.z - 1 } else { 0 },
            zhi == if from.z + 1 < height { from.z + 1 } else { (height - 1) as int },
            forall|k: int|
                0 <= k < v@.len() ==> legal_move_from(grid, from, #[trigger] v@[k]) && v@[k].x
                    < x,
            forall|m: Loc| legal_move_from(grid, from, m) && m.x < x ==> v@.contains(m),
            forall|a: int, b: int|
                0 <= a < b < v@.len()
                    ==> ((#[trigger] v@[a]).x < (#[trigger] v@[b]).x || (v@[a].x == v@[b].x
                        && v@[a].z < v@[b].z)),
        decreases xhi + 1 - x,
    {
        let mut z = zlo;
        while z <= zhi
            invariant
                grid.wf(),
                width == grid.spec_width(),
                height == grid.spec_height(),
                from.x < width,
                from.z < height,
                xlo <= x <= xhi,
                zlo <= z <= zhi + 1,
                xlo == if from.x > 0 { from.x - 1 } else { 0 },
                xhi == if from.x + 1 < width { from.x + 1 } else { (width - 1) as int },
                zlo == if from.z > 0 { from.z - 1 } else { 0 },
                zhi == if from.z + 1 < height { from.z + 1 } else { (height - 1) as int },
                forall|k: int|
                    0 <= k < v@.len() ==> legal_move_from(grid, from, #[trigger] v@[k])
                        && (v@[k].x < x || (v@[k].x == x && v@[k].z < z)),
                forall|m: Loc| legal_move_from(grid, from, m) && m.x < x ==> v@.contains(m),
                forall|m: Loc|
                    legal_move_from(grid, from, m) && m.x == x && m.z < z ==> v@.contains(m),
                forall|a: int, b: int|
                    0 <= a < b < v@.len()
                        ==> ((#[trigger] v@[a]).x < (#[trigger] v@[b]).x || (v@[a].x == v@[b].x
                            && v@[a].z < v@[b].z)),
            decreases zhi + 1 - z,
        {
            let ghost pre = v@;
            if !(x == from.x && z == from.z) {
                if grid.classify(x, z) != VoxelType::WaterVoxel {
                    v.push(Loc { x, z });
                }
            }
            proof {
                assert forall|m: Loc|
                    legal_move_from(grid, from, m) && m.x < x implies v@.contains(m) by {
                    assert(pre.contains(m));
                    let w = choose|w: int| 0 <= w < pre.len() && pre[w] == m;
                    assert(v@[w] == m);
                }
                assert forall|m: Loc|
                    legal_move_from(grid, from, m) && m.x == x && m.z < z + 1 implies v@.contains(
                    m,
                ) by {
                    if m.z < z {
                        assert(pre.contains(m));
                        let w = choose|w: int| 0 <= w < pre.len() && pre[w] == m;
                        assert(v@[w] == m);
                    } else {
                        assert(m.z == z && m == Loc { x, z });
                        assert(v@[v@.len() - 1] == m);
                    }
                }
            }
            z = z + 1;
        }
        x = x + 1;
    }
    proof {
        assert forall|m: Loc| legal_move_from(grid, from, m) implies v@.contains(m) by {
            assert(m.x < width && m.z < height);
            assert(m.x <= xhi);
        }
    }
    v
}

/// Index `i` holds the first candidate at minimal Manhattan distance from
/// `from`: nothing is closer, and everything before it is strictly farther.
pub open spec fn is_first_min(from: Loc, locs: Seq<Loc>, i: int) -> bool {
    &&& 0 <= i < locs.len()
    &&& forall|j: int|
        0 <= j < locs.len() ==> manhattan(from, #[trigger] locs[j]) >= manhattan(from, locs[i])
    &&& forall|j: int| 0 <= j < i ==> manhattan(from, #[trigger] locs[j]) > manhattan(from, locs[i])
}

/// The nearest candidate by Manhattan distance, the first found winning ties.
pub fn closest_loc(from: Loc, locs: &Vec<Loc>) -> (best: Option<usize>)
    ensures
        match best {
            Some(i) => is_first_min(from, locs@, i as int),
            None => locs@.len() == 0,
        },
{
    if locs.len() == 0 {
        return None;
    }
    let mut best_i: usize = 0;
    let mut best_d: u128 = manhattan_dist(from, locs[0]);
    let mut j: usize = 1;
    while j < locs.len()
        invariant
            1 <= j <= locs@.len(),
            0 <= best_i < j,
            best_d == manhattan(from, locs@[best_i as int]),
            forall|k: int|
                0 <= k < j ==> manhattan(from, #[trigger] locs@[k]) >= manhattan(
                    from,
                    locs@[best_i as int],
                ),
            forall|k: int|
                0 <= k < best_i ==> manhattan(from, #[trigger] locs@[k]) > manhattan(
                    from,
                    locs@[best_i as int],
                ),
        decreases locs@.len() - j,
    {
        let d = manhattan_dist(from, locs[j]);
        if d < best_d {
            best_i = j;
            best_d = d;
        }
        j = j + 1;
    }
    Some(best_i)
}

/// One step of the shared movement rule: move one cell along the axis with
/// the larger offset to the target, along z on a tie; already at the target
/// means no movement.
pub open spec fn spec_step_toward(from: Loc, t: Loc) -> Loc {
    if axis_dist(from.x, t.x) > axis_dist(from.z, t.z) {
        if t.x > from.x {
            Loc { x: (from.x + 1) as usize, z: from.z }
        } else {
            Loc { x: (from.x - 1) as usize, z: from.z }
        }
    } else {
        if t.z > from.z {
            Loc { x: from.x, z: (from.z + 1) as usize }
        } else if t.z < from.z {
            Loc { x: from.x, z: (from.z - 1) as usize }
        } else {
            from
        }
    }
}

/// Where a seek step actually lands: the stepped cell when it is legal,
/// otherwise the agent stays in place.
pub open spec fn seek_dest(grid: &WorldMap, from: Loc, t: Loc) -> Loc {
    if legal_cell(grid, spec_step_toward(from, t)) {
        spec_step_toward(from, t)
    } else {
        from
    }
}

/// Executes one gated seek step toward `t`.
pub fn step_toward(grid: &WorldMap, from: Loc, t: Loc) -> (dest: Loc)
    requires
        grid.wf(),
        grid.spec_in_bounds(from.x as int, from.z as int),
    ensures
        dest == seek_dest(grid, from, t),
        grid.spec_in_bounds(dest.x as int, dest.z as int),
        grid.is_land(dest.x as int, dest.z as int) || dest == from,
{
    let dx = if from.x >= t.x {
        from.x - t.x
    } else {
        t.x - from.x
    };
    let dz = if from.z >= t.z {
        from.z - t.z
    } else {
        t.z - from.z
    };
    let stepped = if dx > dz {
        if t.x > from.x {
            Loc { x: from.x + 1, z: from.z }
        } else {
            Loc { x: from.x - 1, z: from.z }
        }
    } else {
        if t.z > from.z {
            Loc { x: from.x, z: from.z + 1 }
        } else if t.z < from.z {
            Loc { x: from.x, z: from.z - 1 }
        } else {
            from
        }
    };
    if stepped.x < grid.width() && stepped.z < grid.height() {
        if grid.classify(stepped.x, stepped.z) != VoxelType::WaterVoxel {
            stepped
        } else {
            from
        }
    } else {
        from
    }
}

/// The index of the first candidate at minimal Manhattan distance: a strictly
/// closer later candidate displaces the running choice, ties keep it.
pub open spec fn first_min_index(from: Loc, locs: Seq<Loc>) -> int
    decreases locs.len(),
{
    if locs.len() <= 1 {
        0
    } else {
        let rest = first_min_index(from, locs.drop_last());
        if manhattan(from, locs.last()) < manhattan(from, locs[rest]) {
            locs.len() - 1
        } else {
            rest
        }
    }
}

/// On a non-empty list, `first_min_index` is the first minimum.
pub proof fn lemma_first_min_index_props(from: Loc, locs: Seq<Loc>)
    requires
        locs.len() > 0,
    ensures
        is_first_min(from, locs, first_min_index(from, locs)),
    decreases locs.len(),
{
    if locs.len() == 1 {
        assert(is_first_min(from, locs, 0));
    } else {
        let head = locs.drop_last();
        lemma_first_min_index_props(from, head);
        let ci = first_min_index(from, head);
        assert(forall|j: int| 0 <= j < head.len() ==> #[trigger] head[j] == locs[j]);
        assert(forall|j: int| 0 <= j < head.len() ==> head[j] == #[trigger] locs[j]);
        if manhattan(from, locs.last()) < manhattan(from, locs[ci]) {
            assert(is_first_min(from, locs, locs.len() - 1));
        } else {
            assert(is_first_min(from, locs, ci));
        }
    }
}

/// Two first minima are the same index.
pub proof fn lemma_first_min_unique(from: Loc, locs: Seq<Loc>, i: int, j: int)
    requires
        is_first_min(from, locs, i),
        is_first_min(from, locs, j),
    ensures
        i == j,
{
    if i < j {
        assert(manhattan(from, locs[i]) > manhattan(from, locs[j]));
    }
    if j < i {
        assert(manhattan(from, locs[j]) > manhattan(from, locs[i]));
    }
}

/// The branch an agent takes this tick, in priority order.
#[derive(Clone, Copy, PartialEq, Eq, Structural, Debug)]
pub enum RabbitPriorityMovement {
    Partner,
    Water,
    Food,
    Random,
    Idle,
}

/// All five mate-seek preconditions: vitals at or above the satisfaction
/// threshold, a known partner, past the adult age, and off cooldown.
pub open spec fn mate_seek_ready(r: Rabbit) -> bool {
    &&& r.hunger >= r.satisfaction_threshold
    &&& r.thirst >= r.satisfaction_threshold
    &&& r.partner_in_range@.len() > 0
    &&& r.age > ADULT_AGE
    &&& r.mating_cooldown == 0
}

/// Fully sated on both vitals, or no known food and no known water.
pub open spec fn sated_or_blind(r: Rabbit) -> bool {
    ||| (r.hunger >= r.full_threshold && r.thirst >= r.full_threshold)
    ||| (r.plants_in_range@.len() == 0 && r.water_in_range@.len() == 0)
}

/// The priority policy: with no legal move at all nothing is eligible;
/// otherwise mate-seek wins, then random-walk when sated or blind, then
/// food-seek (hunger at most thirst), then water-seek (hunger above thirst),
/// and random-walk when the favoured resource is unknown.
pub open spec fn spec_priority(r: Rabbit, has_moves: bool) -> RabbitPriorityMovement {
    if !has_moves {
        RabbitPriorityMovement::Idle
    } else if mate_seek_ready(r) {
        RabbitPriorityMovement::Partner
    } else if sated_or_blind(r) {
        RabbitPriorityMovement::Random
    } else if r.hunger <= r.thirst && r.plants_in_range@.len() > 0 {
        RabbitPriorityMovement::Food
    } else if r.hunger > r.thirst && r.water_in_range@.len() > 0 {
        RabbitPriorityMovement::Water
    } else {
        RabbitPriorityMovement::Random
    }
}

/// Mate-seek is chosen whenever its five preconditions hold and some move is
/// legal, however low the vitals stand against the full threshold — in
/// particular when the agent would also be eligible for food-seek.
pub proof fn lemma_mate_seek_priority(r: Rabbit)
    requires
        mate_seek_ready(r),
    ensures
        spec_priority(r, true) == RabbitPriorityMovement::Partner,
{
}

/// Evaluates the priority policy.
pub fn choose_priority(r: &Rabbit, has_moves: bool) -> (p: RabbitPriorityMovement)
    ensures
        p == spec_priority(*r, has_moves),
{
    if !has_moves {
        RabbitPriorityMovement::Idle
    } else if r.hunger >= r.satisfaction_threshold && r.thirst >= r.satisfaction_threshold
        && r.partner_in_range.len() > 0 && r.age > ADULT_AGE && r.mating_cooldown == 0 {
        RabbitPriorityMovement::Partner
    } else if (r.hunger >= r.full_threshold && r.thirst >= r.full_threshold) || (
    r.plants_in_range.len() == 0 && r.water_in_range.len() == 0) {
        RabbitPriorityMovement::Random
    } else if r.hunger <= r.thirst && r.plants_in_range.len() > 0 {
        RabbitPriorityMovement::Food
    } else if r.hunger > r.thirst && r.water_in_range.len() > 0 {
        RabbitPriorityMovement::Water
    } else {
        RabbitPriorityMovement::Random
    }
}

/// The partner handles that still resolve to live rabbits, each paired with
/// that rabbit's location, in list order.
pub open spec fn resolved_partners(partners: Seq<u64>, rabbits: Seq<Rabbit>) -> Seq<(u64, Loc)>
    decreases partners.len(),
{
    if partners.len() == 0 {
        Seq::empty()
    } else {
        let rest = resolved_partners(partners.drop_last(), rabbits);
        match spec_find_rabbit(rabbits, partners.last()) {
            Option::None => rest,
            Option::Some(i) => rest.push((partners.last(), rabbits[i].location)),
        }
    }
}

/// The plant indices that name existing patches, each paired with the
/// patch's location, in list order.
pub open spec fn resolved_plants(plants: Seq<usize>, foliage: Seq<Foliage>) -> Seq<(usize, Loc)>
    decreases plants.len(),
{
    if plants.len() == 0 {
        Seq::empty()
    } else {
        let rest = resolved_plants(plants.drop_last(), foliage);
        if plants.last() < foliage.len() {
            rest.push((plants.last(), foliage[plants.last() as int].location))
        } else {
            rest
        }
    }
}

pub open spec fn partner_locs(s: Seq<(u64, Loc)>) -> Seq<Loc> {
    s.map_values(|p: (u64, Loc)| p.1)
}

pub open spec fn plant_locs(s: Seq<(usize, Loc)>) -> Seq<Loc> {
    s.map_values(|p: (usize, Loc)| p.1)
}

/// Resolves the partner list against the live registry, skipping handles
/// that are no longer live.
pub fn resolve_partners(partners: &Vec<u64>, rabbits: &Vec<Rabbit>) -> (v: Vec<(u64, Loc)>)
    ensures
        v@ == resolved_partners(partners@, rabbits@),
{
    let mut v: Vec<(u64, Loc)> = Vec::new();
    let mut k: usize = 0;
    while k < partners.len()
        invariant
            k <= partners@.len(),
            v@ == resolved_partners(partners@.subrange(0, k as int), rabbits@),
        decreases partners@.len() - k,
    {
        let ent = partners[k];
        proof {
            lemma_spec_find_rabbit(rabbits@, ent);
            assert(partners@.subrange(0, k + 1).drop_last() =~= partners@.subrange(0, k as int));
            assert(partners@.subrange(0, k + 1).last() == partners@[k as int]);
        }
        match find_rabbit(rabbits, ent) {
            Some(i) => {
                let loc = rabbits[i].location;
                proof {
                    match spec_find_rabbit(rabbits@, ent) {
                        Option::None => {
                            assert(false);
                        },
                        Option::Some(si) => {
                            assert(si == i);
                        },
                    }
                }
                v.push((ent, loc));
            },
            None => {
                proof {
                    match spec_find_rabbit(rabbits@, ent) {
                        Option::None => {},
                        Option::Some(si) => {
                            assert(rabbits@[si].entity == ent);
                            assert(false);
                        },
                    }
                }
            },
        }
        k = k + 1;
    }
    proof {
        assert(partners@.subrange(0, partners@.len() as int) =~= partners@);
    }
    v
}

/// Resolves the plant list against the foliage field, skipping indices that
/// name no patch.
pub fn resolve_plants(plants: &Vec<usize>, foliage: &Vec<Foliage>) -> (v: Vec<(usize, Loc)>)
    ensures
        v@ == resolved_plants(plants@, foliage@),
{
    let mut v: Vec<(usize, Loc)> = Vec::new();
    let mut k: usize = 0;
    while k < plants.len()
        invariant
            k <= plants@.len(),
            v@ == resolved_plants(plants@.subrange(0, k as int), foliage@),
        decreases plants@.len() - k,
    {
        let idx = plants[k];
        proof {
            assert(plants@.subrange(0, k + 1).drop_last() =~= plants@.subrange(0, k as int));
            assert(plants@.subrange(0, k + 1).last() == plants@[k as int]);
        }
        if idx < foliage.len() {
            v.push((idx, foliage[idx].location));
        }
        k = k + 1;
    }
    proof {
        assert(plants@.subrange(0, plants@.len() as int) =~= plants@);
    }
    v
}

/// The partner's relative offset is within one cell on both axes, so the
/// pair breeds instead of moving.
pub open spec fn within_breeding_box(a: Loc, b: Loc) -> bool {
    axis_dist(a.x, b.x) <= 1 && axis_dist(a.z, b.z) <= 1
}

/// What phase one decided for one rabbit.
pub struct RabbitPlan {
    pub entity: u64,
    pub movement: RabbitPriorityMovement,
    pub target: Option<Loc>,
    pub possible_moves: Vec<Loc>,
}

/// Exactly what `plan_rabbit` decides, and which events it emits, for every
/// branch of the priority policy.
pub open spec fn plan_ok(
    r: Rabbit,
    rabbits: Seq<Rabbit>,
    foliage: Seq<Foliage>,
    plan: RabbitPlan,
    b0: Seq<RabbitBreedingEvent>,
    b1: Seq<RabbitBreedingEvent>,
    c0: Seq<FoliageConsumedEvent>,
    c1: Seq<FoliageConsumedEvent>,
) -> bool {
    match spec_priority(r, plan.possible_moves@.len() > 0) {
        RabbitPriorityMovement::Idle => plan.movement == RabbitPriorityMovement::Idle
            && plan.target is None && b1 == b0 && c1 == c0,
        RabbitPriorityMovement::Random => plan.movement == RabbitPriorityMovement::Random
            && plan.target is None && b1 == b0 && c1 == c0,
        RabbitPriorityMovement::Partner => {
            let cands = resolved_partners(r.partner_in_range@, rabbits);
            &&& (cands.len() == 0 ==> plan.movement == RabbitPriorityMovement::Idle
                && plan.target is None && b1 == b0 && c1 == c0)
            &&& (forall|i: int|
                is_first_min(r.location, partner_locs(cands), i) ==> {
                    if within_breeding_box(r.location, cands[i].1) {
                        &&& plan.movement == RabbitPriorityMovement::Idle
                        &&& plan.target is None
                        &&& b1 == b0.push(RabbitBreedingEvent(r.entity, cands[i].0))
                        &&& c1 == c0
                    } else {
                        &&& plan.movement == RabbitPriorityMovement::Partner
                        &&& plan.target == Some(cands[i].1)
                        &&& b1 == b0
                        &&& c1 == c0
                    }
                })
        },
        RabbitPriorityMovement::Food => {
            let cands = resolved_plants(r.plants_in_range@, foliage);
            &&& (cands.len() == 0 ==> plan.movement == RabbitPriorityMovement::Food
                && plan.target is None && b1 == b0 && c1 == c0)
            &&& (forall|i: int|
                is_first_min(r.location, plant_locs(cands), i) ==> {
                    &&& plan.movement == RabbitPriorityMovement::Food
                    &&& plan.target == Some(cands[i].1)
                    &&& b1 == b0
                    &&& (if cands[i].1 == r.location {
                        c1 == c0.push(FoliageConsumedEvent(cands[i].0))
                    } else {
                        c1 == c0
                    })
                })
        },
        RabbitPriorityMovement::Water => {
            &&& (forall|i: int|
                is_first_min(r.location, r.water_in_range@, i) ==> {
                    &&& plan.movement == RabbitPriorityMovement::Water
                    &&& plan.target == Some(r.water_in_range@[i])
                })
            &&& b1 == b0
            &&& c1 == c0
        },
    }
}

/// The plan a rabbit's priority decision pins down, target included: which
/// branch runs in phase two, and toward which cell.
pub open spec fn plan_matches(
    r: Rabbit,
    rabbits: Seq<Rabbit>,
    foliage: Seq<Foliage>,
    grid: &WorldMap,
    plan: RabbitPlan,
) -> bool {
    &&& plan.entity == r.entity
    &&& moves_ok(grid, r.location, plan.possible_moves@)
    &&& match spec_priority(r, has_legal_move(grid, r.location)) {
        RabbitPriorityMovement::Idle => plan.movement == RabbitPriorityMovement::Idle
            && plan.target is None,
        RabbitPriorityMovement::Random => plan.movement == RabbitPriorityMovement::Random
            && plan.target is None,
        RabbitPriorityMovement::Partner => {
            let cands = resolved_partners(r.partner_in_range@, rabbits);
            &&& (cands.len() == 0 ==> plan.movement == RabbitPriorityMovement::Idle
                && plan.target is None)
            &&& (forall|i: int|
                is_first_min(r.location, partner_locs(cands), i) ==> {
                    if within_breeding_box(r.location, cands[i].1) {
                        plan.movement == RabbitPriorityMovement::Idle && plan.target is None
                    } else {
                        plan.movement == RabbitPriorityMovement::Partner && plan.target == Some(
                            cands[i].1,
                        )
                    }
                })
        },
        RabbitPriorityMovement::Food => {
            let cands = resolved_plants(r.plants_in_range@, foliage);
            &&& (cands.len() == 0 ==> plan.movement == RabbitPriorityMovement::Food
                && plan.target is None)
            &&& (forall|i: int|
                is_first_min(r.location, plant_locs(cands), i)
                    ==> plan.movement == RabbitPriorityMovement::Food && plan.target == Some(
                    cands[i].1,
                ))
        },
        RabbitPriorityMovement::Water => forall|i: int|
            is_first_min(r.location, r.water_in_range@, i) ==> plan.movement
                == RabbitPriorityMovement::Water && plan.target == Some(r.water_in_range@[i]),
    }
}

/// Phase one of the movement pass for one rabbit: scan the neighbourhood,
/// evaluate the priority policy, pick the nearest target, and emit a breeding
/// or consumption event where the policy asks for one instead of a move.
pub fn plan_rabbit(
    r: &Rabbit,
    rabbits: &Vec<Rabbit>,
    foliage: &Vec<Foliage>,
    grid: &WorldMap,
    breeding: &mut Vec<RabbitBreedingEvent>,
    consumed: &mut Vec<FoliageConsumedEvent>,
) -> (plan: RabbitPlan)
    requires
        grid.wf(),
        grid.spec_in_bounds(r.location.x as int, r.location.z as int),
    ensures
        plan.entity == r.entity,
        moves_ok(grid, r.location, plan.possible_moves@),
        plan_ok(*r, rabbits@, foliage@, plan, old(breeding)@, final(breeding)@, old(consumed)@, final(consumed)@),
        plan_matches(*r, rabbits@, foliage@, grid, plan),
{
    let possible_moves = legal_moves(grid, r.location);
    proof {
        assert((possible_moves@.len() > 0) == has_legal_move(grid, r.location)) by {
            if possible_moves@.len() > 0 {
                assert(legal_move_from(grid, r.location, possible_moves@[0]));
            }
            if has_legal_move(grid, r.location) {
                let m = choose|m: Loc| legal_move_from(grid, r.location, m);
                assert(possible_moves@.contains(m));
            }
        }
    }
    let pr = choose_priority(r, possible_moves.len() > 0);
    match pr {
        RabbitPriorityMovement::Idle => RabbitPlan {
            entity: r.entity,
            movement: RabbitPriorityMovement::Idle,
            target: None,
            possible_moves,
        },
        RabbitPriorityMovement::Random => RabbitPlan {
            entity: r.entity,
            movement: RabbitPriorityMovement::Random,
            target: None,
            possible_moves,
        },
        RabbitPriorityMovement::Partner => {
            let cands = resolve_partners(&r.partner_in_range, rabbits);
            let locs = pair_locations_u64(&cands);
            match closest_loc(r.location, &locs) {
                None => RabbitPlan {
                    entity: r.entity,
                    movement: RabbitPriorityMovement::Idle,
                    target: None,
                    possible_moves,
                },
                Some(i) => {
                    proof {
                        assert forall|i2: int|
                            is_first_min(r.location, partner_locs(cands@), i2) implies i2
                            == i as int by {
                            lemma_first_min_unique(r.location, locs@, i as int, i2);
                        }
                    }
                    let ent = cands[i].0;
                    let ploc = cands[i].1;
                    let near_x = if r.location.x >= ploc.x {
                        r.location.x - ploc.x <= 1
                    } else {
                        ploc.x - r.location.x <= 1
                    };
                    let near_z = if r.location.z >= ploc.z {
                        r.location.z - ploc.z <= 1
                    } else {
                        ploc.z - r.location.z <= 1
                    };
                    if near_x && near_z {
                        breeding.push(RabbitBreedingEvent(r.entity, ent));
                        RabbitPlan {
                            entity: r.entity,
                            movement: RabbitPriorityMovement::Idle,
                            target: None,
                            possible_moves,
                        }
                    } else {
                        RabbitPlan {
                            entity: r.entity,
                            movement: RabbitPriorityMovement::Partner,
                            target: Some(ploc),
                            possible_moves,
                        }
                    }
                },
            }
        },
        RabbitPriorityMovement::Food => {
            let cands = resolve_plants(&r.plants_in_range, foliage);
            let locs = pair_locations_usize(&cands);
            match closest_loc(r.location, &locs) {
                None => RabbitPlan {
                    entity: r.entity,
                    movement: RabbitPriorityMovement::Food,
                    target: None,
                    possible_moves,
                },
                Some(i) => {
                    proof {
                        assert forall|i2: int|
                            is_first_min(r.location, plant_locs(cands@), i2) implies i2
                            == i as int by {
                            lemma_first_min_unique(r.location, locs@, i as int, i2);
                        }
                    }
                    let idx = cands[i].0;
                    let ploc = cands[i].1;
                    if ploc.x == r.location.x && ploc.z == r.location.z {
                        consumed.push(FoliageConsumedEvent(idx));
                    }
                    RabbitPlan {
                        entity: r.entity,
                        movement: RabbitPriorityMovement::Food,
                        target: Some(ploc),
                        possible_moves,
                    }
                },
            }
        },
        RabbitPriorityMovement::Water => {
            match closest_loc(r.location, &r.water_in_range) {
                None => RabbitPlan {
                    entity: r.entity,
                    movement: RabbitPriorityMovement::Water,
                    target: None,
                    possible_moves,
                },
                Some(i) => {
                    proof {
                        assert forall|i2: int|
                            is_first_min(r.location, r.water_in_range@, i2) implies i2
                            == i as int by {
                            lemma_first_min_unique(r.location, r.water_in_range@, i as int, i2);
                        }
                    }
                    let wloc = r.water_in_range[i];
                    RabbitPlan {
                        entity: r.entity,
                        movement: RabbitPriorityMovement::Water,
                        target: Some(wloc),
                        possible_moves,
                    }
                },
            }
        },
    }
}

/// One cell away along exactly one axis: close enough to drink from a water
/// cell without standing on it.
pub open spec fn water_adjacent(a: Loc, b: Loc) -> bool {
    ||| (axis_dist(a.x, b.x) == 1 && a.z == b.z)
    ||| (axis_dist(a.z, b.z) == 1 && a.x == b.x)
}

/// Eating or drinking raises the vital by ten, uncapped by any rule of the
/// simulation; only the machine width of the counter bounds it.
pub open spec fn vital_gain(v: u32) -> u32 {
    if v <= u32::MAX - 10 {
        (v + 10) as u32
    } else {
        u32::MAX
    }
}

/// One random-walk tick of decay.
pub open spec fn vital_decay(v: u32) -> u32 {
    if v > 0 {
        (v - 1) as u32
    } else {
        0
    }
}

/// Both vitals after one random-walk decay.
pub open spec fn spec_decay_rabbit(r: Rabbit) -> Rabbit {
    Rabbit { hunger: vital_decay(r.hunger), thirst: vital_decay(r.thirst), ..r }
}

/// Applies the random-walk decay to both vitals and reports whether either
/// reached zero, which kills the rabbit this tick.
pub fn update_rabbit_hunger_and_thirst(r: &mut Rabbit) -> (dead: bool)
    ensures
        *final(r) == spec_decay_rabbit(*old(r)),
        dead == (final(r).hunger == 0 || final(r).thirst == 0),
{
    if r.hunger > 0 {
        r.hunger = r.hunger - 1;
    }
    if r.thirst > 0 {
        r.thirst = r.thirst - 1;
    }
    r.hunger == 0 || r.thirst == 0
}

/// Steps to one of the legal neighbouring cells, chosen uniformly at random;
/// a cell that fails the legality re-check leaves the rabbit in place.
pub fn walk_randomly(r: &mut Rabbit, possible_moves: &Vec<Loc>, grid: &WorldMap)
    requires
        grid.wf(),
        possible_moves@.len() > 0,
    ensures
        exists|k: int|
            0 <= k < possible_moves@.len() && *final(r) == (Rabbit {
                location: if legal_cell(grid, #[trigger] possible_moves@[k]) {
                    possible_moves@[k]
                } else {
                    old(r).location
                },
                ..*old(r)
            }),
{
    let idx = rand_below(possible_moves.len());
    let m = possible_moves[idx];
    if m.x < grid.width() && m.z < grid.height() {
        if grid.classify(m.x, m.z) != VoxelType::WaterVoxel {
            r.location = m;
        }
    }
    proof {
        assert(legal_cell(grid, possible_moves@[idx as int]) ==> final(r).location
            == possible_moves@[idx as int]);
    }
}

/// The registry after one random-walk application at index `i` landing on
/// `dest`: the move (re-checked for legality), then decay, then removal when
/// a vital reached zero — exactly one removal, of exactly that rabbit.
pub open spec fn walk_outcome(grid: &WorldMap, s: Seq<Rabbit>, i: int, dest: Loc, t: Seq<Rabbit>) -> bool {
    let moved = Rabbit {
        location: if legal_cell(grid, dest) {
            dest
        } else {
            s[i].location
        },
        ..s[i]
    };
    let decayed = spec_decay_rabbit(moved);
    if decayed.hunger == 0 || decayed.thirst == 0 {
        t == s.remove(i)
    } else {
        t == s.update(i, decayed)
    }
}

/// The registry after one plan is applied to the rabbit at index `i`.
pub open spec fn apply_outcome(grid: &WorldMap, s: Seq<Rabbit>, i: int, plan: RabbitPlan, t: Seq<Rabbit>) -> bool {
    let r = s[i];
    match plan.movement {
        RabbitPriorityMovement::Idle => t == s,
        RabbitPriorityMovement::Partner => match plan.target {
            Option::Some(tg) => t == s.update(
                i,
                Rabbit { location: seek_dest(grid, r.location, tg), ..r },
            ),
            Option::None => t == s,
        },
        RabbitPriorityMovement::Food => match plan.target {
            Option::Some(tg) => if tg == r.location {
                t == s.update(i, Rabbit { hunger: vital_gain(r.hunger), ..r })
            } else {
                t == s.update(i, Rabbit { location: seek_dest(grid, r.location, tg), ..r })
            },
            Option::None => t == s,
        },
        RabbitPriorityMovement::Water => match plan.target {
            Option::Some(tg) => if water_adjacent(r.location, tg) {
                t == s.update(i, Rabbit { thirst: vital_gain(r.thirst), ..r })
            } else {
                t == s.update(i, Rabbit { location: seek_dest(grid, r.location, tg), ..r })
            },
            Option::None => t == s,
        },
        RabbitPriorityMovement::Random => if plan.possible_moves@.len() == 0 {
            t == s
        } else {
            exists|k: int|
                0 <= k < plan.possible_moves@.len() && walk_outcome(
                    grid,
                    s,
                    i,
                    plan.possible_moves@[k],
                    t,
                )
        },
    }
}

/// Phase two of the movement pass for one plan: the planned rabbit moves,
/// eats, drinks, or random-walks (with decay and starvation); a plan whose
/// rabbit is no longer live changes nothing.
pub fn apply_plan(rabbits: &mut Vec<Rabbit>, plan: &RabbitPlan, grid: &WorldMap)
    requires
        grid.wf(),
        forall|i: int|
            0 <= i < old(rabbits)@.len() ==> grid.spec_in_bounds(
                (#[trigger] old(rabbits)@[i]).location.x as int,
                old(rabbits)@[i].location.z as int,
            ),
    ensures
        (forall|j: int|
            0 <= j < old(rabbits)@.len() ==> (#[trigger] old(rabbits)@[j]).entity != plan.entity)
            ==> final(rabbits)@ == old(rabbits)@,
        forall|i: int|
            (0 <= i < old(rabbits)@.len() && (#[trigger] old(rabbits)@[i]).entity == plan.entity
                && (forall|j: int|
                0 <= j < i ==> (#[trigger] old(rabbits)@[j]).entity != plan.entity))
                ==> apply_outcome(grid, old(rabbits)@, i, *plan, final(rabbits)@),
{
    let ghost orig = rabbits@;
    match find_rabbit(rabbits, plan.entity) {
        None => {},
        Some(i) => {
            let mut r = rabbits.remove(i);
            let ghost removed = rabbits@;
            match plan.movement {
                RabbitPriorityMovement::Idle => {
                    rabbits.insert(i, r);
                    proof {
                        assert(rabbits@ =~= orig);
                    }
                },
                RabbitPriorityMovement::Partner => {
                    match plan.target {
                        Some(t) => {
                            r.location = step_toward(grid, r.location, t);
                        },
                        None => {},
                    }
                    rabbits.insert(i, r);
                    proof {
                        if plan.target is None {
                            assert(rabbits@ =~= orig);
                        } else {
                            assert(rabbits@ =~= orig.update(i as int, rabbits@[i as int]));
                        }
                    }
                },
                RabbitPriorityMovement::Food => {
                    match plan.target {
                        Some(t) => {
                            if t.x == r.location.x && t.z == r.location.z {
                                r.hunger = if r.hunger <= u32::MAX - 10 {
                                    r.hunger + 10
                                } else {
                                    u32::MAX
                                };
                            } else {
                                r.location = step_toward(grid, r.location, t);
                            }
                        },
                        None => {},
                    }
                    rabbits.insert(i, r);
                    proof {
                        if plan.target is None {
                            assert(rabbits@ =~= orig);
                        } else {
                            assert(rabbits@ =~= orig.update(i as int, rabbits@[i as int]));
                        }
                    }
                },
                RabbitPriorityMovement::Water => {
                    match plan.target {
                        Some(t) => {
                            let near = (if r.location.x >= t.x {
                                r.location.x - t.x
                            } else {
                                t.x - r.location.x
                            }, if r.location.z >= t.z {
                                r.location.z - t.z
                            } else {
                                t.z - r.location.z
                            });
                            if (near.0 == 1 && near.1 == 0) || (near.1 == 1 && near.0 == 0) {
                                r.thirst = if r.thirst <= u32::MAX - 10 {
                                    r.thirst + 10
                                } else {
                                    u32::MAX
                                };
                            } else {
                                r.location = step_toward(grid, r.location, t);
                            }
                        },
                        None => {},
                    }
                    rabbits.insert(i, r);
                    proof {
                        if plan.target is None {
                            assert(rabbits@ =~= orig);
                        } else {
                            assert(rabbits@ =~= orig.update(i as int, rabbits@[i as int]));
                        }
                    }
                },
                RabbitPriorityMovement::Random => {
                    if plan.possible_moves.len() > 0 {
                        walk_randomly(&mut r, &plan.possible_moves, grid);
                        let dead = update_rabbit_hunger_and_thirst(&mut r);
                        if dead {
                            proof {
                                assert(rabbits@ =~= orig.remove(i as int));
                            }
                        } else {
                            rabbits.insert(i, r);
                            proof {
                                assert(rabbits@ =~= orig.update(i as int, rabbits@[i as int]));
                            }
                        }
                    } else {
                        rabbits.insert(i, r);
                        proof {
                            assert(rabbits@ =~= orig);
                        }
                    }
                },
            }
        },
    }
}

/// All fields of `b` agree with `a` except possibly location, hunger and
/// thirst — the only fields the movement pass may touch.
pub open spec fn same_rabbit_core(a: Rabbit, b: Rabbit) -> bool {
    &&& b.entity == a.entity
    &&& b.id == a.id
    &&& b.plants_in_range == a.plants_in_range
    &&& b.water_in_range == a.water_in_range
    &&& b.partner_in_range == a.partner_in_range
    &&& b.sight_distance == a.sight_distance
    &&& b.satisfaction_threshold == a.satisfaction_threshold
    &&& b.full_threshold == a.full_threshold
    &&& b.age == a.age
    &&& b.mating_cooldown == a.mating_cooldown
}

/// Some rabbit of `s` agrees with `r` on every field but location, hunger
/// and thirst.
pub open spec fn core_kept(s: Seq<Rabbit>, r: Rabbit) -> bool {
    exists|k: int| 0 <= k < s.len() && same_rabbit_core(#[trigger] s[k], r)
}

/// Applying one plan can only shrink the registry, keeps every rabbit well
/// formed and every handle unique, and changes nothing of a rabbit but its
/// location, hunger and thirst.
pub proof fn lemma_apply_outcome_preserves(
    grid: &WorldMap,
    s: Seq<Rabbit>,
    i: int,
    plan: RabbitPlan,
    t: Seq<Rabbit>,
)
    requires
        0 <= i < s.len(),
        apply_outcome(grid, s, i, plan, t),
        forall|j: int| 0 <= j < s.len() ==> rabbit_wf(grid, #[trigger] s[j]),
        entities_unique(s),
    ensures
        t.len() <= s.len(),
        forall|j: int| 0 <= j < t.len() ==> rabbit_wf(grid, #[trigger] t[j]),
        entities_unique(t),
        forall|j: int| 0 <= j < t.len() ==> core_kept(s, #[trigger] t[j]),
{
    let removed = s.remove(i);
    s.remove_ensures(i);
    assert(entities_unique(removed)) by {
        assert forall|a: int, b: int|
            0 <= a < b < removed.len() implies (#[trigger] removed[a]).entity
            != (#[trigger] removed[b]).entity by {
            let a0 = if a < i {
                a
            } else {
                a + 1
            };
            let b0 = if b < i {
                b
            } else {
                b + 1
            };
            assert(removed[a] == s[a0] && removed[b] == s[b0]);
        }
    }
    assert forall|j: int| 0 <= j < removed.len() implies core_kept(s, #[trigger] removed[j]) by {
        let k0 = if j < i {
            j
        } else {
            j + 1
        };
        assert(same_rabbit_core(s[k0], removed[j]));
    }
    match plan.movement {
        RabbitPriorityMovement::Random => {
            if plan.possible_moves@.len() > 0 {
                let k = choose|k: int|
                    0 <= k < plan.possible_moves@.len() && walk_outcome(
                        grid,
                        s,
                        i,
                        #[trigger] plan.possible_moves@[k],
                        t,
                    );
                assert(walk_outcome(grid, s, i, plan.possible_moves@[k], t));
            }
        },
        _ => {},
    }
    assert forall|j: int| 0 <= j < t.len() implies rabbit_wf(grid, #[trigger] t[j]) && core_kept(
        s,
        t[j],
    ) by {
        if t == s {
            assert(same_rabbit_core(s[j], t[j]));
        } else if t == removed {
            let k0 = if j < i {
                j
            } else {
                j + 1
            };
            assert(t[j] == s[k0]);
            assert(same_rabbit_core(s[k0], t[j]));
        } else {
            if j != i {
                assert(t[j] == s[j]);
                assert(same_rabbit_core(s[j], t[j]));
            } else {
                assert(same_rabbit_core(s[i], t[i]));
            }
        }
    }
    assert(entities_unique(t)) by {
        if t == s || t == removed {
        } else {
            assert forall|a: int, b: int|
                0 <= a < b < t.len() implies (#[trigger] t[a]).entity != (#[trigger] t[b]).entity by {
                assert(t[a].entity == s[a].entity && t[b].entity == s[b].entity);
            }
        }
    }
}

/// Some single step from `from` is legal.
pub open spec fn has_legal_move(grid: &WorldMap, from: Loc) -> bool {
    exists|m: Loc| legal_move_from(grid, from, m)
}

/// The breeding request rabbit `r` emits this tick, if any: the policy picks
/// mate-seek and the nearest resolved partner — first found on ties — stands
/// within one cell on both axes.
pub open spec fn breeding_emission(r: Rabbit, rabbits: Seq<Rabbit>, grid: &WorldMap) -> Option<RabbitBreedingEvent> {
    let cands = resolved_partners(r.partner_in_range@, rabbits);
    if spec_priority(r, has_legal_move(grid, r.location)) == RabbitPriorityMovement::Partner
        && cands.len() > 0 {
        let ci = first_min_index(r.location, partner_locs(cands));
        if within_breeding_box(r.location, cands[ci].1) {
            Option::Some(RabbitBreedingEvent(r.entity, cands[ci].0))
        } else {
            Option::None
        }
    } else {
        Option::None
    }
}

/// The consumption effect rabbit `r` emits this tick, if any: the policy
/// picks food-seek and the nearest resolved patch — first found on ties —
/// lies under the rabbit's own feet.
pub open spec fn consumption_emission(r: Rabbit, foliage: Seq<Foliage>, grid: &WorldMap) -> Option<FoliageConsumedEvent> {
    let cands = resolved_plants(r.plants_in_range@, foliage);
    if spec_priority(r, has_legal_move(grid, r.location)) == RabbitPriorityMovement::Food
        && cands.len() > 0 {
        let ci = first_min_index(r.location, plant_locs(cands));
        if cands[ci].1 == r.location {
            Option::Some(FoliageConsumedEvent(cands[ci].0))
        } else {
            Option::None
        }
    } else {
        Option::None
    }
}

/// The exact breeding-request list a planning sweep over `s` produces, in
/// registry order, resolving partners against `rabbits`: one request per
/// deciding rabbit, none otherwise.
pub open spec fn breeding_events_of(s: Seq<Rabbit>, rabbits: Seq<Rabbit>, grid: &WorldMap) -> Seq<RabbitBreedingEvent>
    decreases s.len(),
{
    if s.len() == 0 {
        Seq::empty()
    } else {
        let rest = breeding_events_of(s.drop_last(), rabbits, grid);
        match breeding_emission(s.last(), rabbits, grid) {
            Option::None => rest,
            Option::Some(e) => rest.push(e),
        }
    }
}

/// The exact consumption-effect list a planning sweep over `s` produces, in
/// registry order: one effect per rabbit standing on its nearest patch.
pub open spec fn consumption_events_of(s: Seq<Rabbit>, foliage: Seq<Foliage>, grid: &WorldMap) -> Seq<FoliageConsumedEvent>
    decreases s.len(),
{
    if s.len() == 0 {
        Seq::empty()
    } else {
        let rest = consumption_events_of(s.drop_last(), foliage, grid);
        match consumption_emission(s.last(), foliage, grid) {
            Option::None => rest,
            Option::Some(e) => rest.push(e),
        }
    }
}

/// `r` moved to `l`, all else untouched.
pub open spec fn with_location(r: Rabbit, l: Loc) -> Rabbit {
    Rabbit { location: l, ..r }
}

/// `r` after eating: hunger up ten, all else untouched.
pub open spec fn with_hunger_gain(r: Rabbit) -> Rabbit {
    Rabbit { hunger: vital_gain(r.hunger), ..r }
}

/// `r` after drinking: thirst up ten, all else untouched.
pub open spec fn with_thirst_gain(r: Rabbit) -> Rabbit {
    Rabbit { thirst: vital_gain(r.thirst), ..r }
}

/// Exactly what the movement pass does to one rabbit `r` of the snapshot
/// `rabbits`, observed in the registry `t` the pass leaves behind: idle and
/// breeding rabbits stand still; a seek branch steps toward its pinned
/// nearest target, or eats or drinks in place; the random-walk branch lands
/// on some legal neighbour, decays both vitals, and removes the rabbit if
/// either vital reached zero.
pub open spec fn rabbit_outcome(
    grid: &WorldMap,
    rabbits: Seq<Rabbit>,
    foliage: Seq<Foliage>,
    r: Rabbit,
    t: Seq<Rabbit>,
) -> bool {
    match spec_priority(r, has_legal_move(grid, r.location)) {
        RabbitPriorityMovement::Idle => t.contains(r),
        RabbitPriorityMovement::Partner => {
            let cands = resolved_partners(r.partner_in_range@, rabbits);
            &&& (cands.len() == 0 ==> t.contains(r))
            &&& (forall|ci: int|
                is_first_min(r.location, partner_locs(cands), ci) ==> {
                    if within_breeding_box(r.location, cands[ci].1) {
                        t.contains(r)
                    } else {
                        t.contains(with_location(r, seek_dest(grid, r.location, cands[ci].1)))
                    }
                })
        },
        RabbitPriorityMovement::Food => {
            let cands = resolved_plants(r.plants_in_range@, foliage);
            &&& (cands.len() == 0 ==> t.contains(r))
            &&& (forall|ci: int|
                is_first_min(r.location, plant_locs(cands), ci) ==> {
                    if cands[ci].1 == r.location {
                        t.contains(with_hunger_gain(r))
                    } else {
                        t.contains(with_location(r, seek_dest(grid, r.location, cands[ci].1)))
                    }
                })
        },
        RabbitPriorityMovement::Water => forall|ci: int|
            is_first_min(r.location, r.water_in_range@, ci) ==> {
                if water_adjacent(r.location, r.water_in_range@[ci]) {
                    t.contains(with_thirst_gain(r))
                } else {
                    t.contains(with_location(r, seek_dest(grid, r.location, r.water_in_range@[ci])))
                }
            },
        RabbitPriorityMovement::Random => exists|dest: Loc|
            #[trigger] legal_move_from(grid, r.location, dest) && {
                let decayed = spec_decay_rabbit(with_location(r, dest));
                if decayed.hunger == 0 || decayed.thirst == 0 {
                    forall|k: int| 0 <= k < t.len() ==> (#[trigger] t[k]).entity != r.entity
                } else {
                    t.contains(decayed)
                }
            },
    }
}

/// One plan application leaves the registry unchanged, or updates index `j`
/// in place keeping its handle, or removes index `j`.
spec fn registry_step_shape(pre: Seq<Rabbit>, t: Seq<Rabbit>, j: int) -> bool {
    ||| t == pre
    ||| t == pre.remove(j)
    ||| (t.len() == pre.len() && t[j].entity == pre[j].entity && (forall|k: int|
        0 <= k < pre.len() && k != j ==> #[trigger] t[k] == pre[k]))
}

proof fn lemma_apply_outcome_shape(
    grid: &WorldMap,
    pre: Seq<Rabbit>,
    j: int,
    plan: RabbitPlan,
    t: Seq<Rabbit>,
)
    requires
        0 <= j < pre.len(),
        apply_outcome(grid, pre, j, plan, t),
    ensures
        registry_step_shape(pre, t, j),
{
    match plan.movement {
        RabbitPriorityMovement::Random => {
            if plan.possible_moves@.len() > 0 {
                let k = choose|k: int|
                    0 <= k < plan.possible_moves@.len() && walk_outcome(
                        grid,
                        pre,
                        j,
                        #[trigger] plan.possible_moves@[k],
                        t,
                    );
                assert(walk_outcome(grid, pre, j, plan.possible_moves@[k], t));
            }
        },
        _ => {},
    }
}

/// A value held by another index survives one plan application at `j`.
proof fn lemma_step_keeps_value(pre: Seq<Rabbit>, t: Seq<Rabbit>, j: int, x: Rabbit)
    requires
        0 <= j < pre.len(),
        registry_step_shape(pre, t, j),
        pre.contains(x),
        x.entity != pre[j].entity,
    ensures
        t.contains(x),
{
    let w = choose|w: int| 0 <= w < pre.len() && pre[w] == x;
    assert(w != j);
    if t == pre {
        assert(t[w] == x);
    } else if t == pre.remove(j) {
        pre.remove_ensures(j);
        if w < j {
            assert(t[w] == x);
        } else {
            assert(t[w - 1] == x);
        }
    } else {
        assert(t[w] == x);
    }
}

/// A handle absent from the registry stays absent through one plan
/// application at `j`.
proof fn lemma_step_keeps_absent(pre: Seq<Rabbit>, t: Seq<Rabbit>, j: int, e2: u64)
    requires
        0 <= j < pre.len(),
        registry_step_shape(pre, t, j),
        forall|k: int| 0 <= k < pre.len() ==> (#[trigger] pre[k]).entity != e2,
    ensures
        forall|k: int| 0 <= k < t.len() ==> (#[trigger] t[k]).entity != e2,
{
    if t == pre {
    } else if t == pre.remove(j) {
        pre.remove_ensures(j);
        assert forall|k: int| 0 <= k < t.len() implies (#[trigger] t[k]).entity != e2 by {
            if k < j {
                assert(t[k] == pre[k]);
            } else {
                assert(t[k] == pre[k + 1]);
            }
        }
    } else {
        assert forall|k: int| 0 <= k < t.len() implies (#[trigger] t[k]).entity != e2 by {
            if k != j {
                assert(t[k] == pre[k]);
            } else {
                assert(t[j].entity == pre[j].entity);
            }
        }
    }
}

/// An already-established outcome of another rabbit survives one plan
/// application at `j`.
proof fn lemma_rabbit_outcome_transport(
    grid: &WorldMap,
    orig: Seq<Rabbit>,
    foliage: Seq<Foliage>,
    r: Rabbit,
    pre: Seq<Rabbit>,
    t: Seq<Rabbit>,
    j: int,
)
    requires
        rabbit_outcome(grid, orig, foliage, r, pre),
        registry_step_shape(pre, t, j),
        0 <= j < pre.len(),
        r.entity != pre[j].entity,
    ensures
        rabbit_outcome(grid, orig, foliage, r, t),
{
    match spec_priority(r, has_legal_move(grid, r.location)) {
        RabbitPriorityMovement::Idle => {
            lemma_step_keeps_value(pre, t, j, r);
        },
        RabbitPriorityMovement::Partner => {
            let cands = resolved_partners(r.partner_in_range@, orig);
            if cands.len() == 0 {
                lemma_step_keeps_value(pre, t, j, r);
            }
            assert forall|ci: int| is_first_min(r.location, partner_locs(cands), ci) implies {
                if within_breeding_box(r.location, cands[ci].1) {
                    t.contains(r)
                } else {
                    t.contains(with_location(r, seek_dest(grid, r.location, cands[ci].1)))
                }
            } by {
                if within_breeding_box(r.location, cands[ci].1) {
                    lemma_step_keeps_value(pre, t, j, r);
                } else {
                    lemma_step_keeps_value(
                        pre,
                        t,
                        j,
                        with_location(r, seek_dest(grid, r.location, cands[ci].1)),
                    );
                }
            }
        },
        RabbitPriorityMovement::Food => {
            let cands = resolved_plants(r.plants_in_range@, foliage);
            if cands.len() == 0 {
                lemma_step_keeps_value(pre, t, j, r);
            }
            assert forall|ci: int| is_first_min(r.location, plant_locs(cands), ci) implies {
                if cands[ci].1 == r.location {
                    t.contains(with_hunger_gain(r))
                } else {
                    t.contains(with_location(r, seek_dest(grid, r.location, cands[ci].1)))
                }
            } by {
                if cands[ci].1 == r.location {
                    lemma_step_keeps_value(pre, t, j, with_hunger_gain(r));
                } else {
                    lemma_step_keeps_value(
                        pre,
                        t,
                        j,
                        with_location(r, seek_dest(grid, r.location, cands[ci].1)),
                    );
                }
            }
        },
        RabbitPriorityMovement::Water => {
            assert forall|ci: int| is_first_min(r.location, r.water_in_range@, ci) implies {
                if water_adjacent(r.location, r.water_in_range@[ci]) {
                    t.contains(with_thirst_gain(r))
                } else {
                    t.contains(with_location(r, seek_dest(grid, r.location, r.water_in_range@[ci])))
                }
            } by {
                if water_adjacent(r.location, r.water_in_range@[ci]) {
                    lemma_step_keeps_value(pre, t, j, with_thirst_gain(r));
                } else {
                    lemma_step_keeps_value(
                        pre,
                        t,
                        j,
                        with_location(r, seek_dest(grid, r.location, r.water_in_range@[ci])),
                    );
                }
            }
        },
        RabbitPriorityMovement::Random => {
            let dest = choose|dest: Loc|
                #[trigger] legal_move_from(grid, r.location, dest) && {
                    let decayed = spec_decay_rabbit(with_location(r, dest));
                    if decayed.hunger == 0 || decayed.thirst == 0 {
                        forall|k: int| 0 <= k < pre.len() ==> (#[trigger] pre[k]).entity
                            != r.entity
                    } else {
                        pre.contains(decayed)
                    }
                };
            let decayed = spec_decay_rabbit(with_location(r, dest));
            if decayed.hunger == 0 || decayed.thirst == 0 {
                lemma_step_keeps_absent(pre, t, j, r.entity);
            } else {
                lemma_step_keeps_value(pre, t, j, decayed);
            }
            assert(legal_move_from(grid, r.location, dest) && {
                let decayed = spec_decay_rabbit(with_location(r, dest));
                if decayed.hunger == 0 || decayed.thirst == 0 {
                    forall|k: int| 0 <= k < t.len() ==> (#[trigger] t[k]).entity != r.entity
                } else {
                    t.contains(decayed)
                }
            });
        },
    }
}

/// Applying a rabbit's own plan, at its live index, realises its outcome.
proof fn lemma_plan_establishes_outcome(
    grid: &WorldMap,
    orig: Seq<Rabbit>,
    foliage: Seq<Foliage>,
    r: Rabbit,
    plan: RabbitPlan,
    pre: Seq<Rabbit>,
    t: Seq<Rabbit>,
    j: int,
)
    requires
        plan_matches(r, orig, foliage, grid, plan),
        apply_outcome(grid, pre, j, plan, t),
        0 <= j < pre.len(),
        pre[j] == r,
        entities_unique(pre),
    ensures
        rabbit_outcome(grid, orig, foliage, r, t),
{
    assert((plan.possible_moves@.len() > 0) == has_legal_move(grid, r.location)) by {
        if plan.possible_moves@.len() > 0 {
            assert(legal_move_from(grid, r.location, plan.possible_moves@[0]));
        }
        if has_legal_move(grid, r.location) {
            let m = choose|m: Loc| legal_move_from(grid, r.location, m);
            assert(plan.possible_moves@.contains(m));
        }
    }
    match spec_priority(r, has_legal_move(grid, r.location)) {
        RabbitPriorityMovement::Idle => {
            assert(t == pre);
            assert(t[j] == r);
            assert(t.contains(r));
        },
        RabbitPriorityMovement::Partner => {
            let cands = resolved_partners(r.partner_in_range@, orig);
            if cands.len() == 0 {
                assert(t == pre);
                assert(t[j] == r);
                assert(t.contains(r));
            }
            assert forall|ci: int| is_first_min(r.location, partner_locs(cands), ci) implies {
                if within_breeding_box(r.location, cands[ci].1) {
                    t.contains(r)
                } else {
                    t.contains(with_location(r, seek_dest(grid, r.location, cands[ci].1)))
                }
            } by {
                if within_breeding_box(r.location, cands[ci].1) {
                    assert(t == pre);
                    assert(t[j] == r);
                    assert(t.contains(r));
                } else {
                    let v = with_location(r, seek_dest(grid, r.location, cands[ci].1));
                    assert(t == pre.update(j, v));
                    assert(t[j] == v);
                    assert(t.contains(v));
                }
            }
        },
        RabbitPriorityMovement::Food => {
            let cands = resolved_plants(r.plants_in_range@, foliage);
            if cands.len() == 0 {
                assert(t == pre);
                assert(t[j] == r);
                assert(t.contains(r));
            }
            assert forall|ci: int| is_first_min(r.location, plant_locs(cands), ci) implies {
                if cands[ci].1 == r.location {
                    t.contains(with_hunger_gain(r))
                } else {
                    t.contains(with_location(r, seek_dest(grid, r.location, cands[ci].1)))
                }
            } by {
                if cands[ci].1 == r.location {
                    let v = with_hunger_gain(r);
                    assert(t == pre.update(j, v));
                    assert(t[j] == v);
                    assert(t.contains(v));
                } else {
                    let v = with_location(r, seek_dest(grid, r.location, cands[ci].1));
                    assert(t == pre.update(j, v));
                    assert(t[j] == v);
                    assert(t.contains(v));
                }
            }
        },
        RabbitPriorityMovement::Water => {
            assert forall|ci: int| is_first_min(r.location, r.water_in_range@, ci) implies {
                if water_adjacent(r.location, r.water_in_range@[ci]) {
                    t.contains(with_thirst_gain(r))
                } else {
                    t.contains(with_location(r, seek_dest(grid, r.location, r.water_in_range@[ci])))
                }
            } by {
                if water_adjacent(r.location, r.water_in_range@[ci]) {
                    let v = with_thirst_gain(r);
                    assert(t == pre.update(j, v));
                    assert(t[j] == v);
                    assert(t.contains(v));
                } else {
                    let v = with_location(r, seek_dest(grid, r.location, r.water_in_range@[ci]));
                    assert(t == pre.update(j, v));
                    assert(t[j] == v);
                    assert(t.contains(v));
                }
            }
        },
        RabbitPriorityMovement::Random => {
            let k = choose|k: int|
                0 <= k < plan.possible_moves@.len() && walk_outcome(
                    grid,
                    pre,
                    j,
                    #[trigger] plan.possible_moves@[k],
                    t,
                );
            assert(walk_outcome(grid, pre, j, plan.possible_moves@[k], t));
            let dest = plan.possible_moves@[k];
            assert(legal_move_from(grid, r.location, dest));
            let decayed = spec_decay_rabbit(with_location(r, dest));
            if decayed.hunger == 0 || decayed.thirst == 0 {
                assert(t == pre.remove(j));
                pre.remove_ensures(j);
                assert forall|k2: int| 0 <= k2 < t.len() implies (#[trigger] t[k2]).entity
                    != r.entity by {
                    if k2 < j {
                        assert(t[k2] == pre[k2]);
                        assert(pre[k2].entity != pre[j].entity);
                    } else {
                        assert(t[k2] == pre[k2 + 1]);
                        assert(pre[k2 + 1].entity != pre[j].entity);
                    }
                }
            } else {
                assert(t == pre.update(j, decayed));
                assert(t[j] == decayed);
                assert(t.contains(decayed));
            }
            assert(legal_move_from(grid, r.location, dest) && {
                let d2 = spec_decay_rabbit(with_location(r, dest));
                if d2.hunger == 0 || d2.thirst == 0 {
                    forall|k2: int| 0 <= k2 < t.len() ==> (#[trigger] t[k2]).entity != r.entity
                } else {
                    t.contains(d2)
                }
            });
        },
    }
}

/// Planning one more rabbit extends the drained event lists by exactly that
/// rabbit's emissions.
proof fn lemma_events_extend(
    orig: Seq<Rabbit>,
    i: int,
    foliage: Seq<Foliage>,
    grid: &WorldMap,
    plan: RabbitPlan,
    b_pre: Seq<RabbitBreedingEvent>,
    b_post: Seq<RabbitBreedingEvent>,
    c_pre: Seq<FoliageConsumedEvent>,
    c_post: Seq<FoliageConsumedEvent>,
)
    requires
        0 <= i < orig.len(),
        plan_ok(orig[i], orig, foliage, plan, b_pre, b_post, c_pre, c_post),
        (plan.possible_moves@.len() > 0) == has_legal_move(grid, orig[i].location),
        b_pre == breeding_events_of(orig.subrange(0, i), orig, grid),
        c_pre == consumption_events_of(orig.subrange(0, i), foliage, grid),
    ensures
        b_post == breeding_events_of(orig.subrange(0, i + 1), orig, grid),
        c_post == consumption_events_of(orig.subrange(0, i + 1), foliage, grid),
{
    let r = orig[i];
    assert(orig.subrange(0, i + 1).drop_last() =~= orig.subrange(0, i));
    assert(orig.subrange(0, i + 1).last() == r);
    let cands_p = resolved_partners(r.partner_in_range@, orig);
    let cands_f = resolved_plants(r.plants_in_range@, foliage);
    if cands_p.len() > 0 {
        lemma_first_min_index_props(r.location, partner_locs(cands_p));
    }
    if cands_f.len() > 0 {
        lemma_first_min_index_props(r.location, plant_locs(cands_f));
    }
}

/// What the decision & movement pass does, as one relation between the
/// registry before (`pre`) and after (`post`) and the drained event lists:
/// the population can only shrink (starvation); everyone stays well formed
/// (in particular, never on water) under unique handles; nothing of a rabbit
/// but its location, hunger and thirst is touched; every rabbit of the
/// snapshot meets its `rabbit_outcome`; and the event lists are exactly the
/// per-rabbit emissions in registry order.
pub open spec fn movement_pass_rel(
    grid: &WorldMap,
    foliage: Seq<Foliage>,
    pre: Seq<Rabbit>,
    post: Seq<Rabbit>,
    b: Seq<RabbitBreedingEvent>,
    c: Seq<FoliageConsumedEvent>,
) -> bool {
    &&& post.len() <= pre.len()
    &&& forall|i: int| 0 <= i < post.len() ==> rabbit_wf(grid, #[trigger] post[i])
    &&& entities_unique(post)
    &&& forall|i: int| 0 <= i < post.len() ==> core_kept(pre, #[trigger] post[i])
    &&& forall|i: int|
        0 <= i < pre.len() ==> rabbit_outcome(grid, pre, foliage, #[trigger] pre[i], post)
    &&& b == breeding_events_of(pre, pre, grid)
    &&& c == consumption_events_of(pre, foliage, grid)
}

/// The decision & movement pass, per `movement_pass_rel`: phase one plans
/// every rabbit against a snapshot of the registry and emits this tick's
/// breeding and consumption events; phase two applies each plan in registry
/// order.
#[verifier::rlimit(100)]
pub fn rabbit_movement(
    rabbits: &mut Vec<Rabbit>,
    foliage: &Vec<Foliage>,
    grid: &WorldMap,
) -> (events: (Vec<RabbitBreedingEvent>, Vec<FoliageConsumedEvent>))
    requires
        grid.wf(),
        forall|i: int|
            0 <= i < old(rabbits)@.len() ==> rabbit_wf(grid, #[trigger] old(rabbits)@[i]),
        entities_unique(old(rabbits)@),
    ensures
        final(rabbits)@.len() <= old(rabbits)@.len(),
        forall|i: int|
            0 <= i < final(rabbits)@.len() ==> rabbit_wf(grid, #[trigger] final(rabbits)@[i]),
        entities_unique(final(rabbits)@),
        forall|i: int|
            0 <= i < final(rabbits)@.len() ==> core_kept(old(rabbits)@, #[trigger] final(rabbits)@[i]),
        forall|i: int|
            0 <= i < old(rabbits)@.len() ==> rabbit_outcome(
                grid,
                old(rabbits)@,
                foliage@,
                #[trigger] old(rabbits)@[i],
                final(rabbits)@,
            ),
        events.0@ == breeding_events_of(old(rabbits)@, old(rabbits)@, grid),
        events.1@ == consumption_events_of(old(rabbits)@, foliage@, grid),
        movement_pass_rel(grid, foliage@, old(rabbits)@, final(rabbits)@, events.0@, events.1@),
{
    let ghost orig = rabbits@;
    let mut breeding: Vec<RabbitBreedingEvent> = Vec::new();
    let mut consumed: Vec<FoliageConsumedEvent> = Vec::new();
    let mut plans: Vec<RabbitPlan> = Vec::new();
    let mut i: usize = 0;
    while i < rabbits.len()
        invariant
            grid.wf(),
            rabbits@ == orig,
            i <= rabbits@.len(),
            forall|j: int| 0 <= j < orig.len() ==> rabbit_wf(grid, #[trigger] orig[j]),
            breeding@ == breeding_events_of(orig.subrange(0, i as int), orig, grid),
            consumed@ == consumption_events_of(orig.subrange(0, i as int), foliage@, grid),
            plans@.len() == i,
            forall|k: int|
                0 <= k < i ==> plan_matches(orig[k], orig, foliage@, grid, #[trigger] plans@[k]),
        decreases rabbits@.len() - i,
    {
        let ghost b_pre = breeding@;
        let ghost c_pre = consumed@;
        let plan = plan_rabbit(&rabbits[i], rabbits, foliage, grid, &mut breeding, &mut consumed);
        proof {
            let r = orig[i as int];
            assert((plan.possible_moves@.len() > 0) == has_legal_move(grid, r.location)) by {
                if plan.possible_moves@.len() > 0 {
                    assert(legal_move_from(grid, r.location, plan.possible_moves@[0]));
                }
                if has_legal_move(grid, r.location) {
                    let m = choose|m: Loc| legal_move_from(grid, r.location, m);
                    assert(plan.possible_moves@.contains(m));
                }
            }
            lemma_events_extend(orig, i as int, foliage@, grid, plan, b_pre, breeding@, c_pre, consumed@);
        }
        plans.push(plan);
        i = i + 1;
    }
    proof {
        assert(orig.subrange(0, orig.len() as int) =~= orig);
        assert forall|j: int| 0 <= j < rabbits@.len() implies core_kept(orig, #[trigger] rabbits@[j]) by {
            assert(same_rabbit_core(orig[j], rabbits@[j]));
        }
        assert forall|j: int| 0 <= j < orig.len() implies rabbits@.contains(#[trigger] orig[j]) by {
            assert(rabbits@[j] == orig[j]);
        }
    }
    let mut p: usize = 0;
    while p < plans.len()
        invariant
            grid.wf(),
            p <= plans@.len(),
            rabbits@.len() <= orig.len(),
            forall|j: int| 0 <= j < rabbits@.len() ==> rabbit_wf(grid, #[trigger] rabbits@[j]),
            entities_unique(rabbits@),
            forall|j: int| 0 <= j < rabbits@.len() ==> core_kept(orig, #[trigger] rabbits@[j]),
            forall|j: int| 0 <= j < orig.len() ==> rabbit_wf(grid, #[trigger] orig[j]),
            entities_unique(orig),
            plans@.len() == orig.len(),
            forall|k: int|
                0 <= k < orig.len() ==> plan_matches(
                    orig[k],
                    orig,
                    foliage@,
                    grid,
                    #[trigger] plans@[k],
                ),
            forall|i: int|
                0 <= i < p ==> rabbit_outcome(grid, orig, foliage@, #[trigger] orig[i], rabbits@),
            forall|i: int| p <= i < orig.len() ==> rabbits@.contains(#[trigger] orig[i]),
        decreases plans@.len() - p,
    {
        let ghost pre = rabbits@;
        apply_plan(rabbits, &plans[p], grid);
        proof {
            let plan = plans@[p as int];
            let r = orig[p as int];
            let e = r.entity;
            assert(pre.contains(r));
            let j = choose|j: int| 0 <= j < pre.len() && #[trigger] pre[j] == r;
            assert forall|jj: int| 0 <= jj < j implies (#[trigger] pre[jj]).entity != e by {
                assert(core_kept(orig, pre[jj]));
                assert(core_kept(orig, pre[j]));
            }
            assert(apply_outcome(grid, pre, j, plan, rabbits@));
            lemma_apply_outcome_shape(grid, pre, j, plan, rabbits@);
            lemma_plan_establishes_outcome(grid, orig, foliage@, r, plan, pre, rabbits@, j);
            assert forall|i: int| 0 <= i < p implies rabbit_outcome(
                grid,
                orig,
                foliage@,
                #[trigger] orig[i],
                rabbits@,
            ) by {
                assert(orig[i].entity != e);
                lemma_rabbit_outcome_transport(grid, orig, foliage@, orig[i], pre, rabbits@, j);
            }
            assert forall|i: int| p + 1 <= i < orig.len() implies rabbits@.contains(
                #[trigger] orig[i],
            ) by {
                assert(orig[i].entity != e);
                lemma_step_keeps_value(pre, rabbits@, j, orig[i]);
            }
            let ent = plans@[p as int].entity;
            lemma_spec_find_rabbit(pre, ent);
            match spec_find_rabbit(pre, ent) {
                Option::None => {
                    assert(rabbits@ == pre);
                },
                Option::Some(fi) => {
                    assert(apply_outcome(grid, pre, fi, plans@[p as int], rabbits@));
                    lemma_apply_outcome_preserves(grid, pre, fi, plans@[p as int], rabbits@);
                    assert forall|j: int| 0 <= j < rabbits@.len() implies core_kept(
                        orig,
                        #[trigger] rabbits@[j],
                    ) by {
                        assert(core_kept(pre, rabbits@[j]));
                        let k1 = choose|k1: int|
                            0 <= k1 < pre.len() && same_rabbit_core(#[trigger] pre[k1], rabbits@[j]);
                        assert(core_kept(orig, pre[k1]));
                        let k2 = choose|k2: int|
                            0 <= k2 < orig.len() && same_rabbit_core(#[trigger] orig[k2], pre[k1]);
                        assert(same_rabbit_core(orig[k2], rabbits@[j]));
                    }
                },
            }
        }
        p = p + 1;
    }
    (breeding, consumed)
}

/// The locations of a resolved partner list, index-aligned with it.
fn pair_locations_u64(s: &Vec<(u64, Loc)>) -> (v: Vec<Loc>)
    ensures
        v@ == partner_locs(s@),
{
    let mut v: Vec<Loc> = Vec::new();
    let mut k: usize = 0;
    while k < s.len()
        invariant
            k <= s@.len(),
            v@.len() == k,
            forall|j: int| 0 <= j < k ==> v@[j] == (#[trigger] s@[j]).1,
        decreases s@.len() - k,
    {
        v.push(s[k].1);
        k = k + 1;
    }
    proof {
        assert(v@ =~= partner_locs(s@));
    }
    v
}

/// The locations of a resolved plant list, index-aligned with it.
fn pair_locations_usize(s: &Vec<(usize, Loc)>) -> (v: Vec<Loc>)
    ensures
        v@ == plant_locs(s@),
{
    let mut v: Vec<Loc> = Vec::new();
    let mut k: usize = 0;
    while k < s.len()
        invariant
            k <= s@.len(),
            v@.len() == k,
            forall|j: int| 0 <= j < k ==> v@[j] == (#[trigger] s@[j]).1,
        decreases s@.len() - k,
    {
        v.push(s[k].1);
        k = k + 1;
    }
    proof {
        assert(v@ =~= plant_locs(s@));
    }
    v
}

} // verus!
