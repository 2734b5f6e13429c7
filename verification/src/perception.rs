//! Perception: per agent, per gated tick, recompute the transient in-range
//! sets from the grid, the foliage field and the other live agents.
//!
//! The sight window is a Chebyshev box (an inclusive square of radius
//! `sight_distance`), not a Euclidean disc. Scans run in a fixed order (patch
//! index order, row-major grid order, registry order), which pins each
//! resulting list exactly and so pins the first-found tie-breaks downstream.

use vstd::prelude::*;

use crate::foliage::Foliage;
use crate::rabbit::{Rabbit, ADULT_AGE};
use crate::world::{Loc, VoxelType, WorldMap};

verus! {

/// `p` lies in the inclusive Chebyshev box of radius `sight` around `center`.
pub open spec fn in_sight_window(center: Loc, sight: u32, p: Loc) -> bool {
    &&& center.x - sight <= p.x <= center.x + sight
    &&& center.z - sight <= p.z <= center.z + sight
}

/// Bounds-safe window test.
pub fn within_window(center: Loc, sight: u32, p: Loc) -> (b: bool)
    ensures
        b == in_sight_window(center, sight, p),
{
    let s = sight as usize;
    let dx = if p.x >= center.x {
        p.x - center.x
    } else {
        center.x - p.x
    };
    let dz = if p.z >= center.z {
        p.z - center.z
    } else {
        center.z - p.z
    };
    dx <= s && dz <= s
}

/// What a plant list must hold: exactly the indices of unconsumed patches
/// inside the window, in increasing index order.
pub open spec fn plants_list_ok(center: Loc, sight: u32, foliage: Seq<Foliage>, v: Seq<usize>) -> bool {
    &&& forall|k: int|
        0 <= k < v.len() ==> (#[trigger] v[k]) < foliage.len() && !foliage[v[k] as int].consumed
            && in_sight_window(center, sight, foliage[v[k] as int].location)
    &&& forall|i: int|
        0 <= i < foliage.len() && !(#[trigger] foliage[i]).consumed && in_sight_window(
            center,
            sight,
            foliage[i].location,
        ) ==> v.contains(i as usize)
    &&& forall|a: int, b: int| 0 <= a < b < v.len() ==> (#[trigger] v[a]) < (#[trigger] v[b])
}

/// The indices of every unconsumed patch inside the sight window, scanned in
/// index order.
pub fn perceive_plants(center: Loc, sight: u32, foliage: &Vec<Foliage>) -> (v: Vec<usize>)
    ensures
        plants_list_ok(center, sight, foliage@, v@),
{
    let mut v: Vec<usize> = Vec::new();
    let mut i: usize = 0;
    while i < foliage.len()
        invariant
            i <= foliage@.len(),
            forall|k: int|
                0 <= k < v@.len() ==> (#[trigger] v@[k]) < i && !foliage@[v@[k] as int].consumed
                    && in_sight_window(center, sight, foliage@[v@[k] as int].location),
            forall|j: int|
                0 <= j < i && !(#[trigger] foliage@[j]).consumed && in_sight_window(
                    center,
                    sight,
                    foliage@[j].location,
                ) ==> v@.contains(j as usize),
            forall|a: int, b: int| 0 <= a < b < v@.len() ==> (#[trigger] v@[a]) < (#[trigger] v@[b]),
        decreases foliage@.len() - i,
    {
        let ghost pre = v@;
        let p = foliage[i];
        if !p.consumed && within_window(center, sight, p.location) {
            v.push(i);
        }
        proof {
            assert forall|j: int|
                0 <= j < i + 1 && !(#[trigger] foliage@[j]).consumed && in_sight_window(
                    center,
                    sight,
                    foliage@[j].location,
                ) implies v@.contains(j as usize) by {
                if j < i {
                    assert(pre.contains(j as usize));
                    let w = choose|w: int| 0 <= w < pre.len() && pre[w] == j as usize;
                    assert(v@[w] == j as usize);
                } else {
                    assert(v@[v@.len() - 1] == j as usize);
                }
            }
        }
        i = i + 1;
    }
    v
}

/// What a water list must hold: exactly the water cells inside the window,
/// in row-major scan order.
pub open spec fn water_list_ok(center: Loc, sight: u32, grid: &WorldMap, v: Seq<Loc>) -> bool {
    &&& forall|k: int|
        0 <= k < v.len() ==> grid.spec_in_bounds((#[trigger] v[k]).x as int, v[k].z as int)
            && grid.cell(v[k].x as int, v[k].z as int) == VoxelType::WaterVoxel && in_sight_window(
            center,
            sight,
            v[k],
        )
    &&& forall|x: int, z: int|
        0 <= x < grid.spec_width() && 0 <= z < grid.spec_height() && grid.cell(x, z)
            == VoxelType::WaterVoxel && in_sight_window(
            center,
            sight,
            Loc { x: x as usize, z: z as usize },
        ) ==> v.contains(Loc { x: x as usize, z: z as usize })
    &&& forall|a: int, b: int|
        0 <= a < b < v.len()
            ==> ((#[trigger] v[a]).x < (#[trigger] v[b]).x || (v[a].x == v[b].x && v[a].z
                < v[b].z))
}

/// Every water cell inside the sight window, scanned row-major over the grid.
pub fn perceive_water(center: Loc, sight: u32, grid: &WorldMap) -> (v: Vec<Loc>)
    requires
        grid.wf(),
    ensures
        water_list_ok(center, sight, grid, v@),
{
    let width = grid.width();
    let height = grid.height();
    let mut v: Vec<Loc> = Vec::new();
    let mut x: usize = 0;
    while x < width
        invariant
            x <= width,
            grid.wf(),
            width == grid.spec_width(),
            height == grid.spec_height(),
            forall|k: int|
                0 <= k < v@.len() ==> grid.spec_in_bounds((#[trigger] v@[k]).x as int, v@[k].z as int)
                    && grid.cell(v@[k].x as int, v@[k].z as int) == VoxelType::WaterVoxel
                    && in_sight_window(center, sight, v@[k]) && v@[k].x < x,
            forall|a: int, b: int|
                0 <= a < x && 0 <= b < height && grid.cell(a, b) == VoxelType::WaterVoxel
                    && in_sight_window(center, sight, Loc { x: a as usize, z: b as usize })
                    ==> v@.contains(Loc { x: a as usize, z: b as usize }),
            forall|a: int, b: int|
                0 <= a < b < v@.len()
                    ==> ((#[trigger] v@[a]).x < (#[trigger] v@[b]).x || (v@[a].x == v@[b].x
                        && v@[a].z < v@[b].z)),
        decreases width - x,
    {
        let mut z: usize = 0;
        while z < height
            invariant
                x < width,
                z <= height,
                grid.wf(),
                width == grid.spec_width(),
                height == grid.spec_height(),
                forall|k: int|
                    0 <= k < v@.len() ==> grid.spec_in_bounds(
                        (#[trigger] v@[k]).x as int,
                        v@[k].z as int,
                    ) && grid.cell(v@[k].x as int, v@[k].z as int) == VoxelType::WaterVoxel
                        && in_sight_window(center, sight, v@[k]) && (v@[k].x < x || (v@[k].x == x
                        && v@[k].z < z)),
                forall|a: int, b: int|
                    0 <= a < x && 0 <= b < height && grid.cell(a, b) == VoxelType::WaterVoxel
                        && in_sight_window(center, sight, Loc { x: a as usize, z: b as usize })
                        ==> v@.contains(Loc { x: a as usize, z: b as usize }),
                forall|b: int|
                    0 <= b < z && grid.cell(x as int, b) == VoxelType::WaterVoxel
                        && in_sight_window(center, sight, Loc { x: x, z: b as usize })
                        ==> v@.contains(Loc { x: x, z: b as usize }),
                forall|a: int, b: int|
                    0 <= a < b < v@.len()
                        ==> ((#[trigger] v@[a]).x < (#[trigger] v@[b]).x || (v@[a].x == v@[b].x
                            && v@[a].z < v@[b].z)),
            decreases height - z,
        {
            let ghost pre = v@;
            if grid.classify(x, z) == VoxelType::WaterVoxel {
                if within_window(center, sight, Loc { x, z }) {
                    v.push(Loc { x, z });
                }
            }
            proof {
                assert forall|a: int, b: int|
                    0 <= a < x && 0 <= b < height && grid.cell(a, b) == VoxelType::WaterVoxel
                        && in_sight_window(
                        center,
                        sight,
                        Loc { x: a as usize, z: b as usize },
                    ) implies v@.contains(Loc { x: a as usize, z: b as usize }) by {
                    assert(pre.contains(Loc { x: a as usize, z: b as usize }));
                    let w = choose|w: int| 0 <= w < pre.len() && pre[w] == Loc {
                        x: a as usize,
                        z: b as usize,
                    };
                    assert(v@[w] == Loc { x: a as usize, z: b as usize });
                }
                assert forall|b: int|
                    0 <= b < z + 1 && grid.cell(x as int, b) == VoxelType::WaterVoxel
                        && in_sight_window(
                        center,
                        sight,
                        Loc { x: x, z: b as usize },
                    ) implies v@.contains(Loc { x: x, z: b as usize }) by {
                    if b < z {
                        assert(pre.contains(Loc { x: x, z: b as usize }));
                        let w = choose|w: int| 0 <= w < pre.len() && pre[w] == Loc {
                            x: x,
                            z: b as usize,
                        };
                        assert(v@[w] == Loc { x: x, z: b as usize });
                    } else {
                        assert(v@[v@.len() - 1] == Loc { x: x, z: b as usize });
                    }
                }
            }
            z = z + 1;
        }
        x = x + 1;
    }
    v
}

/// The per-agent snapshot the partner scan reads: location and eligibility
/// fields, copied out before any list is rewritten.
#[derive(Clone, Copy, PartialEq, Eq, Structural, Debug)]
pub struct RabbitSnapshot {
    pub entity: u64,
    pub location: Loc,
    pub age: u32,
    pub mating_cooldown: u32,
}

pub open spec fn snapshot_of(r: Rabbit) -> RabbitSnapshot {
    RabbitSnapshot { entity: r.entity, location: r.location, age: r.age, mating_cooldown: r.mating_cooldown }
}

/// A potential partner for the scanning rabbit: someone else, adult, off
/// cooldown, inside the scanner's sight window.
pub open spec fn partner_eligible(self_entity: u64, center: Loc, sight: u32, t: RabbitSnapshot) -> bool {
    &&& t.entity != self_entity
    &&& t.age >= ADULT_AGE
    &&& t.mating_cooldown == 0
    &&& in_sight_window(center, sight, t.location)
}

/// The partner list a scan over `s` produces: the handles of the eligible
/// snapshots, in scan order.
pub open spec fn spec_partner_list(self_entity: u64, center: Loc, sight: u32, s: Seq<RabbitSnapshot>) -> Seq<u64>
    decreases s.len(),
{
    if s.len() == 0 {
        Seq::empty()
    } else {
        let rest = spec_partner_list(self_entity, center, sight, s.drop_last());
        if partner_eligible(self_entity, center, sight, s.last()) {
            rest.push(s.last().entity)
        } else {
            rest
        }
    }
}

/// The partner list holds exactly the eligible handles: a handle is listed
/// if and only if some snapshot carries it and meets every eligibility rule.
pub proof fn lemma_partner_list_membership(
    self_entity: u64,
    center: Loc,
    sight: u32,
    s: Seq<RabbitSnapshot>,
    e: u64,
)
    ensures
        spec_partner_list(self_entity, center, sight, s).contains(e) <==> exists|j: int|
            0 <= j < s.len() && (#[trigger] s[j]).entity == e && partner_eligible(
                self_entity,
                center,
                sight,
                s[j],
            ),
    decreases s.len(),
{
    if s.len() > 0 {
        let head = s.drop_last();
        lemma_partner_list_membership(self_entity, center, sight, head, e);
        let rest = spec_partner_list(self_entity, center, sight, head);
        let full = spec_partner_list(self_entity, center, sight, s);
        assert(forall|j: int| 0 <= j < head.len() ==> #[trigger] head[j] == s[j]);
        assert(forall|j: int| 0 <= j < head.len() ==> head[j] == #[trigger] s[j]);
        if full.contains(e) {
            let w = choose|w: int| 0 <= w < full.len() && full[w] == e;
            if partner_eligible(self_entity, center, sight, s.last()) && w == full.len() - 1 {
                assert((#[trigger] s[s.len() - 1]).entity == e);
            } else {
                assert(rest[w] == e);
                assert(rest.contains(e));
                let j = choose|j: int|
                    0 <= j < head.len() && (#[trigger] head[j]).entity == e && partner_eligible(
                        self_entity,
                        center,
                        sight,
                        head[j],
                    );
                assert((#[trigger] s[j]).entity == e && partner_eligible(
                    self_entity,
                    center,
                    sight,
                    s[j],
                ));
            }
        }
        if exists|j: int|
            0 <= j < s.len() && (#[trigger] s[j]).entity == e && partner_eligible(
                self_entity,
                center,
                sight,
                s[j],
            ) {
            let j = choose|j: int|
                0 <= j < s.len() && (#[trigger] s[j]).entity == e && partner_eligible(
                    self_entity,
                    center,
                    sight,
                    s[j],
                );
            if j == s.len() - 1 {
                assert(full[full.len() - 1] == e);
                assert(full.contains(e));
            } else {
                assert(head[j].entity == e && partner_eligible(self_entity, center, sight, head[j]));
                assert(rest.contains(e));
                let w = choose|w: int| 0 <= w < rest.len() && rest[w] == e;
                assert(full[w] == e);
                assert(full.contains(e));
            }
        }
    }
}

/// Scans the snapshots for eligible partners of the rabbit holding
/// `self_entity`.
pub fn scan_partners(self_entity: u64, center: Loc, sight: u32, s: &Vec<RabbitSnapshot>) -> (v: Vec<u64>)
    ensures
        v@ == spec_partner_list(self_entity, center, sight, s@),
{
    let mut v: Vec<u64> = Vec::new();
    let mut i: usize = 0;
    while i < s.len()
        invariant
            i <= s@.len(),
            v@ == spec_partner_list(self_entity, center, sight, s@.subrange(0, i as int)),
        decreases s@.len() - i,
    {
        let t = s[i];
        if t.entity != self_entity && t.age >= ADULT_AGE && t.mating_cooldown == 0
            && within_window(center, sight, t.location) {
            v.push(t.entity);
        }
        proof {
            assert(s@.subrange(0, i + 1).drop_last() =~= s@.subrange(0, i as int));
            assert(s@.subrange(0, i + 1).last() == s@[i as int]);
        }
        i = i + 1;
    }
    proof {
        assert(s@.subrange(0, s@.len() as int) =~= s@);
    }
    v
}

/// All fields of `b` agree with `a` except possibly the three in-range lists.
pub open spec fn same_rabbit_except_perception(a: Rabbit, b: Rabbit) -> bool {
    &&& b.entity == a.entity
    &&& b.id == a.id
    &&& b.hunger == a.hunger
    &&& b.thirst == a.thirst
    &&& b.location == a.location
    &&& b.sight_distance == a.sight_distance
    &&& b.satisfaction_threshold == a.satisfaction_threshold
    &&& b.full_threshold == a.full_threshold
    &&& b.age == a.age
    &&& b.mating_cooldown == a.mating_cooldown
}

/// What the resource-perception pass does: every rabbit's plant and water
/// lists are recomputed from its own location and sight; nothing else
/// changes.
pub open spec fn resources_pass_rel(
    pre: Seq<Rabbit>,
    post: Seq<Rabbit>,
    foliage: Seq<Foliage>,
    grid: &WorldMap,
) -> bool {
    &&& post.len() == pre.len()
    &&& forall|i: int|
        0 <= i < pre.len() ==> {
            let ro = #[trigger] pre[i];
            let rn = post[i];
            &&& same_rabbit_except_perception(ro, rn)
            &&& rn.partner_in_range == ro.partner_in_range
            &&& plants_list_ok(ro.location, ro.sight_distance, foliage, rn.plants_in_range@)
            &&& water_list_ok(ro.location, ro.sight_distance, grid, rn.water_in_range@)
        }
}

/// Gated perception pass over the registry, per `resources_pass_rel`.
pub fn update_rabbit_nearby_resources(
    rabbits: &mut Vec<Rabbit>,
    foliage: &Vec<Foliage>,
    grid: &WorldMap,
)
    requires
        grid.wf(),
    ensures
        resources_pass_rel(old(rabbits)@, final(rabbits)@, foliage@, grid),
{
    let ghost orig = rabbits@;
    let mut done: Vec<Rabbit> = Vec::new();
    while rabbits.len() > 0
        invariant
            grid.wf(),
            done@.len() + rabbits@.len() == orig.len(),
            rabbits@ =~= orig.subrange(done@.len() as int, orig.len() as int),
            forall|i: int|
                0 <= i < done@.len() ==> {
                    let ro = #[trigger] orig[i];
                    let rn = done@[i];
                    &&& same_rabbit_except_perception(ro, rn)
                    &&& rn.partner_in_range == ro.partner_in_range
                    &&& plants_list_ok(ro.location, ro.sight_distance, foliage@, rn.plants_in_range@)
                    &&& water_list_ok(ro.location, ro.sight_distance, grid, rn.water_in_range@)
                },
        decreases rabbits@.len(),
    {
        let mut r = rabbits.remove(0);
        assert(r == orig[done@.len() as int]);
        r.plants_in_range = perceive_plants(r.location, r.sight_distance, foliage);
        r.water_in_range = perceive_water(r.location, r.sight_distance, grid);
        done.push(r);
    }
    *rabbits = done;
}

/// What the partner pass does: every adult rabbit's partner list is
/// recomputed from a snapshot of the whole registry; rabbits still under the
/// adult age keep their list untouched, and nothing else changes.
pub open spec fn partners_pass_rel(pre: Seq<Rabbit>, post: Seq<Rabbit>) -> bool {
    &&& post.len() == pre.len()
    &&& forall|i: int|
        0 <= i < pre.len() ==> {
            let ro = #[trigger] pre[i];
            let rn = post[i];
            &&& same_rabbit_except_perception(ro, rn)
            &&& rn.plants_in_range == ro.plants_in_range
            &&& rn.water_in_range == ro.water_in_range
            &&& (ro.age >= ADULT_AGE ==> rn.partner_in_range@ == spec_partner_list(
                ro.entity,
                ro.location,
                ro.sight_distance,
                pre.map_values(|r: Rabbit| snapshot_of(r)),
            ))
            &&& (ro.age < ADULT_AGE ==> rn.partner_in_range == ro.partner_in_range)
        }
}

/// Gated partner pass over the registry, per `partners_pass_rel`.
pub fn update_rabbit_partner_list(rabbits: &mut Vec<Rabbit>)
    ensures
        partners_pass_rel(old(rabbits)@, final(rabbits)@),
{
    let ghost orig = rabbits@;
    let mut snaps: Vec<RabbitSnapshot> = Vec::new();
    let mut i: usize = 0;
    while i < rabbits.len()
        invariant
            i <= rabbits@.len(),
            rabbits@ == orig,
            snaps@.len() == i,
            forall|k: int| 0 <= k < i ==> snaps@[k] == snapshot_of(orig[k]),
        decreases rabbits@.len() - i,
    {
        let r = &rabbits[i];
        snaps.push(
            RabbitSnapshot {
                entity: r.entity,
                location: r.location,
                age: r.age,
                mating_cooldown: r.mating_cooldown,
            },
        );
        i = i + 1;
    }
    proof {
        assert(snaps@ =~= orig.map_values(|r: Rabbit| snapshot_of(r)));
    }
    let mut done: Vec<Rabbit> = Vec::new();
    while rabbits.len() > 0
        invariant
            done@.len() + rabbits@.len() == orig.len(),
            rabbits@ =~= orig.subrange(done@.len() as int, orig.len() as int),
            snaps@ == orig.map_values(|r: Rabbit| snapshot_of(r)),
            forall|i: int|
                0 <= i < done@.len() ==> {
                    let ro = #[trigger] orig[i];
                    let rn = done@[i];
                    &&& same_rabbit_except_perception(ro, rn)
                    &&& rn.plants_in_range == ro.plants_in_range
                    &&& rn.water_in_range == ro.water_in_range
                    &&& (ro.age >= ADULT_AGE ==> rn.partner_in_range@ == spec_partner_list(
                        ro.entity,
                        ro.location,
                        ro.sight_distance,
                        snaps@,
                    ))
                    &&& (ro.age < ADULT_AGE ==> rn.partner_in_range == ro.partner_in_range)
                },
        decreases rabbits@.len(),
    {
        let mut r = rabbits.remove(0);
        assert(r == orig[done@.len() as int]);
        if r.age >= ADULT_AGE {
            r.partner_in_range = scan_partners(r.entity, r.location, r.sight_distance, &snaps);
        }
        done.push(r);
    }
    *rabbits = done;
}

} // verus!
