//! Breeding: drain the tick's breeding requests, spawn offspring under the
//! population cap, and put both parents on cooldown.
//!
//! A request whose parents are no longer both live is skipped. A drain that
//! finds the registry at or above the cap discards the request silently —
//! no offspring, no error — but parents still receive their cooldown, which
//! a separate pass applies to the same drained events.

use vstd::prelude::*;

use crate::movement::legal_cell;
use crate::rabbit::{
    entities_unique, new_rabbit, registry_wf, Rabbit, RabbitBreedingEvent, RabbitResource,
    DEFAULT_FULL_THRESHOLD, DEFAULT_SATISFACTION_THRESHOLD, DEFAULT_SIGHT_DISTANCE,
    MATING_COOLDOWN_TICKS, NEWBORN_VITALS, POPULATION_CAP,
};
use crate::rng::rand_below;
use crate::world::{Loc, WorldMap};

verus! {

/// An offspring's identifier combines both parents' identifiers (addition,
/// wrapping at the counter width).
pub open spec fn combine_ids(a: u32, b: u32) -> u32 {
    ((a + b) % 0x1_0000_0000) as u32
}

/// `r` carries the stats §breeding gives a newborn of the parents named by
/// event `e`, both resolved in registry `s`: combined identifier, newborn
/// vitals, and the location taking x from the first parent and z from the
/// second.
pub open spec fn spawned_by(s: Seq<Rabbit>, e: RabbitBreedingEvent, r: Rabbit) -> bool {
    exists|i: int, j: int|
        0 <= i < s.len() && 0 <= j < s.len() && (#[trigger] s[i]).entity == e.0
            && (#[trigger] s[j]).entity == e.1 && r.id == combine_ids(s[i].id, s[j].id)
            && r.location == (Loc { x: s[i].location.x, z: s[j].location.z })
}

/// A request that must spawn: both parents resolve in `s` and the offspring
/// cell — x from the first parent, z from the second — is land.
pub open spec fn event_spawnable(s: Seq<Rabbit>, grid: &WorldMap, e: RabbitBreedingEvent) -> bool {
    exists|i: int, j: int|
        0 <= i < s.len() && 0 <= j < s.len() && (#[trigger] s[i]).entity == e.0
            && (#[trigger] s[j]).entity == e.1 && legal_cell(
            grid,
            Loc { x: s[i].location.x, z: s[j].location.z },
        )
}

/// Newborn stats other than identifier and location: fresh vitals, default
/// sight and thresholds, no age, no cooldown, nothing yet perceived.
pub open spec fn newborn_stats(r: Rabbit) -> bool {
    &&& r.hunger == NEWBORN_VITALS
    &&& r.thirst == NEWBORN_VITALS
    &&& r.age == 0
    &&& r.mating_cooldown == 0
    &&& r.sight_distance == DEFAULT_SIGHT_DISTANCE
    &&& r.satisfaction_threshold == DEFAULT_SATISFACTION_THRESHOLD
    &&& r.full_threshold == DEFAULT_FULL_THRESHOLD
    &&& r.plants_in_range@.len() == 0
    &&& r.water_in_range@.len() == 0
    &&& r.partner_in_range@.len() == 0
}

/// A parent as the drain sees it: handle, identifier and location copied out
/// of the registry before any offspring is appended.
#[derive(Clone, Copy, PartialEq, Eq, Structural, Debug)]
struct ParentInfo {
    entity: u64,
    id: u32,
    location: Loc,
}

/// First snapshot entry holding `e`.
fn find_parent(s: &Vec<ParentInfo>, e: u64) -> (found: Option<usize>)
    ensures
        match found {
            Some(i) => 0 <= i < s@.len() && s@[i as int].entity == e,
            None => forall|j: int| 0 <= j < s@.len() ==> (#[trigger] s@[j]).entity != e,
        },
{
    let mut i: usize = 0;
    while i < s.len()
        invariant
            i <= s@.len(),
            forall|j: int| 0 <= j < i ==> (#[trigger] s@[j]).entity != e,
        decreases s@.len() - i,
    {
        if s[i].entity == e {
            return Some(i);
        }
        i = i + 1;
    }
    None
}

/// With unique handles, a spawnable request's offspring cell is exactly the
/// one built from any indices resolving its two parents.
proof fn lemma_spawnable_land(
    s: Seq<Rabbit>,
    grid: &WorldMap,
    e: RabbitBreedingEvent,
    ia: int,
    ib: int,
)
    requires
        entities_unique(s),
        0 <= ia < s.len(),
        0 <= ib < s.len(),
        s[ia].entity == e.0,
        s[ib].entity == e.1,
        event_spawnable(s, grid, e),
    ensures
        legal_cell(grid, Loc { x: s[ia].location.x, z: s[ib].location.z }),
{
    let (pi, pj) = choose|pi: int, pj: int|
        0 <= pi < s.len() && 0 <= pj < s.len() && (#[trigger] s[pi]).entity == e.0
            && (#[trigger] s[pj]).entity == e.1 && legal_cell(
            grid,
            Loc { x: s[pi].location.x, z: s[pj].location.z },
        );
    assert(pi == ia) by {
        if pi != ia {
            assert(s[pi].entity != s[ia].entity);
        }
    }
    assert(pj == ib) by {
        if pj != ib {
            assert(s[pj].entity != s[ib].entity);
        }
    }
}

/// What the breeding drain does to the registry: the old population is an
/// untouched prefix; each request appends at most a litter of two; a drain
/// finding the registry at or above the cap appends nothing, and one below
/// the cap never lifts it past the cap; every appended rabbit is a newborn of
/// a drained request's parents, on land, under a fresh handle; and a
/// resolvable request with a land cell, room under the cap and a fresh handle
/// available appends at least one offspring.
pub open spec fn spawn_rel(
    grid: &WorldMap,
    events: Seq<RabbitBreedingEvent>,
    pre: Seq<Rabbit>,
    pre_next: u64,
    post: Seq<Rabbit>,
    post_next: u64,
) -> bool {
    &&& pre_next <= post_next
    &&& post.len() >= pre.len()
    &&& post.len() <= pre.len() + 2 * events.len()
    &&& post.subrange(0, pre.len() as int) == pre
    &&& (pre.len() >= POPULATION_CAP ==> post == pre)
    &&& (pre.len() <= POPULATION_CAP ==> post.len() <= POPULATION_CAP)
    &&& forall|i: int|
        pre.len() <= i < post.len() ==> {
            let r = #[trigger] post[i];
            &&& newborn_stats(r)
            &&& legal_cell(grid, r.location)
            &&& pre_next <= r.entity < post_next
            &&& exists|k: int|
                0 <= k < events.len() && spawned_by(pre, #[trigger] events[k], r)
        }
    &&& ((pre.len() < POPULATION_CAP && pre_next < u64::MAX && exists|k: int|
        0 <= k < events.len() && event_spawnable(pre, grid, #[trigger] events[k]))
        ==> post.len() > pre.len())
}

/// Drains the breeding requests, per `spawn_rel`: for each request whose
/// parents are both still live, a litter of one or two offspring (chosen
/// uniformly) is spawned, each only while the population stands below the
/// cap, on a land cell, and while a fresh handle exists; a request that finds
/// the registry at or above the cap spawns nothing. Parents are resolved
/// against the registry as it stood before the drain, so offspring of one
/// request are never parents of another within the same tick. An offspring
/// cell takes x from the first parent and z from the second; where that
/// combined cell is water — diagonal parents across a water corner — the
/// offspring is not placed, because the terrain invariant (no agent ever on
/// water) outranks the location rule there.
pub fn spawn_new_rabbit(reg: &mut RabbitResource, events: &Vec<RabbitBreedingEvent>, grid: &WorldMap)
    requires
        grid.wf(),
        registry_wf(grid, &*old(reg)),
    ensures
        registry_wf(grid, &*final(reg)),
        spawn_rel(
            grid,
            events@,
            old(reg).rabbits@,
            old(reg).next_entity,
            final(reg).rabbits@,
            final(reg).next_entity,
        ),
{
    let ghost orig = reg.rabbits@;
    let mut parents: Vec<ParentInfo> = Vec::new();
    let mut i: usize = 0;
    while i < reg.rabbits.len()
        invariant
            i <= reg.rabbits@.len(),
            reg.rabbits@ == orig,
            parents@.len() == i,
            forall|j: int|
                0 <= j < i ==> #[trigger] parents@[j] == (ParentInfo {
                    entity: orig[j].entity,
                    id: orig[j].id,
                    location: orig[j].location,
                }),
        decreases reg.rabbits@.len() - i,
    {
        let r = &reg.rabbits[i];
        parents.push(ParentInfo { entity: r.entity, id: r.id, location: r.location });
        i = i + 1;
    }
    let ghost orig_next = reg.next_entity;
    let mut k: usize = 0;
    while k < events.len()
        invariant
            k <= events@.len(),
            grid.wf(),
            registry_wf(grid, reg),
            entities_unique(orig),
            parents@.len() == orig.len(),
            forall|j: int|
                0 <= j < orig.len() ==> #[trigger] parents@[j] == (ParentInfo {
                    entity: orig[j].entity,
                    id: orig[j].id,
                    location: orig[j].location,
                }),
            orig_next <= reg.next_entity,
            reg.next_entity - orig_next <= reg.rabbits@.len() - orig.len(),
            reg.rabbits@.len() >= orig.len(),
            reg.rabbits@.len() <= orig.len() + 2 * k,
            reg.rabbits@.subrange(0, orig.len() as int) == orig,
            orig.len() >= POPULATION_CAP ==> reg.rabbits@ == orig,
            orig.len() <= POPULATION_CAP ==> reg.rabbits@.len() <= POPULATION_CAP,
            (orig.len() < POPULATION_CAP && orig_next < u64::MAX && exists|w: int|
                0 <= w < k && event_spawnable(orig, grid, #[trigger] events@[w]))
                ==> reg.rabbits@.len() > orig.len(),
            forall|i: int|
                orig.len() <= i < reg.rabbits@.len() ==> {
                    let r = #[trigger] reg.rabbits@[i];
                    &&& newborn_stats(r)
                    &&& legal_cell(grid, r.location)
                    &&& orig_next <= r.entity < reg.next_entity
                    &&& exists|w: int|
                        0 <= w < events@.len() && spawned_by(orig, #[trigger] events@[w], r)
                },
        decreases events@.len() - k,
    {
        let ev = events[k];
        let pa = find_parent(&parents, ev.0);
        let pb = find_parent(&parents, ev.1);
        match (pa, pb) {
            (Some(ia), Some(ib)) => {
                let a = parents[ia];
                let b = parents[ib];
                let litter = 1 + rand_below(2);
                if reg.rabbits.len() >= POPULATION_CAP {
                    // at or above the cap: the request is silently discarded
                } else {
                    let ghost at_event = reg.rabbits@.len();
                    let spot = Loc { x: a.location.x, z: b.location.z };
                    let on_land = spot.x < grid.width() && spot.z < grid.height()
                        && grid.classify(spot.x, spot.z) != crate::world::VoxelType::WaterVoxel;
                    let mut n: usize = 0;
                    while n < litter
                        invariant
                            grid.wf(),
                            registry_wf(grid, reg),
                            n <= litter,
                            0 <= ia < parents@.len(),
                            0 <= ib < parents@.len(),
                            a == parents@[ia as int],
                            b == parents@[ib as int],
                            a.entity == ev.0,
                            b.entity == ev.1,
                            ev == events@[k as int],
                            k < events@.len(),
                            parents@.len() == orig.len(),
                            forall|j: int|
                                0 <= j < orig.len() ==> #[trigger] parents@[j] == (ParentInfo {
                                    entity: orig[j].entity,
                                    id: orig[j].id,
                                    location: orig[j].location,
                                }),
                            on_land == legal_cell(grid, Loc { x: a.location.x, z: b.location.z }),
                            orig_next <= reg.next_entity,
                            reg.next_entity - orig_next <= reg.rabbits@.len() - orig.len(),
                            reg.rabbits@.len() >= orig.len(),
                            at_event <= orig.len() + 2 * k,
                            reg.rabbits@.len() <= at_event + n,
                            litter <= 2,
                            reg.rabbits@.subrange(0, orig.len() as int) == orig,
                            orig.len() < POPULATION_CAP,
                            reg.rabbits@.len() <= POPULATION_CAP,
                            (n >= 1 && on_land && orig_next < u64::MAX) ==> reg.rabbits@.len()
                                > orig.len(),
                            (orig.len() < POPULATION_CAP && orig_next < u64::MAX && exists|w: int|
                                0 <= w < k && event_spawnable(orig, grid, #[trigger] events@[w]))
                                ==> reg.rabbits@.len() > orig.len(),
                            forall|i: int|
                                orig.len() <= i < reg.rabbits@.len() ==> {
                                    let r = #[trigger] reg.rabbits@[i];
                                    &&& newborn_stats(r)
                                    &&& legal_cell(grid, r.location)
                                    &&& orig_next <= r.entity < reg.next_entity
                                    &&& exists|w: int|
                                        0 <= w < events@.len() && spawned_by(
                                            orig,
                                            #[trigger] events@[w],
                                            r,
                                        )
                                },
                        decreases litter - n,
                    {
                        if reg.rabbits.len() < POPULATION_CAP && on_land && reg.next_entity
                            < u64::MAX {
                            let ghost pre = reg.rabbits@;
                            let id = (((a.id as u64) + (b.id as u64)) % 0x1_0000_0000) as u32;
                            let entity = reg.next_entity;
                            reg.next_entity = reg.next_entity + 1;
                            let baby = new_rabbit(entity, id, Loc { x: a.location.x, z: b.location.z });
                            reg.rabbits.push(baby);
                            proof {
                                assert(reg.rabbits@.subrange(0, orig.len() as int) =~= orig);
                                assert(spawned_by(orig, events@[k as int], baby)) by {
                                    assert(orig[ia as int].entity == ev.0);
                                    assert(orig[ib as int].entity == ev.1);
                                    assert(baby.id == combine_ids(orig[ia as int].id, orig[ib as int].id));
                                }
                                assert(entities_unique(reg.rabbits@)) by {
                                    assert forall|x: int, y: int|
                                        0 <= x < y < reg.rabbits@.len() implies (#[trigger] reg.rabbits@[x]).entity
                                        != (#[trigger] reg.rabbits@[y]).entity by {
                                        if y == reg.rabbits@.len() - 1 {
                                            assert(pre[x].entity < entity);
                                        }
                                    }
                                }
                            }
                        }
                        n = n + 1;
                    }
                }
                proof {
                    if orig.len() < POPULATION_CAP && orig_next < u64::MAX && event_spawnable(
                        orig,
                        grid,
                        events@[k as int],
                    ) {
                        lemma_spawnable_land(orig, grid, events@[k as int], ia as int, ib as int);
                        assert(reg.rabbits@.len() > orig.len());
                    }
                }
            },
            _ => {
                proof {
                    // a parent despawned earlier this tick: the request names
                    // no live pair, so it is skipped and owes nothing
                    if event_spawnable(orig, grid, events@[k as int]) {
                        let (pi, pj) = choose|pi: int, pj: int|
                            0 <= pi < orig.len() && 0 <= pj < orig.len() && (#[trigger] orig[pi]).entity
                                == events@[k as int].0 && (#[trigger] orig[pj]).entity
                                == events@[k as int].1 && legal_cell(
                                grid,
                                Loc { x: orig[pi].location.x, z: orig[pj].location.z },
                            );
                        assert(parents@[pi].entity == events@[k as int].0);
                        assert(parents@[pj].entity == events@[k as int].1);
                        assert(false);
                    }
                }
            },
        }
        proof {
            assert forall|w: int|
                0 <= w < k + 1 && event_spawnable(orig, grid, #[trigger] events@[w])
                    && orig.len() < POPULATION_CAP && orig_next < u64::MAX implies reg.rabbits@.len()
                > orig.len() by {
                if w < k {
                    assert(exists|w2: int|
                        0 <= w2 < k && event_spawnable(orig, grid, #[trigger] events@[w2]));
                }
            }
        }
        k = k + 1;
    }
}

/// The value of a parent right after breeding: the full cooldown, all else
/// untouched.
pub open spec fn spec_with_cooldown(r: Rabbit) -> Rabbit {
    Rabbit { mating_cooldown: MATING_COOLDOWN_TICKS, ..r }
}

/// Whether some drained breeding event names the handle `e` as either parent.
pub open spec fn named_by_events(events: Seq<RabbitBreedingEvent>, e: u64) -> bool {
    exists|k: int| 0 <= k < events.len() && ((#[trigger] events[k]).0 == e || events[k].1 == e)
}

/// What the cooldown pass does: every rabbit named by a drained breeding
/// event carries the full cooldown — whether or not the cap let any offspring
/// spawn — and every other rabbit is untouched.
pub open spec fn cooldown_rel(
    events: Seq<RabbitBreedingEvent>,
    pre: Seq<Rabbit>,
    post: Seq<Rabbit>,
) -> bool {
    &&& post.len() == pre.len()
    &&& forall|i: int|
        0 <= i < pre.len() ==> post[i] == (if named_by_events(
            events,
            (#[trigger] pre[i]).entity,
        ) {
            spec_with_cooldown(pre[i])
        } else {
            pre[i]
        })
}

/// Sets the parents' mating cooldowns, per `cooldown_rel`.
pub fn update_details_on_breeding(rabbits: &mut Vec<Rabbit>, events: &Vec<RabbitBreedingEvent>)
    requires
        entities_unique(old(rabbits)@),
    ensures
        cooldown_rel(events@, old(rabbits)@, final(rabbits)@),
{
    let ghost orig = rabbits@;
    let mut k: usize = 0;
    while k < events.len()
        invariant
            k <= events@.len(),
            entities_unique(orig),
            rabbits@.len() == orig.len(),
            forall|i: int|
                0 <= i < orig.len()
                    ==> rabbits@[i] == (if named_by_events(
                    events@.subrange(0, k as int),
                    (#[trigger] orig[i]).entity,
                ) {
                    spec_with_cooldown(orig[i])
                } else {
                    orig[i]
                }),
        decreases events@.len() - k,
    {
        let ev = events[k];
        let ghost pre = rabbits@;
        set_cooldown(rabbits, ev.0);
        let ghost mid = rabbits@;
        set_cooldown(rabbits, ev.1);
        proof {
            let sub1 = events@.subrange(0, k + 1);
            let sub0 = events@.subrange(0, k as int);
            assert forall|j: int| 0 <= j < orig.len() implies (#[trigger] pre[j]).entity
                == orig[j].entity && mid[j].entity == orig[j].entity by {
                assert(pre[j] == orig[j] || pre[j] == spec_with_cooldown(orig[j]));
            }
            assert forall|i: int| 0 <= i < orig.len() implies rabbits@[i] == (if named_by_events(
                sub1,
                (#[trigger] orig[i]).entity,
            ) {
                spec_with_cooldown(orig[i])
            } else {
                orig[i]
            }) by {
                let e = orig[i].entity;
                assert forall|j: int| 0 <= j < i implies (#[trigger] pre[j]).entity != e by {
                    assert(orig[j].entity != orig[i].entity);
                }
                assert forall|j: int| 0 <= j < i implies (#[trigger] mid[j]).entity != e by {
                    assert(pre[j].entity == orig[j].entity);
                    assert(orig[j].entity != orig[i].entity);
                }
                if e == ev.0 || e == ev.1 {
                    assert(sub1[k as int] == ev);
                    assert(named_by_events(sub1, e));
                    assert(pre[i] == orig[i] || pre[i] == spec_with_cooldown(orig[i]));
                    if e == ev.0 {
                        assert(mid[i] == spec_with_cooldown(pre[i]));
                        assert(mid[i] == spec_with_cooldown(orig[i]));
                    } else {
                        assert(mid[i] == pre[i]);
                    }
                    if e == ev.1 {
                        assert(mid[i].entity == ev.1);
                        assert(forall|j: int| 0 <= j < i ==> (#[trigger] mid[j]).entity != ev.1);
                        assert(rabbits@[i] == spec_with_cooldown(mid[i]));
                    } else {
                        assert(rabbits@[i] == mid[i]);
                    }
                    assert(rabbits@[i] == spec_with_cooldown(orig[i]));
                } else {
                    assert(mid[i] == pre[i]);
                    assert(rabbits@[i] == mid[i]);
                    if named_by_events(sub1, e) {
                        let w = choose|w: int|
                            0 <= w < sub1.len() && ((#[trigger] sub1[w]).0 == e || sub1[w].1 == e);
                        assert(sub0[w] == sub1[w]);
                        assert(named_by_events(sub0, e));
                    }
                    if named_by_events(sub0, e) {
                        let w = choose|w: int|
                            0 <= w < sub0.len() && ((#[trigger] sub0[w]).0 == e || sub0[w].1 == e);
                        assert(sub1[w] == sub0[w]);
                        assert(named_by_events(sub1, e));
                    }
                }
            }
        }
        k = k + 1;
    }
    proof {
        assert(events@.subrange(0, events@.len() as int) =~= events@);
    }
}

/// Sets the full mating cooldown on the rabbit holding `e`, if it is live.
fn set_cooldown(rabbits: &mut Vec<Rabbit>, e: u64)
    ensures
        final(rabbits)@.len() == old(rabbits)@.len(),
        forall|i: int|
            0 <= i < old(rabbits)@.len()
                ==> final(rabbits)@[i] == (if (#[trigger] old(rabbits)@[i]).entity == e
                && (forall|j: int| 0 <= j < i ==> (#[trigger] old(rabbits)@[j]).entity != e) {
                spec_with_cooldown(old(rabbits)@[i])
            } else {
                old(rabbits)@[i]
            }),
{
    let ghost orig = rabbits@;
    match crate::rabbit::find_rabbit(rabbits, e) {
        None => {},
        Some(i) => {
            let mut r = rabbits.remove(i);
            r.mating_cooldown = MATING_COOLDOWN_TICKS;
            rabbits.insert(i, r);
            proof {
                assert(rabbits@ =~= orig.update(i as int, rabbits@[i as int]));
            }
        },
    }
}

} // verus!
