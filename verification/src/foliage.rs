//! Consumable food patches anchored to grass cells.
//!
//! Patches are never destroyed: consumption hides a patch, and the gated
//! regrowth tick counts it back up until it flips available again. Patch
//! handles are indices into the foliage vector, which stay stable because
//! nothing is ever removed from it.

use vstd::prelude::*;

use crate::rng::rand_below;
use crate::world::{Loc, VoxelType, WorldMap};

verus! {

/// A consumed patch regrows once its counter has passed this many gated ticks.
pub const FOLIAGE_REGEN_THRESHOLD: u32 = 20;

/// One in this many grass cells receives a patch at seeding time.
pub const FOLIAGE_SPAWN_CHANCE: usize = 10;

/// A food patch: where it stands, whether it is eaten, and how far its
/// regrowth has come while eaten.
#[derive(Clone, Copy, PartialEq, Eq, Structural, Debug)]
pub struct Foliage {
    pub location: Loc,
    pub consumed: bool,
    pub regen_counter: u32,
}

/// A patch was eaten this tick; the payload is the patch's index.
#[derive(Clone, Copy, PartialEq, Eq, Structural, Debug)]
pub struct FoliageConsumedEvent(pub usize);

/// A patch is well formed when it stands on a grass cell of the grid and its
/// regrowth counter has not run past the flip point.
pub open spec fn patch_wf(grid: &WorldMap, p: Foliage) -> bool {
    &&& grid.spec_in_bounds(p.location.x as int, p.location.z as int)
    &&& grid.cell(p.location.x as int, p.location.z as int) == VoxelType::GrassVoxel
    &&& p.regen_counter <= FOLIAGE_REGEN_THRESHOLD + 1
}

/// A fresh, available patch at `location`.
pub fn spawn_single_foliage(location: Loc) -> (p: Foliage)
    ensures
        p.location == location,
        !p.consumed,
        p.regen_counter == 0,
{
    Foliage { location, consumed: false, regen_counter: 0 }
}

/// Seeds the foliage field: each grass cell independently receives a fresh
/// patch with probability one in `FOLIAGE_SPAWN_CHANCE`, scanned in row-major
/// order. Which cells are chosen is random; every patch is guaranteed to be
/// fresh, on a grass cell, and on a cell no other patch occupies, and the
/// field keeps the row-major scan order (which pins first-found tie-breaks
/// downstream).
pub fn initial_foliage_spawn(grid: &WorldMap) -> (field: Vec<Foliage>)
    requires
        grid.wf(),
    ensures
        forall|i: int| 0 <= i < field@.len() ==> patch_wf(grid, #[trigger] field@[i]),
        forall|i: int|
            0 <= i < field@.len() ==> !(#[trigger] field@[i]).consumed && field@[i].regen_counter
                == 0,
        forall|i: int, j: int|
            0 <= i < j < field@.len()
                ==> (#[trigger] field@[i].location.x < #[trigger] field@[j].location.x
                    || (field@[i].location.x == field@[j].location.x && field@[i].location.z
                        < field@[j].location.z)),
{
    let width = grid.width();
    let height = grid.height();
    let mut field: Vec<Foliage> = Vec::new();
    let mut x: usize = 0;
    while x < width
        invariant
            x <= width,
            grid.wf(),
            width == grid.spec_width(),
            height == grid.spec_height(),
            forall|i: int| 0 <= i < field@.len() ==> patch_wf(grid, #[trigger] field@[i]),
            forall|i: int|
                0 <= i < field@.len() ==> !(#[trigger] field@[i]).consumed
                    && field@[i].regen_counter == 0,
            forall|i: int| 0 <= i < field@.len() ==> (#[trigger] field@[i]).location.x < x,
            forall|i: int, j: int|
                0 <= i < j < field@.len()
                    ==> (#[trigger] field@[i].location.x < #[trigger] field@[j].location.x
                        || (field@[i].location.x == field@[j].location.x
                            && field@[i].location.z < field@[j].location.z)),
        decreases width - x,
    {
        let mut z: usize = 0;
        while z < height
            invariant
                x < width,
                z <= height,
                grid.wf(),
                width == grid.spec_width(),
                height == grid.spec_height(),
                forall|i: int| 0 <= i < field@.len() ==> patch_wf(grid, #[trigger] field@[i]),
                forall|i: int|
                    0 <= i < field@.len() ==> !(#[trigger] field@[i]).consumed
                        && field@[i].regen_counter == 0,
                forall|i: int|
                    0 <= i < field@.len()
                        ==> (#[trigger] field@[i]).location.x < x
                            || (field@[i].location.x == x && field@[i].location.z < z),
                forall|i: int, j: int|
                    0 <= i < j < field@.len()
                        ==> (#[trigger] field@[i].location.x < #[trigger] field@[j].location.x
                            || (field@[i].location.x == field@[j].location.x
                                && field@[i].location.z < field@[j].location.z)),
            decreases height - z,
        {
            if grid.classify(x, z) == VoxelType::GrassVoxel {
                if rand_below(FOLIAGE_SPAWN_CHANCE) == 0 {
                    field.push(spawn_single_foliage(Loc { x, z }));
                }
            }
            z = z + 1;
        }
        x = x + 1;
    }
    field
}

/// The value of a patch right after it has been eaten.
pub open spec fn spec_consume(p: Foliage) -> Foliage {
    Foliage { location: p.location, consumed: true, regen_counter: 0 }
}

/// Whether some drained consumption event names patch `i`.
pub open spec fn consumed_by_events(events: Seq<FoliageConsumedEvent>, i: int) -> bool {
    exists|k: int| 0 <= k < events.len() && events[k].0 == i
}

/// What the consumption drain does: every patch named by an event is marked
/// consumed with its regrowth counter reset; every other patch is untouched.
/// An index that names no patch is skipped.
pub open spec fn consume_rel(
    pre: Seq<Foliage>,
    post: Seq<Foliage>,
    events: Seq<FoliageConsumedEvent>,
) -> bool {
    &&& post.len() == pre.len()
    &&& forall|i: int|
        0 <= i < pre.len() ==> post[i] == (if consumed_by_events(events, i) {
            spec_consume(#[trigger] pre[i])
        } else {
            pre[i]
        })
}

/// Drains this tick's consumption events, per `consume_rel`.
pub fn consume_foliage(field: &mut Vec<Foliage>, events: &Vec<FoliageConsumedEvent>)
    ensures
        consume_rel(old(field)@, final(field)@, events@),
{
    let ghost orig = field@;
    let mut k: usize = 0;
    while k < events.len()
        invariant
            k <= events@.len(),
            field@.len() == orig.len(),
            forall|i: int|
                0 <= i < orig.len()
                    ==> field@[i] == (if consumed_by_events(events@.subrange(0, k as int), i) {
                        spec_consume(orig[i])
                    } else {
                        orig[i]
                    }),
        decreases events@.len() - k,
    {
        let idx = events[k].0;
        let ghost pre = field@;
        if idx < field.len() {
            let loc = field[idx].location;
            field.set(idx, Foliage { location: loc, consumed: true, regen_counter: 0 });
        }
        proof {
            let sub1 = events@.subrange(0, k + 1);
            let sub0 = events@.subrange(0, k as int);
            assert forall|i: int| 0 <= i < orig.len() implies field@[i] == (
                if consumed_by_events(sub1, i) {
                    spec_consume(orig[i])
                } else {
                    orig[i]
                }) by {
                if i == idx {
                    assert(sub1[k as int].0 == i);
                    assert(consumed_by_events(sub1, i));
                    assert(pre[i] == orig[i] || pre[i] == spec_consume(orig[i]));
                    assert(field@[i] == spec_consume(orig[i]));
                } else {
                    assert(field@[i] == pre[i]);
                    if consumed_by_events(sub1, i) {
                        let w = choose|w: int| 0 <= w < sub1.len() && (#[trigger] sub1[w]).0 == i;
                        assert(sub0[w].0 == i);
                        assert(consumed_by_events(sub0, i));
                    }
                    if consumed_by_events(sub0, i) {
                        let w = choose|w: int| 0 <= w < sub0.len() && (#[trigger] sub0[w]).0 == i;
                        assert(sub1[w].0 == i);
                        assert(consumed_by_events(sub1, i));
                    }
                }
            }
        }
        k = k + 1;
    }
    proof {
        assert(events@.subrange(0, events@.len() as int) =~= events@);
    }
}

/// One gated regrowth tick for a single patch: a consumed patch whose counter
/// has passed the threshold flips back to available; a consumed patch below it
/// counts up by one; an available patch is untouched.
pub open spec fn regen_step(p: Foliage) -> Foliage {
    if p.consumed && p.regen_counter > FOLIAGE_REGEN_THRESHOLD {
        Foliage { location: p.location, consumed: false, regen_counter: 0 }
    } else if p.consumed {
        Foliage { location: p.location, consumed: p.consumed, regen_counter: (p.regen_counter + 1) as u32 }
    } else {
        p
    }
}

/// `k` gated regrowth ticks in a row.
pub open spec fn regen_steps(p: Foliage, k: nat) -> Foliage
    decreases k,
{
    if k == 0 {
        p
    } else {
        regen_step(regen_steps(p, (k - 1) as nat))
    }
}

/// A freshly consumed patch stays unavailable for gated ticks 1 through 21
/// after consumption and is available again from tick 22 onward.
pub proof fn lemma_consumed_patch_regrowth(p: Foliage, k: nat)
    requires
        p.consumed,
        p.regen_counter == 0,
    ensures
        k <= FOLIAGE_REGEN_THRESHOLD + 1 ==> (regen_steps(p, k).consumed && regen_steps(
            p,
            k,
        ).regen_counter == k),
        k == FOLIAGE_REGEN_THRESHOLD + 2 ==> (!regen_steps(p, k).consumed && regen_steps(
            p,
            k,
        ).regen_counter == 0),
    decreases k,
{
    if k > 0 {
        lemma_consumed_patch_regrowth(p, (k - 1) as nat);
    }
}

/// What the regrowth tick does: pointwise `regen_step` across the field.
pub open spec fn regen_rel(pre: Seq<Foliage>, post: Seq<Foliage>) -> bool {
    &&& post.len() == pre.len()
    &&& forall|i: int| 0 <= i < pre.len() ==> post[i] == regen_step(#[trigger] pre[i])
}

/// One gated regrowth tick across the whole field, per `regen_rel`.
pub fn regenerate_foliage(field: &mut Vec<Foliage>)
    requires
        forall|i: int|
            0 <= i < old(field)@.len()
                ==> (#[trigger] old(field)@[i]).regen_counter <= FOLIAGE_REGEN_THRESHOLD + 1,
    ensures
        regen_rel(old(field)@, final(field)@),
{
    let ghost orig = field@;
    let mut i: usize = 0;
    while i < field.len()
        invariant
            i <= orig.len(),
            field@.len() == orig.len(),
            forall|j: int|
                0 <= j < orig.len()
                    ==> (#[trigger] orig[j]).regen_counter <= FOLIAGE_REGEN_THRESHOLD + 1,
            forall|j: int| 0 <= j < i ==> field@[j] == regen_step(orig[j]),
            forall|j: int| i <= j < orig.len() ==> field@[j] == orig[j],
        decreases orig.len() - i,
    {
        let p = field[i];
        if p.consumed && p.regen_counter > FOLIAGE_REGEN_THRESHOLD {
            field.set(i, Foliage { location: p.location, consumed: false, regen_counter: 0 });
        } else if p.consumed {
            field.set(
                i,
                Foliage {
                    location: p.location,
                    consumed: true,
                    regen_counter: p.regen_counter + 1,
                },
            );
        }
        i = i + 1;
    }
}

} // verus!
