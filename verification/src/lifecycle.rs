//! Lifecycle: the aging step.
//!
//! A local counter fires every fifth gated tick. When it fires, every live
//! rabbit ages by one and its mating cooldown counts down; a rabbit at or
//! past the deterministic bound is removed, and one in the risk band is
//! removed with probability one over the ticks it has left.

use vstd::prelude::*;

use crate::rabbit::{entities_unique, rabbit_wf, Rabbit, MAX_AGE};
use crate::rng::rand_below;
use crate::world::WorldMap;

verus! {

/// The aging step fires every this many gated ticks.
pub const AGING_PERIOD: u32 = 5;

/// From this age on, each aging step carries a death risk.
pub const OLD_AGE_RISK: u32 = 50;

/// The counter driving the aging cadence.
#[derive(Clone, Copy, PartialEq, Eq, Structural, Debug, Default)]
pub struct RabbitAgeLocalCounter {
    pub counter: u32,
}

/// A rabbit one aging step later: age up one, cooldown down one if any.
pub open spec fn spec_aged(r: Rabbit) -> Rabbit {
    Rabbit {
        age: (r.age + 1) as u32,
        mating_cooldown: if r.mating_cooldown > 0 {
            (r.mating_cooldown - 1) as u32
        } else {
            0
        },
        ..r
    }
}

/// `sub` embeds into `sup` in order: matched from the back, each element of
/// `sub` pairs with a later-or-equal position of `sup` than its predecessor.
pub open spec fn subsequence_of(sub: Seq<Rabbit>, sup: Seq<Rabbit>) -> bool
    decreases sub.len() + sup.len(),
{
    if sub.len() == 0 {
        true
    } else if sup.len() == 0 {
        false
    } else if sub.last() == sup.last() {
        subsequence_of(sub.drop_last(), sup.drop_last())
    } else {
        subsequence_of(sub, sup.drop_last())
    }
}

/// Dropping the last element keeps a subsequence a subsequence.
proof fn lemma_subseq_drop_last(sub: Seq<Rabbit>, sup: Seq<Rabbit>)
    requires
        subsequence_of(sub, sup),
        sub.len() > 0,
    ensures
        subsequence_of(sub.drop_last(), sup),
    decreases sup.len(),
{
    let s2 = sub.drop_last();
    if sub.last() == sup.last() {
        if s2.len() > 0 && s2.last() == sup.last() {
            lemma_subseq_drop_last(s2, sup.drop_last());
        }
    } else {
        lemma_subseq_drop_last(sub, sup.drop_last());
        if s2.len() > 0 && s2.last() == sup.last() {
            lemma_subseq_drop_last(s2, sup.drop_last());
        }
    }
}

/// Extending the larger sequence keeps a subsequence a subsequence.
proof fn lemma_subseq_skip(sub: Seq<Rabbit>, sup: Seq<Rabbit>, y: Rabbit)
    requires
        subsequence_of(sub, sup),
    ensures
        subsequence_of(sub, sup.push(y)),
{
    if sub.len() > 0 {
        assert(sup.push(y).last() == y);
        assert(sup.push(y).drop_last() =~= sup);
        if sub.last() == y {
            lemma_subseq_drop_last(sub, sup);
        }
    }
}

/// Extending both sequences by the same element keeps a subsequence.
proof fn lemma_subseq_push_both(sub: Seq<Rabbit>, sup: Seq<Rabbit>, x: Rabbit)
    requires
        subsequence_of(sub, sup),
    ensures
        subsequence_of(sub.push(x), sup.push(x)),
{
    assert(sub.push(x).last() == sup.push(x).last());
    assert(sub.push(x).drop_last() =~= sub);
    assert(sup.push(x).drop_last() =~= sup);
}

/// The aged version of some rabbit of `s`.
pub open spec fn aged_version_of(s: Seq<Rabbit>, r: Rabbit) -> bool {
    exists|j: int| 0 <= j < s.len() && r == spec_aged(#[trigger] s[j])
}

/// What one fired aging step does to the registry `s`, giving `t`: the
/// survivors are an order-preserving subsequence of the aged registry (so
/// registry order, and with it every later first-found tie-break, is kept);
/// every survivor is the aged version of a live rabbit; every rabbit aging
/// to strictly less than the risk age certainly survives; no survivor has
/// reached the deterministic death age; and the population cannot grow.
/// Which rabbits of the risk band survive is random.
pub open spec fn aging_outcome(s: Seq<Rabbit>, t: Seq<Rabbit>) -> bool {
    &&& t.len() <= s.len()
    &&& subsequence_of(t, s.map_values(|r: Rabbit| spec_aged(r)))
    &&& forall|i: int| 0 <= i < t.len() ==> aged_version_of(s, #[trigger] t[i])
    &&& forall|j: int|
        0 <= j < s.len() && (#[trigger] s[j]).age + 1 < OLD_AGE_RISK ==> t.contains(
            spec_aged(s[j]),
        )
    &&& forall|i: int| 0 <= i < t.len() ==> (#[trigger] t[i]).age < MAX_AGE
}

/// What the per-tick aging call does: on an unfired tick the counter
/// advances and the registry is untouched; on the `AGING_PERIOD`th tick the
/// counter resets and the registry takes one `aging_outcome` step.
pub open spec fn aging_rel(c0: u32, c1: u32, pre: Seq<Rabbit>, post: Seq<Rabbit>) -> bool {
    &&& (c0 + 1 < AGING_PERIOD ==> c1 == c0 + 1 && post == pre)
    &&& (c0 + 1 >= AGING_PERIOD ==> c1 == 0 && aging_outcome(pre, post))
}

/// Advances the aging counter once per gated tick, per `aging_rel`; every
/// `AGING_PERIOD`th call fires the aging step and resets the counter. On a
/// fired step, a rabbit whose new age reaches `MAX_AGE` is removed
/// deterministically, one whose new age lies in the risk band survives with
/// probability `1 - 1/(MAX_AGE - age)`, and everyone younger is untouched by
/// death.
pub fn rabbit_age_tick(
    counter: &mut RabbitAgeLocalCounter,
    rabbits: &mut Vec<Rabbit>,
    grid: &WorldMap,
)
    requires
        grid.wf(),
        old(counter).counter < u32::MAX,
        forall|i: int|
            0 <= i < old(rabbits)@.len() ==> rabbit_wf(grid, #[trigger] old(rabbits)@[i]),
        entities_unique(old(rabbits)@),
    ensures
        aging_rel(old(counter).counter, final(counter).counter, old(rabbits)@, final(rabbits)@),
        forall|i: int|
            0 <= i < final(rabbits)@.len() ==> rabbit_wf(grid, #[trigger] final(rabbits)@[i]),
        entities_unique(final(rabbits)@),
        final(rabbits)@.len() <= old(rabbits)@.len(),
{
    counter.counter = counter.counter + 1;
    if counter.counter >= AGING_PERIOD {
        counter.counter = 0;
        let ghost orig = rabbits@;
        let mut survivors: Vec<Rabbit> = Vec::new();
        let ghost mut done: int = 0;
        while rabbits.len() > 0
            invariant
                grid.wf(),
                0 <= done,
                done + rabbits@.len() == orig.len(),
                rabbits@ =~= orig.subrange(done as int, orig.len() as int),
                forall|j: int| 0 <= j < orig.len() ==> rabbit_wf(grid, #[trigger] orig[j]),
                entities_unique(orig),
                survivors@.len() <= done,
                subsequence_of(
                    survivors@,
                    orig.subrange(0, done).map_values(|r: Rabbit| spec_aged(r)),
                ),
                forall|i: int|
                    0 <= i < survivors@.len() ==> aged_version_of(orig, #[trigger] survivors@[i]),
                forall|j: int|
                    0 <= j < done && (#[trigger] orig[j]).age + 1 < OLD_AGE_RISK
                        ==> survivors@.contains(spec_aged(orig[j])),
                forall|i: int|
                    0 <= i < survivors@.len() ==> (#[trigger] survivors@[i]).age < MAX_AGE,
                forall|i: int|
                    0 <= i < survivors@.len() ==> rabbit_wf(grid, #[trigger] survivors@[i]),
                forall|i: int|
                    0 <= i < survivors@.len() ==> exists|j: int|
                        0 <= j < done && (#[trigger] survivors@[i]).entity == (
                        #[trigger] orig[j]).entity,
                entities_unique(survivors@),
            decreases rabbits@.len(),
        {
            let mut r = rabbits.remove(0);
            assert(r == orig[done as int]);
            r.age = r.age + 1;
            if r.mating_cooldown > 0 {
                r.mating_cooldown = r.mating_cooldown - 1;
            }
            assert(r == spec_aged(orig[done as int]));
            let ghost pre = survivors@;
            let mut lives = true;
            if r.age >= OLD_AGE_RISK {
                if r.age < MAX_AGE {
                    let roll = rand_below((MAX_AGE - r.age) as usize);
                    if roll == 0 {
                        lives = false;
                    }
                } else {
                    lives = false;
                }
            }
            if lives {
                survivors.push(r);
            }
            proof {
                let aged_pre = orig.subrange(0, done).map_values(|q: Rabbit| spec_aged(q));
                let aged_post = orig.subrange(0, done + 1).map_values(|q: Rabbit| spec_aged(q));
                assert(aged_post =~= aged_pre.push(spec_aged(orig[done as int]))) by {
                    assert(forall|j: int|
                        0 <= j < done + 1 ==> #[trigger] orig.subrange(0, done + 1)[j] == orig[j]);
                    assert(forall|j: int|
                        0 <= j < done ==> #[trigger] orig.subrange(0, done)[j] == orig[j]);
                }
                if lives {
                    lemma_subseq_push_both(pre, aged_pre, r);
                    assert(subsequence_of(survivors@, aged_post));
                } else {
                    lemma_subseq_skip(pre, aged_pre, spec_aged(orig[done as int]));
                    assert(subsequence_of(survivors@, aged_post));
                }
                if lives {
                    assert(aged_version_of(orig, r)) by {
                        assert(r == spec_aged(orig[done as int]));
                    }
                    assert forall|i: int|
                        0 <= i < survivors@.len() implies aged_version_of(
                        orig,
                        #[trigger] survivors@[i],
                    ) && survivors@[i].age < MAX_AGE && rabbit_wf(grid, survivors@[i]) && (exists|
                        j: int,
                    |
                        0 <= j < done + 1 && (#[trigger] survivors@[i]).entity
                            == (#[trigger] orig[j]).entity) by {
                        if i < pre.len() {
                            assert(survivors@[i] == pre[i]);
                            let j0 = choose|j0: int|
                                0 <= j0 < done && (#[trigger] pre[i]).entity == (
                                #[trigger] orig[j0]).entity;
                            assert(survivors@[i].entity == orig[j0].entity);
                        } else {
                            assert(survivors@[i] == r);
                            assert(r.entity == orig[done as int].entity);
                        }
                    }
                    assert(entities_unique(survivors@)) by {
                        assert forall|a: int, b: int|
                            0 <= a < b < survivors@.len() implies (#[trigger] survivors@[a]).entity
                            != (#[trigger] survivors@[b]).entity by {
                            if b == survivors@.len() - 1 {
                                let j0 = choose|j0: int|
                                    0 <= j0 < done && (#[trigger] pre[a]).entity == (
                                    #[trigger] orig[j0]).entity;
                                assert(orig[j0].entity != orig[done as int].entity);
                            }
                        }
                    }
                }
                assert forall|j: int|
                    0 <= j < done + 1 && (#[trigger] orig[j]).age + 1
                        < OLD_AGE_RISK implies survivors@.contains(spec_aged(orig[j])) by {
                    if j < done {
                        assert(pre.contains(spec_aged(orig[j])));
                        let w = choose|w: int| 0 <= w < pre.len() && pre[w] == spec_aged(orig[j]);
                        assert(survivors@[w] == spec_aged(orig[j]));
                    } else {
                        assert(r.age == orig[j].age + 1);
                        assert(lives);
                        assert(survivors@[survivors@.len() - 1] == spec_aged(orig[j]));
                    }
                }
            }
            proof {
                done = done + 1;
            }
        }
        proof {
            assert(orig.subrange(0, done).map_values(|q: Rabbit| spec_aged(q)) =~= orig.map_values(
                |q: Rabbit| spec_aged(q),
            )) by {
                assert(orig.subrange(0, done) =~= orig);
            }
        }
        *rabbits = survivors;
    }
}

} // verus!
