//! The set of resolvers that a client dispatches across, and the selection policy.

use std::time::Duration;

use vstd::arithmetic::div_mod::{
    lemma_add_mod_noop, lemma_mod_sub_multiples_vanish, lemma_small_mod,
};
use vstd::prelude::*;

use crate::address::Endpoint;
use crate::config::{at_least_one, BlastDNSConfig};
use crate::health::{bump, bumped, healthy, is_snapshot, HealthView, ResolverHealth, ResolverStats};
use crate::permits::max_permits;
use crate::rate::max;
use crate::span::duration_nanos;

verus! {

/// The set of resolvers that a client dispatches across, and the cap on what is
/// dispatched across all of them.
pub struct ResolverPool {
    resolvers: Vec<ResolverHealth>,
    cursor: u64,
    capacity: usize,
    entered: usize,
}

/// What a [`ResolverPool`] holds.
#[verifier::ext_equal]
pub struct PoolView {
    pub resolvers: Seq<HealthView>,
    /// Where the next selection starts.
    pub cursor: u64,
    /// How many queries may be under way across all resolvers.
    pub capacity: int,
    /// How many are.
    pub entered: int,
}

impl View for ResolverPool {
    type V = PoolView;

    closed spec fn view(&self) -> PoolView {
        PoolView {
            resolvers: Seq::new(self.resolvers@.len(), |i: int| self.resolvers@[i]@),
            cursor: self.cursor,
            capacity: self.capacity as int,
            entered: self.entered as int,
        }
    }
}

/// What one pass over the pool came to.
#[derive(Clone, Copy, Debug, PartialEq, Eq, Structural)]
pub enum Reserve {
    /// The resolver at this position is reserved: one of its permits is taken.
    Reserved(usize),
    /// No resolver is active.
    NoneActive,
    /// Every active resolver is benched: wait for the first sentence to lapse
    /// rather than spinning.
    AllBenched,
    /// Every eligible resolver is saturated. The one at this position is the first
    /// to wait for.
    Saturated(usize),
}

impl PoolView {
    /// Every resolver is sound, and no more queries are under way than may be.
    pub open spec fn wf(self) -> bool {
        &&& 1 <= self.capacity
        &&& 0 <= self.entered <= self.capacity
        &&& self.resolvers.len() <= usize::MAX
        &&& forall|i: int|
            0 <= i < self.resolvers.len() ==> (#[trigger] self.resolvers[i]).wf()
    }

    /// The position that a pass visits after `step` others.
    pub open spec fn visited(self, step: int) -> int {
        (self.cursor + step) % (self.resolvers.len() as int)
    }

    /// Whether the resolver visited after `step` others may be taken at `now_ns`.
    pub open spec fn takeable(self, step: int, now_ns: int) -> bool {
        let health = self.resolvers[self.visited(step)];
        health.eligible(now_ns) && health.free > 0
    }

    /// The pool with the resolver at `i` replaced.
    pub open spec fn with_resolver(self, i: int, health: HealthView) -> PoolView {
        PoolView { resolvers: self.resolvers.update(i, health), ..self }
    }

    /// The pool with `entered` queries under way.
    pub open spec fn with_entered(self, entered: int) -> PoolView {
        PoolView { entered, ..self }
    }

    /// The pool once another pass has started.
    pub open spec fn rotated(self) -> PoolView {
        PoolView { cursor: bumped(self.cursor), ..self }
    }

    /// Whether some resolver is active.
    pub open spec fn has_active(self) -> bool {
        exists|i: int| 0 <= i < self.resolvers.len() && (#[trigger] self.resolvers[i]).active
    }

    /// Whether some resolver is eligible at `now_ns`.
    pub open spec fn has_eligible(self, now_ns: int) -> bool {
        exists|i: int|
            0 <= i < self.resolvers.len() && (#[trigger] self.resolvers[i]).eligible(now_ns)
    }

    /// Whether `until_ns` is when the first of the active resolvers' sentences ends.
    pub open spec fn is_first_release(self, until_ns: int) -> bool {
        &&& exists|i: int|
            0 <= i < self.resolvers.len() && (#[trigger] self.resolvers[i]).active
                && self.resolvers[i].benched_until_ns == until_ns
        &&& forall|i: int|
            0 <= i < self.resolvers.len() && (#[trigger] self.resolvers[i]).active
                ==> self.resolvers[i].benched_until_ns >= until_ns
    }

    /// Whether a pass at `now_ns` comes to `outcome` and leaves `after`.
    pub open spec fn passes(self, now_ns: int, outcome: Reserve, after: PoolView) -> bool {
        let n = self.resolvers.len() as int;
        match outcome {
            Reserve::Reserved(k) => exists|step: int|
                {
                    &&& 0 <= step < n
                    &&& k == self.visited(step)
                    &&& #[trigger] self.takeable(step, now_ns)
                    &&& forall|s: int| 0 <= s < step ==> !#[trigger] self.takeable(s, now_ns)
                    &&& after == self.rotated().with_resolver(
                        k as int,
                        self.resolvers[k as int].with_free(self.resolvers[k as int].free - 1),
                    )
                },
            Reserve::NoneActive => {
                &&& !self.has_active()
                &&& after == (if n == 0 {
                    self
                } else {
                    self.rotated()
                })
            },
            Reserve::AllBenched => {
                &&& self.has_active()
                &&& !self.has_eligible(now_ns)
                &&& after == self.rotated()
            },
            Reserve::Saturated(k) => {
                &&& self.has_eligible(now_ns)
                &&& forall|i: int|
                    0 <= i < n && (#[trigger] self.resolvers[i]).eligible(now_ns)
                        ==> self.resolvers[i].free == 0
                &&& exists|step: int|
                    {
                        &&& 0 <= step < n
                        &&& k == #[trigger] self.visited(step)
                        &&& self.resolvers[self.visited(step)].eligible(now_ns)
                        &&& forall|s: int|
                            0 <= s < step ==> !self.resolvers[#[trigger] self.visited(s)].eligible(
                                now_ns,
                            )
                    }
                &&& after == self.rotated()
            },
        }
    }
}

/// A pass visits position `start + step`, starting over at the end.
proof fn lemma_visited(pool: PoolView, step: int)
    requires
        0 <= step < pool.resolvers.len(),
    ensures
        0 <= pool.visited(step) < pool.resolvers.len(),
        pool.visited(step) == (if step < pool.resolvers.len() - pool.visited(0) {
            pool.visited(0) + step
        } else {
            step - (pool.resolvers.len() - pool.visited(0))
        }),
{
    let n = pool.resolvers.len() as int;
    let start = pool.visited(0);
    lemma_add_mod_noop(pool.cursor as int, step, n);
    lemma_small_mod(step as nat, n as nat);
    if start + step < n {
        lemma_small_mod((start + step) as nat, n as nat);
    } else {
        lemma_mod_sub_multiples_vanish(start + step, n);
        lemma_small_mod((start + step - n) as nat, n as nat);
    }
}

/// A pass visits every position.
proof fn lemma_every_position_is_visited(pool: PoolView, i: int) -> (step: int)
    requires
        0 <= i < pool.resolvers.len(),
    ensures
        0 <= step < pool.resolvers.len(),
        pool.visited(step) == i,
{
    let n = pool.resolvers.len() as int;
    lemma_visited(pool, 0);
    let start = pool.visited(0);
    let step = if i >= start {
        i - start
    } else {
        i + n - start
    };
    lemma_visited(pool, step);
    step
}

impl ResolverPool {
    /// A pool of resolvers in good health.
    pub fn new(resolvers: &Vec<Endpoint>, config: &BlastDNSConfig) -> (pool: ResolverPool)
        requires
            config.max_inflight_per_resolver <= max_permits(),
        ensures
            pool@.wf(),
            pool@.cursor == 0,
            pool@.capacity == max(config.max_concurrency as int, 1),
            pool@.entered == 0,
            pool@.resolvers.len() == resolvers@.len(),
            forall|i: int|
                0 <= i < resolvers@.len() ==> #[trigger] pool@.resolvers[i] == healthy(
                    resolvers@[i],
                    *config,
                ),
    {
        let mut healths: Vec<ResolverHealth> = Vec::new();
        let mut i: usize = 0;
        while i < resolvers.len()
            invariant
                i <= resolvers@.len(),
                config.max_inflight_per_resolver <= max_permits(),
                healths@.len() == i,
                forall|j: int|
                    0 <= j < i ==> (#[trigger] healths@[j])@ == healthy(
                        resolvers@[j],
                        *config,
                    ) && healths@[j]@.wf(),
            decreases resolvers@.len() - i,
        {
            healths.push(ResolverHealth::new(resolvers[i], config));
            i += 1;
        }
        ResolverPool {
            resolvers: healths,
            cursor: 0,
            capacity: at_least_one(config.max_concurrency),
            entered: 0,
        }
    }

    /// Let one more query be under way, if the cap on queries across all resolvers
    /// allows it.
    pub fn enter(&mut self) -> (entered: bool)
        requires
            old(self)@.wf(),
        ensures
            final(self)@.wf(),
            entered == (old(self)@.entered < old(self)@.capacity),
            final(self)@ == (if entered {
                old(self)@.with_entered(old(self)@.entered + 1)
            } else {
                old(self)@
            }),
    {
        if self.entered < self.capacity {
            self.entered += 1;
            assert(self@ =~= old(self)@.with_entered(old(self)@.entered + 1));
            assert forall|i: int| 0 <= i < self@.resolvers.len() implies (
            #[trigger] self@.resolvers[i]).wf() by {
                assert(old(self)@.resolvers[i].wf());
            }
            true
        } else {
            false
        }
    }

    /// How many queries are under way across all resolvers.
    pub fn under_way(&self) -> (entered: usize)
        ensures
            entered == self@.entered,
    {
        self.entered
    }

    /// Note that a query that entered has ended.
    pub fn leave(&mut self)
        requires
            old(self)@.wf(),
            old(self)@.entered > 0,
        ensures
            final(self)@.wf(),
            final(self)@ == old(self)@.with_entered(old(self)@.entered - 1),
    {
        self.entered -= 1;
        assert(self@ =~= old(self)@.with_entered(old(self)@.entered - 1));
        assert forall|i: int| 0 <= i < self@.resolvers.len() implies (
        #[trigger] self@.resolvers[i]).wf() by {
            assert(old(self)@.resolvers[i].wf());
        }
    }

    /// How many resolvers there are.
    pub fn len(&self) -> (len: usize)
        ensures
            len == self@.resolvers.len(),
    {
        self.resolvers.len()
    }

    /// The resolver at position `i`.
    pub fn resolver(&self, i: usize) -> (health: &ResolverHealth)
        requires
            i < self@.resolvers.len(),
        ensures
            health@ == self@.resolvers[i as int],
    {
        &self.resolvers[i]
    }

    /// The resolver at position `i`, to be changed in place.
    pub fn resolver_mut(&mut self, i: usize) -> (health: &mut ResolverHealth)
        requires
            i < old(self)@.resolvers.len(),
        ensures
            health@ == old(self)@.resolvers[i as int],
            final(self)@ == old(self)@.with_resolver(i as int, final(health)@),
    {
        &mut self.resolvers[i]
    }

    /// Make one pass over the pool for a resolver to send one query to.
    ///
    /// Rotates through the pool taking the first free, active, non-benched
    /// resolver. Because a busy resolver holds its permits until its query
    /// completes, rotation naturally sends less work to slow resolvers with no
    /// explicit weighting.
    pub fn reserve(&mut self, now_ns: u64) -> (outcome: Reserve)
        requires
            old(self)@.wf(),
        ensures
            final(self)@.wf(),
            old(self)@.passes(now_ns as int, outcome, final(self)@),
    {
        let n: usize = self.resolvers.len();
        if n == 0 {
            return Reserve::NoneActive;
        }
        let ghost before = self@;
        let start: usize = (self.cursor % n as u64) as usize;
        proof {
            lemma_visited(before, 0);
        }
        self.cursor = bump(self.cursor);
        let mut active: bool = false;
        let mut waitable: Option<usize> = None;
        let mut i: usize = 0;
        while i < n
            invariant
                before == old(self)@,
                n == before.resolvers.len(),
                n > 0,
                i <= n,
                before.wf(),
                start == before.visited(0),
                self@ == before.rotated(),
                forall|s: int| 0 <= s < i ==> !#[trigger] before.takeable(s, now_ns as int),
                active == exists|s: int|
                    0 <= s < i && before.resolvers[#[trigger] before.visited(s)].active,
                waitable is None ==> forall|s: int|
                    0 <= s < i ==> !before.resolvers[#[trigger] before.visited(s)].eligible(
                        now_ns as int,
                    ),
                waitable matches Some(k) ==> active && exists|step: int|
                    {
                        &&& 0 <= step < i
                        &&& k == #[trigger] before.visited(step)
                        &&& before.resolvers[before.visited(step)].eligible(now_ns as int)
                        &&& forall|s: int|
                            0 <= s < step
                                ==> !before.resolvers[#[trigger] before.visited(s)].eligible(
                                now_ns as int,
                            )
                    },
            decreases n - i,
        {
            proof {
                lemma_visited(before, i as int);
            }
            let k: usize = if i < n - start {
                start + i
            } else {
                i - (n - start)
            };
            assert(k == before.visited(i as int));
            assert(self@.resolvers[k as int] == before.resolvers[k as int]);
            if self.resolvers[k].is_active() {
                active = true;
                if !self.resolvers[k].is_benched(now_ns) {
                    if self.resolvers[k].try_acquire() {
                        assert(before.takeable(i as int, now_ns as int));
                        assert(self@ =~= before.rotated().with_resolver(
                            k as int,
                            before.resolvers[k as int].with_free(
                                before.resolvers[k as int].free - 1,
                            ),
                        ));
                        return Reserve::Reserved(k);
                    }
                    assert(self@ =~= before.rotated());
                    if waitable.is_none() {
                        waitable = Some(k);
                    }
                }
            }
            i += 1;
        }
        proof {
            assert forall|j: int|
                0 <= j < n && (#[trigger] before.resolvers[j]).eligible(
                    now_ns as int,
                ) implies before.resolvers[j].free == 0 by {
                let step = lemma_every_position_is_visited(before, j);
                assert(!before.takeable(step, now_ns as int));
                assert(before.resolvers[j].wf());
            }
            if !active {
                assert forall|j: int| 0 <= j < n implies !(#[trigger] before.resolvers[j]).active by {
                    let step = lemma_every_position_is_visited(before, j);
                    assert(!before.resolvers[before.visited(step)].active);
                }
            }
            if waitable is None {
                assert forall|j: int|
                    0 <= j < n implies !(#[trigger] before.resolvers[j]).eligible(now_ns as int) by {
                    let step = lemma_every_position_is_visited(before, j);
                    assert(!before.resolvers[before.visited(step)].eligible(now_ns as int));
                }
            }
        }
        if !active {
            return Reserve::NoneActive;
        }
        match waitable {
            None => Reserve::AllBenched,
            Some(k) => Reserve::Saturated(k),
        }
    }
}

/// A pool stays sound when a sound resolver takes the place of one of its own.
pub proof fn lemma_with_resolver_wf(pool: PoolView, i: int, health: HealthView)
    requires
        pool.wf(),
        health.wf(),
        0 <= i < pool.resolvers.len(),
    ensures
        pool.with_resolver(i, health).wf(),
{
    assert forall|j: int| 0 <= j < pool.resolvers.len() implies (#[trigger] pool.with_resolver(
        i,
        health,
    ).resolvers[j]).wf() by {
        assert(pool.resolvers[j].wf());
    }
}

impl ResolverPool {
    /// Take a permit of the resolver at position `k` once one has come free, unless
    /// the resolver has been benched or deactivated meanwhile.
    pub fn claim(&mut self, k: usize, now_ns: u64) -> (claimed: bool)
        requires
            old(self)@.wf(),
            k < old(self)@.resolvers.len(),
        ensures
            final(self)@.wf(),
            claimed == (old(self)@.resolvers[k as int].eligible(now_ns as int)
                && old(self)@.resolvers[k as int].free > 0),
            final(self)@ == (if claimed {
                old(self)@.with_resolver(
                    k as int,
                    old(self)@.resolvers[k as int].with_free(
                        old(self)@.resolvers[k as int].free - 1,
                    ),
                )
            } else {
                old(self)@
            }),
    {
        proof {
            let health = self@.resolvers[k as int];
            assert(health.wf());
            if health.free > 0 {
                lemma_with_resolver_wf(self@, k as int, health.with_free(health.free - 1));
            }
        }
        let ghost before = self@;
        let claimed: bool = self.resolvers[k].is_active() && !self.resolvers[k].is_benched(now_ns)
            && self.resolvers[k].try_acquire();
        proof {
            let health = before.resolvers[k as int];
            if claimed {
                assert(self@ =~= before.with_resolver(
                    k as int,
                    health.with_free(health.free - 1),
                ));
            } else {
                assert(self@ =~= before);
            }
        }
        claimed
    }

    /// Give back the permit of a reservation of the resolver at position `k`.
    pub fn release(&mut self, k: usize)
        requires
            old(self)@.wf(),
            k < old(self)@.resolvers.len(),
            old(self)@.resolvers[k as int].in_flight() > 0,
        ensures
            final(self)@.wf(),
            final(self)@ == old(self)@.with_resolver(
                k as int,
                old(self)@.resolvers[k as int].with_free(old(self)@.resolvers[k as int].free + 1),
            ),
    {
        proof {
            let health = self@.resolvers[k as int];
            assert(health.wf());
            lemma_with_resolver_wf(self@, k as int, health.with_free(health.free + 1));
        }
        let ghost before = self@;
        self.resolvers[k].release();
        assert(self@ =~= before.with_resolver(
            k as int,
            before.resolvers[k as int].with_free(before.resolvers[k as int].free + 1),
        ));
    }

    /// How long to sleep until the first active resolver's sentence lapses. `None`
    /// where one has lapsed by now, or no resolver is active.
    pub fn sleep_until_first_eligible(&self, now_ns: u64) -> (wait: Option<Duration>)
        ensures
            !self@.has_active() ==> wait is None,
            self@.has_active() ==> exists|until_ns: int|
                {
                    &&& #[trigger] self@.is_first_release(until_ns)
                    &&& wait is Some <==> until_ns > now_ns
                    &&& wait matches Some(d) ==> duration_nanos(d) == until_ns - now_ns
                },
    {
        let mut soonest: Option<u64> = None;
        let mut i: usize = 0;
        while i < self.resolvers.len()
            invariant
                i <= self.resolvers@.len(),
                self.resolvers@.len() == self@.resolvers.len(),
                soonest is None ==> forall|j: int|
                    0 <= j < i ==> !(#[trigger] self@.resolvers[j]).active,
                soonest matches Some(until_ns) ==> {
                    &&& exists|j: int|
                        0 <= j < i && (#[trigger] self@.resolvers[j]).active
                            && self@.resolvers[j].benched_until_ns == until_ns
                    &&& forall|j: int|
                        0 <= j < i && (#[trigger] self@.resolvers[j]).active
                            ==> self@.resolvers[j].benched_until_ns >= until_ns
                },
            decreases self.resolvers@.len() - i,
        {
            assert(self@.resolvers[i as int] == self.resolvers@[i as int]@);
            if self.resolvers[i].is_active() {
                let until_ns: u64 = self.resolvers[i].benched_until_ns();
                soonest = match soonest {
                    Some(earlier) if earlier <= until_ns => Some(earlier),
                    _ => Some(until_ns),
                };
            }
            i += 1;
        }
        match soonest {
            None => None,
            Some(until_ns) => {
                assert(self@.is_first_release(until_ns as int));
                if until_ns > now_ns {
                    Some(Duration::from_nanos(until_ns - now_ns))
                } else {
                    None
                }
            },
        }
    }

    /// A snapshot of every resolver's counters and pacing.
    pub fn stats(&self) -> (stats: Vec<ResolverStats>)
        requires
            self@.wf(),
        ensures
            stats@.len() == self@.resolvers.len(),
            forall|i: int|
                0 <= i < stats@.len() ==> is_snapshot(#[trigger] stats@[i], self@.resolvers[i]),
    {
        let mut stats: Vec<ResolverStats> = Vec::new();
        let mut i: usize = 0;
        while i < self.resolvers.len()
            invariant
                i <= self.resolvers@.len(),
                self.resolvers@.len() == self@.resolvers.len(),
                self@.wf(),
                stats@.len() == i,
                forall|j: int|
                    0 <= j < i ==> is_snapshot(#[trigger] stats@[j], self@.resolvers[j]),
            decreases self.resolvers@.len() - i,
        {
            assert(self@.resolvers[i as int].wf());
            stats.push(self.resolvers[i].stats());
            i += 1;
        }
        stats
    }
}

/// A pass has one outcome: what the pool holds and the time decide it.
pub proof fn law_a_pass_is_determined(
    pool: PoolView,
    now_ns: u64,
    outcome: Reserve,
    after: PoolView,
    other_outcome: Reserve,
    other_after: PoolView,
)
    requires
        pool.wf(),
        pool.passes(now_ns as int, outcome, after),
        pool.passes(now_ns as int, other_outcome, other_after),
    ensures
        outcome == other_outcome,
        after == other_after,
{
    assert forall|step: int| 0 <= step < pool.resolvers.len() && #[trigger] pool.takeable(
        step,
        now_ns as int,
    ) implies pool.has_eligible(now_ns as int) && pool.has_active() by {
        lemma_visited(pool, step);
        assert(pool.resolvers[pool.visited(step)].eligible(now_ns as int));
    }
    assert(pool.has_eligible(now_ns as int) ==> pool.has_active()) by {
        if pool.has_eligible(now_ns as int) {
            let i = choose|i: int|
                0 <= i < pool.resolvers.len() && (#[trigger] pool.resolvers[i]).eligible(
                    now_ns as int,
                );
            assert(pool.resolvers[i].active);
        }
    }
    if outcome is Saturated || other_outcome is Saturated {
        assert forall|step: int| 0 <= step < pool.resolvers.len() implies !#[trigger] pool.takeable(
            step,
            now_ns as int,
        ) by {
            lemma_visited(pool, step);
        }
    }
}

/// A reservation goes to a resolver that is active, serves no sentence and had a
/// permit to give, and touches no other resolver. With the reservation counted, no
/// more queries are in flight to it than its cap allows.
pub proof fn law_a_reservation_is_within_the_cap(
    pool: PoolView,
    now_ns: u64,
    k: usize,
    after: PoolView,
)
    requires
        pool.wf(),
        pool.passes(now_ns as int, Reserve::Reserved(k), after),
    ensures
        k < pool.resolvers.len(),
        after.wf(),
        after.resolvers.len() == pool.resolvers.len(),
        pool.resolvers[k as int].active,
        !pool.resolvers[k as int].benched(now_ns as int),
        after.resolvers[k as int].in_flight() == pool.resolvers[k as int].in_flight() + 1,
        after.resolvers[k as int].in_flight() <= after.resolvers[k as int].capacity,
        forall|i: int|
            0 <= i < pool.resolvers.len() && i != k ==> #[trigger] after.resolvers[i]
                == pool.resolvers[i],
{
    let step = choose|step: int|
        {
            &&& 0 <= step < pool.resolvers.len()
            &&& k == pool.visited(step)
            &&& #[trigger] pool.takeable(step, now_ns as int)
        };
    lemma_visited(pool, step);
    assert(pool.resolvers[k as int].wf());
    assert forall|i: int| 0 <= i < after.resolvers.len() implies (
    #[trigger] after.resolvers[i]).wf() by {
        assert(pool.resolvers[i].wf());
    }
}

/// A resolver with one permit serves one query at a time: while it is reserved, the
/// next reservation goes elsewhere.
pub proof fn law_single_permits_spread_reservations(
    pool: PoolView,
    now_ns: u64,
    k: usize,
    reserved: PoolView,
    later_ns: u64,
    l: usize,
    after: PoolView,
)
    requires
        pool.wf(),
        pool.passes(now_ns as int, Reserve::Reserved(k), reserved),
        pool.resolvers[k as int].capacity == 1,
        reserved.passes(later_ns as int, Reserve::Reserved(l), after),
    ensures
        k != l,
{
    law_a_reservation_is_within_the_cap(pool, now_ns, k, reserved);
    law_a_reservation_is_within_the_cap(reserved, later_ns, l, after);
    assert(pool.resolvers[k as int].wf());
}

/// A pass names resolvers of the pool only, and neither adds nor removes any.
pub proof fn law_a_pass_stays_within_the_pool(
    pool: PoolView,
    now_ns: u64,
    outcome: Reserve,
    after: PoolView,
)
    requires
        pool.wf(),
        pool.passes(now_ns as int, outcome, after),
    ensures
        after.wf(),
        after.resolvers.len() == pool.resolvers.len(),
        outcome matches Reserve::Reserved(k) ==> k < pool.resolvers.len(),
        outcome matches Reserve::Saturated(k) ==> k < pool.resolvers.len(),
{
    match outcome {
        Reserve::Reserved(k) => {
            law_a_reservation_is_within_the_cap(pool, now_ns, k, after);
        },
        Reserve::Saturated(k) => {
            let step = choose|step: int|
                {
                    &&& 0 <= step < pool.resolvers.len()
                    &&& k == #[trigger] pool.visited(step)
                };
            lemma_visited(pool, step);
        },
        _ => {},
    }
}

/// Passes over a pool in which every resolver may be taken go round: each takes the
/// resolver after the one before it.
pub proof fn law_an_idle_pool_rotates(
    pool: PoolView,
    now_ns: u64,
    outcome: Reserve,
    after: PoolView,
)
    requires
        pool.wf(),
        0 < pool.resolvers.len(),
        forall|i: int|
            0 <= i < pool.resolvers.len() ==> (#[trigger] pool.resolvers[i]).eligible(now_ns as int)
                && pool.resolvers[i].free > 0,
        pool.passes(now_ns as int, outcome, after),
    ensures
        outcome is Reserved,
        outcome->Reserved_0 == pool.cursor as int % pool.resolvers.len() as int,
        pool.cursor < u64::MAX ==> after.cursor == pool.cursor + 1,
{
    lemma_visited(pool, 0);
    let first = pool.resolvers[pool.visited(0)];
    assert(first.eligible(now_ns as int));
    assert(pool.takeable(0, now_ns as int));
    assert(pool.has_eligible(now_ns as int));
    assert(pool.resolvers[pool.visited(0)].active);
}

/// A reservation that is given back leaves every resolver as it was.
pub proof fn law_release_undoes_a_reservation(
    pool: PoolView,
    now_ns: u64,
    k: usize,
    after: PoolView,
)
    requires
        pool.wf(),
        pool.passes(now_ns as int, Reserve::Reserved(k), after),
    ensures
        after.with_resolver(
            k as int,
            after.resolvers[k as int].with_free(after.resolvers[k as int].free + 1),
        ).resolvers == pool.resolvers,
{
    law_a_reservation_is_within_the_cap(pool, now_ns, k, after);
    assert(after.with_resolver(
        k as int,
        after.resolvers[k as int].with_free(after.resolvers[k as int].free + 1),
    ).resolvers =~= pool.resolvers);
}

/// What may happen to the reservations of a pool.
pub enum PoolEvent {
    /// A pass at this time came to this outcome.
    Pass { now_ns: u64, outcome: Reserve },
    /// A reservation of the resolver at this position was given back.
    Release(usize),
    /// The resolver at this position lost a query at this time.
    Loss { k: usize, is_timeout: bool, now_ns: u64 },
}

impl PoolView {
    /// Whether `event` leads from this pool to `next`. Only a reservation that is live
    /// can be given back.
    pub open spec fn follows(self, event: PoolEvent, next: PoolView) -> bool {
        match event {
            PoolEvent::Pass { now_ns, outcome } => self.passes(now_ns as int, outcome, next),
            PoolEvent::Release(k) => {
                let health = self.resolvers[k as int];
                &&& k < self.resolvers.len()
                &&& health.in_flight() > 0
                &&& next == self.with_resolver(k as int, health.with_free(health.free + 1))
            },
            PoolEvent::Loss { k, is_timeout, now_ns } => {
                &&& k < self.resolvers.len()
                &&& next == self.with_resolver(
                    k as int,
                    self.resolvers[k as int].after_error(is_timeout, now_ns as int),
                )
            },
        }
    }
}

/// Whether `events` lead from each of `pools` to the next one.
pub open spec fn is_history(pools: Seq<PoolView>, events: Seq<PoolEvent>) -> bool {
    &&& pools.len() == events.len() + 1
    &&& forall|i: int| 0 <= i < events.len() ==> #[trigger] is_step(pools, events, i)
}

/// Whether the event at `i` leads from the pool at `i` to the next one.
pub open spec fn is_step(pools: Seq<PoolView>, events: Seq<PoolEvent>, i: int) -> bool {
    pools[i].follows(events[i], pools[i + 1])
}

/// How many reservations of the resolver at `k` are live after the first `n` events:
/// those made, less those given back.
pub open spec fn live(events: Seq<PoolEvent>, n: nat, k: int) -> int
    decreases n,
{
    if n == 0 {
        0
    } else {
        live(events, (n - 1) as nat, k) + match events[n - 1] {
            PoolEvent::Pass { outcome: Reserve::Reserved(j), .. } if j == k => 1int,
            PoolEvent::Release(j) if j == k => -1int,
            _ => 0int,
        }
    }
}

/// Whatever the order of reservations, releases and losses, at every moment each
/// resolver has as many queries in flight as it has live reservations, and no more than
/// its cap; a reservation goes only to a resolver that is active and serves no sentence
/// when it is chosen; and giving one back frees one slot of its resolver.
pub proof fn law_live_reservations_are_capped(
    pools: Seq<PoolView>,
    events: Seq<PoolEvent>,
    n: nat,
    k: int,
)
    requires
        is_history(pools, events),
        pools[0].wf(),
        0 <= k < pools[0].resolvers.len(),
        pools[0].resolvers[k].in_flight() == 0,
        n <= events.len(),
    ensures
        pools[n as int].wf(),
        pools[n as int].resolvers.len() == pools[0].resolvers.len(),
        pools[n as int].resolvers[k].capacity == pools[0].resolvers[k].capacity,
        pools[n as int].resolvers[k].in_flight() == live(events, n, k),
        0 <= live(events, n, k) <= pools[0].resolvers[k].capacity,
        n > 0 ==> match events[n - 1] {
            PoolEvent::Pass { now_ns, outcome: Reserve::Reserved(j) } => {
                &&& j < pools[n - 1].resolvers.len()
                &&& pools[n - 1].resolvers[j as int].eligible(now_ns as int)
            },
            PoolEvent::Release(j) => pools[n as int].resolvers[j as int].free
                == pools[n - 1].resolvers[j as int].free + 1,
            _ => true,
        },
    decreases n,
{
    if n == 0 {
        assert(pools[0].resolvers[k].wf());
    } else {
        let before = pools[n - 1];
        let after = pools[n as int];
        law_live_reservations_are_capped(pools, events, (n - 1) as nat, k);
        assert(is_step(pools, events, n - 1));
        assert(before.resolvers[k].wf());
        match events[n - 1] {
            PoolEvent::Pass { now_ns, outcome } => {
                law_a_pass_stays_within_the_pool(before, now_ns, outcome, after);
                if let Reserve::Reserved(j) = outcome {
                    law_a_reservation_is_within_the_cap(before, now_ns, j, after);
                    assert(j != k ==> after.resolvers[k] == before.resolvers[k]);
                }
            },
            PoolEvent::Release(j) => {
                let health = before.resolvers[j as int];
                assert(health.wf());
                lemma_with_resolver_wf(before, j as int, health.with_free(health.free + 1));
            },
            PoolEvent::Loss { k: j, is_timeout, now_ns } => {
                let health = before.resolvers[j as int];
                assert(health.wf());
                lemma_with_resolver_wf(
                    before,
                    j as int,
                    health.after_error(is_timeout, now_ns as int),
                );
            },
        }
        assert(after.resolvers[k].wf());
    }
}

/// What a pass comes to is what there is: a resolver is reserved wherever one is active,
/// serves no sentence and has a permit to give; none is active where the pass says so;
/// all active ones serve sentences where it says so; and where it says to wait for one,
/// that one is active, serves no sentence and is at its cap. Only a reservation changes
/// a resolver.
pub proof fn law_a_pass_finds_what_there_is(
    pool: PoolView,
    now_ns: u64,
    outcome: Reserve,
    after: PoolView,
)
    requires
        pool.wf(),
        pool.passes(now_ns as int, outcome, after),
    ensures
        outcome is Reserved <==> exists|i: int|
            0 <= i < pool.resolvers.len() && (#[trigger] pool.resolvers[i]).active
                && pool.resolvers[i].benched_until_ns <= now_ns && pool.resolvers[i].in_flight()
                < pool.resolvers[i].capacity,
        outcome is NoneActive <==> forall|i: int|
            0 <= i < pool.resolvers.len() ==> !(#[trigger] pool.resolvers[i]).active,
        outcome is AllBenched <==> {
            &&& exists|i: int|
                0 <= i < pool.resolvers.len() && (#[trigger] pool.resolvers[i]).active
            &&& forall|i: int|
                0 <= i < pool.resolvers.len() && (#[trigger] pool.resolvers[i]).active
                    ==> pool.resolvers[i].benched_until_ns > now_ns
        },
        outcome matches Reserve::Saturated(k) ==> {
            &&& k < pool.resolvers.len()
            &&& pool.resolvers[k as int].active
            &&& pool.resolvers[k as int].benched_until_ns <= now_ns
            &&& pool.resolvers[k as int].in_flight() == pool.resolvers[k as int].capacity
        },
        !(outcome is Reserved) ==> after.resolvers == pool.resolvers,
        after.entered == pool.entered,
        after.capacity == pool.capacity,
{
    law_a_pass_stays_within_the_pool(pool, now_ns, outcome, after);
    match outcome {
        Reserve::Reserved(k) => {
            law_a_reservation_is_within_the_cap(pool, now_ns, k, after);
            assert(pool.resolvers[k as int].in_flight() < pool.resolvers[k as int].capacity);
        },
        Reserve::NoneActive => {},
        Reserve::AllBenched => {
            assert forall|i: int|
                0 <= i < pool.resolvers.len() && (
                #[trigger] pool.resolvers[i]).active implies pool.resolvers[i].benched_until_ns
                > now_ns by {
                assert(!pool.resolvers[i].eligible(now_ns as int));
            }
        },
        Reserve::Saturated(k) => {
            assert forall|i: int|
                0 <= i < pool.resolvers.len() && (#[trigger] pool.resolvers[i]).active
                    && pool.resolvers[i].benched_until_ns
                    <= now_ns implies pool.resolvers[i].in_flight()
                == pool.resolvers[i].capacity by {
                assert(pool.resolvers[i].eligible(now_ns as int));
            }
            assert(pool.resolvers[k as int].active);
        },
    }
}

/// Rotation: a pass starts at the cursor, which moves on by one with every pass, and takes
/// the first resolver that it comes to that is active, serves no sentence and has a
/// permit to give. The ones that it passed by lack one of these.
pub proof fn law_a_pass_takes_the_first_in_rotation(
    pool: PoolView,
    now_ns: u64,
    k: usize,
    after: PoolView,
) -> (step: int)
    requires
        pool.wf(),
        pool.passes(now_ns as int, Reserve::Reserved(k), after),
    ensures
        0 <= step < pool.resolvers.len(),
        k == (pool.cursor + step) % (pool.resolvers.len() as int),
        forall|s: int|
            0 <= s < step ==> #[trigger] pool.visited(s) == (pool.cursor + s) % (
            pool.resolvers.len() as int),
        forall|s: int|
            0 <= s < step ==> {
                let passed = pool.resolvers[#[trigger] pool.visited(s)];
                !passed.active || passed.benched_until_ns > now_ns || passed.in_flight()
                    == passed.capacity
            },
        pool.cursor < u64::MAX ==> after.cursor == pool.cursor + 1,
{
    let step = choose|step: int|
        {
            &&& 0 <= step < pool.resolvers.len()
            &&& k == pool.visited(step)
            &&& #[trigger] pool.takeable(step, now_ns as int)
            &&& forall|s: int| 0 <= s < step ==> !#[trigger] pool.takeable(s, now_ns as int)
        };
    assert forall|s: int| 0 <= s < step implies {
        let passed = pool.resolvers[#[trigger] pool.visited(s)];
        !passed.active || passed.benched_until_ns > now_ns || passed.in_flight() == passed.capacity
    } by {
        assert(!pool.takeable(s, now_ns as int));
        lemma_visited(pool, s);
        assert(pool.resolvers[pool.visited(s)].wf());
    }
    step
}

/// The first release is when there is a resolver again: at that time some active
/// resolver serves no sentence, and at no time before does any.
pub proof fn law_the_first_release_is_the_first(pool: PoolView, until_ns: u64, now_ns: u64)
    requires
        pool.is_first_release(until_ns as int),
    ensures
        exists|i: int|
            0 <= i < pool.resolvers.len() && (#[trigger] pool.resolvers[i]).active
                && pool.resolvers[i].benched_until_ns <= until_ns,
        now_ns < until_ns ==> forall|i: int|
            0 <= i < pool.resolvers.len() && (#[trigger] pool.resolvers[i]).active
                ==> pool.resolvers[i].benched_until_ns > now_ns,
{
}

/// Replacing one resolver, or noting how many queries are under way, leaves the rest of a
/// pool alone, and starting a pass moves the rotation alone.
pub proof fn law_changes_to_a_pool_are_single(
    pool: PoolView,
    i: int,
    health: HealthView,
    entered: int,
)
    requires
        0 <= i < pool.resolvers.len(),
    ensures
        ({
            let replaced = pool.with_resolver(i, health);
            &&& replaced.resolvers.len() == pool.resolvers.len()
            &&& replaced.resolvers[i] == health
            &&& forall|j: int|
                0 <= j < pool.resolvers.len() && j != i ==> #[trigger] replaced.resolvers[j]
                    == pool.resolvers[j]
            &&& replaced == (PoolView { resolvers: replaced.resolvers, ..pool })
        }),
        pool.with_entered(entered) == (PoolView { entered, ..pool }),
        pool.cursor < u64::MAX ==> pool.rotated() == (PoolView {
            cursor: (pool.cursor + 1) as u64,
            ..pool
        }),
{
}

} // verus!
