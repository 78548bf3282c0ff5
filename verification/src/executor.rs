use vstd::prelude::*;
use crate::pool::{
    count_claimed, lemma_all_claimed_count, lemma_count_claimed_update, Pool, PoolFuture, PoolSlot,
};

verus! {

/// Whether some guard in `guards` owns slot `i`.
pub open spec fn holds_slot(guards: Seq<PoolSlot>, i: int) -> bool {
    exists|k: int| 0 <= k < guards.len() && guards[k]@ == i
}

proof fn lemma_holds_slot_push(guards: Seq<PoolSlot>, g: PoolSlot, i: int)
    ensures
        holds_slot(guards.push(g), i) <==> (holds_slot(guards, i) || g@ == i),
{
    let pushed = guards.push(g);
    if holds_slot(guards, i) {
        let k = choose|k: int| 0 <= k < guards.len() && guards[k]@ == i;
        assert(pushed[k]@ == i);
    }
    if g@ == i {
        assert(pushed[guards.len() as int]@ == i);
    }
    if holds_slot(pushed, i) {
        let k = choose|k: int| 0 <= k < pushed.len() && pushed[k]@ == i;
        if k < guards.len() {
            assert(guards[k]@ == i);
        }
    }
}

/// A minimal cooperative scheduler: a set of not-yet-complete suspending
/// acquisitions, driven to completion by repeatedly polling each one.
/// Polling is the only progress mechanism: there is no wake signaling, no
/// timer and no cancellation, so a task that never becomes ready stalls the
/// whole run forever, and the stall is neither detected nor reported — a
/// known gap left open rather than papered over. Tasks are serviced
/// most-recently-submitted first; no round-robin fairness is guaranteed, and
/// every poll of a pending task burns a full scheduler iteration. A caller
/// that must survive a possible stall drives the scheduler one iteration at
/// a time with `step` under its own watchdog.
pub struct BadExecutor {
    outstanding: Vec<PoolFuture>,
}

impl BadExecutor {
    /// The not-yet-complete tasks, in submission order.
    pub closed spec fn tasks(&self) -> Seq<PoolFuture> {
        self.outstanding@
    }

    /// Number of tasks still outstanding.
    pub open spec fn pending(&self) -> int {
        self.tasks().len() as int
    }

    /// Well-formedness: every outstanding task is still incomplete.
    pub open spec fn wf(&self) -> bool {
        forall|j: int| 0 <= j < self.tasks().len() ==> !(#[trigger] self.tasks()[j]).is_completed()
    }

    /// Number of tasks still outstanding.
    pub fn pending_count(&self) -> (n: usize)
        ensures
            n as int == self.pending(),
    {
        self.outstanding.len()
    }

    /// Creates a scheduler with no tasks.
    pub fn new() -> (e: BadExecutor)
        ensures
            e.wf(),
            e.pending() == 0,
    {
        BadExecutor { outstanding: Vec::new() }
    }

    /// Submits a task; it is owned by the scheduler until it completes.
    pub fn add(&mut self, x: PoolFuture)
        requires
            old(self).wf(),
            !x.is_completed(),
        ensures
            final(self).wf(),
            final(self).pending() == old(self).pending() + 1,
    {
        self.outstanding.push(x);
    }

    /// One scheduler iteration: removes the most recently submitted task and
    /// polls it once against `pool`. A completed task is discarded and its
    /// guard returned; a pending task is re-inserted and `None` returned.
    /// With no outstanding task, nothing happens.
    pub fn step<T: Copy>(&mut self, pool: &mut Pool<T>) -> (r: Option<PoolSlot>)
        requires
            old(self).wf(),
            old(pool).wf(),
        ensures
            final(self).wf(),
            old(self).pending() == 0 ==> {
                &&& r is None
                &&& final(self).tasks() == old(self).tasks()
                &&& final(pool).capacity() == old(pool).capacity()
                &&& final(pool).flags() == old(pool).flags()
                &&& final(pool).elems() == old(pool).elems()
            },
            old(self).pending() > 0 ==> {
                &&& Pool::<T>::acquire_step(*old(pool), *final(pool), r)
                &&& final(self).pending() == old(self).pending() - (
                if r is Some {
                    1int
                } else {
                    0int
                })
            },
    {
        match self.outstanding.pop() {
            None => None,
            Some(mut fut) => {
                proof {
                    assert(!old(self).tasks()[old(self).pending() - 1].is_completed());
                }
                let r = fut.poll(pool);
                if r.is_none() {
                    self.outstanding.push(fut);
                    proof {
                        assert(self.tasks() =~= old(self).tasks().update(
                            old(self).tasks().len() - 1,
                            fut,
                        ));
                    }
                }
                r
            },
        }
    }

    /// Drives every submitted task to completion by busy-polling: repeatedly
    /// removes the most recently submitted task, polls it once, re-inserts
    /// it if it reported pending, and discards it once complete, collecting
    /// its guard. It returns when the task set is empty: one guard per task,
    /// each owning a distinct slot that was unclaimed at entry and is
    /// claimed on return.
    ///
    /// A task that never becomes ready would stall this call forever,
    /// undetected and unreported. Here the run holds the pool exclusively,
    /// so no slot is released mid-run and a stall is exactly a demand beyond
    /// the free slots; the `requires` leaves those inputs out, and on every
    /// admitted input the call returns. Workloads that release slots between
    /// iterations, or that may stall, are driven one `step` at a time.
    pub fn run_till_complete<T: Copy>(&mut self, pool: &mut Pool<T>) -> (guards: Vec<PoolSlot>)
        requires
            old(self).wf(),
            old(pool).wf(),
            count_claimed(old(pool).flags()) + old(self).pending() <= old(pool).capacity(),
        ensures
            final(self).wf(),
            final(self).pending() == 0,
            final(pool).wf(),
            final(pool).capacity() == old(pool).capacity(),
            final(pool).elems() == old(pool).elems(),
            guards@.len() == old(self).pending(),
            forall|k: int|
                0 <= k < guards@.len() ==> 0 <= (#[trigger] guards@[k])@ < final(pool).capacity()
                    && final(pool).flags()[guards@[k]@] && !old(pool).flags()[guards@[k]@],
            forall|k1: int, k2: int|
                0 <= k1 < k2 < guards@.len() ==> (#[trigger] guards@[k1])@ != (
                #[trigger] guards@[k2])@,
            forall|i: int|
                0 <= i < final(pool).capacity() ==> (#[trigger] final(pool).flags()[i] <==> old(
                    pool,
                ).flags()[i] || holds_slot(guards@, i)),
    {
        let ghost cap0 = pool.capacity();
        let ghost flags0 = pool.flags();
        let ghost elems0 = pool.elems();
        let ghost total = old(self).pending();
        let mut guards: Vec<PoolSlot> = Vec::new();
        while self.outstanding.len() > 0
            invariant
                pool.wf(),
                pool.capacity() == cap0,
                pool.elems() == elems0,
                flags0.len() == cap0,
                guards@.len() + self.outstanding@.len() == total,
                count_claimed(pool.flags()) + self.outstanding@.len() <= cap0,
                forall|j: int|
                    0 <= j < self.outstanding@.len() ==> !(
                    #[trigger] self.outstanding@[j]).is_completed(),
                forall|k: int|
                    0 <= k < guards@.len() ==> 0 <= (#[trigger] guards@[k])@ < cap0
                        && !flags0[guards@[k]@],
                forall|k1: int, k2: int|
                    0 <= k1 < k2 < guards@.len() ==> (#[trigger] guards@[k1])@ != (
                    #[trigger] guards@[k2])@,
                forall|i: int|
                    0 <= i < cap0 ==> (#[trigger] pool.flags()[i] <==> flags0[i] || holds_slot(
                        guards@,
                        i,
                    )),
            decreases self.outstanding@.len(),
        {
            let ghost pre_tasks = self.outstanding@;
            let mut fut = self.outstanding.pop().unwrap();
            proof {
                assert(!pre_tasks[pre_tasks.len() - 1].is_completed());
            }
            let ghost pre_pool = *pool;
            let ghost pre_guards = guards@;
            match fut.poll(pool) {
                Some(g) => {
                    proof {
                        assert(holds_slot(pre_guards, g@) ==> pre_pool.flags()[g@]);
                        assert(!pre_pool.flags()[g@]);
                        lemma_count_claimed_update(pre_pool.flags(), g@, true);
                        assert forall|k: int| 0 <= k < pre_guards.len() implies (
                        #[trigger] pre_guards[k])@ != g@ by {
                            assert(holds_slot(pre_guards, pre_guards[k]@));
                        }
                        assert forall|i: int| 0 <= i < cap0 implies (holds_slot(
                            pre_guards.push(g),
                            i,
                        ) <==> (holds_slot(pre_guards, i) || g@ == i)) by {
                            lemma_holds_slot_push(pre_guards, g, i);
                        }
                    }
                    guards.push(g);
                },
                None => {
                    // A pending poll means every slot was claimed, which the
                    // precondition's count bound rules out while tasks remain.
                    proof {
                        lemma_all_claimed_count(pre_pool.flags());
                        assert(false);
                    }
                    self.outstanding.push(fut);
                },
            }
        }
        guards
    }
}

} // verus!
