use slotpool::executor::BadExecutor;
use slotpool::pool::Pool;

#[test]
fn run_completes_when_capacity_suffices() {
    let mut pool = Pool::<u64>::new(10, 0);
    let mut exec = BadExecutor::new();
    for _ in 0..10 {
        exec.add(pool.wait_acquire());
    }
    let guards = exec.run_till_complete(&mut pool);
    assert_eq!(guards.len(), 10);
    assert_eq!(exec.pending_count(), 0);
    // Each guard owns a distinct slot.
    for i in 0..guards.len() {
        for j in 0..i {
            assert_ne!(guards[i].index(), guards[j].index());
        }
    }
    assert!(pool.acquire().is_none());
}

#[test]
fn tasks_serviced_most_recent_first() {
    // The scheduler pops the most recently submitted task first, so the last
    // task submitted claims the lowest slot.
    let mut pool = Pool::<u32>::new(2, 0);
    let mut exec = BadExecutor::new();
    exec.add(pool.wait_acquire());
    exec.add(pool.wait_acquire());
    let guards = exec.run_till_complete(&mut pool);
    assert_eq!(guards.len(), 2);
    assert_eq!(guards[0].index(), 0);
    assert_eq!(guards[1].index(), 1);
}

#[test]
fn scenario_all_slots_already_claimed() {
    // Ten suspending acquisitions on a fully claimed pool of capacity 10 can
    // never finish, and no iteration detects or reports the stall: an
    // unbounded run would spin forever, so a bounded watchdog drives the
    // scheduler iteration by iteration and expects no completion.
    let mut pool = Pool::<u64>::new(10, 0);
    let mut held = Vec::new();
    for _ in 0..10 {
        held.push(pool.acquire().unwrap());
    }
    let mut exec = BadExecutor::new();
    for _ in 0..10 {
        exec.add(pool.wait_acquire());
    }
    for _ in 0..500 {
        assert!(exec.step(&mut pool).is_none());
        assert_eq!(exec.pending_count(), 10);
    }
}

#[test]
fn scenario_release_mid_run() {
    // Pool of capacity 10 fully pre-claimed, one suspending task submitted:
    // the task completes within a bounded number of scheduler iterations once
    // a slot is released mid-run.
    let mut pool = Pool::<u64>::new(10, 0);
    let mut held = Vec::new();
    for _ in 0..10 {
        held.push(pool.acquire().unwrap());
    }
    let mut exec = BadExecutor::new();
    exec.add(pool.wait_acquire());

    // One iteration while everything is claimed: the task stays pending.
    assert!(exec.step(&mut pool).is_none());
    assert_eq!(exec.pending_count(), 1);

    // Release one slot; the very next iteration completes the task with it.
    let freed = held.remove(3);
    let freed_index = freed.index();
    pool.release(freed);
    let got = exec.step(&mut pool).expect("a slot is free now");
    assert_eq!(got.index(), freed_index);
    assert_eq!(exec.pending_count(), 0);
}

#[test]
fn step_on_empty_scheduler_does_nothing() {
    let mut pool = Pool::<u8>::new(1, 0);
    let mut exec = BadExecutor::new();
    assert!(exec.step(&mut pool).is_none());
    assert_eq!(exec.pending_count(), 0);
    // The pool was left untouched: its slot is still free.
    assert!(pool.acquire().is_some());
}
