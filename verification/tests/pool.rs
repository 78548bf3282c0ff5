use slotpool::pool::Pool;

#[test]
fn scenario_capacity_one() {
    // Two acquisition attempts on a pool of capacity 1: exactly one succeeds,
    // the other observes nothing until the first releases.
    let mut pool = Pool::<u64>::new(1, 0);
    let first = pool.acquire().expect("one slot is free");
    assert_eq!(first.index(), 0);
    assert!(pool.acquire().is_none());
    pool.release(first);
    let again = pool.acquire().expect("released slot is free again");
    assert_eq!(again.index(), 0);
}

#[test]
fn acquire_scans_in_index_order() {
    let mut pool = Pool::<u32>::new(3, 0);
    let a = pool.acquire().unwrap();
    let b = pool.acquire().unwrap();
    let c = pool.acquire().unwrap();
    assert_eq!(a.index(), 0);
    assert_eq!(b.index(), 1);
    assert_eq!(c.index(), 2);
    // Every slot is claimed: no slot is fabricated.
    assert!(pool.acquire().is_none());
}

#[test]
fn release_makes_slot_immediately_eligible() {
    let mut pool = Pool::<u32>::new(3, 0);
    let _a = pool.acquire().unwrap();
    let b = pool.acquire().unwrap();
    let _c = pool.acquire().unwrap();
    assert!(pool.acquire().is_none());
    pool.release(b);
    let again = pool.acquire().expect("the released slot is free");
    assert_eq!(again.index(), 1);
}

#[test]
fn slot_read_write() {
    let mut pool = Pool::<u64>::new(2, 7);
    let a = pool.acquire().unwrap();
    let b = pool.acquire().unwrap();
    assert_eq!(pool.read_slot(&a), 7);
    pool.write_slot(&a, 42);
    assert_eq!(pool.read_slot(&a), 42);
    // Writing one slot leaves the other untouched.
    assert_eq!(pool.read_slot(&b), 7);
}

#[test]
fn slot_value_survives_release() {
    // Slots are not destructor-initialized: a new claim sees whatever the
    // previous owner left behind.
    let mut pool = Pool::<u64>::new(1, 0);
    let a = pool.acquire().unwrap();
    pool.write_slot(&a, 99);
    pool.release(a);
    let b = pool.acquire().unwrap();
    assert_eq!(pool.read_slot(&b), 99);
}

#[test]
fn pending_task_stays_pending_on_full_pool() {
    let mut pool = Pool::<u8>::new(2, 0);
    let _a = pool.acquire().unwrap();
    let _b = pool.acquire().unwrap();
    let mut task = pool.wait_acquire();
    // Re-polling is the only way a task discovers readiness; with every slot
    // claimed it stays pending no matter how often it is polled.
    for _ in 0..1000 {
        assert!(task.poll(&mut pool).is_none());
    }
}

#[test]
fn task_completes_once_polled_with_free_slot() {
    let mut pool = Pool::<u8>::new(1, 0);
    let held = pool.acquire().unwrap();
    let mut task = pool.wait_acquire();
    assert!(task.poll(&mut pool).is_none());
    pool.release(held);
    let got = task.poll(&mut pool).expect("slot freed, one poll suffices");
    assert_eq!(got.index(), 0);
}
