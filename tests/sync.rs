use ngx::sync::{
    backoff, exclusive_transition, shared_transition, RawSpinlock, RwLock, SpinAction,
    NGX_RWLOCK_SPIN, NGX_RWLOCK_WLOCK,
};

#[test]
fn readers_share_and_exclude_writer() {
    let mut l = RawSpinlock::new();
    assert!(l.try_lock_shared());
    assert!(l.try_lock_shared());
    assert_eq!(l.value(), 2);
    assert!(!l.try_lock_exclusive());
    l.unlock_shared();
    assert!(!l.try_lock_exclusive());
    l.unlock_shared();
    assert!(l.try_lock_exclusive());
    assert_eq!(l.value(), NGX_RWLOCK_WLOCK);
    assert!(!l.try_lock_shared());
    assert!(!l.try_lock_exclusive());
    l.unlock_exclusive();
    assert_eq!(l.value(), 0);
}

#[test]
fn transitions() {
    assert_eq!(shared_transition(0), Some(1));
    assert_eq!(shared_transition(41), Some(42));
    assert_eq!(shared_transition(NGX_RWLOCK_WLOCK), None);
    assert_eq!(shared_transition(NGX_RWLOCK_WLOCK - 1), None);
    assert_eq!(exclusive_transition(0), Some(NGX_RWLOCK_WLOCK));
    assert_eq!(exclusive_transition(3), None);
}

#[test]
fn backoff_spins_then_yields() {
    assert_eq!(backoff(0, 4), (SpinAction::Spin(0), 1));
    assert_eq!(backoff(7, 4), (SpinAction::Spin(7), 8));
    assert_eq!(backoff(NGX_RWLOCK_SPIN, 4), (SpinAction::Yield, 0));
    assert_eq!(backoff(0, 1), (SpinAction::Yield, 0));
}

#[test]
fn counters_under_the_guard_never_overlap() {
    let mut lock = RwLock::new((0u32, false));
    for round in 0..50u32 {
        let readers = round % 4 + 1;
        for _ in 0..readers {
            assert!(lock.try_lock_shared());
            assert!(!lock.data().1);
        }
        assert!(!lock.try_lock_exclusive());
        for _ in 0..readers {
            lock.unlock_shared();
        }
        assert!(lock.try_lock_exclusive());
        assert!(!lock.try_lock_shared());
        {
            let d = lock.data_mut();
            d.1 = true;
            d.0 += 1;
            assert_eq!(d.0, round + 1);
            d.1 = false;
        }
        lock.unlock_exclusive();
    }
    assert!(lock.try_lock_shared());
    assert_eq!(*lock.data(), (50, false));
}
