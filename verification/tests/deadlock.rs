use os::sync::deadlock::{banker_is_safe, DeadlockDetector};
use os::syscall::sync::{
    deadlock_detect, sys_condvar_create, sys_condvar_signal, sys_condvar_wait,
    sys_enable_deadlock_detect, sys_mutex_create, sys_mutex_lock, sys_mutex_unlock,
    sys_semaphore_create, sys_semaphore_down, sys_semaphore_up, sys_sleep, MutexKind,
    SyncResources, DEADLOCK_ERROR,
};

fn fresh(enable: usize) -> SyncResources {
    SyncResources {
        mutex_list: Vec::new(),
        semaphore_list: Vec::new(),
        condvar_list: Vec::new(),
        mutex_detector: DeadlockDetector::new(),
        semaphore_detector: DeadlockDetector::new(),
        enable_deadlock_detect: enable,
    }
}

fn no_waiters(n: usize) -> Vec<Vec<usize>> {
    vec![Vec::new(); n]
}

#[test]
fn detector_new_is_empty() {
    let d = DeadlockDetector::new();
    assert_eq!(d.available, [0isize; 5]);
    for i in 0..17 {
        assert_eq!(d.allocations[i], (i, [0usize; 5]));
    }
}

#[test]
fn detector_clone_copies_books() {
    let mut d = DeadlockDetector::new();
    d.available[2] = 4;
    d.allocations[3].1[1] = 6;
    let c = d.clone();
    assert_eq!(c.available, d.available);
    assert_eq!(c.allocations, d.allocations);
}

#[test]
fn banker_finds_safe_order() {
    // Thread 0 holds a unit of resource 0 and needs nothing more; thread 1 needs
    // that unit. Thread 0 finishes first and frees it.
    let available = [0isize; 5];
    let mut alloc = DeadlockDetector::new().allocations;
    let mut need = DeadlockDetector::new().allocations;
    alloc[0].1[0] = 1;
    need[1].1[0] = 1;
    assert!(banker_is_safe(available, &alloc, &need));
}

#[test]
fn banker_detects_circular_wait() {
    // Each of threads 0 and 1 holds what the other needs.
    let available = [0isize; 5];
    let mut alloc = DeadlockDetector::new().allocations;
    let mut need = DeadlockDetector::new().allocations;
    alloc[0].1[0] = 1;
    alloc[1].1[1] = 1;
    need[0].1[1] = 1;
    need[1].1[0] = 1;
    assert!(!banker_is_safe(available, &alloc, &need));
}

#[test]
fn banker_free_units_break_the_cycle() {
    let mut available = [0isize; 5];
    available[1] = 1;
    let mut alloc = DeadlockDetector::new().allocations;
    let mut need = DeadlockDetector::new().allocations;
    alloc[0].1[0] = 1;
    alloc[1].1[1] = 1;
    need[0].1[1] = 1;
    need[1].1[0] = 1;
    assert!(banker_is_safe(available, &alloc, &need));
}

#[test]
fn semaphore_down_refuses_deadlock() {
    let mut res = fresh(1);
    assert_eq!(sys_semaphore_create(&mut res, 1), 0);
    assert_eq!(sys_semaphore_create(&mut res, 1), 1);
    assert_eq!(res.semaphore_detector.available[0], 1);
    assert_eq!(res.semaphore_detector.available[1], 1);
    // Thread 0 takes semaphore 0, thread 1 takes semaphore 1.
    assert_eq!(sys_semaphore_down(&mut res, 0, 0, &no_waiters(2)), 0);
    assert_eq!(sys_semaphore_down(&mut res, 1, 1, &no_waiters(2)), 0);
    assert_eq!(res.semaphore_detector.available[0], 0);
    assert_eq!(res.semaphore_detector.allocations[0].1[0], 1);
    assert_eq!(res.semaphore_detector.allocations[1].1[1], 1);
    // Thread 0 asks for semaphore 1: thread 1 can still finish, so it may wait.
    assert_eq!(sys_semaphore_down(&mut res, 0, 1, &no_waiters(2)), 0);
    assert_eq!(res.semaphore_detector.allocations[0].1[1], 0);
    // Thread 0 now waits on semaphore 1; thread 1 asking for semaphore 0 closes the cycle.
    let waiters = vec![Vec::new(), vec![0usize]];
    let before = res.semaphore_detector.clone();
    assert_eq!(sys_semaphore_down(&mut res, 1, 0, &waiters), DEADLOCK_ERROR);
    assert_eq!(res.semaphore_detector.available, before.available);
    assert_eq!(res.semaphore_detector.allocations, before.allocations);
}

#[test]
fn detection_off_allows_everything() {
    let mut res = fresh(0);
    sys_semaphore_create(&mut res, 1);
    sys_semaphore_create(&mut res, 1);
    sys_semaphore_down(&mut res, 0, 0, &no_waiters(2));
    sys_semaphore_down(&mut res, 1, 1, &no_waiters(2));
    sys_semaphore_down(&mut res, 0, 1, &no_waiters(2));
    let waiters = vec![Vec::new(), vec![0usize]];
    assert!(deadlock_detect(&res, 1, 0, 1, &waiters));
    assert_eq!(sys_semaphore_down(&mut res, 1, 0, &waiters), 0);
}

#[test]
fn semaphore_up_returns_unit() {
    let mut res = fresh(1);
    sys_semaphore_create(&mut res, 2);
    assert_eq!(sys_semaphore_down(&mut res, 3, 0, &no_waiters(1)), 0);
    assert_eq!(res.semaphore_detector.available[0], 1);
    assert_eq!(res.semaphore_detector.allocations[3].1[0], 1);
    assert_eq!(sys_semaphore_up(&mut res, 3, 0), 0);
    assert_eq!(res.semaphore_detector.available[0], 2);
    assert_eq!(res.semaphore_detector.allocations[3].1[0], 0);
}

#[test]
fn mutex_lock_refused_when_held() {
    let mut res = fresh(1);
    assert_eq!(sys_mutex_create(&mut res, true), 0);
    assert_eq!(res.mutex_list, vec![Some(MutexKind::Blocking)]);
    assert_eq!(res.mutex_detector.available[0], 1);
    assert_eq!(sys_mutex_lock(&mut res, 0, 0), 0);
    assert_eq!(res.mutex_detector.available[0], 0);
    assert_eq!(res.mutex_detector.allocations[0].1[0], 1);
    assert_eq!(sys_mutex_lock(&mut res, 1, 0), DEADLOCK_ERROR);
    assert_eq!(res.mutex_detector.allocations[1].1[0], 0);
    assert_eq!(sys_mutex_unlock(&mut res, 0, 0), 0);
    assert_eq!(res.mutex_detector.available[0], 1);
    assert_eq!(sys_mutex_lock(&mut res, 1, 0), 0);
    assert_eq!(res.mutex_detector.allocations[1].1[0], 1);
}

#[test]
fn mutex_lock_without_detection_waits() {
    let mut res = fresh(0);
    sys_mutex_create(&mut res, false);
    assert_eq!(sys_mutex_lock(&mut res, 0, 0), 0);
    // Held: the second locker is not refused and is not granted a unit.
    assert_eq!(sys_mutex_lock(&mut res, 1, 0), 0);
    assert_eq!(res.mutex_detector.available[0], 0);
    assert_eq!(res.mutex_detector.allocations[1].1[0], 0);
}

#[test]
fn lock_then_unlock_restores_books() {
    let mut res = fresh(1);
    sys_mutex_create(&mut res, false);
    sys_mutex_create(&mut res, true);
    let before = res.mutex_detector.clone();
    assert_eq!(sys_mutex_lock(&mut res, 4, 1), 0);
    assert_eq!(sys_mutex_unlock(&mut res, 4, 1), 0);
    assert_eq!(res.mutex_detector.available, before.available);
    assert_eq!(res.mutex_detector.allocations, before.allocations);
}

#[test]
fn units_are_conserved_by_lock_and_unlock() {
    let mut res = fresh(1);
    sys_semaphore_create(&mut res, 3);
    let total = |r: &SyncResources| {
        r.semaphore_detector.available[0]
            + r.semaphore_detector.allocations.iter().map(|a| a.1[0] as isize).sum::<isize>()
    };
    assert_eq!(total(&res), 3);
    sys_semaphore_down(&mut res, 0, 0, &no_waiters(1));
    sys_semaphore_down(&mut res, 2, 0, &no_waiters(1));
    assert_eq!(total(&res), 3);
    sys_semaphore_up(&mut res, 0, 0);
    assert_eq!(total(&res), 3);
}

#[test]
fn create_takes_lowest_free_slot() {
    let mut res = fresh(0);
    res.mutex_list = vec![Some(MutexKind::Spin), None, Some(MutexKind::Blocking)];
    assert_eq!(sys_mutex_create(&mut res, true), 1);
    assert_eq!(
        res.mutex_list,
        vec![Some(MutexKind::Spin), Some(MutexKind::Blocking), Some(MutexKind::Blocking)]
    );
    assert_eq!(res.mutex_detector.available[1], 1);
    assert_eq!(sys_mutex_create(&mut res, false), 3);
    assert_eq!(res.mutex_list.len(), 4);
}

#[test]
fn condvar_calls() {
    let mut res = fresh(0);
    assert_eq!(sys_condvar_create(&mut res), 0);
    assert_eq!(sys_condvar_create(&mut res), 1);
    res.condvar_list[0] = None;
    assert_eq!(sys_condvar_create(&mut res), 0);
    sys_mutex_create(&mut res, true);
    assert_eq!(sys_condvar_signal(&res, 1), 0);
    assert_eq!(sys_condvar_wait(&res, 0, 0), 0);
}

#[test]
fn enable_deadlock_detect_values() {
    let mut res = fresh(0);
    assert_eq!(sys_enable_deadlock_detect(&mut res, 2), -1);
    assert_eq!(res.enable_deadlock_detect, 0);
    assert_eq!(sys_enable_deadlock_detect(&mut res, 1), 0);
    assert_eq!(res.enable_deadlock_detect, 1);
    assert_eq!(sys_enable_deadlock_detect(&mut res, 0), 0);
    assert_eq!(res.enable_deadlock_detect, 0);
}

#[test]
fn sleep_sets_expiry() {
    assert_eq!(sys_sleep(100, 50), (0, 150));
}
