//! Mutex, semaphore and condition-variable system calls, with deadlock detection.
//!
//! The kernel objects themselves (the spin or blocking mutexes, the semaphores
//! with their wait queues, the condition variables) live with the caller, in
//! tables indexed like the ones here. These functions decide each call: which
//! slot a new object takes, whether a request is refused as a deadlock, and how
//! the detectors' books change. The caller then performs the blocking action
//! (lock, down, wait, ...) when the call is not refused.
use vstd::prelude::*;
use crate::slot::{alloc_slot, first_free, with_item};
use crate::sync::safety::{books_bounded, is_safe_order, lemma_safe_state_iff_safe_order};
use crate::sync::deadlock::{
    acquired, banker_is_safe, is_safe_state, returned, run_overflows, none_finished, table_rows,
    DeadlockDetector, DetectorView,
};

verus! {

/// The two kinds of mutex a process can create.
#[derive(Clone, Copy, PartialEq, Eq, Structural, Debug)]
pub enum MutexKind {
    /// Busy-waits (yielding) until the lock is free.
    Spin,
    /// Puts the waiting thread to sleep until the lock is free.
    Blocking,
}

/// The synchronisation resources of one process.
pub struct SyncResources {
    /// Mutex slots: the kind of each live mutex.
    pub mutex_list: Vec<Option<MutexKind>>,
    /// Semaphore slots: the initial count of each live semaphore.
    pub semaphore_list: Vec<Option<usize>>,
    /// Condition-variable slots.
    pub condvar_list: Vec<Option<()>>,
    /// Books of mutex ownership.
    pub mutex_detector: DeadlockDetector,
    /// Books of semaphore units.
    pub semaphore_detector: DeadlockDetector,
    /// 1 when deadlock detection is on, 0 when off.
    pub enable_deadlock_detect: usize,
}

/// The value a refused (deadlocking) request returns.
pub const DEADLOCK_ERROR: isize = -0xDEAD;

/// Occurrences of thread slot `t` among the first `n` entries of a wait queue.
pub open spec fn count_in(q: Seq<usize>, t: int, n: int) -> nat
    decreases n,
{
    if n <= 0 {
        0
    } else {
        count_in(q, t, n - 1) + if q[n - 1] == t {
            1nat
        } else {
            0nat
        }
    }
}

/// How many times thread slot `i` waits on semaphore `r` (0 when there is no such semaphore).
pub open spec fn waiting_count(sems: Seq<Option<usize>>, waiters: Seq<Seq<usize>>, i: int, r: int) -> nat {
    if r < sems.len() && sems[r] is Some {
        count_in(waiters[r], i, waiters[r].len() as int)
    } else {
        0
    }
}

/// The outstanding requests seen by the detector when thread slot `tid` asks for
/// one unit of semaphore `res_id`: that request, plus one unit for every place a
/// thread stands in a semaphore's wait queue.
pub open spec fn request_need(
    tid: int,
    res_id: int,
    sems: Seq<Option<usize>>,
    waiters: Seq<Seq<usize>>,
) -> Seq<Seq<usize>> {
    Seq::new(
        17,
        |i: int|
            Seq::new(
                5,
                |r: int|
                    (own_request(tid, res_id, i, r) + waiting_count(sems, waiters, i, r)) as usize,
            ),
    )
}

/// The wait queues match the semaphore table, name only thread slots below 17,
/// and are short enough to be counted.
pub open spec fn waiters_well_formed(sems: Seq<Option<usize>>, waiters: Seq<Seq<usize>>) -> bool {
    &&& waiters.len() == sems.len()
    &&& forall|r: int|
        #![trigger waiters[r]]
        0 <= r < 5 && r < sems.len() && sems[r] is Some ==> {
            &&& waiters[r].len() < usize::MAX
            &&& forall|k: int| 0 <= k < waiters[r].len() ==> waiters[r][k] < 17
        }
}

/// Whether deadlock detection lets thread slot `tid` ask for resource `res_id`
/// (`kind` 0: a mutex; otherwise a semaphore, with `waiters` the semaphores' wait queues).
pub open spec fn detection_allows(
    res: SyncResources,
    tid: int,
    res_id: int,
    kind: usize,
    waiters: Seq<Seq<usize>>,
) -> bool {
    if res.enable_deadlock_detect == 0 {
        true
    } else if kind == 0 {
        res.mutex_detector.available@[res_id] != 0
    } else {
        is_safe_state(
            res.semaphore_detector.available@,
            table_rows(res.semaphore_detector.allocations),
            request_need(tid, res_id, res.semaphore_list@, waiters),
        )
    }
}

/// What the detection needs of its inputs to run without fault.
pub open spec fn detection_defined(
    res: SyncResources,
    tid: int,
    res_id: int,
    kind: usize,
    waiters: Seq<Seq<usize>>,
) -> bool {
    res.enable_deadlock_detect != 0 ==> if kind == 0 {
        0 <= res_id < 5
    } else {
        &&& 0 <= tid < 17
        &&& 0 <= res_id < 5
        &&& waiters_well_formed(res.semaphore_list@, waiters)
        &&& !run_overflows(
            res.semaphore_detector.available@,
            none_finished(),
            table_rows(res.semaphore_detector.allocations),
            request_need(tid, res_id, res.semaphore_list@, waiters),
            17,
        )
    }
}

/// The request being decided: one unit of `res_id` for thread slot `tid`.
pub open spec fn own_request(tid: int, res_id: int, i: int, c: int) -> int {
    if i == tid && c == res_id {
        1
    } else {
        0
    }
}

proof fn lemma_count_in_bound(q: Seq<usize>, t: int, n: int)
    requires
        0 <= n,
    ensures
        count_in(q, t, n) <= n,
    decreases n,
{
    if n > 0 {
        lemma_count_in_bound(q, t, n - 1);
    }
}

/// Builds the need table of `request_need`.
fn build_need(
    tid: usize,
    res_id: usize,
    sems: &Vec<Option<usize>>,
    waiters: &Vec<Vec<usize>>,
) -> (need: [(usize, [usize; 5]); 17])
    requires
        tid < 17,
        res_id < 5,
        waiters_well_formed(sems@, waiters.deep_view()),
    ensures
        table_rows(need) =~= request_need(tid as int, res_id as int, sems@, waiters.deep_view()),
{
    let mut need = [(0usize, [0usize; 5]); 17];
    let mut row = need[tid];
    row.1[res_id] = 1;
    need[tid] = row;
    assert forall|i: int, c: int| 0 <= i < 17 && 0 <= c < 5 implies need@[i].1@[c] == own_request(tid as int, res_id as int, i, c) by {
        if i != tid {
            assert(need@[i].1@[c] == 0);
        }
    }
    let mut r: usize = 0;
    while r < 5
        invariant
            r <= 5,
            tid < 17,
            res_id < 5,
            waiters_well_formed(sems@, waiters.deep_view()),
            forall|i: int, c: int|
                #![trigger need@[i].1@[c]]
                0 <= i < 17 && 0 <= c < 5 ==> need@[i].1@[c] == own_request(tid as int, res_id as int, i, c) + if c < r {
                    waiting_count(sems@, waiters.deep_view(), i, c) as int
                } else {
                    0int
                },
        ensures
            forall|i: int, c: int|
                #![trigger need@[i].1@[c]]
                0 <= i < 17 && 0 <= c < 5 ==> need@[i].1@[c] == own_request(tid as int, res_id as int, i, c) + waiting_count(
                    sems@,
                    waiters.deep_view(),
                    i,
                    c,
                ) as int,
        decreases 5 - r,
    {
        if r >= sems.len() {
            assert forall|i: int, c: int|
                0 <= i < 17 && 0 <= c < 5 implies #[trigger] need@[i].1@[c] == own_request(tid as int, res_id as int, i, c)
                + waiting_count(sems@, waiters.deep_view(), i, c) as int by {}
            break;
        }
        if sems[r].is_some() {
            let queue = &waiters[r];
            let mut k: usize = 0;
            while k < queue.len()
                invariant
                    k <= queue@.len(),
                    queue@ == waiters.deep_view()[r as int],
                    r < 5,
                    r < sems@.len(),
                    sems@[r as int] is Some,
                    waiters_well_formed(sems@, waiters.deep_view()),
                    forall|i: int, c: int|
                        #![trigger need@[i].1@[c]]
                        0 <= i < 17 && 0 <= c < 5 ==> need@[i].1@[c] == own_request(tid as int, res_id as int, i, c) + if c < r {
                            waiting_count(sems@, waiters.deep_view(), i, c) as int
                        } else if c == r {
                            count_in(queue@, i, k as int) as int
                        } else {
                            0int
                        },
                decreases queue@.len() - k,
            {
                let w = queue[k];
                assert(waiters.deep_view()[r as int].len() < usize::MAX);
                assert(waiters.deep_view()[r as int][k as int] < 17);
                proof {
                    lemma_count_in_bound(queue@, w as int, k as int);
                }
                assert(need@[w as int].1@[r as int] == own_request(tid as int, res_id as int, w as int, r as int) + count_in(
                    queue@,
                    w as int,
                    k as int,
                ));
                let mut row = need[w];
                row.1[r] = row.1[r] + 1;
                need[w] = row;
                k = k + 1;
            }
        }
        r = r + 1;
    }
    assert forall|i: int| 0 <= i < 17 implies table_rows(need)[i] =~= request_need(
        tid as int,
        res_id as int,
        sems@,
        waiters.deep_view(),
    )[i] by {
        assert forall|c: int| 0 <= c < 5 implies #[trigger] table_rows(need)[i][c] == request_need(
            tid as int,
            res_id as int,
            sems@,
            waiters.deep_view(),
        )[i][c] by {
            assert(need@[i].1@[c] == own_request(tid as int, res_id as int, i, c) + waiting_count(sems@, waiters.deep_view(), i, c) as int);
        }
    }
    need
}

/// With detection on and semaphore books that fit in `isize`, a semaphore request
/// can always be decided, and it is allowed exactly when some ordering of all the
/// threads lets each one finish in turn, counting the request and every queued
/// wait as outstanding need.
pub proof fn lemma_semaphore_detection_exact(
    res: SyncResources,
    tid: int,
    res_id: int,
    waiters: Seq<Seq<usize>>,
)
    requires
        res.enable_deadlock_detect != 0,
        0 <= tid < 17,
        0 <= res_id < 5,
        waiters_well_formed(res.semaphore_list@, waiters),
        books_bounded(res.semaphore_detector.available@, table_rows(res.semaphore_detector.allocations)),
    ensures
        detection_defined(res, tid, res_id, 1, waiters),
        detection_allows(res, tid, res_id, 1, waiters) <==> exists|order: Seq<int>|
            is_safe_order(
                res.semaphore_detector.available@,
                table_rows(res.semaphore_detector.allocations),
                request_need(tid, res_id, res.semaphore_list@, waiters),
                order,
            ),
{
    lemma_safe_state_iff_safe_order(
        res.semaphore_detector.available@,
        table_rows(res.semaphore_detector.allocations),
        request_need(tid, res_id, res.semaphore_list@, waiters),
    );
}

/// With detection off every request is allowed; with it on, a mutex request is
/// allowed exactly when the mutex has a free unit.
pub proof fn lemma_detection_off_and_mutex(
    res: SyncResources,
    tid: int,
    res_id: int,
    kind: usize,
    waiters: Seq<Seq<usize>>,
)
    ensures
        res.enable_deadlock_detect == 0 ==> detection_allows(res, tid, res_id, kind, waiters),
        res.enable_deadlock_detect != 0 && kind == 0 ==> (detection_allows(res, tid, res_id, kind, waiters)
            <==> res.mutex_detector.available@[res_id] != 0),
{
}

proof fn lemma_count_in_filter(q: Seq<usize>, t: int, n: int, pred: spec_fn(usize) -> bool)
    requires
        0 <= n <= q.len(),
        forall|x: usize| #[trigger] pred(x) <==> x as int == t,
    ensures
        count_in(q, t, n) == q.take(n).filter(pred).len(),
    decreases n,
{
    reveal(Seq::filter);
    if n > 0 {
        lemma_count_in_filter(q, t, n - 1, pred);
        assert(q.take(n).drop_last() =~= q.take(n - 1));
    }
}

/// What a semaphore request is decided on, with the need table written out: thread
/// slot `i`'s outstanding need of semaphore `r` is one unit if `i` is the requester
/// and `r` the semaphore asked for, plus one unit for each time `i` itself stands in
/// `r`'s wait queue. With detection on and books that fit in `isize`, the request
/// is allowed exactly when, with that need, some ordering of all threads lets each
/// finish in turn.
pub proof fn lemma_semaphore_request_need(
    res: SyncResources,
    tid: int,
    res_id: int,
    waiters: Seq<Seq<usize>>,
    need: Seq<Seq<usize>>,
)
    requires
        res.enable_deadlock_detect != 0,
        0 <= tid < 17,
        0 <= res_id < 5,
        waiters_well_formed(res.semaphore_list@, waiters),
        books_bounded(res.semaphore_detector.available@, table_rows(res.semaphore_detector.allocations)),
        need.len() == 17,
        forall|i: int| 0 <= i < 17 ==> (#[trigger] need[i]).len() == 5,
        forall|i: int, r: int|
            0 <= i < 17 && 0 <= r < 5 ==> #[trigger] need[i][r] as int == (if i == tid && r == res_id {
                1int
            } else {
                0int
            }) + if r < res.semaphore_list@.len() && res.semaphore_list@[r] is Some {
                waiters[r].filter(|x: usize| x as int == i).len() as int
            } else {
                0int
            },
    ensures
        detection_defined(res, tid, res_id, 1, waiters),
        detection_allows(res, tid, res_id, 1, waiters) <==> exists|order: Seq<int>|
            is_safe_order(
                res.semaphore_detector.available@,
                table_rows(res.semaphore_detector.allocations),
                need,
                order,
            ),
{
    let sems = res.semaphore_list@;
    let rn = request_need(tid, res_id, sems, waiters);
    assert forall|i: int| 0 <= i < 17 implies #[trigger] rn[i] =~= need[i] by {
        assert forall|r: int| 0 <= r < 5 implies rn[i][r] == need[i][r] by {
            if r < sems.len() && sems[r] is Some {
                let pred = |x: usize| x as int == i;
                lemma_count_in_filter(waiters[r], i, waiters[r].len() as int, pred);
                assert(waiters[r].take(waiters[r].len() as int) =~= waiters[r]);
                assert(pred =~= |x: usize| x as int == i);
            }
            assert(need[i][r] as int == own_request(tid, res_id, i, r) + waiting_count(sems, waiters, i, r));
        }
    }
    assert(rn =~= need);
    lemma_semaphore_detection_exact(res, tid, res_id, waiters);
}

/// Deadlock detection for a request by thread slot `tid` for resource `res_id`.
///
/// With detection off every request is allowed. A mutex request (`kind` 0) is
/// refused exactly when the mutex has no free unit. A semaphore request is allowed
/// exactly when the banker's safety check passes on the semaphore books, with the
/// request itself and every queued wait counted as outstanding need.
pub fn deadlock_detect(
    res: &SyncResources,
    tid: usize,
    res_id: usize,
    kind: usize,
    sem_waiters: &Vec<Vec<usize>>,
) -> (allowed: bool)
    requires
        detection_defined(*res, tid as int, res_id as int, kind, sem_waiters.deep_view()),
    ensures
        allowed == detection_allows(*res, tid as int, res_id as int, kind, sem_waiters.deep_view()),
{
    if res.enable_deadlock_detect == 0 {
        return true;
    }
    if kind == 0 {
        return res.mutex_detector.available[res_id] != 0;
    }
    let need = build_need(tid, res_id, &res.semaphore_list, sem_waiters);
    banker_is_safe(res.semaphore_detector.available, &res.semaphore_detector.allocations, &need)
}


/// The sleep system call: the calling thread's wake-up timer is set `ms`
/// milliseconds after `now_ms`; the call returns 0 once the thread is blocked.
/// Returns the call's result and the expiry time.
pub fn sys_sleep(now_ms: usize, ms: usize) -> (res: (isize, usize))
    requires
        now_ms + ms <= usize::MAX,
    ensures
        res == (0isize, (now_ms + ms) as usize),
{
    (0, now_ms + ms)
}

/// Creates a mutex (blocking or spinning) in the lowest free mutex slot, marks its
/// one unit free in the mutex books, and returns the slot.
pub fn sys_mutex_create(res: &mut SyncResources, blocking: bool) -> (id: isize)
    requires
        first_free(old(res).mutex_list@) < 5,
    ensures
        id == first_free(old(res).mutex_list@) as isize,
        final(res).mutex_list@ == with_item(
            old(res).mutex_list@,
            if blocking {
                MutexKind::Blocking
            } else {
                MutexKind::Spin
            },
        ),
        final(res).mutex_detector@ == (
            old(res).mutex_detector@.0.update(first_free(old(res).mutex_list@), 1isize),
            old(res).mutex_detector@.1,
        ),
        final(res).semaphore_list@ == old(res).semaphore_list@,
        final(res).condvar_list@ == old(res).condvar_list@,
        final(res).semaphore_detector@ == old(res).semaphore_detector@,
        final(res).enable_deadlock_detect == old(res).enable_deadlock_detect,
{
    let kind = if !blocking {
        MutexKind::Spin
    } else {
        MutexKind::Blocking
    };
    let id = alloc_slot(&mut res.mutex_list, kind);
    res.mutex_detector.available[id] = 1;
    assert(res.mutex_detector@.0 =~= old(res).mutex_detector@.0.update(id as int, 1isize));
    id as isize
}

/// Locks mutex `mutex_id` for thread slot `tid`.
///
/// Refused with `DEADLOCK_ERROR` when deadlock detection says no. Otherwise the
/// call returns 0 (the caller then takes the lock, possibly waiting), and, if the
/// mutex had a free unit, the books record that `tid` now holds it.
pub fn sys_mutex_lock(res: &mut SyncResources, tid: usize, mutex_id: usize) -> (r: isize)
    requires
        detection_defined(*old(res), tid as int, mutex_id as int, 0, Seq::empty()),
        detection_allows(*old(res), tid as int, mutex_id as int, 0, Seq::empty()) ==> {
            &&& mutex_id < old(res).mutex_list@.len()
            &&& old(res).mutex_list@[mutex_id as int] is Some
            &&& mutex_id < 5
            &&& old(res).mutex_detector.available@[mutex_id as int] > 0 ==> {
                &&& tid < 17
                &&& old(res).mutex_detector.allocations@[tid as int].1@[mutex_id as int] < usize::MAX
            }
        },
    ensures
        ({
            let ok = detection_allows(*old(res), tid as int, mutex_id as int, 0, Seq::empty());
            &&& r == if ok {
                0
            } else {
                DEADLOCK_ERROR
            }
            &&& final(res).mutex_detector@ == if ok && old(res).mutex_detector.available@[mutex_id as int] > 0 {
                acquired(old(res).mutex_detector@, tid as int, mutex_id as int)
            } else {
                old(res).mutex_detector@
            }
        }),
        final(res).mutex_list@ == old(res).mutex_list@,
        final(res).semaphore_list@ == old(res).semaphore_list@,
        final(res).condvar_list@ == old(res).condvar_list@,
        final(res).semaphore_detector@ == old(res).semaphore_detector@,
        final(res).enable_deadlock_detect == old(res).enable_deadlock_detect,
{
    let no_waiters: Vec<Vec<usize>> = Vec::new();
    proof {
        assert(no_waiters.deep_view() =~= Seq::<Seq<usize>>::empty());
    }
    if !deadlock_detect(res, tid, mutex_id, 0, &no_waiters) {
        return DEADLOCK_ERROR;
    }
    if res.mutex_detector.available[mutex_id] > 0 {
        res.mutex_detector.acquire(tid, mutex_id);
    }
    0
}

/// Unlocks mutex `mutex_id` held by thread slot `tid`: the books move its unit from
/// `tid` back to free, and the call returns 0 (the caller then releases the lock).
pub fn sys_mutex_unlock(res: &mut SyncResources, tid: usize, mutex_id: usize) -> (r: isize)
    requires
        mutex_id < old(res).mutex_list@.len(),
        old(res).mutex_list@[mutex_id as int] is Some,
        mutex_id < 5,
        tid < 17,
        old(res).mutex_detector.allocations@[tid as int].1@[mutex_id as int] >= 1,
        old(res).mutex_detector.available@[mutex_id as int] < isize::MAX,
    ensures
        r == 0,
        final(res).mutex_detector@ == returned(old(res).mutex_detector@, tid as int, mutex_id as int),
        final(res).mutex_list@ == old(res).mutex_list@,
        final(res).semaphore_list@ == old(res).semaphore_list@,
        final(res).condvar_list@ == old(res).condvar_list@,
        final(res).semaphore_detector@ == old(res).semaphore_detector@,
        final(res).enable_deadlock_detect == old(res).enable_deadlock_detect,
{
    res.mutex_detector.release(tid, mutex_id);
    0
}

/// Creates a semaphore with `res_count` units in the lowest free semaphore slot,
/// records its units as free in the semaphore books, and returns the slot.
pub fn sys_semaphore_create(res: &mut SyncResources, res_count: usize) -> (id: isize)
    requires
        first_free(old(res).semaphore_list@) < 5,
    ensures
        id == first_free(old(res).semaphore_list@) as isize,
        final(res).semaphore_list@ == with_item(old(res).semaphore_list@, res_count),
        final(res).semaphore_detector@ == (
            old(res).semaphore_detector@.0.update(
                first_free(old(res).semaphore_list@),
                res_count as isize,
            ),
            old(res).semaphore_detector@.1,
        ),
        final(res).mutex_list@ == old(res).mutex_list@,
        final(res).condvar_list@ == old(res).condvar_list@,
        final(res).mutex_detector@ == old(res).mutex_detector@,
        final(res).enable_deadlock_detect == old(res).enable_deadlock_detect,
{
    let id = alloc_slot(&mut res.semaphore_list, res_count);
    res.semaphore_detector.available[id] = res_count as isize;
    assert(res.semaphore_detector@.0 =~= old(res).semaphore_detector@.0.update(
        id as int,
        res_count as isize,
    ));
    id as isize
}

/// Ups semaphore `sem_id` for thread slot `tid`: the books move one unit from
/// `tid` back to free, and the call returns 0 (the caller then ups the semaphore).
pub fn sys_semaphore_up(res: &mut SyncResources, tid: usize, sem_id: usize) -> (r: isize)
    requires
        sem_id < old(res).semaphore_list@.len(),
        old(res).semaphore_list@[sem_id as int] is Some,
        sem_id < 5,
        tid < 17,
        old(res).semaphore_detector.allocations@[tid as int].1@[sem_id as int] >= 1,
        old(res).semaphore_detector.available@[sem_id as int] < isize::MAX,
    ensures
        r == 0,
        final(res).semaphore_detector@ == returned(
            old(res).semaphore_detector@,
            tid as int,
            sem_id as int,
        ),
        final(res).mutex_list@ == old(res).mutex_list@,
        final(res).semaphore_list@ == old(res).semaphore_list@,
        final(res).condvar_list@ == old(res).condvar_list@,
        final(res).mutex_detector@ == old(res).mutex_detector@,
        final(res).enable_deadlock_detect == old(res).enable_deadlock_detect,
{
    res.semaphore_detector.release(tid, sem_id);
    0
}

/// Downs semaphore `sem_id` for thread slot `tid`, with `sem_waiters` the thread
/// slots queued on each semaphore.
///
/// Refused with `DEADLOCK_ERROR` when deadlock detection says no. Otherwise the
/// call returns 0 (the caller then downs the semaphore, possibly waiting), and, if
/// the semaphore had a free unit, the books record that `tid` now holds one.
pub fn sys_semaphore_down(
    res: &mut SyncResources,
    tid: usize,
    sem_id: usize,
    sem_waiters: &Vec<Vec<usize>>,
) -> (r: isize)
    requires
        detection_defined(*old(res), tid as int, sem_id as int, 1, sem_waiters.deep_view()),
        detection_allows(*old(res), tid as int, sem_id as int, 1, sem_waiters.deep_view()) ==> {
            &&& sem_id < old(res).semaphore_list@.len()
            &&& old(res).semaphore_list@[sem_id as int] is Some
            &&& sem_id < 5
            &&& old(res).semaphore_detector.available@[sem_id as int] > 0 ==> {
                &&& tid < 17
                &&& old(res).semaphore_detector.allocations@[tid as int].1@[sem_id as int] < usize::MAX
            }
        },
    ensures
        ({
            let ok = detection_allows(*old(res), tid as int, sem_id as int, 1, sem_waiters.deep_view());
            &&& r == if ok {
                0
            } else {
                DEADLOCK_ERROR
            }
            &&& final(res).semaphore_detector@ == if ok && old(res).semaphore_detector.available@[sem_id as int] > 0 {
                acquired(old(res).semaphore_detector@, tid as int, sem_id as int)
            } else {
                old(res).semaphore_detector@
            }
        }),
        final(res).mutex_list@ == old(res).mutex_list@,
        final(res).semaphore_list@ == old(res).semaphore_list@,
        final(res).condvar_list@ == old(res).condvar_list@,
        final(res).mutex_detector@ == old(res).mutex_detector@,
        final(res).enable_deadlock_detect == old(res).enable_deadlock_detect,
{
    if !deadlock_detect(res, tid, sem_id, 1, sem_waiters) {
        return DEADLOCK_ERROR;
    }
    if res.semaphore_detector.available[sem_id] > 0 {
        res.semaphore_detector.acquire(tid, sem_id);
    }
    0
}

/// Creates a condition variable in the lowest free slot and returns the slot.
pub fn sys_condvar_create(res: &mut SyncResources) -> (id: isize)
    ensures
        id == first_free(old(res).condvar_list@) as isize,
        final(res).condvar_list@ == with_item(old(res).condvar_list@, ()),
        final(res).mutex_list@ == old(res).mutex_list@,
        final(res).semaphore_list@ == old(res).semaphore_list@,
        final(res).mutex_detector@ == old(res).mutex_detector@,
        final(res).semaphore_detector@ == old(res).semaphore_detector@,
        final(res).enable_deadlock_detect == old(res).enable_deadlock_detect,
{
    let id = alloc_slot(&mut res.condvar_list, ());
    id as isize
}

/// Signals condition variable `condvar_id`; returns 0 (the caller wakes a waiter).
pub fn sys_condvar_signal(res: &SyncResources, condvar_id: usize) -> (r: isize)
    requires
        condvar_id < res.condvar_list@.len(),
        res.condvar_list@[condvar_id as int] is Some,
    ensures
        r == 0,
{
    0
}

/// Waits on condition variable `condvar_id` with mutex `mutex_id`; returns 0 (the
/// caller releases the mutex, sleeps, and takes the mutex again).
pub fn sys_condvar_wait(res: &SyncResources, condvar_id: usize, mutex_id: usize) -> (r: isize)
    requires
        condvar_id < res.condvar_list@.len(),
        res.condvar_list@[condvar_id as int] is Some,
        mutex_id < res.mutex_list@.len(),
        res.mutex_list@[mutex_id as int] is Some,
    ensures
        r == 0,
{
    0
}

/// Turns deadlock detection on (1) or off (0); any other value is refused with -1
/// and changes nothing.
pub fn sys_enable_deadlock_detect(res: &mut SyncResources, enabled: usize) -> (r: isize)
    ensures
        r == if enabled > 1 {
            -1isize
        } else {
            0isize
        },
        final(res).enable_deadlock_detect == if enabled > 1 {
            old(res).enable_deadlock_detect
        } else {
            enabled
        },
        final(res).mutex_list@ == old(res).mutex_list@,
        final(res).semaphore_list@ == old(res).semaphore_list@,
        final(res).condvar_list@ == old(res).condvar_list@,
        final(res).mutex_detector@ == old(res).mutex_detector@,
        final(res).semaphore_detector@ == old(res).semaphore_detector@,
{
    if enabled > 1 {
        return -1;
    }
    res.enable_deadlock_detect = enabled;
    0
}

} // verus!
