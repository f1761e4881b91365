//! The resource table that deadlock detection runs on.
use vstd::prelude::*;

verus! {

/// Resources of one kind (mutexes or semaphores) held by the threads of a process.
pub struct DeadlockDetector {
    /// How many units of each resource are free.
    pub available: [isize; 5],
    /// For each thread slot: its thread id and how many units of each resource it holds.
    pub allocations: [(usize, [usize; 5]); 17],
}

/// The abstract view of a detector: free units per resource, and per thread slot
/// its id and its held units per resource.
pub type DetectorView = (Seq<isize>, Seq<(usize, Seq<usize>)>);

impl View for DeadlockDetector {
    type V = DetectorView;

    open spec fn view(&self) -> DetectorView {
        (self.available@, Seq::new(17, |i: int| (self.allocations@[i].0, self.allocations@[i].1@)))
    }
}

/// A detector with nothing free and nothing held, whose thread slot `i` carries id `i`.
pub open spec fn initial_detector_view() -> DetectorView {
    (Seq::new(5, |j: int| 0isize), Seq::new(17, |i: int| (i as usize, Seq::new(5, |j: int| 0usize))))
}

impl Clone for DeadlockDetector {
    fn clone(&self) -> (res: Self)
        ensures
            res == *self,
    {
        Self { available: self.available, allocations: self.allocations }
    }
}

/// The view after thread slot `tid` takes one unit of resource `id`.
pub open spec fn acquired(v: DetectorView, tid: int, id: int) -> DetectorView {
    (
        v.0.update(id, (v.0[id] - 1) as isize),
        v.1.update(tid, (v.1[tid].0, v.1[tid].1.update(id, (v.1[tid].1[id] + 1) as usize))),
    )
}

/// The view after thread slot `tid` gives back one unit of resource `id`.
pub open spec fn returned(v: DetectorView, tid: int, id: int) -> DetectorView {
    (
        v.0.update(id, (v.0[id] + 1) as isize),
        v.1.update(tid, (v.1[tid].0, v.1[tid].1.update(id, (v.1[tid].1[id] - 1) as usize))),
    )
}

/// The view has five resources and seventeen thread slots.
pub open spec fn view_shaped(v: DetectorView) -> bool {
    &&& v.0.len() == 5
    &&& v.1.len() == 17
    &&& forall|i: int| 0 <= i < 17 ==> (#[trigger] v.1[i]).1.len() == 5
}

/// Units of resource `j` held by the first `n` thread slots.
pub open spec fn held_units(rows: Seq<(usize, Seq<usize>)>, j: int, n: int) -> int
    decreases n,
{
    if n <= 0 {
        0
    } else {
        held_units(rows, j, n - 1) + rows[n - 1].1[j] as int
    }
}

/// All units of resource `j`: free plus held.
pub open spec fn units_total(v: DetectorView, j: int) -> int {
    v.0[j] + held_units(v.1, j, 17)
}

proof fn lemma_held_units_update(rows: Seq<(usize, Seq<usize>)>, tid: int, id: int, x: usize, j: int, n: int)
    requires
        0 <= tid < rows.len(),
        0 <= id < rows[tid].1.len(),
        0 <= j < rows[tid].1.len(),
        n <= rows.len(),
    ensures
        held_units(rows.update(tid, (rows[tid].0, rows[tid].1.update(id, x))), j, n) == held_units(rows, j, n)
            + if j == id && tid < n {
            x - rows[tid].1[id]
        } else {
            0
        },
    decreases n,
{
    if n > 0 {
        lemma_held_units_update(rows, tid, id, x, j, n - 1);
    }
}

/// Taking a unit moves it from free to held: every resource keeps its total.
pub proof fn lemma_acquire_conserves_units(v: DetectorView, tid: int, id: int)
    requires
        view_shaped(v),
        0 <= tid < 17,
        0 <= id < 5,
        v.0[id] > isize::MIN,
        v.1[tid].1[id] < usize::MAX,
    ensures
        forall|j: int| 0 <= j < 5 ==> #[trigger] units_total(acquired(v, tid, id), j) == units_total(v, j),
{
    assert forall|j: int| 0 <= j < 5 implies #[trigger] units_total(acquired(v, tid, id), j) == units_total(v, j) by {
        lemma_held_units_update(v.1, tid, id, (v.1[tid].1[id] + 1) as usize, j, 17);
    }
}

/// Giving a unit back moves it from held to free: every resource keeps its total.
pub proof fn lemma_release_conserves_units(v: DetectorView, tid: int, id: int)
    requires
        view_shaped(v),
        0 <= tid < 17,
        0 <= id < 5,
        v.0[id] < isize::MAX,
        v.1[tid].1[id] >= 1,
    ensures
        forall|j: int| 0 <= j < 5 ==> #[trigger] units_total(returned(v, tid, id), j) == units_total(v, j),
{
    assert forall|j: int| 0 <= j < 5 implies #[trigger] units_total(returned(v, tid, id), j) == units_total(v, j) by {
        lemma_held_units_update(v.1, tid, id, (v.1[tid].1[id] - 1) as usize, j, 17);
    }
}

/// Taking a unit, entry by entry: resource `id` has one free unit fewer, slot
/// `tid` holds one more of it, and nothing else changes.
pub proof fn lemma_acquired_exact(v: DetectorView, tid: int, id: int)
    requires
        view_shaped(v),
        0 <= tid < 17,
        0 <= id < 5,
        v.0[id] > isize::MIN,
        v.1[tid].1[id] < usize::MAX,
    ensures
        ({
            let a = acquired(v, tid, id);
            &&& view_shaped(a)
            &&& forall|j: int| 0 <= j < 5 ==> #[trigger] a.0[j] == if j == id {
                v.0[j] - 1
            } else {
                v.0[j] as int
            }
            &&& forall|i: int| 0 <= i < 17 ==> (#[trigger] a.1[i]).0 == v.1[i].0
            &&& forall|i: int, j: int| 0 <= i < 17 && 0 <= j < 5 ==> #[trigger] a.1[i].1[j] == if i == tid && j == id {
                v.1[i].1[j] + 1
            } else {
                v.1[i].1[j] as int
            }
        }),
{
}

/// Giving a unit back, entry by entry: resource `id` has one free unit more, slot
/// `tid` holds one fewer of it, and nothing else changes.
pub proof fn lemma_returned_exact(v: DetectorView, tid: int, id: int)
    requires
        view_shaped(v),
        0 <= tid < 17,
        0 <= id < 5,
        v.0[id] < isize::MAX,
        v.1[tid].1[id] >= 1,
    ensures
        ({
            let a = returned(v, tid, id);
            &&& view_shaped(a)
            &&& forall|j: int| 0 <= j < 5 ==> #[trigger] a.0[j] == if j == id {
                v.0[j] + 1
            } else {
                v.0[j] as int
            }
            &&& forall|i: int| 0 <= i < 17 ==> (#[trigger] a.1[i]).0 == v.1[i].0
            &&& forall|i: int, j: int| 0 <= i < 17 && 0 <= j < 5 ==> #[trigger] a.1[i].1[j] == if i == tid && j == id {
                v.1[i].1[j] - 1
            } else {
                v.1[i].1[j] as int
            }
        }),
{
}

/// Giving back the unit just taken restores the books exactly.
pub proof fn lemma_release_undoes_acquire(v: DetectorView, tid: int, id: int)
    requires
        view_shaped(v),
        0 <= tid < 17,
        0 <= id < 5,
        v.0[id] > isize::MIN,
        v.1[tid].1[id] < usize::MAX,
    ensures
        returned(acquired(v, tid, id), tid, id) == v,
{
    let a = acquired(v, tid, id);
    assert(returned(a, tid, id).0 =~= v.0);
    assert(returned(a, tid, id).1[tid].1 =~= v.1[tid].1);
    assert(returned(a, tid, id).1 =~= v.1);
}

impl DeadlockDetector {
    /// Records that thread slot `tid` took one unit of resource `id`.
    pub(crate) fn acquire(&mut self, tid: usize, id: usize)
        requires
            tid < 17,
            id < 5,
            old(self).allocations@[tid as int].1@[id as int] < usize::MAX,
            old(self).available@[id as int] > isize::MIN,
        ensures
            final(self)@ == acquired(old(self)@, tid as int, id as int),
    {
        let mut row = self.allocations[tid];
        row.1[id] = row.1[id] + 1;
        self.allocations[tid] = row;
        self.available[id] = self.available[id] - 1;
        assert(self@.0 =~= acquired(old(self)@, tid as int, id as int).0);
        assert(self@.1 =~= acquired(old(self)@, tid as int, id as int).1);
    }

    /// Records that thread slot `tid` gave back one unit of resource `id`.
    pub(crate) fn release(&mut self, tid: usize, id: usize)
        requires
            tid < 17,
            id < 5,
            old(self).allocations@[tid as int].1@[id as int] >= 1,
            old(self).available@[id as int] < isize::MAX,
        ensures
            final(self)@ == returned(old(self)@, tid as int, id as int),
    {
        let mut row = self.allocations[tid];
        row.1[id] = row.1[id] - 1;
        self.allocations[tid] = row;
        self.available[id] = self.available[id] + 1;
        assert(self@.0 =~= returned(old(self)@, tid as int, id as int).0);
        assert(self@.1 =~= returned(old(self)@, tid as int, id as int).1);
    }

    /// An empty detector: no resource has free units and no thread holds any.
    pub fn new() -> (res: Self)
        ensures
            res@ == initial_detector_view(),
    {
        let mut allocations = [(0usize, [0usize; 5]); 17];
        let mut i: usize = 0;
        while i < 17
            invariant
                i <= 17,
                forall|k: int| 0 <= k < i ==> allocations@[k].0 == k && allocations@[k].1@ =~= Seq::new(5, |j: int| 0usize),
            decreases 17 - i,
        {
            allocations[i] = (i, [0usize; 5]);
            i = i + 1;
        }
        let res = Self { available: [0isize; 5], allocations };
        assert(res@.0 =~= initial_detector_view().0);
        assert(res@.1 =~= initial_detector_view().1);
        res
    }
}


/// The per-resource rows of a thread table, one row per thread slot.
pub open spec fn table_rows(t: [(usize, [usize; 5]); 17]) -> Seq<Seq<usize>> {
    Seq::new(17, |i: int| t@[i].1@)
}

/// A thread's outstanding request `need` can be met from `work`
/// (free units are read as `usize`, as the detector compares them).
pub open spec fn fits(need: Seq<usize>, work: Seq<isize>) -> bool {
    forall|j: int| 0 <= j < 5 ==> need[j] <= (work[j] as usize)
}

/// Returning the units `held` to `work` leaves the `isize` range for some resource.
pub open spec fn release_overflows(work: Seq<isize>, held: Seq<usize>) -> bool {
    exists|j: int| 0 <= j < 5 && !(isize::MIN <= #[trigger] work[j] + (held[j] as isize) <= isize::MAX)
}

/// `work` after a finishing thread gives back the units it `held`.
pub open spec fn released(work: Seq<isize>, held: Seq<usize>) -> Seq<isize> {
    Seq::new(5, |j: int| (work[j] + (held[j] as isize)) as isize)
}

/// The first unfinished thread slot at or after `from` whose need fits `work`; 17 if none.
pub open spec fn first_runnable(work: Seq<isize>, finish: Seq<bool>, need: Seq<Seq<usize>>, from: int) -> int
    decreases 17 - from,
{
    if from >= 17 {
        17
    } else if !finish[from] && fits(need[from], work) {
        from
    } else {
        first_runnable(work, finish, need, from + 1)
    }
}

/// The finish flags once the search has let every thread it can run to completion,
/// taking at most `fuel` steps, always the lowest runnable slot first.
pub open spec fn run_finish(
    work: Seq<isize>,
    finish: Seq<bool>,
    alloc: Seq<Seq<usize>>,
    need: Seq<Seq<usize>>,
    fuel: nat,
) -> Seq<bool>
    decreases fuel,
{
    let i = first_runnable(work, finish, need, 0);
    if fuel == 0 || i >= 17 {
        finish
    } else {
        run_finish(released(work, alloc[i]), finish.update(i, true), alloc, need, (fuel - 1) as nat)
    }
}

/// Some step of that search overflows `isize` when it returns a thread's units.
pub open spec fn run_overflows(
    work: Seq<isize>,
    finish: Seq<bool>,
    alloc: Seq<Seq<usize>>,
    need: Seq<Seq<usize>>,
    fuel: nat,
) -> bool
    decreases fuel,
{
    let i = first_runnable(work, finish, need, 0);
    if fuel == 0 || i >= 17 {
        false
    } else {
        release_overflows(work, alloc[i]) || run_overflows(
            released(work, alloc[i]),
            finish.update(i, true),
            alloc,
            need,
            (fuel - 1) as nat,
        )
    }
}

/// No thread slot is marked finished.
pub open spec fn none_finished() -> Seq<bool> {
    Seq::new(17, |i: int| false)
}

/// Every thread slot is marked finished.
pub open spec fn all_finished(finish: Seq<bool>) -> bool {
    forall|i: int| 0 <= i < 17 ==> finish[i]
}

/// The state is safe: starting from the free units `avail`, the search lets every
/// thread finish.
pub open spec fn is_safe_state(avail: Seq<isize>, alloc: Seq<Seq<usize>>, need: Seq<Seq<usize>>) -> bool {
    all_finished(run_finish(avail, none_finished(), alloc, need, 17))
}

/// Number of unfinished slots among the first `n`.
pub open spec fn count_unfinished(finish: Seq<bool>, n: int) -> nat
    decreases n,
{
    if n <= 0 {
        0
    } else {
        count_unfinished(finish, n - 1) + if finish[n - 1] {
            0nat
        } else {
            1nat
        }
    }
}

pub(crate) proof fn lemma_count_update(finish: Seq<bool>, i: int, n: int)
    requires
        0 <= i,
        i < finish.len(),
        !finish[i],
        n <= finish.len(),
    ensures
        i < n ==> count_unfinished(finish.update(i, true), n) + 1 == count_unfinished(finish, n),
        i >= n ==> count_unfinished(finish.update(i, true), n) == count_unfinished(finish, n),
    decreases n,
{
    if n > 0 {
        lemma_count_update(finish, i, n - 1);
    }
}

pub(crate) proof fn lemma_first_runnable(work: Seq<isize>, finish: Seq<bool>, need: Seq<Seq<usize>>, from: int)
    requires
        0 <= from <= 17,
    ensures
        from <= first_runnable(work, finish, need, from) <= 17,
        first_runnable(work, finish, need, from) < 17 ==> {
            let r = first_runnable(work, finish, need, from);
            !finish[r] && fits(need[r], work)
        },
        forall|k: int|
            from <= k < first_runnable(work, finish, need, from) ==> !(!finish[k] && fits(
                need[k],
                work,
            )),
    decreases 17 - from,
{
    if from < 17 && !(!finish[from] && fits(need[from], work)) {
        lemma_first_runnable(work, finish, need, from + 1);
    }
}

/// Whether `need` fits `work` resource by resource.
fn fits_exec(need: &[usize; 5], work: &[isize; 5]) -> (res: bool)
    ensures
        res == fits(need@, work@),
{
    let mut j: usize = 0;
    while j < 5
        invariant
            j <= 5,
            forall|k: int| 0 <= k < j ==> need@[k] <= (work@[k] as usize),
        decreases 5 - j,
    {
        if need[j] > work[j] as usize {
            return false;
        }
        j = j + 1;
    }
    true
}

/// The first unfinished thread slot whose need fits `work`, or 17.
fn find_runnable(work: &[isize; 5], finish: &[bool; 17], need: &[(usize, [usize; 5]); 17]) -> (i: usize)
    ensures
        i == first_runnable(work@, finish@, table_rows(*need), 0),
{
    let mut i: usize = 0;
    while i < 17
        invariant
            i <= 17,
            first_runnable(work@, finish@, table_rows(*need), 0) == first_runnable(
                work@,
                finish@,
                table_rows(*need),
                i as int,
            ),
        decreases 17 - i,
    {
        if !finish[i] {
            let row = need[i].1;
            if fits_exec(&row, work) {
                return i;
            }
        }
        i = i + 1;
    }
    17
}

/// Banker's safety check: repeatedly lets the lowest-numbered unfinished thread whose
/// need fits the free units run to completion and return what it holds, and reports
/// whether every thread slot could finish that way.
pub fn banker_is_safe(
    available: [isize; 5],
    allocations: &[(usize, [usize; 5]); 17],
    need: &[(usize, [usize; 5]); 17],
) -> (safe: bool)
    requires
        !run_overflows(available@, none_finished(), table_rows(*allocations), table_rows(*need), 17),
    ensures
        safe == is_safe_state(available@, table_rows(*allocations), table_rows(*need)),
{
    let ghost alloc = table_rows(*allocations);
    let ghost need_rows = table_rows(*need);
    let mut work = available;
    let mut finish = [false; 17];
    let ghost mut fuel: nat = 17;
    assert(finish@ =~= none_finished());
    proof {
        assert(count_unfinished(finish@, 17) <= 17) by {
            lemma_count_bound(finish@, 17);
        }
    }
    loop
        invariant
            alloc == table_rows(*allocations),
            need_rows == table_rows(*need),
            count_unfinished(finish@, 17) <= fuel,
            run_finish(work@, finish@, alloc, need_rows, fuel) == run_finish(
                available@,
                none_finished(),
                alloc,
                need_rows,
                17,
            ),
            !run_overflows(work@, finish@, alloc, need_rows, fuel),
        ensures
            finish@ == run_finish(available@, none_finished(), alloc, need_rows, 17),
        decreases fuel,
    {
        let i = find_runnable(&work, &finish, need);
        if i == 17 {
            break;
        }
        proof {
            lemma_first_runnable(work@, finish@, need_rows, 0);
            lemma_count_update(finish@, i as int, 17);
        }
        let ghost old_work = work@;
        let held = allocations[i].1;
        let mut j: usize = 0;
        while j < 5
            invariant
                j <= 5,
                i < 17,
                held@ == alloc[i as int],
                !release_overflows(old_work, alloc[i as int]),
                forall|k: int| 0 <= k < j ==> work@[k] == old_work[k] + (held@[k] as isize),
                forall|k: int| j <= k < 5 ==> work@[k] == old_work[k],
            decreases 5 - j,
        {
            assert(isize::MIN <= old_work[j as int] + (held@[j as int] as isize) <= isize::MAX);
            work[j] = work[j] + held[j] as isize;
            j = j + 1;
        }
        assert(work@ =~= released(old_work, alloc[i as int]));
        finish[i] = true;
        proof {
            fuel = (fuel - 1) as nat;
        }
    }
    let mut k: usize = 0;
    while k < 17
        invariant
            k <= 17,
            alloc == table_rows(*allocations),
            need_rows == table_rows(*need),
            finish@ == run_finish(available@, none_finished(), alloc, need_rows, 17),
            forall|m: int| 0 <= m < k ==> finish@[m],
        decreases 17 - k,
    {
        if !finish[k] {
            return false;
        }
        k = k + 1;
    }
    true
}

proof fn lemma_count_bound(finish: Seq<bool>, n: int)
    requires
        0 <= n,
    ensures
        count_unfinished(finish, n) <= n,
    decreases n,
{
    if n > 0 {
        lemma_count_bound(finish, n - 1);
    }
}

} // verus!
