//! The banker's check is exact: the state is safe precisely when some ordering
//! of all the threads lets each one, in turn, have its need met from the units
//! that are free once every earlier thread has finished and returned what it held.
use vstd::prelude::*;
use crate::sync::deadlock::{
    all_finished, count_unfinished, first_runnable, fits, is_safe_state, lemma_count_update,
    lemma_first_runnable, none_finished, released, release_overflows,
    run_finish, run_overflows,
};

verus! {

/// Units of resource `j` held by the slots among the first `n` that `mask` selects.
pub open spec fn held_sum(alloc: Seq<Seq<usize>>, mask: Seq<bool>, n: int, j: int) -> int
    decreases n,
{
    if n <= 0 {
        0
    } else {
        held_sum(alloc, mask, n - 1, j) + if mask[n - 1] {
            alloc[n - 1][j] as int
        } else {
            0int
        }
    }
}

/// Every thread slot selected.
pub open spec fn all_slots() -> Seq<bool> {
    Seq::new(17, |i: int| true)
}

/// All units of resource `j`: the free ones and those every thread holds.
pub open spec fn column_total(avail: Seq<isize>, alloc: Seq<Seq<usize>>, j: int) -> int {
    avail[j] + held_sum(alloc, all_slots(), 17, j)
}

/// Five resources, seventeen thread slots.
pub open spec fn well_shaped(avail: Seq<isize>, alloc: Seq<Seq<usize>>, need: Seq<Seq<usize>>) -> bool {
    &&& avail.len() == 5
    &&& alloc.len() == 17
    &&& need.len() == 17
    &&& forall|i: int| 0 <= i < 17 ==> (#[trigger] alloc[i]).len() == 5
    &&& forall|i: int| 0 <= i < 17 ==> (#[trigger] need[i]).len() == 5
}

/// No free count is negative and no resource has more units in all than `isize` holds.
pub open spec fn books_bounded(avail: Seq<isize>, alloc: Seq<Seq<usize>>) -> bool {
    forall|j: int| 0 <= j < 5 ==> 0 <= #[trigger] avail[j] && column_total(avail, alloc, j) <= isize::MAX
}

/// Free units of resource `j` once the first `k` threads of `order` have finished.
pub open spec fn work_after(avail: Seq<isize>, alloc: Seq<Seq<usize>>, order: Seq<int>, k: int, j: int) -> int
    decreases k,
{
    if k <= 0 {
        avail[j] as int
    } else {
        work_after(avail, alloc, order, k - 1, j) + alloc[order[k - 1]][j] as int
    }
}

/// Thread `order[k]`'s need is met once the threads before it in `order` have finished.
pub open spec fn runs_in_turn(
    avail: Seq<isize>,
    alloc: Seq<Seq<usize>>,
    need: Seq<Seq<usize>>,
    order: Seq<int>,
    k: int,
) -> bool {
    forall|j: int| 0 <= j < 5 ==> need[order[k]][j] <= work_after(avail, alloc, order, k, j)
}

/// `order` lists thread slots, each below 17, none twice.
pub open spec fn distinct_slots(order: Seq<int>) -> bool {
    &&& forall|k: int| 0 <= k < order.len() ==> 0 <= #[trigger] order[k] < 17
    &&& forall|a: int, b: int| 0 <= a < b < order.len() ==> order[a] != order[b]
}

/// `order` is a safe sequence: every thread slot once, each able to run in turn.
pub open spec fn is_safe_order(
    avail: Seq<isize>,
    alloc: Seq<Seq<usize>>,
    need: Seq<Seq<usize>>,
    order: Seq<int>,
) -> bool {
    &&& order.len() == 17
    &&& distinct_slots(order)
    &&& forall|i: int| 0 <= i < 17 ==> #[trigger] mask_of(order, 17)[i]
    &&& forall|k: int| 0 <= k < 17 ==> runs_in_turn(avail, alloc, need, order, k)
}

/// The slots among the first `k` entries of `order`.
pub open spec fn mask_of(order: Seq<int>, k: int) -> Seq<bool> {
    Seq::new(17, |i: int| exists|m: int| 0 <= m < k && order[m] == i)
}

/// The slots the banker's search lets finish, in the order it picks them.
pub open spec fn run_order(
    work: Seq<isize>,
    finish: Seq<bool>,
    alloc: Seq<Seq<usize>>,
    need: Seq<Seq<usize>>,
    fuel: nat,
) -> Seq<int>
    decreases fuel,
{
    let i = first_runnable(work, finish, need, 0);
    if fuel == 0 || i >= 17 {
        Seq::empty()
    } else {
        seq![i] + run_order(released(work, alloc[i]), finish.update(i, true), alloc, need, (fuel - 1) as nat)
    }
}

/// The free units when the banker's search stops.
pub open spec fn run_work(
    work: Seq<isize>,
    finish: Seq<bool>,
    alloc: Seq<Seq<usize>>,
    need: Seq<Seq<usize>>,
    fuel: nat,
) -> Seq<isize>
    decreases fuel,
{
    let i = first_runnable(work, finish, need, 0);
    if fuel == 0 || i >= 17 {
        work
    } else {
        run_work(released(work, alloc[i]), finish.update(i, true), alloc, need, (fuel - 1) as nat)
    }
}

/// What holds at every step of the search: `c` lists the finished slots in the
/// order they finished, each could run in turn, and `work` is what they freed.
pub open spec fn search_state(
    avail: Seq<isize>,
    alloc: Seq<Seq<usize>>,
    need: Seq<Seq<usize>>,
    work: Seq<isize>,
    finish: Seq<bool>,
    c: Seq<int>,
) -> bool {
    &&& work.len() == 5
    &&& finish.len() == 17
    &&& distinct_slots(c)
    &&& finish =~= mask_of(c, c.len() as int)
    &&& forall|j: int| 0 <= j < 5 ==> #[trigger] work[j] as int == work_after(avail, alloc, c, c.len() as int, j)
    &&& forall|k: int| 0 <= k < c.len() ==> runs_in_turn(avail, alloc, need, c, k)
    &&& c.len() + count_unfinished(finish, 17) == 17
}

proof fn lemma_held_update(alloc: Seq<Seq<usize>>, mask: Seq<bool>, i: int, n: int, j: int)
    requires
        0 <= i < mask.len(),
        !mask[i],
        n <= mask.len(),
    ensures
        i < n ==> held_sum(alloc, mask.update(i, true), n, j) == held_sum(alloc, mask, n, j) + alloc[i][j] as int,
        i >= n ==> held_sum(alloc, mask.update(i, true), n, j) == held_sum(alloc, mask, n, j),
    decreases n,
{
    if n > 0 {
        lemma_held_update(alloc, mask, i, n - 1, j);
    }
}

proof fn lemma_held_mono(alloc: Seq<Seq<usize>>, m1: Seq<bool>, m2: Seq<bool>, n: int, j: int)
    requires
        n <= m1.len(),
        n <= m2.len(),
        forall|i: int| 0 <= i < n && #[trigger] m1[i] ==> m2[i],
    ensures
        held_sum(alloc, m1, n, j) <= held_sum(alloc, m2, n, j),
    decreases n,
{
    if n > 0 {
        lemma_held_mono(alloc, m1, m2, n - 1, j);
    }
}

proof fn lemma_held_nonneg(alloc: Seq<Seq<usize>>, m: Seq<bool>, n: int, j: int)
    ensures
        held_sum(alloc, m, n, j) >= 0,
    decreases n,
{
    if n > 0 {
        lemma_held_nonneg(alloc, m, n - 1, j);
    }
}

proof fn lemma_work_after_prefix(avail: Seq<isize>, alloc: Seq<Seq<usize>>, s1: Seq<int>, s2: Seq<int>, k: int, j: int)
    requires
        0 <= k,
        k <= s1.len(),
        k <= s2.len(),
        forall|m: int| 0 <= m < k ==> s1[m] == s2[m],
    ensures
        work_after(avail, alloc, s1, k, j) == work_after(avail, alloc, s2, k, j),
    decreases k,
{
    if k > 0 {
        lemma_work_after_prefix(avail, alloc, s1, s2, k - 1, j);
    }
}

/// With no slot repeated, the units freed by the first `k` threads are what the
/// slots among them hold.
proof fn lemma_work_after_mask(avail: Seq<isize>, alloc: Seq<Seq<usize>>, order: Seq<int>, k: int, j: int)
    requires
        0 <= k <= order.len(),
        forall|m: int| 0 <= m < k ==> 0 <= #[trigger] order[m] < 17,
        forall|a: int, b: int| 0 <= a < b < k ==> order[a] != order[b],
    ensures
        work_after(avail, alloc, order, k, j) == avail[j] + held_sum(alloc, mask_of(order, k), 17, j),
    decreases k,
{
    if k == 0 {
        assert(mask_of(order, 0) =~= Seq::new(17, |i: int| false));
        lemma_held_zero(alloc, mask_of(order, 0), 17, j);
    } else {
        lemma_work_after_mask(avail, alloc, order, k - 1, j);
        let prev = mask_of(order, k - 1);
        let x = order[k - 1];
        assert(!prev[x]);
        assert(mask_of(order, k) =~= prev.update(x, true)) by {
            assert forall|i: int| 0 <= i < 17 implies mask_of(order, k)[i] == prev.update(x, true)[i] by {
                if i == x {
                    assert(order[k - 1] == i);
                } else if mask_of(order, k)[i] {
                    let m = choose|m: int| 0 <= m < k && order[m] == i;
                    assert(m < k - 1);
                } else if prev[i] {
                    let m = choose|m: int| 0 <= m < k - 1 && order[m] == i;
                    assert(0 <= m < k && order[m] == i);
                }
            }
        }
        lemma_held_update(alloc, prev, x, 17, j);
    }
}

proof fn lemma_held_zero(alloc: Seq<Seq<usize>>, m: Seq<bool>, n: int, j: int)
    requires
        n <= m.len(),
        forall|i: int| 0 <= i < n ==> !m[i],
    ensures
        held_sum(alloc, m, n, j) == 0,
    decreases n,
{
    if n > 0 {
        lemma_held_zero(alloc, m, n - 1, j);
    }
}

proof fn lemma_count_all_unfinished(n: int)
    requires
        0 <= n <= 17,
    ensures
        count_unfinished(none_finished(), n) == n,
    decreases n,
{
    if n > 0 {
        lemma_count_all_unfinished(n - 1);
    }
}

proof fn lemma_count_all_finished(finish: Seq<bool>, n: int)
    requires
        0 <= n <= finish.len(),
        forall|i: int| 0 <= i < n ==> finish[i],
    ensures
        count_unfinished(finish, n) == 0,
    decreases n,
{
    if n > 0 {
        lemma_count_all_finished(finish, n - 1);
    }
}

/// One step of the search keeps `search_state`, and the search as a whole ends in it;
/// no step overflows; and with enough fuel the search stops only when no unfinished
/// thread can run.
proof fn lemma_search(
    avail: Seq<isize>,
    alloc: Seq<Seq<usize>>,
    need: Seq<Seq<usize>>,
    work: Seq<isize>,
    finish: Seq<bool>,
    c: Seq<int>,
    fuel: nat,
)
    requires
        well_shaped(avail, alloc, need),
        books_bounded(avail, alloc),
        search_state(avail, alloc, need, work, finish, c),
    ensures
        !run_overflows(work, finish, alloc, need, fuel),
        search_state(
            avail,
            alloc,
            need,
            run_work(work, finish, alloc, need, fuel),
            run_finish(work, finish, alloc, need, fuel),
            c + run_order(work, finish, alloc, need, fuel),
        ),
        count_unfinished(finish, 17) <= fuel ==> first_runnable(
            run_work(work, finish, alloc, need, fuel),
            run_finish(work, finish, alloc, need, fuel),
            need,
            0,
        ) == 17,
    decreases fuel,
{
    let i = first_runnable(work, finish, need, 0);
    lemma_first_runnable(work, finish, need, 0);
    if fuel == 0 || i >= 17 {
        assert(c + run_order(work, finish, alloc, need, fuel) =~= c);
        if count_unfinished(finish, 17) <= fuel && fuel == 0 && i < 17 {
            lemma_count_update(finish, i, 17);
        }
    } else {
        let n = c.len() as int;
        let c2 = c.push(i);
        let f2 = finish.update(i, true);
        let w2 = released(work, alloc[i]);
        // i was not finished, so it is not in c
        assert forall|m: int| 0 <= m < n implies c[m] != i by {
            assert(mask_of(c, n)[c[m]]);
        }
        assert(distinct_slots(c2));
        assert(f2 =~= mask_of(c2, n + 1)) by {
            assert forall|x: int| 0 <= x < 17 implies f2[x] == mask_of(c2, n + 1)[x] by {
                if x == i {
                    assert(c2[n] == x);
                } else if mask_of(c2, n + 1)[x] {
                    let m = choose|m: int| 0 <= m < n + 1 && c2[m] == x;
                    assert(m < n && c[m] == x);
                    assert(mask_of(c, n)[x]);
                } else if finish[x] {
                    assert(mask_of(c, n)[x]);
                    let m = choose|m: int| 0 <= m < n && c[m] == x;
                    assert(0 <= m < n + 1 && c2[m] == x);
                }
            }
        }
        assert forall|j: int| 0 <= j < 5 implies 0 <= #[trigger] work[j] && work[j] + alloc[i][j] as int
            <= isize::MAX && work_after(avail, alloc, c2, n + 1, j) == work[j] + alloc[i][j] as int by {
            lemma_work_after_prefix(avail, alloc, c, c2, n, j);
            lemma_work_after_mask(avail, alloc, c, n, j);
            lemma_work_after_mask(avail, alloc, c2, n + 1, j);
            lemma_held_nonneg(alloc, mask_of(c, n), 17, j);
            lemma_held_nonneg(alloc, mask_of(c2, n + 1), 17, j);
            lemma_held_mono(alloc, mask_of(c2, n + 1), all_slots(), 17, j);
        }
        assert forall|j: int| 0 <= j < 5 implies #[trigger] w2[j] as int == work_after(
            avail,
            alloc,
            c2,
            n + 1,
            j,
        ) && isize::MIN <= work[j] + (alloc[i][j] as isize) <= isize::MAX by {
            assert(0 <= work[j]);
            assert((alloc[i][j] as isize) as int == alloc[i][j] as int);
        }
        assert(!release_overflows(work, alloc[i]));
        assert forall|k: int| 0 <= k < n + 1 implies runs_in_turn(avail, alloc, need, c2, k) by {
            assert forall|j: int| 0 <= j < 5 implies need[c2[k]][j] <= work_after(avail, alloc, c2, k, j) by {
                lemma_work_after_prefix(avail, alloc, c, c2, k, j);
                if k == n {
                    assert(need[i][j] <= (work[j] as usize));
                    assert(0 <= work[j]);
                    assert((work[j] as usize) as int == work[j] as int);
                } else {
                    assert(runs_in_turn(avail, alloc, need, c, k));
                }
            }
        }
        lemma_count_update(finish, i, 17);
        assert(search_state(avail, alloc, need, w2, f2, c2));
        lemma_search(avail, alloc, need, w2, f2, c2, (fuel - 1) as nat);
        assert(c + run_order(work, finish, alloc, need, fuel) =~= c2 + run_order(
            w2,
            f2,
            alloc,
            need,
            (fuel - 1) as nat,
        ));
    }
}

/// Banker's theorem for the detector: on books that fit in `isize`, the search runs
/// without overflow, and it finds the state safe exactly when a safe sequence exists.
pub proof fn lemma_safe_state_iff_safe_order(avail: Seq<isize>, alloc: Seq<Seq<usize>>, need: Seq<Seq<usize>>)
    requires
        well_shaped(avail, alloc, need),
        books_bounded(avail, alloc),
    ensures
        !run_overflows(avail, none_finished(), alloc, need, 17),
        is_safe_state(avail, alloc, need) <==> exists|order: Seq<int>| is_safe_order(avail, alloc, need, order),
{
    let c0: Seq<int> = Seq::empty();
    lemma_count_all_unfinished(17);
    assert(none_finished() =~= mask_of(c0, 0));
    assert(search_state(avail, alloc, need, avail, none_finished(), c0));
    lemma_search(avail, alloc, need, avail, none_finished(), c0, 17);
    let f = run_finish(avail, none_finished(), alloc, need, 17);
    let w = run_work(avail, none_finished(), alloc, need, 17);
    let c = c0 + run_order(avail, none_finished(), alloc, need, 17);
    if is_safe_state(avail, alloc, need) {
        lemma_count_all_finished(f, 17);
        assert(c.len() == 17);
        assert forall|i: int| 0 <= i < 17 implies #[trigger] mask_of(c, 17)[i] by {
            assert(f[i]);
        }
        assert(is_safe_order(avail, alloc, need, c));
    }
    if exists|order: Seq<int>| is_safe_order(avail, alloc, need, order) {
        let order = choose|order: Seq<int>| is_safe_order(avail, alloc, need, order);
        if !all_finished(f) {
            let x = choose|x: int| 0 <= x < 17 && !f[x];
            assert(mask_of(order, 17)[x]);
            let k0 = choose|k: int| 0 <= k < 17 && order[k] == x;
            let k = lemma_first_unfinished(order, f, k0);
            let y = order[k];
            lemma_first_runnable(w, f, need, 0);
            assert(fits(need[y], w)) by {
                assert forall|j: int| 0 <= j < 5 implies need[y][j] <= (w[j] as usize) by {
                    lemma_work_after_mask(avail, alloc, order, k, j);
                    lemma_work_after_mask(avail, alloc, c, c.len() as int, j);
                    lemma_held_mono(alloc, mask_of(order, k), f, 17, j);
                    lemma_held_mono(alloc, mask_of(c, c.len() as int), all_slots(), 17, j);
                    lemma_held_nonneg(alloc, mask_of(c, c.len() as int), 17, j);
                    assert(runs_in_turn(avail, alloc, need, order, k));
                    assert((w[j] as usize) as int == w[j] as int);
                }
            }
        }
    }
}

/// The earliest position in `order` at or before `k0` whose slot is unfinished.
proof fn lemma_first_unfinished(order: Seq<int>, f: Seq<bool>, k0: int) -> (k: int)
    requires
        0 <= k0 < order.len(),
        !f[order[k0]],
    ensures
        0 <= k <= k0,
        !f[order[k]],
        forall|m: int| 0 <= m < k ==> f[order[m]],
    decreases k0,
{
    if exists|m: int| 0 <= m < k0 && !f[order[m]] {
        let m = choose|m: int| 0 <= m < k0 && !f[order[m]];
        lemma_first_unfinished(order, f, m)
    } else {
        k0
    }
}

} // verus!
