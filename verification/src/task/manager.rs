//! The ready queue and its stride scheduler.
use vstd::prelude::*;
use std::collections::VecDeque;

verus! {

/// The stride a task with priority 1 takes per turn; a task with priority `p`
/// advances by `BIG_STRIDE / p`.
pub const BIG_STRIDE: usize = 65535;

/// A task waiting to run, with its scheduling state.
#[derive(Clone, Copy, PartialEq, Eq, Structural, Debug)]
pub struct ReadyTask {
    /// The task's id.
    pub pid: usize,
    /// How far the task has advanced; the task least advanced runs next.
    pub stride: usize,
    /// The task's priority; a higher priority advances more slowly.
    pub priority: usize,
}

/// The tasks that are ready to run.
pub struct TaskManager {
    ready_queue: VecDeque<ReadyTask>,
}

impl View for TaskManager {
    type V = Seq<ReadyTask>;

    closed spec fn view(&self) -> Seq<ReadyTask> {
        self.ready_queue@
    }
}

/// Position of the first task with the least stride among the first `n` of `q`.
pub open spec fn min_stride_pos(q: Seq<ReadyTask>, n: int) -> int
    decreases n,
{
    if n <= 1 {
        0
    } else {
        let m = min_stride_pos(q, n - 1);
        if q[n - 1].stride < q[m].stride {
            n - 1
        } else {
            m
        }
    }
}

/// The position the scheduler picks: the first task of least stride.
pub open spec fn next_pos(q: Seq<ReadyTask>) -> int {
    min_stride_pos(q, q.len() as int)
}

/// `t` after its turn: its stride advanced by `BIG_STRIDE / priority`, wrapping.
pub open spec fn after_turn(t: ReadyTask) -> ReadyTask {
    ReadyTask {
        stride: vstd::wrapping::usize_specs::wrapping_add(t.stride, (BIG_STRIDE / t.priority) as usize),
        ..t
    }
}

/// A turn advances a task's stride by `65535 / priority`, wrapping past the top of
/// `usize`, and leaves its id and priority alone.
pub proof fn lemma_turn_advances_stride(t: ReadyTask)
    requires
        t.priority >= 1,
    ensures
        after_turn(t).pid == t.pid,
        after_turn(t).priority == t.priority,
        after_turn(t).stride as int == if t.stride as int + 65535int / (t.priority as int) <= usize::MAX as int {
            t.stride as int + 65535int / (t.priority as int)
        } else {
            t.stride as int + 65535int / (t.priority as int) - usize::MAX as int - 1
        },
{
}

/// The pick is the first task of least stride: none has less, none before it as little.
pub proof fn lemma_next_pos(q: Seq<ReadyTask>, n: int)
    requires
        1 <= n <= q.len(),
    ensures
        0 <= min_stride_pos(q, n) < n,
        forall|k: int| 0 <= k < n ==> q[min_stride_pos(q, n)].stride <= #[trigger] q[k].stride,
        forall|k: int| 0 <= k < min_stride_pos(q, n) ==> q[min_stride_pos(q, n)].stride < #[trigger] q[k].stride,
    decreases n,
{
    if n > 1 {
        lemma_next_pos(q, n - 1);
    }
}

impl TaskManager {
    /// An empty ready queue.
    pub fn new() -> (tm: Self)
        ensures
            tm@ == Seq::<ReadyTask>::empty(),
    {
        Self { ready_queue: VecDeque::new() }
    }

    /// Puts `task` at the back of the ready queue.
    pub fn add(&mut self, task: ReadyTask)
        ensures
            final(self)@ == old(self)@.push(task),
    {
        self.ready_queue.push_back(task);
    }

    /// Takes the next task to run out of the ready queue (see `stride_schedule`);
    /// `None` when the queue is empty.
    pub fn fetch(&mut self) -> (r: Option<ReadyTask>)
        requires
            old(self)@.len() > 0 ==> old(self)@[next_pos(old(self)@)].priority > 0,
        ensures
            old(self)@.len() == 0 ==> r is None && final(self)@ == old(self)@,
            old(self)@.len() > 0 ==> {
                &&& r == Some(after_turn(old(self)@[next_pos(old(self)@)]))
                &&& final(self)@ == old(self)@.remove(next_pos(old(self)@))
            },
    {
        self.stride_schedule()
    }

    /// Position of the first task of least stride.
    fn next_index(&self) -> (best: usize)
        requires
            self@.len() > 0,
        ensures
            best == next_pos(self@),
            best < self@.len(),
    {
        proof {
            lemma_next_pos(self@, self@.len() as int);
        }
        let n = self.ready_queue.len();
        let mut best: usize = 0;
        let mut i: usize = 1;
        while i < n
            invariant
                1 <= i <= n,
                n == self.ready_queue@.len(),
                best == min_stride_pos(self.ready_queue@, i as int),
                best < i,
            decreases n - i,
        {
            if self.ready_queue[i].stride < self.ready_queue[best].stride {
                best = i;
            }
            i = i + 1;
        }
        best
    }

    /// The task `fetch` would take next, as it stands now; `None` when the queue is empty.
    pub fn peek_next(&self) -> (r: Option<ReadyTask>)
        ensures
            r == if self@.len() > 0 {
                Some(self@[next_pos(self@)])
            } else {
                None::<ReadyTask>
            },
    {
        if self.ready_queue.len() == 0 {
            return None;
        }
        let best = self.next_index();
        Some(self.ready_queue[best])
    }

    /// Stride scheduling: removes the first task of least stride from the queue,
    /// advances its stride by `BIG_STRIDE / priority` (wrapping), and returns it.
    fn stride_schedule(&mut self) -> (r: Option<ReadyTask>)
        requires
            old(self)@.len() > 0 ==> old(self)@[next_pos(old(self)@)].priority > 0,
        ensures
            old(self)@.len() == 0 ==> r is None && final(self)@ == old(self)@,
            old(self)@.len() > 0 ==> {
                &&& r == Some(after_turn(old(self)@[next_pos(old(self)@)]))
                &&& final(self)@ == old(self)@.remove(next_pos(old(self)@))
            },
    {
        if self.ready_queue.len() == 0 {
            return None;
        }
        let best = self.next_index();
        let picked = self.ready_queue.remove(best);
        match picked {
            Some(task) => {
                let step = BIG_STRIDE / task.priority;
                Some(ReadyTask { stride: task.stride.wrapping_add(step), ..task })
            },
            None => None,
        }
    }
}

} // verus!
