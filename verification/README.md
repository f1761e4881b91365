# os — verified kernel bookkeeping

The decisions behind a teaching kernel's system calls, written in Verus and proved
against their contracts. The kernel objects themselves (files, locks, semaphores,
page frames, the timer) live with the caller; the library decides each call and
keeps the books.

- `src/slot.rs` — slot tables (descriptors, mutexes, semaphores, condition
  variables): a new entry takes the lowest free slot.
- `src/sync/deadlock.rs` — the per-process resource books (`DeadlockDetector`) and
  the banker's safety check.
- `src/sync/safety.rs` — the banker's theorem: the check passes exactly when a
  safe sequence exists.
- `src/syscall/sync.rs` — mutex, semaphore, condition-variable and sleep calls,
  with deadlock detection.
- `src/syscall/fs.rs` — read/write checks, open/close, link/unlink checks, fstat.
- `src/syscall/process.rs` — fork, waitpid, spawn, priorities, get_time, mmap and
  munmap.
- `src/mm/` — the address-space model behind mmap/munmap, and copying values out
  to user buffers that straddle pages.
- `src/task/manager.rs` — the ready queue and its stride scheduler.
- `app/lib.rs` — the kernel-wide ready queue (a `lazy_static` global).
