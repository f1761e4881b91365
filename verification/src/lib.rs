//! Verified core of a small teaching kernel: the bookkeeping behind its
//! system calls, its deadlock detector and its stride scheduler.
pub mod mm;
pub mod slot;
pub mod sync;
pub mod syscall;
pub mod task;
