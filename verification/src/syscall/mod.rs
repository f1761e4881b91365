//! The decisions and state changes behind the kernel's system calls.
pub mod fs;
pub mod process;
pub mod sync;
