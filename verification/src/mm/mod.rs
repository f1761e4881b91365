//! Memory: copying kernel values out to user buffers, and the address-space
//! bookkeeping behind `mmap` and `munmap`.
pub mod memory_set;
pub mod user_copy;
