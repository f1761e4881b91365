use os::mm::memory_set::{MemorySet, PageEntry};
use os::syscall::process::{
    sys_exec, sys_fork, sys_get_time, sys_getpid, sys_mmap, sys_munmap, sys_sbrk,
    sys_set_priority, sys_spawn, sys_waitpid, sys_yield, ChildProc, TimeVal,
};
use std::collections::HashMap;

#[test]
fn trivial_calls() {
    assert_eq!(sys_yield(), 0);
    assert_eq!(sys_getpid(7), 7);
    assert_eq!(sys_exec(true), 0);
    assert_eq!(sys_exec(false), -1);
    assert_eq!(sys_sbrk(Some(4096)), 4096);
    assert_eq!(sys_sbrk(None), -1);
}

#[test]
fn fork_zeroes_child_a0() {
    let mut x = [1usize; 32];
    assert_eq!(sys_fork(&mut x, 9), 9);
    for i in 0..32 {
        assert_eq!(x[i], if i == 10 { 0 } else { 1 });
    }
}

fn child(pid: usize, is_zombie: bool, exit_code: i32) -> ChildProc {
    ChildProc { pid, is_zombie, exit_code }
}

#[test]
fn waitpid_cases() {
    let mut cs = vec![child(2, false, 0), child(3, true, 7), child(4, true, 9)];
    assert_eq!(sys_waitpid(&mut cs, 5), (-1, None));
    assert_eq!(sys_waitpid(&mut cs, 2), (-2, None));
    assert_eq!(cs.len(), 3);
    assert_eq!(sys_waitpid(&mut cs, -1), (3, Some(7)));
    assert_eq!(cs, vec![child(2, false, 0), child(4, true, 9)]);
    assert_eq!(sys_waitpid(&mut cs, 4), (4, Some(9)));
    assert_eq!(cs, vec![child(2, false, 0)]);
    let mut none: Vec<ChildProc> = Vec::new();
    assert_eq!(sys_waitpid(&mut none, -1), (-1, None));
}

#[test]
fn spawn_adds_child() {
    let mut cs = vec![child(2, false, 0)];
    assert_eq!(sys_spawn(&mut cs, Some(11)), 11);
    assert_eq!(cs, vec![child(2, false, 0), child(11, false, 0)]);
    assert_eq!(sys_spawn(&mut cs, None), -1);
    assert_eq!(cs.len(), 2);
}

#[test]
fn set_priority_cases() {
    let mut p = 16usize;
    assert_eq!(sys_set_priority(&mut p, 1), -1);
    assert_eq!(p, 16);
    assert_eq!(sys_set_priority(&mut p, 2), 2);
    assert_eq!(p, 2);
    assert_eq!(sys_set_priority(&mut p, 100), 100);
    assert_eq!(p, 100);
}

#[test]
fn timeval_from_us() {
    let tv = TimeVal::from_us(1_234_567);
    assert_eq!(tv.sec, 1);
    assert_eq!(tv.usec, 234_567);
}

#[test]
fn get_time_writes_timeval() {
    // 3.5 s: sec = 3, usec = 500000 = 0x7a120.
    let mut pieces = vec![vec![0xFFu8; 5], vec![0xFFu8; 13]];
    assert_eq!(sys_get_time(3_500_000, &mut pieces), 0);
    let flat = pieces.concat();
    assert_eq!(
        flat,
        vec![3, 0, 0, 0, 0, 0, 0, 0, 0x20, 0xA1, 0x07, 0, 0, 0, 0, 0, 0xFF, 0xFF]
    );
    assert_eq!(pieces[0].len(), 5);
}

fn space() -> MemorySet {
    MemorySet { page_table: HashMap::new() }
}

#[test]
fn mmap_maps_user_pages() {
    let mut ms = space();
    assert_eq!(sys_mmap(&mut ms, 0x1000, 0x2000, 3), 0);
    let e = PageEntry { valid: true, flags: 0b10110 };
    assert_eq!(ms.page_table.get(&1), Some(&e));
    assert_eq!(ms.page_table.get(&2), Some(&e));
    assert_eq!(ms.page_table.len(), 2);
    // Overlapping the mapped range is refused.
    assert_eq!(sys_mmap(&mut ms, 0x2000, 0x1000, 1), -1);
    assert_eq!(ms.page_table.len(), 2);
}

#[test]
fn mmap_rejects_bad_arguments() {
    let mut ms = space();
    assert_eq!(sys_mmap(&mut ms, 0x1001, 0x1000, 1), -1);
    assert_eq!(sys_mmap(&mut ms, 0x1000, 0x1000, 0), -1);
    assert_eq!(sys_mmap(&mut ms, 0x1000, 0x1000, 8), -1);
    assert_eq!(sys_mmap(&mut ms, 0x1000, 0x1000, 9), -1);
    assert!(ms.page_table.is_empty());
}

#[test]
fn mmap_partial_page_and_empty_length() {
    let mut ms = space();
    assert_eq!(sys_mmap(&mut ms, 0x3000, 1, 4), 0);
    assert_eq!(ms.page_table.get(&3), Some(&PageEntry { valid: true, flags: 0b11000 }));
    assert_eq!(ms.page_table.len(), 1);
    assert_eq!(sys_mmap(&mut ms, 0x5000, 0, 1), 0);
    assert_eq!(ms.page_table.len(), 1);
}

#[test]
fn mmap_uses_low_39_bits() {
    let mut ms = space();
    assert_eq!(sys_mmap(&mut ms, (1usize << 39) + 0x1000, 0x1000, 1), 0);
    assert_eq!(ms.page_table.get(&1), Some(&PageEntry { valid: true, flags: 0b10010 }));
}

#[test]
fn munmap_after_mmap() {
    let mut ms = space();
    assert_eq!(sys_mmap(&mut ms, 0x1000, 0x2000, 7), 0);
    assert_eq!(sys_munmap(&mut ms, 0x1000, 0x2000), 0);
    let empty = PageEntry { valid: false, flags: 0 };
    assert_eq!(ms.page_table.get(&1), Some(&empty));
    assert_eq!(ms.page_table.get(&2), Some(&empty));
    // The slots now map nothing: unmapping again is refused.
    assert_eq!(sys_munmap(&mut ms, 0x1000, 0x1000), -1);
    // Mapping again is allowed.
    assert_eq!(sys_mmap(&mut ms, 0x1000, 0x2000, 1), 0);
}

#[test]
fn munmap_cases() {
    let mut ms = space();
    assert_eq!(sys_munmap(&mut ms, 0x1001, 0x1000), -1);
    // Pages without any entry slot are passed over.
    assert_eq!(sys_munmap(&mut ms, 0x10000, 0x3000), 0);
    assert!(ms.page_table.is_empty());
    ms.page_table.insert(4, PageEntry { valid: true, flags: 0b10010 });
    ms.page_table.insert(5, PageEntry { valid: false, flags: 0 });
    assert_eq!(sys_munmap(&mut ms, 0x4000, 0x2000), -1);
    assert_eq!(ms.page_table.get(&4), Some(&PageEntry { valid: true, flags: 0b10010 }));
    assert_eq!(sys_munmap(&mut ms, 0x4000, 0x1000), 0);
    assert_eq!(ms.page_table.get(&4), Some(&PageEntry { valid: false, flags: 0 }));
}
