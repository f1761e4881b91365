//! Process-management system calls.
use vstd::prelude::*;
use crate::mm::memory_set::{
    end_vpn, first_vpn, map_range, mmap_allowed, page_aligned, mmap_flags, munmap_allowed, page_mapped, page_range,
    unmap_range, va, lemma_va_bounds, MemorySet, PageEntry, PAGE_SIZE, PERM_U, VA_MASK,
};
use crate::mm::user_copy::{
    copy_to_user, flatten, le_bytes, le_word, lemma_le_word_round_trip, lemma_written_prefix, lemma_written_reads_back,
    push_le_bytes,
    written,
};

verus! {

/// A time as seconds and microseconds, as user space receives it.
#[derive(Debug)]
pub struct TimeVal {
    /// Whole seconds.
    pub sec: usize,
    /// Microseconds past `sec`.
    pub usec: usize,
}

/// A child of the calling process, as `waitpid` sees it.
#[derive(Clone, Copy, PartialEq, Eq, Structural, Debug)]
pub struct ChildProc {
    /// Its process id.
    pub pid: usize,
    /// It has exited and waits to be reaped.
    pub is_zombie: bool,
    /// Its exit code, once it has exited.
    pub exit_code: i32,
}

/// The yield system call: the caller gives up the processor; returns 0.
pub fn sys_yield() -> (r: isize)
    ensures
        r == 0,
{
    0
}

/// The getpid system call for a process with id `pid`.
pub fn sys_getpid(pid: usize) -> (r: isize)
    ensures
        r == pid as isize,
{
    pid as isize
}

/// The fork system call, once the child with id `new_pid` exists: the child's
/// saved registers `child_x` get 0 in `a0` (x10), so fork returns 0 in the child,
/// and the parent gets the child's id.
pub fn sys_fork(child_x: &mut [usize; 32], new_pid: usize) -> (r: isize)
    ensures
        r == new_pid as isize,
        final(child_x)@ == old(child_x)@.update(10, 0usize),
{
    child_x[10] = 0;
    new_pid as isize
}

/// The exec system call, given whether the program file could be opened: 0 when
/// it was (the caller replaces the process image), -1 otherwise.
pub fn sys_exec(opened: bool) -> (r: isize)
    ensures
        r == if opened {
            0isize
        } else {
            -1isize
        },
{
    if opened {
        0
    } else {
        -1
    }
}

/// The child `c` is the one `waitpid(pid)` asks for (-1: any child).
pub open spec fn pid_matches(pid: isize, c: ChildProc) -> bool {
    pid == -1 || pid as usize == c.pid
}

/// Some child is the one asked for.
pub open spec fn has_matching_child(children: Seq<ChildProc>, pid: isize) -> bool {
    exists|i: int| 0 <= i < children.len() && pid_matches(pid, #[trigger] children[i])
}

/// The first position at or after `k` of an exited child that is the one asked
/// for; the length of the list if none.
pub open spec fn first_zombie_from(children: Seq<ChildProc>, pid: isize, k: int) -> int
    decreases children.len() - k,
{
    if k >= children.len() {
        children.len() as int
    } else if children[k].is_zombie && pid_matches(pid, children[k]) {
        k
    } else {
        first_zombie_from(children, pid, k + 1)
    }
}

/// What `waitpid` reaps is an exited child that is the one asked for, and no
/// earlier child in the list is both.
pub proof fn lemma_first_zombie(children: Seq<ChildProc>, pid: isize, k: int)
    requires
        0 <= k <= children.len(),
    ensures
        k <= first_zombie_from(children, pid, k) <= children.len(),
        first_zombie_from(children, pid, k) < children.len() ==> {
            let z = first_zombie_from(children, pid, k);
            children[z].is_zombie && pid_matches(pid, children[z])
        },
        forall|m: int|
            k <= m < first_zombie_from(children, pid, k) ==> !(#[trigger] children[m].is_zombie && pid_matches(
                pid,
                children[m],
            )),
    decreases children.len() - k,
{
    if k < children.len() && !(children[k].is_zombie && pid_matches(pid, children[k])) {
        lemma_first_zombie(children, pid, k + 1);
    }
}

/// What `waitpid(pid)` decides, with "the child asked for" written out (any
/// child for -1, else the child whose id is `pid` read as a `usize`): some child is
/// asked for exactly when one matches; the child reaped is the first in the list
/// that has exited and matches; none is reaped exactly when no matching child has
/// exited.
pub proof fn lemma_waitpid_choice(children: Seq<ChildProc>, pid: isize)
    ensures
        has_matching_child(children, pid) <==> exists|i: int|
            0 <= i < children.len() && (pid == -1 || pid as usize == (#[trigger] children[i]).pid),
        ({
            let z = first_zombie_from(children, pid, 0);
            &&& 0 <= z <= children.len()
            &&& z < children.len() ==> children[z].is_zombie && (pid == -1 || pid as usize == children[z].pid)
            &&& forall|m: int|
                0 <= m < z ==> !((#[trigger] children[m]).is_zombie && (pid == -1 || pid as usize == children[m].pid))
        }),
{
    lemma_first_zombie(children, pid, 0);
    if has_matching_child(children, pid) {
        let i = choose|i: int| 0 <= i < children.len() && pid_matches(pid, #[trigger] children[i]);
        assert(pid == -1 || pid as usize == children[i].pid);
    }
    if exists|i: int| 0 <= i < children.len() && (pid == -1 || pid as usize == (#[trigger] children[i]).pid) {
        let i = choose|i: int| 0 <= i < children.len() && (pid == -1 || pid as usize == (#[trigger] children[i]).pid);
        assert(pid_matches(pid, children[i]));
    }
}

/// The waitpid system call on the caller's `children`.
///
/// -1 when no child is the one asked for; -2 when such children exist but none has
/// exited; otherwise the first exited child asked for is removed from the list,
/// and its id is returned together with the exit code to store for the caller.
pub fn sys_waitpid(children: &mut Vec<ChildProc>, pid: isize) -> (r: (isize, Option<i32>))
    ensures
        ({
            let cs = old(children)@;
            let z = first_zombie_from(cs, pid, 0);
            if !has_matching_child(cs, pid) {
                r == (-1isize, None::<i32>) && final(children)@ == cs
            } else if z < cs.len() {
                r == (cs[z].pid as isize, Some(cs[z].exit_code)) && final(children)@ == cs.remove(z)
            } else {
                r == (-2isize, None::<i32>) && final(children)@ == cs
            }
        }),
{
    let mut found = false;
    let mut i: usize = 0;
    while i < children.len()
        invariant
            i <= children@.len(),
            children@ == old(children)@,
            !found ==> forall|k: int| 0 <= k < i ==> !pid_matches(pid, #[trigger] children@[k]),
            found ==> has_matching_child(children@, pid),
        decreases children@.len() - i,
    {
        if pid == -1 || #[verifier::truncate] (pid as usize) == children[i].pid {
            assert(pid_matches(pid, children@[i as int]));
            found = true;
        }
        i = i + 1;
    }
    if !found {
        return (-1, None);
    }
    proof {
        lemma_first_zombie(children@, pid, 0);
    }
    let mut j: usize = 0;
    while j < children.len()
        invariant
            j <= children@.len(),
            children@ == old(children)@,
            first_zombie_from(children@, pid, 0) == first_zombie_from(children@, pid, j as int),
        decreases children@.len() - j,
    {
        let c = children[j];
        if c.is_zombie && (pid == -1 || #[verifier::truncate] (pid as usize) == c.pid) {
            let child = children.remove(j);
            return (#[verifier::truncate] (child.pid as isize), Some(child.exit_code));
        }
        j = j + 1;
    }
    (-2, None)
}

/// The bytes of the `TimeVal` for `us` microseconds: seconds, then microseconds,
/// each a 64-bit little-endian word.
pub open spec fn timeval_bytes(us: usize) -> Seq<u8> {
    le_bytes((us / 1_000_000) as u64, 8) + le_bytes((us % 1_000_000) as u64, 8)
}

impl TimeVal {
    /// The time `us` microseconds after the epoch of the clock.
    pub fn from_us(us: usize) -> (tv: TimeVal)
        ensures
            tv.sec == us / 1_000_000,
            tv.usec == us % 1_000_000,
    {
        TimeVal { sec: us / 1_000_000, usec: us % 1_000_000 }
    }
}

/// The get_time system call at `us` microseconds: the `TimeVal` is written to the
/// user buffer given as its page `user_pieces`, and 0 returned.
pub fn sys_get_time(us: usize, user_pieces: &mut Vec<Vec<u8>>) -> (r: isize)
    ensures
        r == 0,
        final(user_pieces).deep_view() == written(old(user_pieces).deep_view(), timeval_bytes(us)),
{
    let tv = TimeVal::from_us(us);
    let mut bytes: Vec<u8> = Vec::new();
    push_le_bytes(&mut bytes, tv.sec as u64, 8);
    push_le_bytes(&mut bytes, tv.usec as u64, 8);
    copy_to_user(&bytes, user_pieces);
    0
}

/// A buffer of at least 16 bytes that `sys_get_time` wrote reads back, as two
/// little-endian words, the whole seconds and the microseconds of `us`.
pub proof fn lemma_get_time_reads_back(pieces: Seq<Seq<u8>>, us: usize)
    requires
        flatten(pieces).len() >= 16,
    ensures
        le_word(flatten(written(pieces, timeval_bytes(us))).subrange(0, 8)) == us / 1_000_000,
        le_word(flatten(written(pieces, timeval_bytes(us))).subrange(8, 16)) == us % 1_000_000,
{
    let bytes = timeval_bytes(us);
    lemma_written_prefix(pieces, bytes);
    lemma_written_reads_back(pieces, bytes);
    let out = flatten(written(pieces, bytes));
    assert(bytes.len() == 16);
    assert(out.subrange(0, 16) == bytes);
    assert forall|k: int| 0 <= k < 16 implies out[k] == bytes[k] by {
        assert(out.subrange(0, 16)[k] == out[k]);
    }
    assert(out.subrange(0, 8) =~= le_bytes((us / 1_000_000) as u64, 8));
    assert(out.subrange(8, 16) =~= le_bytes((us % 1_000_000) as u64, 8));
    lemma_le_word_round_trip((us / 1_000_000) as u64);
    lemma_le_word_round_trip((us % 1_000_000) as u64);
}

/// The sbrk system call, given what moving the program break produced: the old
/// break when it moved, -1 when it could not.
pub fn sys_sbrk(old_brk: Option<usize>) -> (r: isize)
    ensures
        r == match old_brk {
            Some(b) => b as isize,
            None => -1isize,
        },
{
    match old_brk {
        Some(b) => b as isize,
        None => -1,
    }
}

/// The spawn system call, given the id of the new process when the program could
/// be loaded: it joins the caller's children (running, not exited) and its id is
/// returned; otherwise -1 and nothing changes.
pub fn sys_spawn(children: &mut Vec<ChildProc>, spawned: Option<usize>) -> (r: isize)
    ensures
        match spawned {
            Some(pid) => r == pid as isize && final(children)@ == old(children)@.push(
                ChildProc { pid, is_zombie: false, exit_code: 0 },
            ),
            None => r == -1 && final(children)@ == old(children)@,
        },
{
    match spawned {
        Some(pid) => {
            children.push(ChildProc { pid, is_zombie: false, exit_code: 0 });
            pid as isize
        },
        None => -1,
    }
}

/// The set_priority system call: priorities below 2 are refused with -1;
/// otherwise the caller's `priority` becomes `prio`, which is returned.
pub fn sys_set_priority(priority: &mut usize, prio: isize) -> (r: isize)
    ensures
        prio < 2 ==> r == -1 && *final(priority) == *old(priority),
        prio >= 2 ==> r == prio && *final(priority) == prio as usize,
{
    if prio < 2 {
        return -1;
    }
    *priority = prio as usize;
    *priority as isize
}

/// The mmap system call: maps `len` bytes at `start` with protection `port`
/// (bit 0 read, bit 1 write, bit 2 execute) as fresh user pages, and returns 0; or
/// returns -1 and changes nothing when `start` is not page aligned, `port` has
/// other bits or none, or a covered page is already mapped.
pub fn sys_mmap(ms: &mut MemorySet, start: usize, len: usize, port: usize) -> (r: isize)
    requires
        start + len <= usize::MAX,
        mmap_allowed(old(ms).page_table@, start, len, port) ==> first_vpn(start) <= end_vpn(start, len),
    ensures
        r == if mmap_allowed(old(ms).page_table@, start, len, port) {
            0isize
        } else {
            -1isize
        },
        final(ms).page_table@ == if mmap_allowed(old(ms).page_table@, start, len, port) {
            map_range(old(ms).page_table@, first_vpn(start), end_vpn(start, len), mmap_flags(port))
        } else {
            old(ms).page_table@
        },
{
    broadcast use vstd::std_specs::hash::group_hash_axioms;

    let (s, e) = page_range(start, len);
    if ((start as u64) & VA_MASK) % PAGE_SIZE != 0 {
        return -1;
    } else if port & !7usize != 0 {
        return -1;
    } else if port & 7 == 0 {
        return -1;
    }
    let mut vpn = s;
    while vpn < e
        invariant
            s <= vpn,
            s == first_vpn(start),
            e == end_vpn(start, len),
            ms.page_table@ == old(ms).page_table@,
            forall|k: int| s <= k < vpn ==> !#[trigger] page_mapped(ms.page_table@, k),
        decreases e - vpn,
    {
        match ms.translate(vpn) {
            Some(entry) => {
                if entry.valid {
                    assert(page_mapped(old(ms).page_table@, vpn as int));
                    return -1;
                }
            },
            None => {},
        }
        vpn = vpn + 1;
    }
    let flags = (((port & 7) << 1usize) as u8) | PERM_U;
    let mut vpn = s;
    while vpn < e
        invariant
            s <= vpn <= e || (e < s && vpn == s),
            s <= e,
            s == first_vpn(start),
            e == end_vpn(start, len),
            flags == mmap_flags(port),
            ms.page_table@ == map_range(old(ms).page_table@, s as int, vpn as int, flags),
        decreases e - vpn,
    {
        ms.page_table.insert(vpn, PageEntry { valid: true, flags });
        vpn = vpn + 1;
        assert(ms.page_table@ =~= map_range(old(ms).page_table@, s as int, vpn as int, flags));
    }
    assert(ms.page_table@ =~= map_range(old(ms).page_table@, s as int, e as int, flags));
    0
}

/// The munmap system call: unmaps the pages covering `len` bytes at `start` and
/// returns 0; or returns -1 and changes nothing when `start` is not page aligned or
/// a covered page has an entry slot that maps nothing. Covered pages with no entry
/// slot at all are passed over.
pub fn sys_munmap(ms: &mut MemorySet, start: usize, len: usize) -> (r: isize)
    requires
        start + len <= usize::MAX,
    ensures
        r == if munmap_allowed(old(ms).page_table@, start, len) {
            0isize
        } else {
            -1isize
        },
        final(ms).page_table@ == if munmap_allowed(old(ms).page_table@, start, len) {
            unmap_range(old(ms).page_table@, first_vpn(start), end_vpn(start, len))
        } else {
            old(ms).page_table@
        },
{
    broadcast use vstd::std_specs::hash::group_hash_axioms;

    let (s, e) = page_range(start, len);
    if ((start as u64) & VA_MASK) % PAGE_SIZE != 0 {
        return -1;
    }
    let mut vpn = s;
    while vpn < e
        invariant
            s <= vpn,
            s == first_vpn(start),
            e == end_vpn(start, len),
            ms.page_table@ == old(ms).page_table@,
            forall|k: int|
                s <= k < vpn && #[trigger] ms.page_table@.contains_key(k as u64) ==> ms.page_table@[k as u64].valid,
        decreases e - vpn,
    {
        match ms.translate(vpn) {
            Some(entry) => {
                if !entry.valid {
                    assert(old(ms).page_table@.contains_key((vpn as int) as u64));
                    return -1;
                }
            },
            None => {},
        }
        vpn = vpn + 1;
    }
    let mut vpn = s;
    while vpn < e
        invariant
            s <= vpn,
            vpn <= e || vpn == s,
            s == first_vpn(start),
            e == end_vpn(start, len),
            munmap_allowed(old(ms).page_table@, start, len),
            ms.page_table@ == unmap_range(old(ms).page_table@, s as int, vpn as int),
        decreases e - vpn,
    {
        proof {
            if old(ms).page_table@.contains_key(vpn) {
                assert(old(ms).page_table@.contains_key((vpn as int) as u64));
            }
        }
        match ms.translate(vpn) {
            Some(entry) => {
                if entry.valid {
                    ms.page_table.insert(vpn, PageEntry { valid: false, flags: 0 });
                }
            },
            None => {},
        }
        vpn = vpn + 1;
        assert(ms.page_table@ =~= unmap_range(old(ms).page_table@, s as int, vpn as int));
    }
    assert(ms.page_table@ =~= unmap_range(old(ms).page_table@, s as int, e as int));
    0
}

/// What a successful `mmap` leaves: every page of the range mapped; a second
/// `mmap` over the (non-empty) range is refused; `munmap` of the same range
/// succeeds, after which no page of the range is mapped and every other page is as
/// it was before the `mmap`.
pub proof fn lemma_mmap_then_munmap(pt: Map<u64, PageEntry>, start: usize, len: usize, port: usize, port2: usize)
    requires
        start + len <= usize::MAX,
        mmap_allowed(pt, start, len, port),
        first_vpn(start) <= end_vpn(start, len),
    ensures
        ({
            let s = first_vpn(start);
            let e = end_vpn(start, len);
            let mapped = map_range(pt, s, e, mmap_flags(port));
            let unmapped = unmap_range(mapped, s, e);
            &&& forall|vpn: int| s <= vpn < e ==> #[trigger] page_mapped(mapped, vpn)
            &&& s < e ==> !mmap_allowed(mapped, start, len, port2)
            &&& munmap_allowed(mapped, start, len)
            &&& forall|vpn: int| s <= vpn < e ==> !#[trigger] page_mapped(unmapped, vpn)
            &&& forall|k: u64|
                !(s <= k < e) ==> (#[trigger] unmapped.contains_key(k) == pt.contains_key(k)) && (
                pt.contains_key(k) ==> unmapped[k] == pt[k])
        }),
{
    let s = first_vpn(start);
    let e = end_vpn(start, len);
    lemma_va_bounds(start as u64);
    lemma_va_bounds((start + len) as u64);
    assert(e <= 0x800_0000);
    assert(s >= 0);
    let mapped = map_range(pt, s, e, mmap_flags(port));
    assert forall|vpn: int| s <= vpn < e implies #[trigger] page_mapped(mapped, vpn) by {
        assert((vpn as u64) as int == vpn);
    }
    if s < e {
        assert(page_mapped(mapped, s));
    }
    assert forall|vpn: int| s <= vpn < e && #[trigger] mapped.contains_key(vpn as u64) implies mapped[vpn as u64].valid by {
        assert((vpn as u64) as int == vpn);
    }
    let unmapped = unmap_range(mapped, s, e);
    assert forall|vpn: int| s <= vpn < e implies !#[trigger] page_mapped(unmapped, vpn) by {
        assert((vpn as u64) as int == vpn);
    }
}

proof fn lemma_flag_bits(port: usize, f: u8)
    requires
        f == (((port & 7) << 1usize) as u8) | 16u8,
    ensures
        f & 2 != 0 <==> port & 1 != 0,
        f & 4 != 0 <==> port & 2 != 0,
        f & 8 != 0 <==> port & 4 != 0,
        f & 16 != 0,
        f & 0xe1 == 0,
{
    assert(f & 2 != 0 <==> port & 1 != 0) by (bit_vector)
        requires
            f == (((port & 7) << 1usize) as u8) | 16u8,
    ;
    assert(f & 4 != 0 <==> port & 2 != 0) by (bit_vector)
        requires
            f == (((port & 7) << 1usize) as u8) | 16u8,
    ;
    assert(f & 8 != 0 <==> port & 4 != 0) by (bit_vector)
        requires
            f == (((port & 7) << 1usize) as u8) | 16u8,
    ;
    assert(f & 16 != 0 && f & 0xe1 == 0) by (bit_vector)
        requires
            f == (((port & 7) << 1usize) as u8) | 16u8,
    ;
}

proof fn lemma_below_ceil_page(v: int, b: int)
    requires
        0 <= v,
        0 <= b,
    ensures
        (v < if b == 0 {
            0int
        } else {
            (b - 1 + 4096) / 4096
        }) <==> v * 4096 < b,
{
}

proof fn lemma_covered_pages(start: usize, len: usize, vpn: u64)
    requires
        start + len <= usize::MAX,
    ensures
        (first_vpn(start) <= (vpn as int) && (vpn as int) < end_vpn(start, len)) <==> (((start as u64) & 0x7f_ffff_ffffu64)
            / 4096 <= vpn && (vpn as int) * 4096 < (((start + len) as usize) as u64 & 0x7f_ffff_ffffu64) as int),
        end_vpn(start, len) <= 0x800_0000,
        first_vpn(start) >= 0,
{
    lemma_va_bounds(start as u64);
    lemma_va_bounds((start + len) as u64);
    lemma_below_ceil_page(vpn as int, (((start + len) as usize) as u64 & 0x7f_ffff_ffffu64) as int);
}

/// When `mmap(start, len, port)` succeeds and what it maps, stated page by page.
/// The covered pages are those from the page of the start address (its low 39
/// bits) up to the last page that begins below the end address. The call succeeds
/// exactly when the start address is page aligned, `port` has no bit but its low
/// three and at least one of them, and no covered page is mapped; then every
/// covered page maps with R, W, X as `port`'s bits 0, 1, 2 and U, and every other
/// page is as it was.
pub proof fn lemma_mmap_exact(pt: Map<u64, PageEntry>, start: usize, len: usize, port: usize)
    requires
        start + len <= usize::MAX,
    ensures
        ({
            let a = (start as u64) & 0x7f_ffff_ffffu64;
            let b = ((start + len) as usize) as u64 & 0x7f_ffff_ffffu64;
            let after = map_range(pt, first_vpn(start), end_vpn(start, len), mmap_flags(port));
            &&& mmap_allowed(pt, start, len, port) <==> {
                &&& a % 4096 == 0
                &&& port & !7usize == 0
                &&& port & 7 != 0
                &&& forall|vpn: u64|
                    a / 4096 <= vpn && (vpn as int) * 4096 < b as int ==> !(#[trigger] pt.contains_key(vpn)
                        && pt[vpn].valid)
            }
            &&& forall|vpn: u64|
                #![trigger after.contains_key(vpn)]
                a / 4096 <= vpn && (vpn as int) * 4096 < b as int ==> after.contains_key(vpn) && after[vpn].valid
                    && (after[vpn].flags & 2 != 0 <==> port & 1 != 0) && (after[vpn].flags & 4 != 0 <==> port & 2 != 0)
                    && (after[vpn].flags & 8 != 0 <==> port & 4 != 0) && after[vpn].flags & 16 != 0
                    && after[vpn].flags & 0xe1 == 0
            &&& forall|vpn: u64|
                #![trigger after.contains_key(vpn)]
                !(a / 4096 <= vpn && (vpn as int) * 4096 < b as int) ==> (after.contains_key(vpn)
                    == pt.contains_key(vpn)) && (pt.contains_key(vpn) ==> after[vpn] == pt[vpn])
        }),
{
    let a = (start as u64) & 0x7f_ffff_ffffu64;
    let b = ((start + len) as usize) as u64 & 0x7f_ffff_ffffu64;
    let s = first_vpn(start);
    let e = end_vpn(start, len);
    lemma_covered_pages(start, len, 0);
    let f = mmap_flags(port);
    assert(f == (((port & 7) << 1usize) as u8) | 16u8);
    lemma_flag_bits(port, f);
    assert(page_aligned(va(start)) <==> a % 4096 == 0);
    let covered = |vpn: u64| a / 4096 <= vpn && (vpn as int) * 4096 < b as int;
    assert forall|vpn: u64| #[trigger] covered(vpn) <==> (s <= vpn as int && (vpn as int) < e) by {
        lemma_covered_pages(start, len, vpn);
    }
    if mmap_allowed(pt, start, len, port) {
        assert forall|vpn: u64| covered(vpn) implies !(#[trigger] pt.contains_key(vpn) && pt[vpn].valid) by {
            assert(!page_mapped(pt, vpn as int));
        }
    }
    if a % 4096 == 0 && port & !7usize == 0 && port & 7 != 0 && forall|vpn: u64|
        covered(vpn) ==> !(#[trigger] pt.contains_key(vpn) && pt[vpn].valid) {
        assert forall|vpn: int| s <= vpn < e implies !#[trigger] page_mapped(pt, vpn) by {
            assert((vpn as u64) as int == vpn);
            assert(covered(vpn as u64));
        }
    }
}

/// When `munmap(start, len)` succeeds and what it leaves, stated page by page
/// (covered pages as for `mmap`). It succeeds exactly when the start address is
/// page aligned and every covered page with an entry slot is mapped; then every
/// covered page with a slot maps nothing, and every other page is as it was.
pub proof fn lemma_munmap_exact(pt: Map<u64, PageEntry>, start: usize, len: usize)
    requires
        start + len <= usize::MAX,
    ensures
        ({
            let a = (start as u64) & 0x7f_ffff_ffffu64;
            let b = ((start + len) as usize) as u64 & 0x7f_ffff_ffffu64;
            let after = unmap_range(pt, first_vpn(start), end_vpn(start, len));
            &&& munmap_allowed(pt, start, len) <==> {
                &&& a % 4096 == 0
                &&& forall|vpn: u64|
                    a / 4096 <= vpn && (vpn as int) * 4096 < b as int && #[trigger] pt.contains_key(vpn) ==> pt[vpn].valid
            }
            &&& forall|vpn: u64| #[trigger] after.contains_key(vpn) == pt.contains_key(vpn)
            &&& forall|vpn: u64|
                a / 4096 <= vpn && (vpn as int) * 4096 < b as int && #[trigger] pt.contains_key(vpn) ==> !after[vpn].valid
            &&& forall|vpn: u64|
                !(a / 4096 <= vpn && (vpn as int) * 4096 < b as int) && #[trigger] pt.contains_key(vpn) ==> after[vpn]
                    == pt[vpn]
        }),
{
    let a = (start as u64) & 0x7f_ffff_ffffu64;
    let b = ((start + len) as usize) as u64 & 0x7f_ffff_ffffu64;
    let s = first_vpn(start);
    let e = end_vpn(start, len);
    lemma_covered_pages(start, len, 0);
    let covered = |vpn: u64| a / 4096 <= vpn && (vpn as int) * 4096 < b as int;
    assert forall|vpn: u64| #[trigger] covered(vpn) <==> (s <= vpn as int && (vpn as int) < e) by {
        lemma_covered_pages(start, len, vpn);
    }
    assert(page_aligned(va(start)) <==> a % 4096 == 0);
    if munmap_allowed(pt, start, len) {
        assert forall|vpn: u64| covered(vpn) && #[trigger] pt.contains_key(vpn) implies pt[vpn].valid by {
            assert(pt.contains_key((vpn as int) as u64));
        }
    }
    if a % 4096 == 0 && forall|vpn: u64| covered(vpn) && #[trigger] pt.contains_key(vpn) ==> pt[vpn].valid {
        assert forall|vpn: int| s <= vpn < e && #[trigger] pt.contains_key(vpn as u64) implies pt[vpn as u64].valid by {
            assert((vpn as u64) as int == vpn);
            assert(covered(vpn as u64));
        }
    }
    assert forall|vpn: u64| covered(vpn) && #[trigger] pt.contains_key(vpn) implies !unmap_range(pt, s, e)[vpn].valid by {
        assert(s <= vpn as int && (vpn as int) < e);
    }
}

} // verus!
