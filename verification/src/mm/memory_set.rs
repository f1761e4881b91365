//! The address-space bookkeeping behind `mmap` and `munmap` (Sv39, 4 KiB pages).
//!
//! The page table is seen through its leaf entries: a virtual page number with no
//! leaf entry slot yet, a slot that is not valid, or a valid mapping with its
//! permission bits.
use vstd::prelude::*;
use std::collections::HashMap;

verus! {

/// Bytes in a page.
pub const PAGE_SIZE: u64 = 4096;

/// Mask of the 39 bits an Sv39 virtual address keeps.
pub const VA_MASK: u64 = 0x7f_ffff_ffff;

/// Permission bit: readable.
pub const PERM_R: u8 = 0b10;
/// Permission bit: writable.
pub const PERM_W: u8 = 0b100;
/// Permission bit: executable.
pub const PERM_X: u8 = 0b1000;
/// Permission bit: accessible from user mode.
pub const PERM_U: u8 = 0b1_0000;

/// A leaf page-table entry slot.
#[derive(Clone, Copy, PartialEq, Eq, Structural, Debug)]
pub struct PageEntry {
    /// The entry maps a frame.
    pub valid: bool,
    /// Its permission bits (`PERM_R`, `PERM_W`, `PERM_X`, `PERM_U`).
    pub flags: u8,
}

/// A process's address space, seen through its page table's leaf entry slots,
/// keyed by virtual page number.
pub struct MemorySet {
    pub page_table: HashMap<u64, PageEntry>,
}

/// The virtual address that the word `v` denotes: its low 39 bits.
pub open spec fn va(v: usize) -> u64 {
    (v as u64) & VA_MASK
}

/// The page holding address `a`.
pub open spec fn floor_page(a: u64) -> int {
    a as int / PAGE_SIZE as int
}

/// The first page wholly at or above address `a`.
pub open spec fn ceil_page(a: u64) -> int {
    if a == 0 {
        0
    } else {
        (a as int - 1 + PAGE_SIZE as int) / PAGE_SIZE as int
    }
}

/// Address `a` starts a page.
pub open spec fn page_aligned(a: u64) -> bool {
    a % PAGE_SIZE == 0
}

/// Page `vpn` is mapped.
pub open spec fn page_mapped(pt: Map<u64, PageEntry>, vpn: int) -> bool {
    pt.contains_key(vpn as u64) && pt[vpn as u64].valid
}

/// The permission bits `mmap` gives for protection bits `port`: R, W, X from its
/// low three bits, and U.
pub open spec fn mmap_flags(port: usize) -> u8 {
    (((port & 7) << 1usize) as u8) | PERM_U
}

/// The pages an `mmap` or `munmap` of `len` bytes at `start` covers: from the page
/// of `start` up to the page boundary at or after `start + len`.
pub open spec fn first_vpn(start: usize) -> int {
    floor_page(va(start))
}

/// End (exclusive) of the pages covered by `len` bytes at `start`.
pub open spec fn end_vpn(start: usize, len: usize) -> int {
    ceil_page(va((start + len) as usize))
}

/// Whether `mmap(start, len, port)` succeeds on page table `pt`: `start` is page
/// aligned, `port` has only its low three bits and at least one of them, and no
/// covered page is mapped.
pub open spec fn mmap_allowed(pt: Map<u64, PageEntry>, start: usize, len: usize, port: usize) -> bool {
    &&& page_aligned(va(start))
    &&& port & !7usize == 0
    &&& port & 7 != 0
    &&& forall|vpn: int| first_vpn(start) <= vpn < end_vpn(start, len) ==> !#[trigger] page_mapped(pt, vpn)
}

/// `pt` with pages `s..e` mapped with permission bits `flags`.
pub open spec fn map_range(pt: Map<u64, PageEntry>, s: int, e: int, flags: u8) -> Map<u64, PageEntry> {
    Map::new(
        |k: u64| pt.contains_key(k) || s <= k < e,
        |k: u64|
            if s <= k < e {
                PageEntry { valid: true, flags }
            } else {
                pt[k]
            },
    )
}

/// Whether `munmap(start, len)` succeeds on `pt`: `start` is page aligned and every
/// covered page that has an entry slot is mapped.
pub open spec fn munmap_allowed(pt: Map<u64, PageEntry>, start: usize, len: usize) -> bool {
    &&& page_aligned(va(start))
    &&& forall|vpn: int|
        first_vpn(start) <= vpn < end_vpn(start, len) && #[trigger] pt.contains_key(vpn as u64) ==> pt[vpn as u64].valid
}

/// An entry slot that maps nothing.
pub open spec fn empty_entry() -> PageEntry {
    PageEntry { valid: false, flags: 0 }
}

/// `pt` with the entry slots of pages `s..e` emptied.
pub open spec fn unmap_range(pt: Map<u64, PageEntry>, s: int, e: int) -> Map<u64, PageEntry> {
    Map::new(
        |k: u64| pt.contains_key(k),
        |k: u64|
            if s <= k < e {
                empty_entry()
            } else {
                pt[k]
            },
    )
}

pub(crate) proof fn lemma_va_bounds(v: u64)
    ensures
        v & VA_MASK <= VA_MASK,
{
    assert(v & 0x7f_ffff_ffffu64 <= 0x7f_ffff_ffffu64) by (bit_vector);
}

/// The covered page range `[first_vpn, end_vpn)`.
pub(crate) fn page_range(start: usize, len: usize) -> (r: (u64, u64))
    requires
        start + len <= usize::MAX,
    ensures
        r.0 == first_vpn(start),
        r.1 == end_vpn(start, len),
        r.1 <= 0x800_0000,
{
    let a = (start as u64) & VA_MASK;
    let b = ((start + len) as u64) & VA_MASK;
    proof {
        lemma_va_bounds(start as u64);
        lemma_va_bounds((start + len) as u64);
    }
    let s = a / PAGE_SIZE;
    let e = if b == 0 {
        0
    } else {
        (b - 1 + PAGE_SIZE) / PAGE_SIZE
    };
    (s, e)
}

impl MemorySet {
    /// The leaf entry slot of page `vpn`, if the page table has one.
    pub fn translate(&self, vpn: u64) -> (r: Option<PageEntry>)
        ensures
            r == if self.page_table@.contains_key(vpn) {
                Some(self.page_table@[vpn])
            } else {
                None::<PageEntry>
            },
    {
        broadcast use vstd::std_specs::hash::group_hash_axioms;

        match self.page_table.get(&vpn) {
            Some(entry) => Some(*entry),
            None => None,
        }
    }
}

} // verus!
