//! File-descriptor and directory system calls.
//!
//! A process's open files are a slot table of descriptors; the file objects
//! behind them, and the transfer of bytes, stay with the caller. The root
//! directory is seen as its list of entries.
use vstd::prelude::*;
use crate::mm::user_copy::{
    copy_to_user, flatten, le_bytes, le_word, le_word32, lemma_le_word32_round_trip, lemma_le_word_round_trip,
    lemma_written_prefix, lemma_written_reads_back, push_le_bytes, written,
};
use crate::slot::{alloc_slot, first_free, with_item};

verus! {

/// What an open file allows.
#[derive(Clone, Copy, PartialEq, Eq, Structural, Debug)]
pub struct FileDesc {
    /// The file may be read.
    pub readable: bool,
    /// The file may be written.
    pub writable: bool,
}

/// One entry of the root directory: a name and the inode it links to.
pub struct DirEntry {
    /// The entry's name, as bytes.
    pub name: Vec<u8>,
    /// The inode the name refers to.
    pub inode_id: u32,
}

/// Type bits of a directory in `Stat::mode`.
pub const STAT_MODE_DIR: u32 = 0o040000;

/// Type bits of a regular file in `Stat::mode`.
pub const STAT_MODE_FILE: u32 = 0o100000;

/// Size in bytes of the `Stat` record handed to user space.
pub const STAT_SIZE: usize = 80;

/// The descriptor `fd` names an open file.
pub open spec fn fd_open(table: Seq<Option<FileDesc>>, fd: int) -> bool {
    0 <= fd < table.len() && table[fd] is Some
}

/// Whether a write through `fd` may go ahead.
pub open spec fn may_write(table: Seq<Option<FileDesc>>, fd: int) -> bool {
    fd_open(table, fd) && table[fd]->Some_0.writable
}

/// Whether a read through `fd` may go ahead.
pub open spec fn may_read(table: Seq<Option<FileDesc>>, fd: int) -> bool {
    fd_open(table, fd) && table[fd]->Some_0.readable
}

/// The write system call's check: `Ok(fd)` when the caller may write its buffer
/// to the file at `fd` (the call then returns the number of bytes written),
/// `Err(-1)` when `fd` is out of range, closed, or not writable.
pub fn sys_write(fd_table: &Vec<Option<FileDesc>>, fd: usize) -> (r: Result<usize, isize>)
    ensures
        r == if may_write(fd_table@, fd as int) {
            Ok::<usize, isize>(fd)
        } else {
            Err::<usize, isize>(-1isize)
        },
{
    if fd >= fd_table.len() {
        return Err(-1);
    }
    match &fd_table[fd] {
        Some(file) => {
            if !file.writable {
                return Err(-1);
            }
            Ok(fd)
        },
        None => Err(-1),
    }
}

/// The read system call's check: `Ok(fd)` when the caller may read from the
/// file at `fd` into its buffer (the call then returns the number of bytes read),
/// `Err(-1)` when `fd` is out of range, closed, or not readable.
pub fn sys_read(fd_table: &Vec<Option<FileDesc>>, fd: usize) -> (r: Result<usize, isize>)
    ensures
        r == if may_read(fd_table@, fd as int) {
            Ok::<usize, isize>(fd)
        } else {
            Err::<usize, isize>(-1isize)
        },
{
    if fd >= fd_table.len() {
        return Err(-1);
    }
    match &fd_table[fd] {
        Some(file) => {
            if !file.readable {
                return Err(-1);
            }
            Ok(fd)
        },
        None => Err(-1),
    }
}

/// The open system call, given what opening the path produced: a file opened
/// takes the lowest free descriptor, which is returned; a path that could not be
/// opened gives -1 and changes nothing.
pub fn sys_open(fd_table: &mut Vec<Option<FileDesc>>, opened: Option<FileDesc>) -> (r: isize)
    ensures
        match opened {
            Some(file) => {
                &&& r == first_free(old(fd_table)@) as isize
                &&& final(fd_table)@ == with_item(old(fd_table)@, file)
            },
            None => {
                &&& r == -1
                &&& final(fd_table)@ == old(fd_table)@
            },
        },
{
    match opened {
        Some(file) => {
            let fd = alloc_slot(fd_table, file);
            fd as isize
        },
        None => -1,
    }
}

/// The close system call: an open descriptor is freed and 0 returned; an
/// out-of-range or already closed one gives -1 and changes nothing.
pub fn sys_close(fd_table: &mut Vec<Option<FileDesc>>, fd: usize) -> (r: isize)
    ensures
        r == if fd_open(old(fd_table)@, fd as int) {
            0isize
        } else {
            -1isize
        },
        final(fd_table)@ == if fd_open(old(fd_table)@, fd as int) {
            old(fd_table)@.update(fd as int, None)
        } else {
            old(fd_table)@
        },
{
    if fd >= fd_table.len() {
        return -1;
    }
    if fd_table[fd].is_none() {
        return -1;
    }
    fd_table.set(fd, None);
    0
}

/// The inode the first entry named `name` links to, if any.
pub open spec fn dir_lookup(entries: Seq<DirEntry>, name: Seq<u8>) -> Option<u32>
    decreases entries.len(),
{
    if entries.len() == 0 {
        None
    } else if entries[0].name@ == name {
        Some(entries[0].inode_id)
    } else {
        dir_lookup(entries.drop_first(), name)
    }
}

/// The checks of read and write, entry by entry: a read goes ahead exactly when
/// `fd` is in range, its slot holds a file, and that file is readable (whatever
/// else it allows); a write likewise with writable; close frees exactly the
/// descriptors in range that hold a file.
pub proof fn lemma_descriptor_checks(table: Seq<Option<FileDesc>>, fd: int)
    ensures
        may_read(table, fd) <==> (0 <= fd < table.len() && (table[fd] matches Some(f) && f.readable)),
        may_write(table, fd) <==> (0 <= fd < table.len() && (table[fd] matches Some(f) && f.writable)),
        fd_open(table, fd) <==> (0 <= fd < table.len() && !(table[fd] is None)),
{
}

/// A lookup finds exactly the entries whose whole name equals the name asked for:
/// when it gives an inode, the first entry with that very name links to it; it
/// gives nothing exactly when no entry has that name.
pub proof fn lemma_dir_lookup_exact(entries: Seq<DirEntry>, name: Seq<u8>)
    ensures
        dir_lookup(entries, name) is None <==> forall|k: int| 0 <= k < entries.len() ==> #[trigger] entries[k].name@ != name,
        dir_lookup(entries, name) matches Some(id) ==> exists|k: int|
            0 <= k < entries.len() && #[trigger] entries[k].name@ == name && entries[k].inode_id == id && forall|m: int|
                0 <= m < k ==> entries[m].name@ != name,
    decreases entries.len(),
{
    if entries.len() > 0 {
        let rest = entries.drop_first();
        lemma_dir_lookup_exact(rest, name);
        if entries[0].name@ == name {
            assert(entries[0].name@ == name);
        } else {
            assert forall|k: int| 1 <= k < entries.len() implies #[trigger] entries[k] == rest[k - 1] by {}
            if dir_lookup(entries, name) is None {
                assert forall|k: int| 0 <= k < entries.len() implies #[trigger] entries[k].name@ != name by {
                    if k > 0 {
                        assert(rest[k - 1].name@ != name);
                    }
                }
            } else {
                assert(!(forall|k: int| 0 <= k < rest.len() ==> #[trigger] rest[k].name@ != name));
                let j = choose|j: int| 0 <= j < rest.len() && rest[j].name@ == name;
                assert(entries[j + 1].name@ == name);
                let id = dir_lookup(entries, name)->Some_0;
                let k = choose|k: int|
                    0 <= k < rest.len() && #[trigger] rest[k].name@ == name && rest[k].inode_id == id && forall|m: int|
                        0 <= m < k ==> rest[m].name@ != name;
                assert(entries[k + 1].name@ == name && entries[k + 1].inode_id == id);
                assert forall|m: int| 0 <= m < k + 1 implies entries[m].name@ != name by {
                    if m > 0 {
                        assert(rest[m - 1].name@ != name);
                    }
                }
            }
        }
    }
}

/// Whether two byte strings are equal.
fn bytes_eq(a: &Vec<u8>, b: &Vec<u8>) -> (r: bool)
    ensures
        r == (a@ == b@),
{
    if a.len() != b.len() {
        return false;
    }
    let mut i: usize = 0;
    while i < a.len()
        invariant
            i <= a@.len(),
            a@.len() == b@.len(),
            forall|k: int| 0 <= k < i ==> a@[k] == b@[k],
        decreases a@.len() - i,
    {
        if a[i] != b[i] {
            return false;
        }
        i = i + 1;
    }
    assert(a@ =~= b@);
    true
}

/// Looks `name` up in the directory `entries`: the inode of the first entry so named.
pub fn find_entry(entries: &Vec<DirEntry>, name: &Vec<u8>) -> (r: Option<u32>)
    ensures
        r == dir_lookup(entries@, name@),
{
    let mut i: usize = 0;
    assert(entries@.skip(0) =~= entries@);
    while i < entries.len()
        invariant
            i <= entries@.len(),
            dir_lookup(entries@, name@) == dir_lookup(entries@.skip(i as int), name@),
        decreases entries@.len() - i,
    {
        assert(entries@.skip(i as int).drop_first() =~= entries@.skip(i + 1));
        if bytes_eq(&entries[i].name, name) {
            return Some(entries[i].inode_id);
        }
        i = i + 1;
    }
    None
}

/// The link system call's check: -1 when `new_name` is already in the root
/// directory or names the same path as `old_name`; otherwise 0, and the caller
/// links `new_name` to the file of `old_name`.
pub fn sys_linkat(root: &Vec<DirEntry>, old_name: &Vec<u8>, new_name: &Vec<u8>) -> (r: isize)
    ensures
        r == if dir_lookup(root@, new_name@) is Some || old_name@ == new_name@ {
            -1isize
        } else {
            0isize
        },
{
    if find_entry(root, new_name).is_some() {
        return -1;
    }
    if bytes_eq(new_name, old_name) {
        return -1;
    }
    0
}

/// The unlink system call's check: -1 when `name` is not in the root directory;
/// otherwise 0, and the caller removes the link.
pub fn sys_unlinkat(root: &Vec<DirEntry>, name: &Vec<u8>) -> (r: isize)
    ensures
        r == if dir_lookup(root@, name@) is None {
            -1isize
        } else {
            0isize
        },
{
    if find_entry(root, name).is_none() {
        return -1;
    }
    0
}

/// The bytes of the `Stat` record for inode `ino` with `nlink` links: device 0,
/// inode number, mode (directory or regular file), link count, and 56 bytes of
/// zero padding, each field little-endian.
pub open spec fn stat_bytes(ino: u64, nlink: u32, is_dir: bool) -> Seq<u8> {
    le_bytes(0, 8) + le_bytes(ino, 8) + le_bytes(
        (if is_dir {
            STAT_MODE_DIR
        } else {
            STAT_MODE_FILE
        }) as u64,
        4,
    ) + le_bytes(nlink as u64, 4) + Seq::new(56, |i: int| 0u8)
}

/// The fstat system call for the open file at `fd`, whose inode is `ino` with
/// `nlink` links (`is_dir` for a directory): the `Stat` record is written to the
/// user buffer given as its page `user_pieces`, and 0 returned.
pub fn sys_fstat(
    fd_table: &Vec<Option<FileDesc>>,
    fd: usize,
    ino: u64,
    nlink: u32,
    is_dir: bool,
    user_pieces: &mut Vec<Vec<u8>>,
) -> (r: isize)
    requires
        fd_open(fd_table@, fd as int),
    ensures
        r == 0,
        final(user_pieces).deep_view() == written(
            old(user_pieces).deep_view(),
            stat_bytes(ino, nlink, is_dir),
        ),
{
    let mode = if is_dir {
        STAT_MODE_DIR
    } else {
        STAT_MODE_FILE
    };
    let mut bytes: Vec<u8> = Vec::new();
    push_le_bytes(&mut bytes, 0, 8);
    push_le_bytes(&mut bytes, ino, 8);
    push_le_bytes(&mut bytes, mode as u64, 4);
    push_le_bytes(&mut bytes, nlink as u64, 4);
    let mut i: usize = 0;
    while i < 56
        invariant
            i <= 56,
            bytes@ == le_bytes(0, 8) + le_bytes(ino, 8) + le_bytes(mode as u64, 4) + le_bytes(
                nlink as u64,
                4,
            ) + Seq::new(i as nat, |k: int| 0u8),
        decreases 56 - i,
    {
        bytes.push(0);
        i = i + 1;
        assert(bytes@ =~= le_bytes(0, 8) + le_bytes(ino, 8) + le_bytes(mode as u64, 4) + le_bytes(
            nlink as u64,
            4,
        ) + Seq::new(i as nat, |k: int| 0u8));
    }
    copy_to_user(&bytes, user_pieces);
    0
}

/// A buffer of at least 80 bytes that `sys_fstat` wrote reads back as the `Stat`
/// record: device 0 and the inode number as 64-bit little-endian words, the mode
/// (0o040000 for a directory, 0o100000 for a file) and the link count as 32-bit
/// little-endian words, then 56 zero bytes.
pub proof fn lemma_fstat_reads_back(pieces: Seq<Seq<u8>>, ino: u64, nlink: u32, is_dir: bool)
    requires
        flatten(pieces).len() >= 80,
    ensures
        ({
            let out = flatten(written(pieces, stat_bytes(ino, nlink, is_dir)));
            &&& le_word(out.subrange(0, 8)) == 0
            &&& le_word(out.subrange(8, 16)) == ino
            &&& le_word32(out.subrange(16, 20)) == if is_dir {
                0o040000u32
            } else {
                0o100000u32
            }
            &&& le_word32(out.subrange(20, 24)) == nlink
            &&& forall|k: int| 24 <= k < 80 ==> #[trigger] out[k] == 0
        }),
{
    let bytes = stat_bytes(ino, nlink, is_dir);
    let mode: u32 = if is_dir {
        STAT_MODE_DIR
    } else {
        STAT_MODE_FILE
    };
    lemma_written_prefix(pieces, bytes);
    lemma_written_reads_back(pieces, bytes);
    let out = flatten(written(pieces, bytes));
    assert(bytes.len() == 80);
    assert(out.subrange(0, 80) == bytes);
    assert forall|k: int| 0 <= k < 80 implies out[k] == bytes[k] by {
        assert(out.subrange(0, 80)[k] == out[k]);
    }
    assert(out.subrange(0, 8) =~= le_bytes(0, 8));
    assert(out.subrange(8, 16) =~= le_bytes(ino, 8));
    assert(out.subrange(16, 20) =~= le_bytes(mode as u64, 4));
    assert(out.subrange(20, 24) =~= le_bytes(nlink as u64, 4));
    lemma_le_word_round_trip(0);
    lemma_le_word_round_trip(ino);
    lemma_le_word32_round_trip(mode);
    lemma_le_word32_round_trip(nlink);
}

} // verus!
