use os::mm::user_copy::copy_to_user;
use os::syscall::fs::{
    find_entry, sys_close, sys_fstat, sys_linkat, sys_open, sys_read, sys_unlinkat, sys_write,
    DirEntry, FileDesc, STAT_SIZE,
};

const RW: FileDesc = FileDesc { readable: true, writable: true };
const RO: FileDesc = FileDesc { readable: true, writable: false };
const WO: FileDesc = FileDesc { readable: false, writable: true };

#[test]
fn write_checks() {
    let t = vec![Some(RW), Some(RO), None];
    assert_eq!(sys_write(&t, 0), Ok(0));
    assert_eq!(sys_write(&t, 1), Err(-1));
    assert_eq!(sys_write(&t, 2), Err(-1));
    assert_eq!(sys_write(&t, 3), Err(-1));
}

#[test]
fn read_checks() {
    let t = vec![Some(WO), Some(RO), None];
    assert_eq!(sys_read(&t, 0), Err(-1));
    assert_eq!(sys_read(&t, 1), Ok(1));
    assert_eq!(sys_read(&t, 2), Err(-1));
    assert_eq!(sys_read(&t, 9), Err(-1));
}

#[test]
fn open_takes_lowest_free_descriptor() {
    let mut t = vec![Some(RW), None, Some(RO)];
    assert_eq!(sys_open(&mut t, Some(WO)), 1);
    assert_eq!(t, vec![Some(RW), Some(WO), Some(RO)]);
    assert_eq!(sys_open(&mut t, Some(RO)), 3);
    assert_eq!(t.len(), 4);
    assert_eq!(sys_open(&mut t, None), -1);
    assert_eq!(t.len(), 4);
}

#[test]
fn close_then_open_reuses_descriptor() {
    let mut t = vec![Some(RW), Some(RO), Some(WO)];
    assert_eq!(sys_close(&mut t, 1), 0);
    assert_eq!(t[1], None);
    assert_eq!(sys_close(&mut t, 1), -1);
    assert_eq!(sys_close(&mut t, 7), -1);
    assert_eq!(sys_open(&mut t, Some(RW)), 1);
    assert_eq!(t[1], Some(RW));
}

fn root() -> Vec<DirEntry> {
    vec![
        DirEntry { name: b"hello".to_vec(), inode_id: 3 },
        DirEntry { name: b"world".to_vec(), inode_id: 4 },
        DirEntry { name: b"hello".to_vec(), inode_id: 9 },
    ]
}

#[test]
fn find_entry_first_match() {
    let r = root();
    assert_eq!(find_entry(&r, &b"hello".to_vec()), Some(3));
    assert_eq!(find_entry(&r, &b"world".to_vec()), Some(4));
    assert_eq!(find_entry(&r, &b"hell".to_vec()), None);
}

#[test]
fn linkat_checks() {
    let r = root();
    assert_eq!(sys_linkat(&r, &b"hello".to_vec(), &b"copy".to_vec()), 0);
    assert_eq!(sys_linkat(&r, &b"hello".to_vec(), &b"world".to_vec()), -1);
    assert_eq!(sys_linkat(&r, &b"copy".to_vec(), &b"copy".to_vec()), -1);
}

#[test]
fn unlinkat_checks() {
    let r = root();
    assert_eq!(sys_unlinkat(&r, &b"world".to_vec()), 0);
    assert_eq!(sys_unlinkat(&r, &b"nothing".to_vec()), -1);
}

fn expected_stat(ino: u8, nlink: u8, mode_hi: u8) -> Vec<u8> {
    let mut v = vec![0u8; STAT_SIZE];
    v[8] = ino;
    v[17] = mode_hi;
    v[20] = nlink;
    v
}

#[test]
fn fstat_writes_record_across_pages() {
    let t = vec![Some(RO)];
    let mut pieces = vec![vec![0xAAu8; 50], vec![0xAAu8; 40]];
    assert_eq!(sys_fstat(&t, 0, 5, 2, false, &mut pieces), 0);
    let flat: Vec<u8> = pieces.concat();
    assert_eq!(pieces[0].len(), 50);
    assert_eq!(pieces[1].len(), 40);
    assert_eq!(&flat[..80], &expected_stat(5, 2, 0x80)[..]);
    assert_eq!(&flat[80..], &[0xAAu8; 10][..]);
}

#[test]
fn fstat_directory_mode() {
    let t = vec![None, Some(RW)];
    let mut pieces = vec![vec![0u8; 80]];
    assert_eq!(sys_fstat(&t, 1, 1, 1, true, &mut pieces), 0);
    assert_eq!(pieces[0], expected_stat(1, 1, 0x40));
}

#[test]
fn copy_to_user_short_buffer() {
    let src = vec![1u8, 2, 3, 4, 5];
    let mut pieces = vec![vec![9u8; 2], vec![9u8; 2]];
    copy_to_user(&src, &mut pieces);
    assert_eq!(pieces, vec![vec![1, 2], vec![3, 4]]);
    let mut pieces = vec![vec![9u8; 3], vec![], vec![9u8; 4]];
    copy_to_user(&src, &mut pieces);
    assert_eq!(pieces, vec![vec![1, 2, 3], vec![], vec![4, 5, 9, 9]]);
}
