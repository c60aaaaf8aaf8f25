//! The portable file model: open-option classification, the dirent
//! record-length formula, the file-type mapping, and the version gate.

use fsproto::file::{DirEntryInternal, OpenOptionsInternal};
use fsproto::version::NegotiatedVersion;

fn options_from_bits(bits: u32) -> OpenOptionsInternal {
    OpenOptionsInternal {
        read: bits & 1 != 0,
        write: bits & 2 != 0,
        append: bits & 4 != 0,
        truncate: bits & 8 != 0,
        create: bits & 16 != 0,
        create_new: bits & 32 != 0,
    }
}

#[test]
fn open_options_never_both_read_only_and_write() {
    for bits in 0..64u32 {
        let o = options_from_bits(bits);
        assert!(!(o.is_read_only() && o.is_write()));
    }
}

#[test]
fn open_options_all_false_is_neither() {
    let o = OpenOptionsInternal::default();
    assert!(!o.is_read_only());
    assert!(!o.is_write());
}

#[test]
fn open_options_classification() {
    let read_only = OpenOptionsInternal { read: true, ..Default::default() };
    assert!(read_only.is_read_only());
    assert!(!read_only.is_write());

    let append_only = OpenOptionsInternal { append: true, ..Default::default() };
    assert!(!append_only.is_read_only());
    assert!(append_only.is_write());

    let read_write = OpenOptionsInternal { read: true, write: true, ..Default::default() };
    assert!(!read_write.is_read_only());
    assert!(read_write.is_write());
}

#[test]
fn round_up_to_next_multiple_of_8_values() {
    assert_eq!(DirEntryInternal::round_up_to_next_multiple_of_8(0), 0);
    assert_eq!(DirEntryInternal::round_up_to_next_multiple_of_8(1), 8);
    assert_eq!(DirEntryInternal::round_up_to_next_multiple_of_8(8), 8);
    assert_eq!(DirEntryInternal::round_up_to_next_multiple_of_8(21), 24);
}

#[test]
fn d_reclen64_of_named_entry() {
    let entry = DirEntryInternal {
        inode: 1,
        position: 0,
        name: "file.txt".to_string(),
        file_type: fsproto::file::DT_REG,
    };
    assert_eq!(entry.get_d_reclen64(), 32);
}

#[test]
fn d_reclen64_of_empty_name() {
    let entry = DirEntryInternal {
        inode: 1,
        position: 0,
        name: String::new(),
        file_type: fsproto::file::DT_UNKNOWN,
    };
    assert_eq!(entry.get_d_reclen64(), 24);
}

#[test]
fn file_type_mapping_matches_native_constants() {
    assert_eq!(fsproto::file::S_IFMT, libc::S_IFMT);
    assert_eq!(fsproto::file::S_IFLNK, libc::S_IFLNK);
    assert_eq!(fsproto::file::S_IFREG, libc::S_IFREG);
    assert_eq!(fsproto::file::S_IFBLK, libc::S_IFBLK);
    assert_eq!(fsproto::file::S_IFDIR, libc::S_IFDIR);
    assert_eq!(fsproto::file::S_IFCHR, libc::S_IFCHR);
    assert_eq!(fsproto::file::S_IFIFO, libc::S_IFIFO);
    assert_eq!(fsproto::file::S_IFSOCK, libc::S_IFSOCK);
    assert_eq!(fsproto::file::DT_LNK, libc::DT_LNK);
    assert_eq!(fsproto::file::DT_REG, libc::DT_REG);
    assert_eq!(fsproto::file::DT_BLK, libc::DT_BLK);
    assert_eq!(fsproto::file::DT_DIR, libc::DT_DIR);
    assert_eq!(fsproto::file::DT_CHR, libc::DT_CHR);
    assert_eq!(fsproto::file::DT_FIFO, libc::DT_FIFO);
    assert_eq!(fsproto::file::DT_SOCK, libc::DT_SOCK);
    assert_eq!(fsproto::file::DT_UNKNOWN, libc::DT_UNKNOWN);
}

#[test]
fn file_type_for_symbolic_link_mode() {
    let mode = libc::S_IFLNK | 0o777;
    assert_eq!(fsproto::file::file_type_for_mode(mode), libc::DT_LNK);
}

#[test]
fn file_type_for_each_format() {
    assert_eq!(fsproto::file::file_type_for_mode(libc::S_IFREG | 0o644), libc::DT_REG);
    assert_eq!(fsproto::file::file_type_for_mode(libc::S_IFBLK | 0o600), libc::DT_BLK);
    assert_eq!(fsproto::file::file_type_for_mode(libc::S_IFDIR | 0o755), libc::DT_DIR);
    assert_eq!(fsproto::file::file_type_for_mode(libc::S_IFCHR | 0o600), libc::DT_CHR);
    assert_eq!(fsproto::file::file_type_for_mode(libc::S_IFIFO | 0o600), libc::DT_FIFO);
    assert_eq!(fsproto::file::file_type_for_mode(libc::S_IFSOCK | 0o700), libc::DT_SOCK);
}

#[test]
fn unknown_format_maps_to_unknown_tag() {
    // 0o150000 is no defined file format; the mapping must not fail.
    assert_eq!(fsproto::file::file_type_for_mode(0o150000), fsproto::file::DT_UNKNOWN);
    assert_eq!(fsproto::file::file_type_for_mode(0), fsproto::file::DT_UNKNOWN);
}

#[test]
fn dir_entry_from_offset_and_mode() {
    let entry = DirEntryInternal::from_offset_and_mode(
        3,
        42,
        "link".to_string(),
        libc::S_IFLNK | 0o777,
    );
    assert_eq!(entry.position, 3);
    assert_eq!(entry.inode, 42);
    assert_eq!(entry.name, "link");
    assert_eq!(entry.file_type, libc::DT_LNK);
}

#[test]
fn version_gate_readdir_batch() {
    let allowed = NegotiatedVersion { major: 1, minor: 9, patch: 0 };
    let rejected = NegotiatedVersion { major: 1, minor: 8, patch: 9 };
    assert!(allowed.allows_readdir_batch());
    assert!(!rejected.allows_readdir_batch());
}

#[test]
fn version_gate_mkdir() {
    let allowed = NegotiatedVersion { major: 1, minor: 12, patch: 0 };
    let rejected = NegotiatedVersion { major: 1, minor: 11, patch: 9 };
    assert!(allowed.allows_mkdir());
    assert!(!rejected.allows_mkdir());
}

#[test]
fn version_gate_higher_major_allows_all() {
    let v2 = NegotiatedVersion { major: 2, minor: 0, patch: 0 };
    assert!(v2.allows_readdir_batch());
    assert!(v2.allows_mkdir());
}
