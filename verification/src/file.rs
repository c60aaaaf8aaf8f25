//! Portable file-operation types: the OS-agnostic metadata model, open-option
//! flags with their derived access-mode predicates, the portable seek origin,
//! directory entries with the `getdents64`-compatible record-length
//! computation, and the request/response structs of the message catalog.

use vstd::prelude::*;
use vstd::utf8::encode_utf8;

verus! {

/// Bitmask selecting the file-format field of a native `st_mode` value.
pub const S_IFMT: u32 = 0o170000;

/// Format bits of a symbolic link.
pub const S_IFLNK: u32 = 0o120000;

/// Format bits of a regular file.
pub const S_IFREG: u32 = 0o100000;

/// Format bits of a block device.
pub const S_IFBLK: u32 = 0o060000;

/// Format bits of a directory.
pub const S_IFDIR: u32 = 0o040000;

/// Format bits of a character device.
pub const S_IFCHR: u32 = 0o020000;

/// Format bits of a FIFO.
pub const S_IFIFO: u32 = 0o010000;

/// Format bits of a socket.
pub const S_IFSOCK: u32 = 0o140000;

/// Directory-entry type tag: unknown file type.
pub const DT_UNKNOWN: u8 = 0;

/// Directory-entry type tag: FIFO.
pub const DT_FIFO: u8 = 1;

/// Directory-entry type tag: character device.
pub const DT_CHR: u8 = 2;

/// Directory-entry type tag: directory.
pub const DT_DIR: u8 = 4;

/// Directory-entry type tag: block device.
pub const DT_BLK: u8 = 6;

/// Directory-entry type tag: regular file.
pub const DT_REG: u8 = 8;

/// Directory-entry type tag: symbolic link.
pub const DT_LNK: u8 = 10;

/// Directory-entry type tag: socket.
pub const DT_SOCK: u8 = 12;

/// The directory-entry type tag derived from a native `st_mode` value: the
/// mode's format field, masked by [`S_IFMT`], is the sole discriminator, and
/// every unrecognized bit pattern maps to [`DT_UNKNOWN`] rather than failing.
pub open spec fn spec_file_type_for_mode(mode: u32) -> u8 {
    let format = mode & S_IFMT;
    if format == S_IFLNK {
        DT_LNK
    } else if format == S_IFREG {
        DT_REG
    } else if format == S_IFBLK {
        DT_BLK
    } else if format == S_IFDIR {
        DT_DIR
    } else if format == S_IFCHR {
        DT_CHR
    } else if format == S_IFIFO {
        DT_FIFO
    } else if format == S_IFSOCK {
        DT_SOCK
    } else {
        DT_UNKNOWN
    }
}

/// Maps a native `st_mode` bit pattern to the portable directory-entry type
/// tag. Total: unrecognized format bits yield [`DT_UNKNOWN`], never an error.
pub fn file_type_for_mode(mode: u32) -> (tag: u8)
    ensures
        tag == spec_file_type_for_mode(mode),
{
    let format = mode & S_IFMT;
    if format == S_IFLNK {
        DT_LNK
    } else if format == S_IFREG {
        DT_REG
    } else if format == S_IFBLK {
        DT_BLK
    } else if format == S_IFDIR {
        DT_DIR
    } else if format == S_IFCHR {
        DT_CHR
    } else if format == S_IFIFO {
        DT_FIFO
    } else if format == S_IFSOCK {
        DT_SOCK
    } else {
        DT_UNKNOWN
    }
}

/// Unified `stat` result: the intersection of the attributes meaningful on
/// every supported operating system. Timestamps are nanosecond-resolution
/// signed integers (divisible by 1e9 to obtain seconds), kept signed to
/// preserve pre-epoch values.
#[derive(Debug, PartialEq, Eq, Clone, Copy, Default, Structural)]
pub struct MetadataInternal {
    /// dev_id, st_dev
    pub device_id: u64,
    /// inode, st_ino
    pub inode: u64,
    /// file type, st_mode
    pub mode: u32,
    /// number of hard links, st_nlink
    pub hard_links: u64,
    /// user id, st_uid
    pub user_id: u32,
    /// group id, st_gid
    pub group_id: u32,
    /// rdevice id, st_rdev (special file)
    pub rdevice_id: u64,
    /// file size, st_size
    pub size: u64,
    /// access time in nanoseconds, st_atime_ns
    pub access_time: i64,
    /// modification time in nanoseconds, st_mtime_ns
    pub modification_time: i64,
    /// creation time in nanoseconds, st_ctime_ns
    pub creation_time: i64,
    /// block size, st_blksize
    pub block_size: u64,
    /// number of blocks, st_blocks
    pub blocks: u64,
}

/// Unified `statfs` result. All counts are non-negative by construction
/// except the filesystem-type id, which is OS-defined and may be negative.
#[derive(Debug, PartialEq, Eq, Clone, Copy, Default, Structural)]
pub struct FsMetadataInternal {
    /// f_type
    pub filesystem_type: i64,
    /// f_bsize
    pub block_size: i64,
    /// f_blocks
    pub blocks: u64,
    /// f_bfree
    pub blocks_free: u64,
    /// f_bavail
    pub blocks_available: u64,
    /// f_files
    pub files: u64,
    /// f_ffree
    pub files_free: u64,
}

/// One directory entry of a remote directory stream. `position` is the
/// monotonically increasing cursor of the entry within its stream; `name` is
/// the entry name without the terminating null, lossily converted to UTF-8
/// from the native encoding by the caller that reads the native entry.
#[derive(Debug, PartialEq, Eq, Clone)]
pub struct DirEntryInternal {
    pub inode: u64,
    pub position: u64,
    pub name: String,
    pub file_type: u8,
}

/// The mathematical value of a [`DirEntryInternal`]: the same fields with the
/// name abstracted to its character sequence.
pub struct DirEntryView {
    pub inode: u64,
    pub position: u64,
    pub name: Seq<char>,
    pub file_type: u8,
}

impl View for DirEntryInternal {
    type V = DirEntryView;

    open spec fn view(&self) -> DirEntryView {
        DirEntryView {
            inode: self.inode,
            position: self.position,
            name: self.name@,
            file_type: self.file_type,
        }
    }
}

/// Rounds up to the next multiple of 8, as an integer function: the value of
/// `(x + 7) & !7`. Note that 0 rounds to 0, not 8.
pub open spec fn spec_round_up_to_next_multiple_of_8(x: int) -> int {
    ((x + 7) / 8) * 8
}

/// The `d_reclen` a `linux_dirent64` record with this name would occupy: the
/// 19 bytes of fixed-size members plus the terminating null of the name, plus
/// the UTF-8 byte length of the name, rounded up to a multiple of 8.
pub open spec fn spec_d_reclen64(name: Seq<char>) -> int {
    spec_round_up_to_next_multiple_of_8(20 + encode_utf8(name).len() as int)
}

impl DirEntryInternal {
    /// Builds the portable entry for a native directory entry read at `offset`
    /// within its stream, deriving the type tag from the entry's `st_mode`.
    pub fn from_offset_and_mode(offset: u64, inode: u64, name: String, mode: u32) -> (entry: Self)
        ensures
            entry.inode == inode,
            entry.position == offset,
            entry.name@ == name@,
            entry.file_type == spec_file_type_for_mode(mode),
    {
        DirEntryInternal { inode, position: offset, name, file_type: file_type_for_mode(mode) }
    }

    /// Calculate the `d_reclen` field of the kernel's `linux_dirent64` struct.
    /// The actual size of an instance is not `sizeof(linux_dirent64)`, since it
    /// contains a flexible array member.
    /// This function calculates the expected `d_reclen` assuming:
    /// ```C
    /// sizeof(ino64_t) == 8
    /// sizeof(off64_t) == 8
    /// sizeof(unsigned short) == 2
    /// sizeof(unsinged char) == 1
    /// ```
    pub fn get_d_reclen64(&self) -> (reclen: u16)
        requires
            encode_utf8(self.name@).len() <= 65508,
        ensures
            reclen == spec_d_reclen64(self.name@),
    {
        // The 20 is for 19 bytes of fixed size members + the terminating null
        // of the string.
        Self::round_up_to_next_multiple_of_8(20 + self.name.as_str().len() as u16)
    }

    /// Rounds up to the next multiple of 8, with 0 rounding to 0 (not 8): the
    /// record length of an entry with an empty name is 24, not 32.
    pub fn round_up_to_next_multiple_of_8(x: u16) -> (r: u16)
        requires
            x <= 65528,
        ensures
            r == spec_round_up_to_next_multiple_of_8(x as int),
    {
        let y = x + 7;
        assert((y & !7) == (y / 8) * 8) by (bit_vector);
        y & !7
    }
}

/// Portable open-flag set, logically equivalent to the union of native
/// open-mode flags. No combination is pre-validated here; flag-combination
/// errors surface only when the native open call is attempted.
#[derive(Debug, PartialEq, Eq, Clone, Copy, Default, Structural)]
pub struct OpenOptionsInternal {
    pub read: bool,
    pub write: bool,
    pub append: bool,
    pub truncate: bool,
    pub create: bool,
    pub create_new: bool,
}

impl OpenOptionsInternal {
    /// True iff `read` is set and no writing-class flag is set.
    pub open spec fn spec_is_read_only(&self) -> bool {
        self.read && !(self.write || self.append || self.truncate || self.create
            || self.create_new)
    }

    /// True iff any writing-class flag is set.
    pub open spec fn spec_is_write(&self) -> bool {
        self.write || self.append || self.truncate || self.create || self.create_new
    }

    pub fn is_read_only(&self) -> (r: bool)
        ensures
            r == self.spec_is_read_only(),
    {
        self.read && !(self.write || self.append || self.truncate || self.create
            || self.create_new)
    }

    pub fn is_write(&self) -> (r: bool)
        ensures
            r == self.spec_is_write(),
    {
        self.write || self.append || self.truncate || self.create || self.create_new
    }
}

/// An open-flag set is never classified as both read-only and writing, and
/// when all six flags are false it is classified as neither.
pub proof fn lemma_open_options_classification(o: OpenOptionsInternal)
    ensures
        !(o.spec_is_read_only() && o.spec_is_write()),
        (!o.read && !o.write && !o.append && !o.truncate && !o.create && !o.create_new)
            ==> !o.spec_is_read_only() && !o.spec_is_write(),
{
}

/// Portable seek origin, mirroring the native three-variant seek type. The
/// offset sign convention matches the native semantics for each origin and
/// offsets pass through unchanged.
#[derive(Debug, PartialEq, Eq, Clone, Copy, Structural)]
pub enum SeekFromInternal {
    Start(u64),
    End(i64),
    Current(i64),
}

#[derive(Debug, PartialEq, Eq, Clone)]
pub struct OpenFileRequest {
    pub path: String,
    pub open_options: OpenOptionsInternal,
}

#[derive(Debug, PartialEq, Eq, Clone)]
pub struct OpenFileResponse {
    pub fd: u64,
}

#[derive(Debug, PartialEq, Eq, Clone)]
pub struct OpenRelativeFileRequest {
    pub relative_fd: u64,
    pub path: String,
    pub open_options: OpenOptionsInternal,
}

#[derive(Debug, PartialEq, Eq, Clone)]
pub struct ReadFileRequest {
    pub remote_fd: u64,
    pub buffer_size: u64,
}

/// A chunk read from a remote file. Deliberately carries no `Debug`
/// derivation: its log representation must report only the byte count, never
/// the raw contents.
#[derive(PartialEq, Eq, Clone)]
pub struct ReadFileResponse {
    pub bytes: Vec<u8>,
    pub read_amount: u64,
}

/// The contents of the symbolic link.
#[derive(Debug, PartialEq, Eq, Clone)]
pub struct ReadLinkFileResponse {
    pub path: String,
}

#[derive(Debug, PartialEq, Eq, Clone)]
pub struct MakeDirRequest {
    pub pathname: String,
    pub mode: u32,
}

/// Directory-creation outcome: embeds the native `result`/`errno` pair
/// explicitly, preserving native errno semantics end-to-end instead of
/// mapping them into a typed error.
#[derive(Debug, PartialEq, Eq, Clone)]
pub struct MakeDirResponse {
    pub result: i32,
    pub errno: i32,
}

#[derive(Debug, PartialEq, Eq, Clone)]
pub struct MakeDirAtRequest {
    pub dirfd: i32,
    pub pathname: String,
    pub mode: u32,
}

#[derive(Debug, PartialEq, Eq, Clone)]
pub struct MakeDirAtResponse {
    pub result: i32,
    pub errno: i32,
}

#[derive(Debug, PartialEq, Eq, Clone)]
pub struct ReadLimitedFileRequest {
    pub remote_fd: u64,
    pub buffer_size: u64,
    pub start_from: u64,
}

/// `path` of the symbolic link we want to resolve.
#[derive(Debug, PartialEq, Eq, Clone)]
pub struct ReadLinkFileRequest {
    pub path: String,
}

#[derive(Debug, PartialEq, Eq, Clone)]
pub struct SeekFileRequest {
    pub fd: u64,
    pub seek_from: SeekFromInternal,
}

#[derive(Debug, PartialEq, Eq, Clone)]
pub struct SeekFileResponse {
    pub result_offset: u64,
}

/// Bytes to write to a remote file. Deliberately carries no `Debug`
/// derivation: its log representation must report only the byte count, never
/// the raw contents.
#[derive(PartialEq, Eq, Clone)]
pub struct WriteFileRequest {
    pub fd: u64,
    pub write_bytes: Vec<u8>,
}

#[derive(Debug, PartialEq, Eq, Clone)]
pub struct WriteFileResponse {
    pub written_amount: u64,
}

#[derive(PartialEq, Eq, Clone)]
pub struct WriteLimitedFileRequest {
    pub remote_fd: u64,
    pub start_from: u64,
    pub write_bytes: Vec<u8>,
}

#[derive(Debug, PartialEq, Eq, Clone)]
pub struct CloseFileRequest {
    pub fd: u64,
}

#[derive(Debug, PartialEq, Eq, Clone)]
pub struct AccessFileRequest {
    pub pathname: String,
    pub mode: u8,
}

#[derive(Debug, PartialEq, Eq, Clone)]
pub struct AccessFileResponse;

#[derive(Debug, PartialEq, Eq, Clone)]
pub struct XstatRequest {
    pub path: Option<String>,
    pub fd: Option<u64>,
    pub follow_symlink: bool,
}

#[derive(Debug, PartialEq, Eq, Clone)]
pub struct XstatFsRequest {
    pub fd: u64,
}

#[derive(Debug, PartialEq, Eq, Clone)]
pub struct XstatResponse {
    pub metadata: MetadataInternal,
}

#[derive(Debug, PartialEq, Eq, Clone)]
pub struct XstatFsResponse {
    pub metadata: FsMetadataInternal,
}

#[derive(Debug, PartialEq, Eq, Clone)]
pub struct FdOpenDirRequest {
    pub remote_fd: u64,
}

#[derive(Debug, PartialEq, Eq, Clone)]
pub struct OpenDirResponse {
    pub fd: u64,
}

#[derive(Debug, PartialEq, Eq, Clone)]
pub struct ReadDirRequest {
    pub remote_fd: u64,
}

/// `readdir` message that requests an iterable with `amount` items from the
/// agent.
#[derive(Debug, PartialEq, Eq, Clone)]
pub struct ReadDirBatchRequest {
    /// The fd of the dir in the agent.
    pub remote_fd: u64,
    /// Max amount to take from the agent's iterator of dirs.
    pub amount: usize,
}

#[derive(Debug, PartialEq, Eq, Clone)]
pub struct ReadDirResponse {
    pub direntry: Option<DirEntryInternal>,
}

/// `readdir` response with the list of items (length depends on the
/// [`ReadDirBatchRequest`]'s `amount`), and the `remote_fd` of the dir (for
/// convenience).
#[derive(Debug, PartialEq, Eq, Clone)]
pub struct ReadDirBatchResponse {
    /// Remote fd of the dir.
    pub fd: u64,
    /// The list of [`DirEntryInternal`] where `length` is, at max, the
    /// `amount` we took from the agent's read dir iterator.
    pub dir_entries: Vec<DirEntryInternal>,
}

#[derive(Debug, PartialEq, Eq, Clone)]
pub struct CloseDirRequest {
    pub remote_fd: u64,
}

#[derive(Debug, PartialEq, Eq, Clone)]
pub struct GetDEnts64Request {
    pub remote_fd: u64,
    pub buffer_size: u64,
}

#[derive(Debug, PartialEq, Eq, Clone)]
pub struct GetDEnts64Response {
    pub fd: u64,
    pub entries: Vec<DirEntryInternal>,
    pub result_size: u64,
}

} // verus!
