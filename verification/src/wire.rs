//! Wire layout of the message catalog. Every request and response has a
//! fixed, versioned binary schema: its fields in declaration order, laid out
//! with the primitives of [`crate::codec`]. For each message the spec
//! function states the layout, the encoder is proved to produce it, and the
//! decoder is proved to accept exactly the well-formed layouts and to return
//! the value laid out — so decoding inverts encoding, for every message type.

use vstd::prelude::*;

use crate::codec::DecodeError;
use crate::codec::bytes_fit;
use crate::codec::lemma_bool_unique;
use crate::codec::lemma_bytes_unique;
use crate::codec::lemma_i32_unique;
use crate::codec::lemma_i64_unique;
use crate::codec::lemma_piece_join;
use crate::codec::lemma_piece_self;
use crate::codec::lemma_piece_split;
use crate::codec::lemma_piece_whole;
use crate::codec::lemma_str_unique;
use crate::codec::lemma_u32_unique;
use crate::codec::lemma_u64_unique;
use crate::codec::lemma_u8_unique;
use crate::codec::piece_at;
use crate::codec::read_bool;
use crate::codec::read_bytes;
use crate::codec::read_i32;
use crate::codec::read_i64;
use crate::codec::read_string;
use crate::codec::read_u32;
use crate::codec::read_u64;
use crate::codec::read_u8;
use crate::codec::spec_enc_bool;
use crate::codec::spec_enc_bytes;
use crate::codec::spec_enc_i32;
use crate::codec::spec_enc_i64;
use crate::codec::spec_enc_str;
use crate::codec::spec_enc_u32;
use crate::codec::spec_enc_u64;
use crate::codec::spec_enc_u8;
use crate::codec::str_fits;
use crate::codec::write_bool;
use crate::codec::write_bytes;
use crate::codec::write_i32;
use crate::codec::write_i64;
use crate::codec::write_str;
use crate::codec::write_u32;
use crate::codec::write_u64;
use crate::codec::write_u8;
use crate::file::AccessFileRequest;
use crate::file::AccessFileResponse;
use crate::file::CloseDirRequest;
use crate::file::CloseFileRequest;
use crate::file::DirEntryInternal;
use crate::file::DirEntryView;
use crate::file::FdOpenDirRequest;
use crate::file::FsMetadataInternal;
use crate::file::GetDEnts64Request;
use crate::file::GetDEnts64Response;
use crate::file::MakeDirAtRequest;
use crate::file::MakeDirAtResponse;
use crate::file::MakeDirRequest;
use crate::file::MakeDirResponse;
use crate::file::MetadataInternal;
use crate::file::OpenDirResponse;
use crate::file::OpenFileRequest;
use crate::file::OpenFileResponse;
use crate::file::OpenOptionsInternal;
use crate::file::OpenRelativeFileRequest;
use crate::file::ReadDirBatchRequest;
use crate::file::ReadDirBatchResponse;
use crate::file::ReadDirRequest;
use crate::file::ReadDirResponse;
use crate::file::ReadFileRequest;
use crate::file::ReadFileResponse;
use crate::file::ReadLimitedFileRequest;
use crate::file::ReadLinkFileRequest;
use crate::file::ReadLinkFileResponse;
use crate::file::SeekFileRequest;
use crate::file::SeekFileResponse;
use crate::file::SeekFromInternal;
use crate::file::WriteFileRequest;
use crate::file::WriteFileResponse;
use crate::file::WriteLimitedFileRequest;
use crate::file::XstatFsRequest;
use crate::file::XstatFsResponse;
use crate::file::XstatRequest;
use crate::file::XstatResponse;

verus! {

// ---------------------------------------------------------------------------
// Open options: six single-byte booleans in declaration order.
// ---------------------------------------------------------------------------

/// The byte a boolean flag occupies on the wire.
pub open spec fn spec_flag_byte(b: bool) -> u8 {
    if b {
        1u8
    } else {
        0u8
    }
}

/// Byte layout of an open-flag set: one byte per flag, in declaration order.
pub open spec fn spec_enc_open_options(o: OpenOptionsInternal) -> Seq<u8> {
    seq![
        spec_flag_byte(o.read),
        spec_flag_byte(o.write),
        spec_flag_byte(o.append),
        spec_flag_byte(o.truncate),
        spec_flag_byte(o.create),
        spec_flag_byte(o.create_new),
    ]
}

/// Two open-option pieces at one position carry one flag set.
pub proof fn lemma_open_options_unique(
    s: Seq<u8>,
    at: int,
    a: OpenOptionsInternal,
    b: OpenOptionsInternal,
)
    requires
        piece_at(s, at, spec_enc_open_options(a)),
        piece_at(s, at, spec_enc_open_options(b)),
    ensures
        a == b,
{
    let ea = spec_enc_open_options(a);
    let eb = spec_enc_open_options(b);
    assert(ea[0] == eb[0] && ea[1] == eb[1] && ea[2] == eb[2] && ea[3] == eb[3] && ea[4] == eb[4]
        && ea[5] == eb[5]);
}

/// Appends the layout of an open-flag set.
pub fn write_open_options(out: &mut Vec<u8>, o: &OpenOptionsInternal)
    ensures
        final(out)@ == old(out)@ + spec_enc_open_options(*o),
{
    write_bool(out, o.read);
    write_bool(out, o.write);
    write_bool(out, o.append);
    write_bool(out, o.truncate);
    write_bool(out, o.create);
    write_bool(out, o.create_new);
    assert(out@ =~= old(out)@ + spec_enc_open_options(*o));
}

/// The layout of an open-flag set pins each of its six bytes.
proof fn lemma_open_options_bytes(s: Seq<u8>, at: int, o: OpenOptionsInternal)
    requires
        piece_at(s, at, spec_enc_open_options(o)),
    ensures
        at + 6 <= s.len(),
        s[at] == spec_flag_byte(o.read),
        s[at + 1] == spec_flag_byte(o.write),
        s[at + 2] == spec_flag_byte(o.append),
        s[at + 3] == spec_flag_byte(o.truncate),
        s[at + 4] == spec_flag_byte(o.create),
        s[at + 5] == spec_flag_byte(o.create_new),
{
    let sub = s.subrange(at, at + 6);
    assert(s[at] == sub[0] && s[at + 1] == sub[1] && s[at + 2] == sub[2] && s[at + 3] == sub[3]
        && s[at + 4] == sub[4] && s[at + 5] == sub[5]);
}

/// Reads the open-flag set standing at `at`. Fails exactly when no flag-set
/// layout stands there.
#[verifier::rlimit(50)]
pub fn read_open_options(bytes: &Vec<u8>, at: usize) -> (r: Result<
    (OpenOptionsInternal, usize),
    DecodeError,
>)
    ensures
        match r {
            Ok((o, end)) => piece_at(bytes@, at as int, spec_enc_open_options(o)) && end == at + 6,
            Err(_) => at + 6 > bytes@.len() || bytes@[at as int] > 1 || bytes@[at + 1] > 1
                || bytes@[at + 2] > 1 || bytes@[at + 3] > 1 || bytes@[at + 4] > 1 || bytes@[at + 5]
                > 1,
        },
{
    if bytes.len() < 6 || at > bytes.len() - 6 {
        return Err(DecodeError);
    }
    let b0 = bytes[at];
    let b1 = bytes[at + 1];
    let b2 = bytes[at + 2];
    let b3 = bytes[at + 3];
    let b4 = bytes[at + 4];
    let b5 = bytes[at + 5];
    if b0 > 1 || b1 > 1 || b2 > 1 || b3 > 1 || b4 > 1 || b5 > 1 {
        return Err(DecodeError);
    }
    let o = OpenOptionsInternal {
        read: b0 == 1,
        write: b1 == 1,
        append: b2 == 1,
        truncate: b3 == 1,
        create: b4 == 1,
        create_new: b5 == 1,
    };
    proof {
        assert(bytes@.subrange(at as int, at as int + 6) =~= spec_enc_open_options(o));
    }
    Ok((o, at + 6))
}

// ---------------------------------------------------------------------------
// Seek origin: a one-byte variant tag, then the 8-byte offset.
// ---------------------------------------------------------------------------

/// Byte layout of a portable seek origin: tag 0 carries `Start`, 1 carries
/// `End`, 2 carries `Current`; the offset follows, unchanged.
pub open spec fn spec_enc_seek(s: SeekFromInternal) -> Seq<u8> {
    match s {
        SeekFromInternal::Start(x) => spec_enc_u8(0) + spec_enc_u64(x),
        SeekFromInternal::End(x) => spec_enc_u8(1) + spec_enc_i64(x),
        SeekFromInternal::Current(x) => spec_enc_u8(2) + spec_enc_i64(x),
    }
}

/// The tag byte of a seek layout.
proof fn lemma_seek_pieces(s: Seq<u8>, at: int, v: SeekFromInternal)
    requires
        piece_at(s, at, spec_enc_seek(v)),
    ensures
        piece_at(
            s,
            at,
            spec_enc_u8(
                match v {
                    SeekFromInternal::Start(_) => 0u8,
                    SeekFromInternal::End(_) => 1u8,
                    SeekFromInternal::Current(_) => 2u8,
                },
            ),
        ),
        match v {
            SeekFromInternal::Start(x) => piece_at(s, at + 1, spec_enc_u64(x)),
            SeekFromInternal::End(x) => piece_at(s, at + 1, spec_enc_i64(x)),
            SeekFromInternal::Current(x) => piece_at(s, at + 1, spec_enc_i64(x)),
        },
{
    match v {
        SeekFromInternal::Start(x) => {
            lemma_piece_split(s, at, spec_enc_u8(0), spec_enc_u64(x));
        },
        SeekFromInternal::End(x) => {
            lemma_piece_split(s, at, spec_enc_u8(1), spec_enc_i64(x));
        },
        SeekFromInternal::Current(x) => {
            lemma_piece_split(s, at, spec_enc_u8(2), spec_enc_i64(x));
        },
    }
}

/// Two seek pieces at one position carry one origin.
pub proof fn lemma_seek_unique(s: Seq<u8>, at: int, a: SeekFromInternal, b: SeekFromInternal)
    requires
        piece_at(s, at, spec_enc_seek(a)),
        piece_at(s, at, spec_enc_seek(b)),
    ensures
        a == b,
{
    lemma_seek_pieces(s, at, a);
    lemma_seek_pieces(s, at, b);
    let ta = match a {
        SeekFromInternal::Start(_) => 0u8,
        SeekFromInternal::End(_) => 1u8,
        SeekFromInternal::Current(_) => 2u8,
    };
    let tb = match b {
        SeekFromInternal::Start(_) => 0u8,
        SeekFromInternal::End(_) => 1u8,
        SeekFromInternal::Current(_) => 2u8,
    };
    lemma_u8_unique(s, at, ta, tb);
    match a {
        SeekFromInternal::Start(x) => {
            match b {
                SeekFromInternal::Start(y) => {
                    lemma_u64_unique(s, at + 1, x, y);
                },
                _ => {},
            }
        },
        SeekFromInternal::End(x) => {
            match b {
                SeekFromInternal::End(y) => {
                    lemma_i64_unique(s, at + 1, x, y);
                },
                _ => {},
            }
        },
        SeekFromInternal::Current(x) => {
            match b {
                SeekFromInternal::Current(y) => {
                    lemma_i64_unique(s, at + 1, x, y);
                },
                _ => {},
            }
        },
    }
}

/// Appends the layout of a seek origin.
pub fn write_seek(out: &mut Vec<u8>, s: &SeekFromInternal)
    ensures
        final(out)@ == old(out)@ + spec_enc_seek(*s),
{
    match s {
        SeekFromInternal::Start(x) => {
            write_u8(out, 0);
            write_u64(out, *x);
        },
        SeekFromInternal::End(x) => {
            write_u8(out, 1);
            write_i64(out, *x);
        },
        SeekFromInternal::Current(x) => {
            write_u8(out, 2);
            write_i64(out, *x);
        },
    }
    assert(out@ =~= old(out)@ + spec_enc_seek(*s));
}

/// Reads the seek origin standing at `at`. Fails exactly when no seek layout
/// stands there: too few bytes, or a tag byte other than 0, 1 or 2.
pub fn read_seek(bytes: &Vec<u8>, at: usize) -> (r: Result<(SeekFromInternal, usize), DecodeError>)
    ensures
        match r {
            Ok((v, end)) => piece_at(bytes@, at as int, spec_enc_seek(v)) && end == at + 9,
            Err(_) => forall|v: SeekFromInternal| !piece_at(bytes@, at as int, spec_enc_seek(v)),
        },
{
    let (tag, p1) = match read_u8(bytes, at) {
        Ok(ok) => ok,
        Err(e) => {
            proof {
                assert forall|v: SeekFromInternal|
                    !piece_at(bytes@, at as int, spec_enc_seek(v)) by {
                    if piece_at(bytes@, at as int, spec_enc_seek(v)) {
                        lemma_seek_pieces(bytes@, at as int, v);
                    }
                }
            }
            return Err(e);
        },
    };
    if tag == 0 {
        match read_u64(bytes, p1) {
            Ok((x, end)) => {
                proof {
                    lemma_piece_join(bytes@, at as int, spec_enc_u8(0), spec_enc_u64(x));
                }
                Ok((SeekFromInternal::Start(x), end))
            },
            Err(e) => {
                proof {
                    assert forall|v: SeekFromInternal|
                        !piece_at(bytes@, at as int, spec_enc_seek(v)) by {
                        if piece_at(bytes@, at as int, spec_enc_seek(v)) {
                            lemma_seek_pieces(bytes@, at as int, v);
                        }
                    }
                }
                Err(e)
            },
        }
    } else if tag == 1 {
        match read_i64(bytes, p1) {
            Ok((x, end)) => {
                proof {
                    lemma_piece_join(bytes@, at as int, spec_enc_u8(1), spec_enc_i64(x));
                }
                Ok((SeekFromInternal::End(x), end))
            },
            Err(e) => {
                proof {
                    assert forall|v: SeekFromInternal|
                        !piece_at(bytes@, at as int, spec_enc_seek(v)) by {
                        if piece_at(bytes@, at as int, spec_enc_seek(v)) {
                            lemma_seek_pieces(bytes@, at as int, v);
                        }
                    }
                }
                Err(e)
            },
        }
    } else if tag == 2 {
        match read_i64(bytes, p1) {
            Ok((x, end)) => {
                proof {
                    lemma_piece_join(bytes@, at as int, spec_enc_u8(2), spec_enc_i64(x));
                }
                Ok((SeekFromInternal::Current(x), end))
            },
            Err(e) => {
                proof {
                    assert forall|v: SeekFromInternal|
                        !piece_at(bytes@, at as int, spec_enc_seek(v)) by {
                        if piece_at(bytes@, at as int, spec_enc_seek(v)) {
                            lemma_seek_pieces(bytes@, at as int, v);
                        }
                    }
                }
                Err(e)
            },
        }
    } else {
        proof {
            assert forall|v: SeekFromInternal| !piece_at(bytes@, at as int, spec_enc_seek(v)) by {
                if piece_at(bytes@, at as int, spec_enc_seek(v)) {
                    lemma_seek_pieces(bytes@, at as int, v);
                    let tv = match v {
                        SeekFromInternal::Start(_) => 0u8,
                        SeekFromInternal::End(_) => 1u8,
                        SeekFromInternal::Current(_) => 2u8,
                    };
                    lemma_u8_unique(bytes@, at as int, tag, tv);
                }
            }
        }
        Err(DecodeError)
    }
}

// ---------------------------------------------------------------------------
// Metadata: thirteen fixed-width integers in declaration order, 92 bytes.
// ---------------------------------------------------------------------------

/// Byte layout of a unified `stat` result.
pub open spec fn spec_enc_metadata(m: MetadataInternal) -> Seq<u8> {
    spec_enc_u64(m.device_id) + spec_enc_u64(m.inode) + spec_enc_u32(m.mode) + spec_enc_u64(
        m.hard_links,
    ) + spec_enc_u32(m.user_id) + spec_enc_u32(m.group_id) + spec_enc_u64(m.rdevice_id)
        + spec_enc_u64(m.size) + spec_enc_i64(m.access_time) + spec_enc_i64(m.modification_time)
        + spec_enc_i64(m.creation_time) + spec_enc_u64(m.block_size) + spec_enc_u64(m.blocks)
}

/// The layout of a metadata value splits into one piece per field.
proof fn lemma_metadata_pieces(s: Seq<u8>, at: int, m: MetadataInternal)
    requires
        piece_at(s, at, spec_enc_metadata(m)),
    ensures
        piece_at(s, at, spec_enc_u64(m.device_id)),
        piece_at(s, at + 8, spec_enc_u64(m.inode)),
        piece_at(s, at + 16, spec_enc_u32(m.mode)),
        piece_at(s, at + 20, spec_enc_u64(m.hard_links)),
        piece_at(s, at + 28, spec_enc_u32(m.user_id)),
        piece_at(s, at + 32, spec_enc_u32(m.group_id)),
        piece_at(s, at + 36, spec_enc_u64(m.rdevice_id)),
        piece_at(s, at + 44, spec_enc_u64(m.size)),
        piece_at(s, at + 52, spec_enc_i64(m.access_time)),
        piece_at(s, at + 60, spec_enc_i64(m.modification_time)),
        piece_at(s, at + 68, spec_enc_i64(m.creation_time)),
        piece_at(s, at + 76, spec_enc_u64(m.block_size)),
        piece_at(s, at + 84, spec_enc_u64(m.blocks)),
{
    let e1 = spec_enc_u64(m.device_id);
    let e2 = spec_enc_u64(m.inode);
    let e3 = spec_enc_u32(m.mode);
    let e4 = spec_enc_u64(m.hard_links);
    let e5 = spec_enc_u32(m.user_id);
    let e6 = spec_enc_u32(m.group_id);
    let e7 = spec_enc_u64(m.rdevice_id);
    let e8 = spec_enc_u64(m.size);
    let e9 = spec_enc_i64(m.access_time);
    let e10 = spec_enc_i64(m.modification_time);
    let e11 = spec_enc_i64(m.creation_time);
    let e12 = spec_enc_u64(m.block_size);
    let e13 = spec_enc_u64(m.blocks);
    lemma_piece_split(s, at, e1 + e2 + e3 + e4 + e5 + e6 + e7 + e8 + e9 + e10 + e11 + e12, e13);
    lemma_piece_split(s, at, e1 + e2 + e3 + e4 + e5 + e6 + e7 + e8 + e9 + e10 + e11, e12);
    lemma_piece_split(s, at, e1 + e2 + e3 + e4 + e5 + e6 + e7 + e8 + e9 + e10, e11);
    lemma_piece_split(s, at, e1 + e2 + e3 + e4 + e5 + e6 + e7 + e8 + e9, e10);
    lemma_piece_split(s, at, e1 + e2 + e3 + e4 + e5 + e6 + e7 + e8, e9);
    lemma_piece_split(s, at, e1 + e2 + e3 + e4 + e5 + e6 + e7, e8);
    lemma_piece_split(s, at, e1 + e2 + e3 + e4 + e5 + e6, e7);
    lemma_piece_split(s, at, e1 + e2 + e3 + e4 + e5, e6);
    lemma_piece_split(s, at, e1 + e2 + e3 + e4, e5);
    lemma_piece_split(s, at, e1 + e2 + e3, e4);
    lemma_piece_split(s, at, e1 + e2, e3);
    lemma_piece_split(s, at, e1, e2);
}

/// Two metadata pieces at one position carry one value.
#[verifier::rlimit(50)]
pub proof fn lemma_metadata_unique(s: Seq<u8>, at: int, a: MetadataInternal, b: MetadataInternal)
    requires
        piece_at(s, at, spec_enc_metadata(a)),
        piece_at(s, at, spec_enc_metadata(b)),
    ensures
        a == b,
{
    lemma_metadata_pieces(s, at, a);
    lemma_metadata_pieces(s, at, b);
    lemma_u64_unique(s, at, a.device_id, b.device_id);
    lemma_u64_unique(s, at + 8, a.inode, b.inode);
    lemma_u32_unique(s, at + 16, a.mode, b.mode);
    lemma_u64_unique(s, at + 20, a.hard_links, b.hard_links);
    lemma_u32_unique(s, at + 28, a.user_id, b.user_id);
    lemma_u32_unique(s, at + 32, a.group_id, b.group_id);
    lemma_u64_unique(s, at + 36, a.rdevice_id, b.rdevice_id);
    lemma_u64_unique(s, at + 44, a.size, b.size);
    lemma_i64_unique(s, at + 52, a.access_time, b.access_time);
    lemma_i64_unique(s, at + 60, a.modification_time, b.modification_time);
    lemma_i64_unique(s, at + 68, a.creation_time, b.creation_time);
    lemma_u64_unique(s, at + 76, a.block_size, b.block_size);
    lemma_u64_unique(s, at + 84, a.blocks, b.blocks);
}

/// Appends the layout of a metadata value.
#[verifier::rlimit(50)]
pub fn write_metadata(out: &mut Vec<u8>, m: &MetadataInternal)
    ensures
        final(out)@ == old(out)@ + spec_enc_metadata(*m),
{
    write_u64(out, m.device_id);
    write_u64(out, m.inode);
    write_u32(out, m.mode);
    write_u64(out, m.hard_links);
    write_u32(out, m.user_id);
    write_u32(out, m.group_id);
    write_u64(out, m.rdevice_id);
    write_u64(out, m.size);
    write_i64(out, m.access_time);
    write_i64(out, m.modification_time);
    write_i64(out, m.creation_time);
    write_u64(out, m.block_size);
    write_u64(out, m.blocks);
    assert(out@ =~= old(out)@ + spec_enc_metadata(*m));
}

/// Reads the metadata value standing at `at`. Fails exactly when fewer than
/// 92 bytes remain: every 92-byte pattern is a metadata layout.
#[verifier::rlimit(50)]
pub fn read_metadata(bytes: &Vec<u8>, at: usize) -> (r: Result<
    (MetadataInternal, usize),
    DecodeError,
>)
    ensures
        match r {
            Ok((m, end)) => piece_at(bytes@, at as int, spec_enc_metadata(m)) && end == at + 92,
            Err(_) => forall|m: MetadataInternal| !piece_at(bytes@, at as int, spec_enc_metadata(m)),
        },
{
    if bytes.len() < 92 || at > bytes.len() - 92 {
        proof {
            assert forall|m: MetadataInternal|
                !piece_at(bytes@, at as int, spec_enc_metadata(m)) by {
                assert(spec_enc_metadata(m).len() == 92);
            }
        }
        return Err(DecodeError);
    }
    // With 92 bytes in reach, every fixed-width read below succeeds; the
    // error arms are unreachable, which `assert(false)` records.
    let (device_id, p1) = match read_u64(bytes, at) {
        Ok(ok) => ok,
        Err(_) => {
            assert(false);
            return Err(DecodeError);
        },
    };
    let (inode, p2) = match read_u64(bytes, p1) {
        Ok(ok) => ok,
        Err(_) => {
            assert(false);
            return Err(DecodeError);
        },
    };
    let (mode, p3) = match read_u32(bytes, p2) {
        Ok(ok) => ok,
        Err(_) => {
            assert(false);
            return Err(DecodeError);
        },
    };
    let (hard_links, p4) = match read_u64(bytes, p3) {
        Ok(ok) => ok,
        Err(_) => {
            assert(false);
            return Err(DecodeError);
        },
    };
    let (user_id, p5) = match read_u32(bytes, p4) {
        Ok(ok) => ok,
        Err(_) => {
            assert(false);
            return Err(DecodeError);
        },
    };
    let (group_id, p6) = match read_u32(bytes, p5) {
        Ok(ok) => ok,
        Err(_) => {
            assert(false);
            return Err(DecodeError);
        },
    };
    let (rdevice_id, p7) = match read_u64(bytes, p6) {
        Ok(ok) => ok,
        Err(_) => {
            assert(false);
            return Err(DecodeError);
        },
    };
    let (size, p8) = match read_u64(bytes, p7) {
        Ok(ok) => ok,
        Err(_) => {
            assert(false);
            return Err(DecodeError);
        },
    };
    let (access_time, p9) = match read_i64(bytes, p8) {
        Ok(ok) => ok,
        Err(_) => {
            assert(false);
            return Err(DecodeError);
        },
    };
    let (modification_time, p10) = match read_i64(bytes, p9) {
        Ok(ok) => ok,
        Err(_) => {
            assert(false);
            return Err(DecodeError);
        },
    };
    let (creation_time, p11) = match read_i64(bytes, p10) {
        Ok(ok) => ok,
        Err(_) => {
            assert(false);
            return Err(DecodeError);
        },
    };
    let (block_size, p12) = match read_u64(bytes, p11) {
        Ok(ok) => ok,
        Err(_) => {
            assert(false);
            return Err(DecodeError);
        },
    };
    let (blocks, p13) = match read_u64(bytes, p12) {
        Ok(ok) => ok,
        Err(_) => {
            assert(false);
            return Err(DecodeError);
        },
    };
    let m = MetadataInternal {
        device_id,
        inode,
        mode,
        hard_links,
        user_id,
        group_id,
        rdevice_id,
        size,
        access_time,
        modification_time,
        creation_time,
        block_size,
        blocks,
    };
    proof {
        let s = bytes@;
        let a = at as int;
        let e1 = spec_enc_u64(m.device_id);
        let e2 = spec_enc_u64(m.inode);
        let e3 = spec_enc_u32(m.mode);
        let e4 = spec_enc_u64(m.hard_links);
        let e5 = spec_enc_u32(m.user_id);
        let e6 = spec_enc_u32(m.group_id);
        let e7 = spec_enc_u64(m.rdevice_id);
        let e8 = spec_enc_u64(m.size);
        let e9 = spec_enc_i64(m.access_time);
        let e10 = spec_enc_i64(m.modification_time);
        let e11 = spec_enc_i64(m.creation_time);
        let e12 = spec_enc_u64(m.block_size);
        let e13 = spec_enc_u64(m.blocks);
        lemma_piece_join(s, a, e1, e2);
        lemma_piece_join(s, a, e1 + e2, e3);
        lemma_piece_join(s, a, e1 + e2 + e3, e4);
        lemma_piece_join(s, a, e1 + e2 + e3 + e4, e5);
        lemma_piece_join(s, a, e1 + e2 + e3 + e4 + e5, e6);
        lemma_piece_join(s, a, e1 + e2 + e3 + e4 + e5 + e6, e7);
        lemma_piece_join(s, a, e1 + e2 + e3 + e4 + e5 + e6 + e7, e8);
        lemma_piece_join(s, a, e1 + e2 + e3 + e4 + e5 + e6 + e7 + e8, e9);
        lemma_piece_join(s, a, e1 + e2 + e3 + e4 + e5 + e6 + e7 + e8 + e9, e10);
        lemma_piece_join(s, a, e1 + e2 + e3 + e4 + e5 + e6 + e7 + e8 + e9 + e10, e11);
        lemma_piece_join(s, a, e1 + e2 + e3 + e4 + e5 + e6 + e7 + e8 + e9 + e10 + e11, e12);
        lemma_piece_join(s, a, e1 + e2 + e3 + e4 + e5 + e6 + e7 + e8 + e9 + e10 + e11 + e12, e13);
    }
    Ok((m, p13))
}

// ---------------------------------------------------------------------------
// Filesystem metadata: seven fixed-width integers, 56 bytes.
// ---------------------------------------------------------------------------

/// Byte layout of a unified `statfs` result.
pub open spec fn spec_enc_fs_metadata(m: FsMetadataInternal) -> Seq<u8> {
    spec_enc_i64(m.filesystem_type) + spec_enc_i64(m.block_size) + spec_enc_u64(m.blocks)
        + spec_enc_u64(m.blocks_free) + spec_enc_u64(m.blocks_available) + spec_enc_u64(m.files)
        + spec_enc_u64(m.files_free)
}

/// The layout of a filesystem-metadata value splits into one piece per field.
proof fn lemma_fs_metadata_pieces(s: Seq<u8>, at: int, m: FsMetadataInternal)
    requires
        piece_at(s, at, spec_enc_fs_metadata(m)),
    ensures
        piece_at(s, at, spec_enc_i64(m.filesystem_type)),
        piece_at(s, at + 8, spec_enc_i64(m.block_size)),
        piece_at(s, at + 16, spec_enc_u64(m.blocks)),
        piece_at(s, at + 24, spec_enc_u64(m.blocks_free)),
        piece_at(s, at + 32, spec_enc_u64(m.blocks_available)),
        piece_at(s, at + 40, spec_enc_u64(m.files)),
        piece_at(s, at + 48, spec_enc_u64(m.files_free)),
{
    let e1 = spec_enc_i64(m.filesystem_type);
    let e2 = spec_enc_i64(m.block_size);
    let e3 = spec_enc_u64(m.blocks);
    let e4 = spec_enc_u64(m.blocks_free);
    let e5 = spec_enc_u64(m.blocks_available);
    let e6 = spec_enc_u64(m.files);
    let e7 = spec_enc_u64(m.files_free);
    lemma_piece_split(s, at, e1 + e2 + e3 + e4 + e5 + e6, e7);
    lemma_piece_split(s, at, e1 + e2 + e3 + e4 + e5, e6);
    lemma_piece_split(s, at, e1 + e2 + e3 + e4, e5);
    lemma_piece_split(s, at, e1 + e2 + e3, e4);
    lemma_piece_split(s, at, e1 + e2, e3);
    lemma_piece_split(s, at, e1, e2);
}

/// Two filesystem-metadata pieces at one position carry one value.
pub proof fn lemma_fs_metadata_unique(
    s: Seq<u8>,
    at: int,
    a: FsMetadataInternal,
    b: FsMetadataInternal,
)
    requires
        piece_at(s, at, spec_enc_fs_metadata(a)),
        piece_at(s, at, spec_enc_fs_metadata(b)),
    ensures
        a == b,
{
    lemma_fs_metadata_pieces(s, at, a);
    lemma_fs_metadata_pieces(s, at, b);
    lemma_i64_unique(s, at, a.filesystem_type, b.filesystem_type);
    lemma_i64_unique(s, at + 8, a.block_size, b.block_size);
    lemma_u64_unique(s, at + 16, a.blocks, b.blocks);
    lemma_u64_unique(s, at + 24, a.blocks_free, b.blocks_free);
    lemma_u64_unique(s, at + 32, a.blocks_available, b.blocks_available);
    lemma_u64_unique(s, at + 40, a.files, b.files);
    lemma_u64_unique(s, at + 48, a.files_free, b.files_free);
}

/// Appends the layout of a filesystem-metadata value.
pub fn write_fs_metadata(out: &mut Vec<u8>, m: &FsMetadataInternal)
    ensures
        final(out)@ == old(out)@ + spec_enc_fs_metadata(*m),
{
    write_i64(out, m.filesystem_type);
    write_i64(out, m.block_size);
    write_u64(out, m.blocks);
    write_u64(out, m.blocks_free);
    write_u64(out, m.blocks_available);
    write_u64(out, m.files);
    write_u64(out, m.files_free);
    assert(out@ =~= old(out)@ + spec_enc_fs_metadata(*m));
}

/// Reads the filesystem-metadata value standing at `at`. Fails exactly when
/// fewer than 56 bytes remain: every 56-byte pattern is a layout.
#[verifier::rlimit(50)]
pub fn read_fs_metadata(bytes: &Vec<u8>, at: usize) -> (r: Result<
    (FsMetadataInternal, usize),
    DecodeError,
>)
    ensures
        match r {
            Ok((m, end)) => piece_at(bytes@, at as int, spec_enc_fs_metadata(m)) && end == at + 56,
            Err(_) => forall|m: FsMetadataInternal|
                !piece_at(bytes@, at as int, spec_enc_fs_metadata(m)),
        },
{
    if bytes.len() < 56 || at > bytes.len() - 56 {
        proof {
            assert forall|m: FsMetadataInternal|
                !piece_at(bytes@, at as int, spec_enc_fs_metadata(m)) by {
                assert(spec_enc_fs_metadata(m).len() == 56);
            }
        }
        return Err(DecodeError);
    }
    // With 56 bytes in reach, every fixed-width read below succeeds; the
    // error arms are unreachable, which `assert(false)` records.
    let (filesystem_type, p1) = match read_i64(bytes, at) {
        Ok(ok) => ok,
        Err(_) => {
            assert(false);
            return Err(DecodeError);
        },
    };
    let (block_size, p2) = match read_i64(bytes, p1) {
        Ok(ok) => ok,
        Err(_) => {
            assert(false);
            return Err(DecodeError);
        },
    };
    let (blocks, p3) = match read_u64(bytes, p2) {
        Ok(ok) => ok,
        Err(_) => {
            assert(false);
            return Err(DecodeError);
        },
    };
    let (blocks_free, p4) = match read_u64(bytes, p3) {
        Ok(ok) => ok,
        Err(_) => {
            assert(false);
            return Err(DecodeError);
        },
    };
    let (blocks_available, p5) = match read_u64(bytes, p4) {
        Ok(ok) => ok,
        Err(_) => {
            assert(false);
            return Err(DecodeError);
        },
    };
    let (files, p6) = match read_u64(bytes, p5) {
        Ok(ok) => ok,
        Err(_) => {
            assert(false);
            return Err(DecodeError);
        },
    };
    let (files_free, p7) = match read_u64(bytes, p6) {
        Ok(ok) => ok,
        Err(_) => {
            assert(false);
            return Err(DecodeError);
        },
    };
    let m = FsMetadataInternal {
        filesystem_type,
        block_size,
        blocks,
        blocks_free,
        blocks_available,
        files,
        files_free,
    };
    proof {
        let s = bytes@;
        let a = at as int;
        let e1 = spec_enc_i64(m.filesystem_type);
        let e2 = spec_enc_i64(m.block_size);
        let e3 = spec_enc_u64(m.blocks);
        let e4 = spec_enc_u64(m.blocks_free);
        let e5 = spec_enc_u64(m.blocks_available);
        let e6 = spec_enc_u64(m.files);
        let e7 = spec_enc_u64(m.files_free);
        lemma_piece_join(s, a, e1, e2);
        lemma_piece_join(s, a, e1 + e2, e3);
        lemma_piece_join(s, a, e1 + e2 + e3, e4);
        lemma_piece_join(s, a, e1 + e2 + e3 + e4, e5);
        lemma_piece_join(s, a, e1 + e2 + e3 + e4 + e5, e6);
        lemma_piece_join(s, a, e1 + e2 + e3 + e4 + e5 + e6, e7);
    }
    Ok((m, p7))
}

// ---------------------------------------------------------------------------
// Directory entry: inode, position, name, type tag.
// ---------------------------------------------------------------------------

/// Byte layout of a directory entry.
pub open spec fn spec_enc_dir_entry(e: DirEntryView) -> Seq<u8> {
    spec_enc_u64(e.inode) + spec_enc_u64(e.position) + spec_enc_str(e.name) + spec_enc_u8(
        e.file_type,
    )
}

/// A directory-entry view whose name a peer can hold in memory.
pub open spec fn dir_entry_fits(e: DirEntryView) -> bool {
    str_fits(e.name)
}

/// The layout of a directory entry splits into one piece per field.
proof fn lemma_dir_entry_pieces(s: Seq<u8>, at: int, e: DirEntryView)
    requires
        piece_at(s, at, spec_enc_dir_entry(e)),
    ensures
        piece_at(s, at, spec_enc_u64(e.inode)),
        piece_at(s, at + 8, spec_enc_u64(e.position)),
        piece_at(s, at + 16, spec_enc_str(e.name)),
        piece_at(s, at + 16 + spec_enc_str(e.name).len(), spec_enc_u8(e.file_type)),
{
    let e1 = spec_enc_u64(e.inode);
    let e2 = spec_enc_u64(e.position);
    let e3 = spec_enc_str(e.name);
    let e4 = spec_enc_u8(e.file_type);
    lemma_piece_split(s, at, e1 + e2 + e3, e4);
    lemma_piece_split(s, at, e1 + e2, e3);
    lemma_piece_split(s, at, e1, e2);
}

/// Two directory-entry pieces at one position carry one entry.
pub proof fn lemma_dir_entry_unique(s: Seq<u8>, at: int, a: DirEntryView, b: DirEntryView)
    requires
        piece_at(s, at, spec_enc_dir_entry(a)),
        piece_at(s, at, spec_enc_dir_entry(b)),
        dir_entry_fits(a),
        dir_entry_fits(b),
    ensures
        a == b,
{
    lemma_dir_entry_pieces(s, at, a);
    lemma_dir_entry_pieces(s, at, b);
    lemma_u64_unique(s, at, a.inode, b.inode);
    lemma_u64_unique(s, at + 8, a.position, b.position);
    lemma_str_unique(s, at + 16, a.name, b.name);
    lemma_u8_unique(s, at + 16 + spec_enc_str(a.name).len(), a.file_type, b.file_type);
}

/// Appends the layout of a directory entry.
pub fn write_dir_entry(out: &mut Vec<u8>, e: &DirEntryInternal)
    ensures
        final(out)@ == old(out)@ + spec_enc_dir_entry(e@),
        dir_entry_fits(e@),
{
    write_u64(out, e.inode);
    write_u64(out, e.position);
    write_str(out, &e.name);
    write_u8(out, e.file_type);
    assert(out@ =~= old(out)@ + spec_enc_dir_entry(e@));
}

/// Reads the directory entry standing at `at`. Fails exactly when no entry
/// layout that fits in memory stands there.
#[verifier::rlimit(50)]
pub fn read_dir_entry(bytes: &Vec<u8>, at: usize) -> (r: Result<
    (DirEntryInternal, usize),
    DecodeError,
>)
    ensures
        match r {
            Ok((e, end)) => piece_at(bytes@, at as int, spec_enc_dir_entry(e@)) && end == at
                + spec_enc_dir_entry(e@).len() && dir_entry_fits(e@),
            Err(_) => forall|ev: DirEntryView|
                dir_entry_fits(ev) ==> !piece_at(bytes@, at as int, spec_enc_dir_entry(ev)),
        },
{
    let (inode, p1) = match read_u64(bytes, at) {
        Ok(ok) => ok,
        Err(e) => {
            proof {
                assert forall|ev: DirEntryView|
                    dir_entry_fits(ev) && piece_at(bytes@, at as int, spec_enc_dir_entry(ev))
                    implies false by {
                    lemma_dir_entry_pieces(bytes@, at as int, ev);
                }
            }
            return Err(e);
        },
    };
    let (position, p2) = match read_u64(bytes, p1) {
        Ok(ok) => ok,
        Err(e) => {
            proof {
                assert forall|ev: DirEntryView|
                    dir_entry_fits(ev) && piece_at(bytes@, at as int, spec_enc_dir_entry(ev))
                    implies false by {
                    lemma_dir_entry_pieces(bytes@, at as int, ev);
                }
            }
            return Err(e);
        },
    };
    let (name, p3) = match read_string(bytes, p2) {
        Ok(ok) => ok,
        Err(e) => {
            proof {
                assert forall|ev: DirEntryView|
                    dir_entry_fits(ev) && piece_at(bytes@, at as int, spec_enc_dir_entry(ev))
                    implies false by {
                    lemma_dir_entry_pieces(bytes@, at as int, ev);
                }
            }
            return Err(e);
        },
    };
    let (file_type, p4) = match read_u8(bytes, p3) {
        Ok(ok) => ok,
        Err(e) => {
            proof {
                assert forall|ev: DirEntryView|
                    dir_entry_fits(ev) && piece_at(bytes@, at as int, spec_enc_dir_entry(ev))
                    implies false by {
                    lemma_dir_entry_pieces(bytes@, at as int, ev);
                    lemma_str_unique(bytes@, at + 16, name@, ev.name);
                }
            }
            return Err(e);
        },
    };
    let e = DirEntryInternal { inode, position, name, file_type };
    proof {
        let s = bytes@;
        let a = at as int;
        lemma_piece_join(s, a, spec_enc_u64(e.inode), spec_enc_u64(e.position));
        lemma_piece_join(s, a, spec_enc_u64(e.inode) + spec_enc_u64(e.position), spec_enc_str(
            e.name@,
        ));
        lemma_piece_join(
            s,
            a,
            spec_enc_u64(e.inode) + spec_enc_u64(e.position) + spec_enc_str(e.name@),
            spec_enc_u8(e.file_type),
        );
    }
    Ok((e, p4))
}

// ---------------------------------------------------------------------------
// Entry lists: a u64 count, then that many directory entries.
// ---------------------------------------------------------------------------

/// Byte layout of a bare run of directory entries, in order.
pub open spec fn spec_enc_entry_list(es: Seq<DirEntryView>) -> Seq<u8>
    decreases es.len(),
{
    if es.len() == 0 {
        Seq::empty()
    } else {
        spec_enc_dir_entry(es[0]) + spec_enc_entry_list(es.skip(1))
    }
}

/// A run of entries a peer can hold in memory.
pub open spec fn entries_fit(es: Seq<DirEntryView>) -> bool {
    es.len() <= usize::MAX && forall|i: int| 0 <= i < es.len() ==> dir_entry_fits(#[trigger] es[i])
}

/// Byte layout of a counted run of directory entries.
pub open spec fn spec_enc_entries(es: Seq<DirEntryView>) -> Seq<u8> {
    spec_enc_u64(es.len() as u64) + spec_enc_entry_list(es)
}

/// The mathematical value of a vector of directory entries.
pub open spec fn entry_views(v: Seq<DirEntryInternal>) -> Seq<DirEntryView> {
    Seq::new(v.len(), |i: int| v[i]@)
}

/// Concatenation distributes over the run layout.
proof fn lemma_entry_list_cat(a: Seq<DirEntryView>, b: Seq<DirEntryView>)
    ensures
        spec_enc_entry_list(a + b) == spec_enc_entry_list(a) + spec_enc_entry_list(b),
    decreases a.len(),
{
    if a.len() == 0 {
        assert(a + b =~= b);
        assert(spec_enc_entry_list(a) + spec_enc_entry_list(b) =~= spec_enc_entry_list(b));
    } else {
        assert((a + b).skip(1) =~= a.skip(1) + b);
        lemma_entry_list_cat(a.skip(1), b);
        assert((a + b)[0] == a[0]);
        assert(spec_enc_dir_entry(a[0]) + (spec_enc_entry_list(a.skip(1)) + spec_enc_entry_list(b))
            =~= (spec_enc_dir_entry(a[0]) + spec_enc_entry_list(a.skip(1))) + spec_enc_entry_list(
            b,
        ));
    }
}

/// Appending one entry appends its layout.
proof fn lemma_entry_list_snoc(es: Seq<DirEntryView>, e: DirEntryView)
    ensures
        spec_enc_entry_list(es.push(e)) == spec_enc_entry_list(es) + spec_enc_dir_entry(e),
{
    assert(es.push(e) =~= es + seq![e]);
    lemma_entry_list_cat(es, seq![e]);
    assert(seq![e].skip(1) =~= Seq::<DirEntryView>::empty());
    assert(seq![e][0] == e);
    assert(spec_enc_entry_list(seq![e].skip(1)) == Seq::<u8>::empty());
    assert(spec_enc_entry_list(seq![e]) == spec_enc_dir_entry(e) + Seq::<u8>::empty());
    assert(spec_enc_dir_entry(e) + Seq::<u8>::empty() =~= spec_enc_dir_entry(e));
}

/// Appends the layout of a counted run of directory entries.
pub fn write_entries(out: &mut Vec<u8>, entries: &Vec<DirEntryInternal>)
    ensures
        final(out)@ == old(out)@ + spec_enc_entries(entry_views(entries@)),
        entries_fit(entry_views(entries@)),
{
    let n = entries.len();
    write_u64(out, n as u64);
    proof {
        assert(entry_views(entries@).len() == n);
        assert(entry_views(entries@).take(0) =~= Seq::<DirEntryView>::empty());
        assert(out@ =~= old(out)@ + spec_enc_u64(entries@.len() as u64) + spec_enc_entry_list(
            entry_views(entries@).take(0),
        ));
    }
    let mut i: usize = 0;
    while i < n
        invariant
            i <= n,
            n == entries@.len(),
            out@ == old(out)@ + spec_enc_u64(entries@.len() as u64) + spec_enc_entry_list(
                entry_views(entries@).take(i as int),
            ),
            forall|j: int|
                0 <= j < i ==> dir_entry_fits(#[trigger] entry_views(entries@)[j]),
        decreases n - i,
    {
        let ghost evs = entry_views(entries@);
        write_dir_entry(out, &entries[i]);
        proof {
            lemma_entry_list_snoc(evs.take(i as int), evs[i as int]);
            assert(evs.take(i + 1) =~= evs.take(i as int).push(evs[i as int]));
            assert(old(out)@ + spec_enc_u64(entries@.len() as u64) + (spec_enc_entry_list(
                evs.take(i as int),
            ) + spec_enc_dir_entry(evs[i as int])) =~= old(out)@ + spec_enc_u64(
                entries@.len() as u64,
            ) + spec_enc_entry_list(evs.take(i + 1)));
        }
        i = i + 1;
    }
    proof {
        assert(entry_views(entries@).take(n as int) =~= entry_views(entries@));
    }
}

/// Reads the counted run of directory entries standing at `at`. Fails
/// exactly when no run that fits in memory is laid out there.
#[verifier::rlimit(80)]
pub fn read_entries(bytes: &Vec<u8>, at: usize) -> (r: Result<
    (Vec<DirEntryInternal>, usize),
    DecodeError,
>)
    ensures
        match r {
            Ok((v, end)) => piece_at(bytes@, at as int, spec_enc_entries(entry_views(v@))) && end
                == at + spec_enc_entries(entry_views(v@)).len() && entries_fit(entry_views(v@)),
            Err(_) => forall|es: Seq<DirEntryView>|
                entries_fit(es) ==> !piece_at(bytes@, at as int, spec_enc_entries(es)),
        },
{
    let (n, p0) = match read_u64(bytes, at) {
        Ok(ok) => ok,
        Err(e) => {
            proof {
                assert forall|es: Seq<DirEntryView>|
                    entries_fit(es) && piece_at(bytes@, at as int, spec_enc_entries(es))
                    implies false by {
                    lemma_piece_split(
                        bytes@,
                        at as int,
                        spec_enc_u64(es.len() as u64),
                        spec_enc_entry_list(es),
                    );
                }
            }
            return Err(e);
        },
    };
    if n > usize::MAX as u64 {
        proof {
            assert forall|es: Seq<DirEntryView>|
                entries_fit(es) && piece_at(bytes@, at as int, spec_enc_entries(es))
                implies false by {
                lemma_piece_split(
                    bytes@,
                    at as int,
                    spec_enc_u64(es.len() as u64),
                    spec_enc_entry_list(es),
                );
                lemma_u64_unique(bytes@, at as int, n, es.len() as u64);
            }
        }
        return Err(DecodeError);
    }
    let n_usize = n as usize;
    let mut v: Vec<DirEntryInternal> = Vec::new();
    let mut pos: usize = p0;
    let mut i: usize = 0;
    proof {
        assert(bytes@.subrange(p0 as int, p0 as int) =~= Seq::<u8>::empty());
        assert(entry_views(v@) =~= Seq::<DirEntryView>::empty());
        assert forall|es: Seq<DirEntryView>|
            entries_fit(es) && piece_at(bytes@, at as int, spec_enc_entries(es)) implies es.len()
            == n && es.take(0) == entry_views(v@) by {
            lemma_piece_split(
                bytes@,
                at as int,
                spec_enc_u64(es.len() as u64),
                spec_enc_entry_list(es),
            );
            lemma_u64_unique(bytes@, at as int, n, es.len() as u64);
            assert(es.take(0) =~= Seq::<DirEntryView>::empty());
        }
    }
    while i < n_usize
        invariant
            i <= n_usize,
            n_usize == n,
            p0 == at + 8,
            v@.len() == i,
            piece_at(bytes@, p0 as int, spec_enc_entry_list(entry_views(v@))),
            pos == p0 + spec_enc_entry_list(entry_views(v@)).len(),
            forall|j: int| 0 <= j < i ==> dir_entry_fits(#[trigger] entry_views(v@)[j]),
            forall|es: Seq<DirEntryView>|
                entries_fit(es) && #[trigger] piece_at(bytes@, at as int, spec_enc_entries(es))
                    ==> es.len() == n && es.take(i as int) == entry_views(v@),
        decreases n_usize - i,
    {
        let ghost old_views = entry_views(v@);
        let ghost old_pos = pos as int;
        let (e, new_pos) = match read_dir_entry(bytes, pos) {
            Ok(ok) => ok,
            Err(err) => {
                proof {
                    assert forall|es: Seq<DirEntryView>|
                        entries_fit(es) && piece_at(bytes@, at as int, spec_enc_entries(es))
                        implies false by {
                        lemma_piece_split(
                            bytes@,
                            at as int,
                            spec_enc_u64(es.len() as u64),
                            spec_enc_entry_list(es),
                        );
                        assert(es =~= es.take(i as int) + es.skip(i as int));
                        lemma_entry_list_cat(es.take(i as int), es.skip(i as int));
                        lemma_piece_split(
                            bytes@,
                            p0 as int,
                            spec_enc_entry_list(es.take(i as int)),
                            spec_enc_entry_list(es.skip(i as int)),
                        );
                        assert(es.skip(i as int)[0] == es[i as int]);
                        lemma_piece_split(
                            bytes@,
                            old_pos,
                            spec_enc_dir_entry(es[i as int]),
                            spec_enc_entry_list(es.skip(i as int).skip(1)),
                        );
                    }
                }
                return Err(err);
            },
        };
        v.push(e);
        pos = new_pos;
        proof {
            lemma_entry_list_snoc(old_views, e@);
            assert(entry_views(v@) =~= old_views.push(e@));
            lemma_piece_join(bytes@, p0 as int, spec_enc_entry_list(old_views), spec_enc_dir_entry(
                e@,
            ));
            assert forall|es: Seq<DirEntryView>|
                entries_fit(es) && piece_at(bytes@, at as int, spec_enc_entries(es)) implies
                es.len() == n && es.take(i + 1) == entry_views(v@) by {
                lemma_piece_split(
                    bytes@,
                    at as int,
                    spec_enc_u64(es.len() as u64),
                    spec_enc_entry_list(es),
                );
                assert(es =~= es.take(i as int) + es.skip(i as int));
                lemma_entry_list_cat(es.take(i as int), es.skip(i as int));
                lemma_piece_split(
                    bytes@,
                    p0 as int,
                    spec_enc_entry_list(es.take(i as int)),
                    spec_enc_entry_list(es.skip(i as int)),
                );
                assert(es.skip(i as int)[0] == es[i as int]);
                lemma_piece_split(
                    bytes@,
                    old_pos,
                    spec_enc_dir_entry(es[i as int]),
                    spec_enc_entry_list(es.skip(i as int).skip(1)),
                );
                lemma_dir_entry_unique(bytes@, old_pos, e@, es[i as int]);
                assert(es.take(i + 1) =~= es.take(i as int).push(es[i as int]));
            }
        }
        i = i + 1;
    }
    proof {
        assert(entry_views(v@).len() == n);
        lemma_piece_join(bytes@, at as int, spec_enc_u64(n), spec_enc_entry_list(entry_views(v@)));
        assert(spec_enc_u64(n) + spec_enc_entry_list(entry_views(v@)) == spec_enc_entries(
            entry_views(v@),
        ));
    }
    Ok((v, pos))
}

// ---------------------------------------------------------------------------
// Optional fields: a one-byte presence tag, then the payload if present.
// ---------------------------------------------------------------------------

/// Byte layout of an optional `u64`.
pub open spec fn spec_enc_opt_u64(o: Option<u64>) -> Seq<u8> {
    match o {
        Option::None => spec_enc_u8(0),
        Option::Some(x) => spec_enc_u8(1) + spec_enc_u64(x),
    }
}

/// Two optional-`u64` pieces at one position carry one value.
pub proof fn lemma_opt_u64_unique(s: Seq<u8>, at: int, a: Option<u64>, b: Option<u64>)
    requires
        piece_at(s, at, spec_enc_opt_u64(a)),
        piece_at(s, at, spec_enc_opt_u64(b)),
    ensures
        a == b,
{
    match a {
        Option::None => {},
        Option::Some(x) => {
            lemma_piece_split(s, at, spec_enc_u8(1), spec_enc_u64(x));
        },
    }
    match b {
        Option::None => {},
        Option::Some(y) => {
            lemma_piece_split(s, at, spec_enc_u8(1), spec_enc_u64(y));
        },
    }
    let ta: u8 = if a is Some { 1 } else { 0 };
    let tb: u8 = if b is Some { 1 } else { 0 };
    lemma_u8_unique(s, at, ta, tb);
    if a is Some && b is Some {
        lemma_u64_unique(s, at + 1, a->Some_0, b->Some_0);
    }
}

/// Appends the layout of an optional `u64`.
pub fn write_opt_u64(out: &mut Vec<u8>, o: &Option<u64>)
    ensures
        final(out)@ == old(out)@ + spec_enc_opt_u64(*o),
{
    match o {
        Option::None => {
            write_u8(out, 0);
        },
        Option::Some(x) => {
            write_u8(out, 1);
            write_u64(out, *x);
        },
    }
    assert(out@ =~= old(out)@ + spec_enc_opt_u64(*o));
}

/// Reads the optional `u64` standing at `at`. Fails exactly when no
/// optional-`u64` layout stands there.
pub fn read_opt_u64(bytes: &Vec<u8>, at: usize) -> (r: Result<(Option<u64>, usize), DecodeError>)
    ensures
        match r {
            Ok((o, end)) => piece_at(bytes@, at as int, spec_enc_opt_u64(o)) && end == at
                + spec_enc_opt_u64(o).len(),
            Err(_) => forall|o: Option<u64>| !piece_at(bytes@, at as int, spec_enc_opt_u64(o)),
        },
{
    let (tag, p1) = match read_u8(bytes, at) {
        Ok(ok) => ok,
        Err(e) => {
            proof {
                assert forall|o: Option<u64>|
                    !piece_at(bytes@, at as int, spec_enc_opt_u64(o)) by {
                    if piece_at(bytes@, at as int, spec_enc_opt_u64(o)) {
                        if o is Some {
                            lemma_piece_split(bytes@, at as int, spec_enc_u8(1), spec_enc_u64(
                                o->Some_0,
                            ));
                        }
                    }
                }
            }
            return Err(e);
        },
    };
    if tag == 0 {
        Ok((None, p1))
    } else if tag == 1 {
        match read_u64(bytes, p1) {
            Ok((x, end)) => {
                proof {
                    lemma_piece_join(bytes@, at as int, spec_enc_u8(1), spec_enc_u64(x));
                }
                Ok((Some(x), end))
            },
            Err(e) => {
                proof {
                    assert forall|o: Option<u64>|
                        !piece_at(bytes@, at as int, spec_enc_opt_u64(o)) by {
                        if piece_at(bytes@, at as int, spec_enc_opt_u64(o)) {
                            match o {
                                Option::None => {
                                    lemma_u8_unique(bytes@, at as int, tag, 0);
                                },
                                Option::Some(x) => {
                                    lemma_piece_split(bytes@, at as int, spec_enc_u8(1),
                                        spec_enc_u64(x));
                                },
                            }
                        }
                    }
                }
                Err(e)
            },
        }
    } else {
        proof {
            assert forall|o: Option<u64>| !piece_at(bytes@, at as int, spec_enc_opt_u64(o)) by {
                if piece_at(bytes@, at as int, spec_enc_opt_u64(o)) {
                    match o {
                        Option::None => {
                            lemma_u8_unique(bytes@, at as int, tag, 0);
                        },
                        Option::Some(x) => {
                            lemma_piece_split(bytes@, at as int, spec_enc_u8(1), spec_enc_u64(x));
                            lemma_u8_unique(bytes@, at as int, tag, 1);
                        },
                    }
                }
            }
        }
        Err(DecodeError)
    }
}

// ---------------------------------------------------------------------------
// Optional text and optional directory entry.
// ---------------------------------------------------------------------------

/// The mathematical value of an optional string.
pub open spec fn opt_str_view(o: Option<String>) -> Option<Seq<char>> {
    match o {
        Option::None => Option::None,
        Option::Some(s) => Option::Some(s@),
    }
}

/// Byte layout of optional text.
pub open spec fn spec_enc_opt_str(o: Option<Seq<char>>) -> Seq<u8> {
    match o {
        Option::None => spec_enc_u8(0),
        Option::Some(s) => spec_enc_u8(1) + spec_enc_str(s),
    }
}

/// Optional text a peer can hold in memory.
pub open spec fn opt_str_fits(o: Option<Seq<char>>) -> bool {
    match o {
        Option::None => true,
        Option::Some(s) => str_fits(s),
    }
}

/// Two optional-text pieces at one position carry one value.
pub proof fn lemma_opt_str_unique(s: Seq<u8>, at: int, a: Option<Seq<char>>, b: Option<Seq<char>>)
    requires
        piece_at(s, at, spec_enc_opt_str(a)),
        piece_at(s, at, spec_enc_opt_str(b)),
        opt_str_fits(a),
        opt_str_fits(b),
    ensures
        a == b,
{
    match a {
        Option::None => {},
        Option::Some(x) => {
            lemma_piece_split(s, at, spec_enc_u8(1), spec_enc_str(x));
        },
    }
    match b {
        Option::None => {},
        Option::Some(y) => {
            lemma_piece_split(s, at, spec_enc_u8(1), spec_enc_str(y));
        },
    }
    let ta: u8 = if a is Some { 1 } else { 0 };
    let tb: u8 = if b is Some { 1 } else { 0 };
    lemma_u8_unique(s, at, ta, tb);
    if a is Some && b is Some {
        lemma_str_unique(s, at + 1, a->Some_0, b->Some_0);
    }
}

/// Appends the layout of optional text.
pub fn write_opt_str(out: &mut Vec<u8>, o: &Option<String>)
    ensures
        final(out)@ == old(out)@ + spec_enc_opt_str(opt_str_view(*o)),
        opt_str_fits(opt_str_view(*o)),
{
    match o {
        Option::None => {
            write_u8(out, 0);
        },
        Option::Some(s) => {
            write_u8(out, 1);
            write_str(out, s);
        },
    }
    assert(out@ =~= old(out)@ + spec_enc_opt_str(opt_str_view(*o)));
}

/// Reads the optional text standing at `at`. Fails exactly when no
/// optional-text layout that fits in memory stands there.
pub fn read_opt_str(bytes: &Vec<u8>, at: usize) -> (r: Result<(Option<String>, usize), DecodeError>)
    ensures
        match r {
            Ok((o, end)) => piece_at(bytes@, at as int, spec_enc_opt_str(opt_str_view(o))) && end
                == at + spec_enc_opt_str(opt_str_view(o)).len() && opt_str_fits(opt_str_view(o)),
            Err(_) => forall|o: Option<Seq<char>>|
                opt_str_fits(o) ==> !piece_at(bytes@, at as int, spec_enc_opt_str(o)),
        },
{
    let (tag, p1) = match read_u8(bytes, at) {
        Ok(ok) => ok,
        Err(e) => {
            proof {
                assert forall|o: Option<Seq<char>>|
                    opt_str_fits(o) && piece_at(bytes@, at as int, spec_enc_opt_str(o))
                    implies false by {
                    if o is Some {
                        lemma_piece_split(bytes@, at as int, spec_enc_u8(1), spec_enc_str(
                            o->Some_0,
                        ));
                    }
                }
            }
            return Err(e);
        },
    };
    if tag == 0 {
        Ok((None, p1))
    } else if tag == 1 {
        match read_string(bytes, p1) {
            Ok((s, end)) => {
                proof {
                    lemma_piece_join(bytes@, at as int, spec_enc_u8(1), spec_enc_str(s@));
                }
                Ok((Some(s), end))
            },
            Err(e) => {
                proof {
                    assert forall|o: Option<Seq<char>>|
                        opt_str_fits(o) && piece_at(bytes@, at as int, spec_enc_opt_str(o))
                        implies false by {
                        match o {
                            Option::None => {
                                lemma_u8_unique(bytes@, at as int, tag, 0);
                            },
                            Option::Some(x) => {
                                lemma_piece_split(bytes@, at as int, spec_enc_u8(1), spec_enc_str(
                                    x,
                                ));
                            },
                        }
                    }
                }
                Err(e)
            },
        }
    } else {
        proof {
            assert forall|o: Option<Seq<char>>|
                opt_str_fits(o) && piece_at(bytes@, at as int, spec_enc_opt_str(o))
                implies false by {
                match o {
                    Option::None => {
                        lemma_u8_unique(bytes@, at as int, tag, 0);
                    },
                    Option::Some(x) => {
                        lemma_piece_split(bytes@, at as int, spec_enc_u8(1), spec_enc_str(x));
                        lemma_u8_unique(bytes@, at as int, tag, 1);
                    },
                }
            }
        }
        Err(DecodeError)
    }
}

/// The mathematical value of an optional directory entry.
pub open spec fn opt_entry_view(o: Option<DirEntryInternal>) -> Option<DirEntryView> {
    match o {
        Option::None => Option::None,
        Option::Some(e) => Option::Some(e@),
    }
}

/// Byte layout of an optional directory entry.
pub open spec fn spec_enc_opt_entry(o: Option<DirEntryView>) -> Seq<u8> {
    match o {
        Option::None => spec_enc_u8(0),
        Option::Some(e) => spec_enc_u8(1) + spec_enc_dir_entry(e),
    }
}

/// An optional directory entry a peer can hold in memory.
pub open spec fn opt_entry_fits(o: Option<DirEntryView>) -> bool {
    match o {
        Option::None => true,
        Option::Some(e) => dir_entry_fits(e),
    }
}

/// Two optional-entry pieces at one position carry one value.
pub proof fn lemma_opt_entry_unique(
    s: Seq<u8>,
    at: int,
    a: Option<DirEntryView>,
    b: Option<DirEntryView>,
)
    requires
        piece_at(s, at, spec_enc_opt_entry(a)),
        piece_at(s, at, spec_enc_opt_entry(b)),
        opt_entry_fits(a),
        opt_entry_fits(b),
    ensures
        a == b,
{
    match a {
        Option::None => {},
        Option::Some(x) => {
            lemma_piece_split(s, at, spec_enc_u8(1), spec_enc_dir_entry(x));
        },
    }
    match b {
        Option::None => {},
        Option::Some(y) => {
            lemma_piece_split(s, at, spec_enc_u8(1), spec_enc_dir_entry(y));
        },
    }
    let ta: u8 = if a is Some { 1 } else { 0 };
    let tb: u8 = if b is Some { 1 } else { 0 };
    lemma_u8_unique(s, at, ta, tb);
    if a is Some && b is Some {
        lemma_dir_entry_unique(s, at + 1, a->Some_0, b->Some_0);
    }
}

/// Appends the layout of an optional directory entry.
pub fn write_opt_entry(out: &mut Vec<u8>, o: &Option<DirEntryInternal>)
    ensures
        final(out)@ == old(out)@ + spec_enc_opt_entry(opt_entry_view(*o)),
        opt_entry_fits(opt_entry_view(*o)),
{
    match o {
        Option::None => {
            write_u8(out, 0);
        },
        Option::Some(e) => {
            write_u8(out, 1);
            write_dir_entry(out, e);
        },
    }
    assert(out@ =~= old(out)@ + spec_enc_opt_entry(opt_entry_view(*o)));
}

/// Reads the optional directory entry standing at `at`. Fails exactly when
/// no optional-entry layout that fits in memory stands there.
pub fn read_opt_entry(bytes: &Vec<u8>, at: usize) -> (r: Result<
    (Option<DirEntryInternal>, usize),
    DecodeError,
>)
    ensures
        match r {
            Ok((o, end)) => piece_at(bytes@, at as int, spec_enc_opt_entry(opt_entry_view(o)))
                && end == at + spec_enc_opt_entry(opt_entry_view(o)).len() && opt_entry_fits(
                opt_entry_view(o),
            ),
            Err(_) => forall|o: Option<DirEntryView>|
                opt_entry_fits(o) ==> !piece_at(bytes@, at as int, spec_enc_opt_entry(o)),
        },
{
    let (tag, p1) = match read_u8(bytes, at) {
        Ok(ok) => ok,
        Err(e) => {
            proof {
                assert forall|o: Option<DirEntryView>|
                    opt_entry_fits(o) && piece_at(bytes@, at as int, spec_enc_opt_entry(o))
                    implies false by {
                    if o is Some {
                        lemma_piece_split(bytes@, at as int, spec_enc_u8(1), spec_enc_dir_entry(
                            o->Some_0,
                        ));
                    }
                }
            }
            return Err(e);
        },
    };
    if tag == 0 {
        Ok((None, p1))
    } else if tag == 1 {
        match read_dir_entry(bytes, p1) {
            Ok((e, end)) => {
                proof {
                    lemma_piece_join(bytes@, at as int, spec_enc_u8(1), spec_enc_dir_entry(e@));
                }
                Ok((Some(e), end))
            },
            Err(e) => {
                proof {
                    assert forall|o: Option<DirEntryView>|
                        opt_entry_fits(o) && piece_at(bytes@, at as int, spec_enc_opt_entry(o))
                        implies false by {
                        match o {
                            Option::None => {
                                lemma_u8_unique(bytes@, at as int, tag, 0);
                            },
                            Option::Some(x) => {
                                lemma_piece_split(bytes@, at as int, spec_enc_u8(1),
                                    spec_enc_dir_entry(x));
                            },
                        }
                    }
                }
                Err(e)
            },
        }
    } else {
        proof {
            assert forall|o: Option<DirEntryView>|
                opt_entry_fits(o) && piece_at(bytes@, at as int, spec_enc_opt_entry(o))
                implies false by {
                match o {
                    Option::None => {
                        lemma_u8_unique(bytes@, at as int, tag, 0);
                    },
                    Option::Some(x) => {
                        lemma_piece_split(bytes@, at as int, spec_enc_u8(1), spec_enc_dir_entry(x));
                        lemma_u8_unique(bytes@, at as int, tag, 1);
                    },
                }
            }
        }
        Err(DecodeError)
    }
}

// ---------------------------------------------------------------------------
// Messages made of fixed-width integer fields alone.
// ---------------------------------------------------------------------------

impl OpenFileResponse {
    /// Wire layout: the fields in declaration order.
    pub open spec fn spec_wire(fd: u64) -> Seq<u8> {
        spec_enc_u64(fd)
    }

    /// Encodes this message.
    pub fn encode(&self) -> (out: Vec<u8>)
        ensures
            out@ == Self::spec_wire(self.fd),
    {
        let mut out: Vec<u8> = Vec::new();
        write_u64(&mut out, self.fd);
        assert(out@ =~= Self::spec_wire(self.fd));
        out
    }

    /// Decodes a message: it succeeds exactly on a full, well-formed layout
    /// and returns the value laid out.
    pub fn decode(bytes: &Vec<u8>) -> (r: Result<Self, DecodeError>)
        ensures
            match r {
                Ok(m) => bytes@ == Self::spec_wire(m.fd),
                Err(_) => forall|fd: u64| bytes@ != Self::spec_wire(fd),
            },
    {
        let (fd, p1) = match read_u64(bytes, 0) {
            Ok(ok) => ok,
            Err(e) => {
                return Err(e);
            },
        };
        if p1 != bytes.len() {
            return Err(DecodeError);
        }
        proof {
            lemma_piece_whole(bytes@, Self::spec_wire(fd));
        }
        Ok(OpenFileResponse { fd })
    }
}

/// One wire image carries one field tuple: with the decoder's contract,
/// decoding inverts encoding for this message.
pub proof fn lemma_open_file_response_wire_injective(fd1: u64, fd2: u64)
    requires
        OpenFileResponse::spec_wire(fd1) == OpenFileResponse::spec_wire(fd2),
    ensures
        fd1 == fd2,
{
    let e = OpenFileResponse::spec_wire(fd1);
    lemma_piece_self(e);
    lemma_u64_unique(e, 0, fd1, fd2);
}

impl SeekFileResponse {
    /// Wire layout: the fields in declaration order.
    pub open spec fn spec_wire(result_offset: u64) -> Seq<u8> {
        spec_enc_u64(result_offset)
    }

    /// Encodes this message.
    pub fn encode(&self) -> (out: Vec<u8>)
        ensures
            out@ == Self::spec_wire(self.result_offset),
    {
        let mut out: Vec<u8> = Vec::new();
        write_u64(&mut out, self.result_offset);
        assert(out@ =~= Self::spec_wire(self.result_offset));
        out
    }

    /// Decodes a message: it succeeds exactly on a full, well-formed layout
    /// and returns the value laid out.
    pub fn decode(bytes: &Vec<u8>) -> (r: Result<Self, DecodeError>)
        ensures
            match r {
                Ok(m) => bytes@ == Self::spec_wire(m.result_offset),
                Err(_) => forall|result_offset: u64| bytes@ != Self::spec_wire(result_offset),
            },
    {
        let (result_offset, p1) = match read_u64(bytes, 0) {
            Ok(ok) => ok,
            Err(e) => {
                return Err(e);
            },
        };
        if p1 != bytes.len() {
            return Err(DecodeError);
        }
        proof {
            lemma_piece_whole(bytes@, Self::spec_wire(result_offset));
        }
        Ok(SeekFileResponse { result_offset })
    }
}

/// One wire image carries one field tuple: with the decoder's contract,
/// decoding inverts encoding for this message.
pub proof fn lemma_seek_file_response_wire_injective(result_offset1: u64, result_offset2: u64)
    requires
        SeekFileResponse::spec_wire(result_offset1) == SeekFileResponse::spec_wire(result_offset2),
    ensures
        result_offset1 == result_offset2,
{
    let e = SeekFileResponse::spec_wire(result_offset1);
    lemma_piece_self(e);
    lemma_u64_unique(e, 0, result_offset1, result_offset2);
}

impl WriteFileResponse {
    /// Wire layout: the fields in declaration order.
    pub open spec fn spec_wire(written_amount: u64) -> Seq<u8> {
        spec_enc_u64(written_amount)
    }

    /// Encodes this message.
    pub fn encode(&self) -> (out: Vec<u8>)
        ensures
            out@ == Self::spec_wire(self.written_amount),
    {
        let mut out: Vec<u8> = Vec::new();
        write_u64(&mut out, self.written_amount);
        assert(out@ =~= Self::spec_wire(self.written_amount));
        out
    }

    /// Decodes a message: it succeeds exactly on a full, well-formed layout
    /// and returns the value laid out.
    pub fn decode(bytes: &Vec<u8>) -> (r: Result<Self, DecodeError>)
        ensures
            match r {
                Ok(m) => bytes@ == Self::spec_wire(m.written_amount),
                Err(_) => forall|written_amount: u64| bytes@ != Self::spec_wire(written_amount),
            },
    {
        let (written_amount, p1) = match read_u64(bytes, 0) {
            Ok(ok) => ok,
            Err(e) => {
                return Err(e);
            },
        };
        if p1 != bytes.len() {
            return Err(DecodeError);
        }
        proof {
            lemma_piece_whole(bytes@, Self::spec_wire(written_amount));
        }
        Ok(WriteFileResponse { written_amount })
    }
}

/// One wire image carries one field tuple: with the decoder's contract,
/// decoding inverts encoding for this message.
pub proof fn lemma_write_file_response_wire_injective(written_amount1: u64, written_amount2: u64)
    requires
        WriteFileResponse::spec_wire(written_amount1) == WriteFileResponse::spec_wire(written_amount2),
    ensures
        written_amount1 == written_amount2,
{
    let e = WriteFileResponse::spec_wire(written_amount1);
    lemma_piece_self(e);
    lemma_u64_unique(e, 0, written_amount1, written_amount2);
}

impl CloseFileRequest {
    /// Wire layout: the fields in declaration order.
    pub open spec fn spec_wire(fd: u64) -> Seq<u8> {
        spec_enc_u64(fd)
    }

    /// Encodes this message.
    pub fn encode(&self) -> (out: Vec<u8>)
        ensures
            out@ == Self::spec_wire(self.fd),
    {
        let mut out: Vec<u8> = Vec::new();
        write_u64(&mut out, self.fd);
        assert(out@ =~= Self::spec_wire(self.fd));
        out
    }

    /// Decodes a message: it succeeds exactly on a full, well-formed layout
    /// and returns the value laid out.
    pub fn decode(bytes: &Vec<u8>) -> (r: Result<Self, DecodeError>)
        ensures
            match r {
                Ok(m) => bytes@ == Self::spec_wire(m.fd),
                Err(_) => forall|fd: u64| bytes@ != Self::spec_wire(fd),
            },
    {
        let (fd, p1) = match read_u64(bytes, 0) {
            Ok(ok) => ok,
            Err(e) => {
                return Err(e);
            },
        };
        if p1 != bytes.len() {
            return Err(DecodeError);
        }
        proof {
            lemma_piece_whole(bytes@, Self::spec_wire(fd));
        }
        Ok(CloseFileRequest { fd })
    }
}

/// One wire image carries one field tuple: with the decoder's contract,
/// decoding inverts encoding for this message.
pub proof fn lemma_close_file_request_wire_injective(fd1: u64, fd2: u64)
    requires
        CloseFileRequest::spec_wire(fd1) == CloseFileRequest::spec_wire(fd2),
    ensures
        fd1 == fd2,
{
    let e = CloseFileRequest::spec_wire(fd1);
    lemma_piece_self(e);
    lemma_u64_unique(e, 0, fd1, fd2);
}

impl XstatFsRequest {
    /// Wire layout: the fields in declaration order.
    pub open spec fn spec_wire(fd: u64) -> Seq<u8> {
        spec_enc_u64(fd)
    }

    /// Encodes this message.
    pub fn encode(&self) -> (out: Vec<u8>)
        ensures
            out@ == Self::spec_wire(self.fd),
    {
        let mut out: Vec<u8> = Vec::new();
        write_u64(&mut out, self.fd);
        assert(out@ =~= Self::spec_wire(self.fd));
        out
    }

    /// Decodes a message: it succeeds exactly on a full, well-formed layout
    /// and returns the value laid out.
    pub fn decode(bytes: &Vec<u8>) -> (r: Result<Self, DecodeError>)
        ensures
            match r {
                Ok(m) => bytes@ == Self::spec_wire(m.fd),
                Err(_) => forall|fd: u64| bytes@ != Self::spec_wire(fd),
            },
    {
        let (fd, p1) = match read_u64(bytes, 0) {
            Ok(ok) => ok,
            Err(e) => {
                return Err(e);
            },
        };
        if p1 != bytes.len() {
            return Err(DecodeError);
        }
        proof {
            lemma_piece_whole(bytes@, Self::spec_wire(fd));
        }
        Ok(XstatFsRequest { fd })
    }
}

/// One wire image carries one field tuple: with the decoder's contract,
/// decoding inverts encoding for this message.
pub proof fn lemma_xstat_fs_request_wire_injective(fd1: u64, fd2: u64)
    requires
        XstatFsRequest::spec_wire(fd1) == XstatFsRequest::spec_wire(fd2),
    ensures
        fd1 == fd2,
{
    let e = XstatFsRequest::spec_wire(fd1);
    lemma_piece_self(e);
    lemma_u64_unique(e, 0, fd1, fd2);
}

impl FdOpenDirRequest {
    /// Wire layout: the fields in declaration order.
    pub open spec fn spec_wire(remote_fd: u64) -> Seq<u8> {
        spec_enc_u64(remote_fd)
    }

    /// Encodes this message.
    pub fn encode(&self) -> (out: Vec<u8>)
        ensures
            out@ == Self::spec_wire(self.remote_fd),
    {
        let mut out: Vec<u8> = Vec::new();
        write_u64(&mut out, self.remote_fd);
        assert(out@ =~= Self::spec_wire(self.remote_fd));
        out
    }

    /// Decodes a message: it succeeds exactly on a full, well-formed layout
    /// and returns the value laid out.
    pub fn decode(bytes: &Vec<u8>) -> (r: Result<Self, DecodeError>)
        ensures
            match r {
                Ok(m) => bytes@ == Self::spec_wire(m.remote_fd),
                Err(_) => forall|remote_fd: u64| bytes@ != Self::spec_wire(remote_fd),
            },
    {
        let (remote_fd, p1) = match read_u64(bytes, 0) {
            Ok(ok) => ok,
            Err(e) => {
                return Err(e);
            },
        };
        if p1 != bytes.len() {
            return Err(DecodeError);
        }
        proof {
            lemma_piece_whole(bytes@, Self::spec_wire(remote_fd));
        }
        Ok(FdOpenDirRequest { remote_fd })
    }
}

/// One wire image carries one field tuple: with the decoder's contract,
/// decoding inverts encoding for this message.
pub proof fn lemma_fd_open_dir_request_wire_injective(remote_fd1: u64, remote_fd2: u64)
    requires
        FdOpenDirRequest::spec_wire(remote_fd1) == FdOpenDirRequest::spec_wire(remote_fd2),
    ensures
        remote_fd1 == remote_fd2,
{
    let e = FdOpenDirRequest::spec_wire(remote_fd1);
    lemma_piece_self(e);
    lemma_u64_unique(e, 0, remote_fd1, remote_fd2);
}

impl OpenDirResponse {
    /// Wire layout: the fields in declaration order.
    pub open spec fn spec_wire(fd: u64) -> Seq<u8> {
        spec_enc_u64(fd)
    }

    /// Encodes this message.
    pub fn encode(&self) -> (out: Vec<u8>)
        ensures
            out@ == Self::spec_wire(self.fd),
    {
        let mut out: Vec<u8> = Vec::new();
        write_u64(&mut out, self.fd);
        assert(out@ =~= Self::spec_wire(self.fd));
        out
    }

    /// Decodes a message: it succeeds exactly on a full, well-formed layout
    /// and returns the value laid out.
    pub fn decode(bytes: &Vec<u8>) -> (r: Result<Self, DecodeError>)
        ensures
            match r {
                Ok(m) => bytes@ == Self::spec_wire(m.fd),
                Err(_) => forall|fd: u64| bytes@ != Self::spec_wire(fd),
            },
    {
        let (fd, p1) = match read_u64(bytes, 0) {
            Ok(ok) => ok,
            Err(e) => {
                return Err(e);
            },
        };
        if p1 != bytes.len() {
            return Err(DecodeError);
        }
        proof {
            lemma_piece_whole(bytes@, Self::spec_wire(fd));
        }
        Ok(OpenDirResponse { fd })
    }
}

/// One wire image carries one field tuple: with the decoder's contract,
/// decoding inverts encoding for this message.
pub proof fn lemma_open_dir_response_wire_injective(fd1: u64, fd2: u64)
    requires
        OpenDirResponse::spec_wire(fd1) == OpenDirResponse::spec_wire(fd2),
    ensures
        fd1 == fd2,
{
    let e = OpenDirResponse::spec_wire(fd1);
    lemma_piece_self(e);
    lemma_u64_unique(e, 0, fd1, fd2);
}

impl ReadDirRequest {
    /// Wire layout: the fields in declaration order.
    pub open spec fn spec_wire(remote_fd: u64) -> Seq<u8> {
        spec_enc_u64(remote_fd)
    }

    /// Encodes this message.
    pub fn encode(&self) -> (out: Vec<u8>)
        ensures
            out@ == Self::spec_wire(self.remote_fd),
    {
        let mut out: Vec<u8> = Vec::new();
        write_u64(&mut out, self.remote_fd);
        assert(out@ =~= Self::spec_wire(self.remote_fd));
        out
    }

    /// Decodes a message: it succeeds exactly on a full, well-formed layout
    /// and returns the value laid out.
    pub fn decode(bytes: &Vec<u8>) -> (r: Result<Self, DecodeError>)
        ensures
            match r {
                Ok(m) => bytes@ == Self::spec_wire(m.remote_fd),
                Err(_) => forall|remote_fd: u64| bytes@ != Self::spec_wire(remote_fd),
            },
    {
        let (remote_fd, p1) = match read_u64(bytes, 0) {
            Ok(ok) => ok,
            Err(e) => {
                return Err(e);
            },
        };
        if p1 != bytes.len() {
            return Err(DecodeError);
        }
        proof {
            lemma_piece_whole(bytes@, Self::spec_wire(remote_fd));
        }
        Ok(ReadDirRequest { remote_fd })
    }
}

/// One wire image carries one field tuple: with the decoder's contract,
/// decoding inverts encoding for this message.
pub proof fn lemma_read_dir_request_wire_injective(remote_fd1: u64, remote_fd2: u64)
    requires
        ReadDirRequest::spec_wire(remote_fd1) == ReadDirRequest::spec_wire(remote_fd2),
    ensures
        remote_fd1 == remote_fd2,
{
    let e = ReadDirRequest::spec_wire(remote_fd1);
    lemma_piece_self(e);
    lemma_u64_unique(e, 0, remote_fd1, remote_fd2);
}

impl CloseDirRequest {
    /// Wire layout: the fields in declaration order.
    pub open spec fn spec_wire(remote_fd: u64) -> Seq<u8> {
        spec_enc_u64(remote_fd)
    }

    /// Encodes this message.
    pub fn encode(&self) -> (out: Vec<u8>)
        ensures
            out@ == Self::spec_wire(self.remote_fd),
    {
        let mut out: Vec<u8> = Vec::new();
        write_u64(&mut out, self.remote_fd);
        assert(out@ =~= Self::spec_wire(self.remote_fd));
        out
    }

    /// Decodes a message: it succeeds exactly on a full, well-formed layout
    /// and returns the value laid out.
    pub fn decode(bytes: &Vec<u8>) -> (r: Result<Self, DecodeError>)
        ensures
            match r {
                Ok(m) => bytes@ == Self::spec_wire(m.remote_fd),
                Err(_) => forall|remote_fd: u64| bytes@ != Self::spec_wire(remote_fd),
            },
    {
        let (remote_fd, p1) = match read_u64(bytes, 0) {
            Ok(ok) => ok,
            Err(e) => {
                return Err(e);
            },
        };
        if p1 != bytes.len() {
            return Err(DecodeError);
        }
        proof {
            lemma_piece_whole(bytes@, Self::spec_wire(remote_fd));
        }
        Ok(CloseDirRequest { remote_fd })
    }
}

/// One wire image carries one field tuple: with the decoder's contract,
/// decoding inverts encoding for this message.
pub proof fn lemma_close_dir_request_wire_injective(remote_fd1: u64, remote_fd2: u64)
    requires
        CloseDirRequest::spec_wire(remote_fd1) == CloseDirRequest::spec_wire(remote_fd2),
    ensures
        remote_fd1 == remote_fd2,
{
    let e = CloseDirRequest::spec_wire(remote_fd1);
    lemma_piece_self(e);
    lemma_u64_unique(e, 0, remote_fd1, remote_fd2);
}

impl ReadFileRequest {
    /// Wire layout: the fields in declaration order.
    pub open spec fn spec_wire(remote_fd: u64, buffer_size: u64) -> Seq<u8> {
        spec_enc_u64(remote_fd) + spec_enc_u64(buffer_size)
    }

    /// Encodes this message.
    pub fn encode(&self) -> (out: Vec<u8>)
        ensures
            out@ == Self::spec_wire(self.remote_fd, self.buffer_size),
    {
        let mut out: Vec<u8> = Vec::new();
        write_u64(&mut out, self.remote_fd);
        write_u64(&mut out, self.buffer_size);
        assert(out@ =~= Self::spec_wire(self.remote_fd, self.buffer_size));
        out
    }

    /// Decodes a message: it succeeds exactly on a full, well-formed layout
    /// and returns the value laid out.
    pub fn decode(bytes: &Vec<u8>) -> (r: Result<Self, DecodeError>)
        ensures
            match r {
                Ok(m) => bytes@ == Self::spec_wire(m.remote_fd, m.buffer_size),
                Err(_) => forall|remote_fd: u64, buffer_size: u64| bytes@ != Self::spec_wire(remote_fd, buffer_size),
            },
    {
        let (remote_fd, p1) = match read_u64(bytes, 0) {
            Ok(ok) => ok,
            Err(e) => {
                return Err(e);
            },
        };
        let (buffer_size, p2) = match read_u64(bytes, p1) {
            Ok(ok) => ok,
            Err(e) => {
                return Err(e);
            },
        };
        if p2 != bytes.len() {
            return Err(DecodeError);
        }
        proof {
            lemma_piece_join(bytes@, 0, spec_enc_u64(remote_fd), spec_enc_u64(buffer_size));
            lemma_piece_whole(bytes@, Self::spec_wire(remote_fd, buffer_size));
        }
        Ok(ReadFileRequest { remote_fd, buffer_size })
    }
}

/// One wire image carries one field tuple: with the decoder's contract,
/// decoding inverts encoding for this message.
pub proof fn lemma_read_file_request_wire_injective(remote_fd1: u64, buffer_size1: u64, remote_fd2: u64, buffer_size2: u64)
    requires
        ReadFileRequest::spec_wire(remote_fd1, buffer_size1) == ReadFileRequest::spec_wire(remote_fd2, buffer_size2),
    ensures
        remote_fd1 == remote_fd2,
        buffer_size1 == buffer_size2,
{
    let e = ReadFileRequest::spec_wire(remote_fd1, buffer_size1);
    lemma_piece_self(e);
    lemma_piece_split(e, 0, spec_enc_u64(remote_fd1), spec_enc_u64(buffer_size1));
    lemma_piece_split(e, 0, spec_enc_u64(remote_fd2), spec_enc_u64(buffer_size2));
    lemma_u64_unique(e, 0, remote_fd1, remote_fd2);
    lemma_u64_unique(e, 8, buffer_size1, buffer_size2);
}

impl GetDEnts64Request {
    /// Wire layout: the fields in declaration order.
    pub open spec fn spec_wire(remote_fd: u64, buffer_size: u64) -> Seq<u8> {
        spec_enc_u64(remote_fd) + spec_enc_u64(buffer_size)
    }

    /// Encodes this message.
    pub fn encode(&self) -> (out: Vec<u8>)
        ensures
            out@ == Self::spec_wire(self.remote_fd, self.buffer_size),
    {
        let mut out: Vec<u8> = Vec::new();
        write_u64(&mut out, self.remote_fd);
        write_u64(&mut out, self.buffer_size);
        assert(out@ =~= Self::spec_wire(self.remote_fd, self.buffer_size));
        out
    }

    /// Decodes a message: it succeeds exactly on a full, well-formed layout
    /// and returns the value laid out.
    pub fn decode(bytes: &Vec<u8>) -> (r: Result<Self, DecodeError>)
        ensures
            match r {
                Ok(m) => bytes@ == Self::spec_wire(m.remote_fd, m.buffer_size),
                Err(_) => forall|remote_fd: u64, buffer_size: u64| bytes@ != Self::spec_wire(remote_fd, buffer_size),
            },
    {
        let (remote_fd, p1) = match read_u64(bytes, 0) {
            Ok(ok) => ok,
            Err(e) => {
                return Err(e);
            },
        };
        let (buffer_size, p2) = match read_u64(bytes, p1) {
            Ok(ok) => ok,
            Err(e) => {
                return Err(e);
            },
        };
        if p2 != bytes.len() {
            return Err(DecodeError);
        }
        proof {
            lemma_piece_join(bytes@, 0, spec_enc_u64(remote_fd), spec_enc_u64(buffer_size));
            lemma_piece_whole(bytes@, Self::spec_wire(remote_fd, buffer_size));
        }
        Ok(GetDEnts64Request { remote_fd, buffer_size })
    }
}

/// One wire image carries one field tuple: with the decoder's contract,
/// decoding inverts encoding for this message.
pub proof fn lemma_get_dents64_request_wire_injective(remote_fd1: u64, buffer_size1: u64, remote_fd2: u64, buffer_size2: u64)
    requires
        GetDEnts64Request::spec_wire(remote_fd1, buffer_size1) == GetDEnts64Request::spec_wire(remote_fd2, buffer_size2),
    ensures
        remote_fd1 == remote_fd2,
        buffer_size1 == buffer_size2,
{
    let e = GetDEnts64Request::spec_wire(remote_fd1, buffer_size1);
    lemma_piece_self(e);
    lemma_piece_split(e, 0, spec_enc_u64(remote_fd1), spec_enc_u64(buffer_size1));
    lemma_piece_split(e, 0, spec_enc_u64(remote_fd2), spec_enc_u64(buffer_size2));
    lemma_u64_unique(e, 0, remote_fd1, remote_fd2);
    lemma_u64_unique(e, 8, buffer_size1, buffer_size2);
}

impl ReadLimitedFileRequest {
    /// Wire layout: the fields in declaration order.
    pub open spec fn spec_wire(remote_fd: u64, buffer_size: u64, start_from: u64) -> Seq<u8> {
        spec_enc_u64(remote_fd) + spec_enc_u64(buffer_size) + spec_enc_u64(start_from)
    }

    /// Encodes this message.
    pub fn encode(&self) -> (out: Vec<u8>)
        ensures
            out@ == Self::spec_wire(self.remote_fd, self.buffer_size, self.start_from),
    {
        let mut out: Vec<u8> = Vec::new();
        write_u64(&mut out, self.remote_fd);
        write_u64(&mut out, self.buffer_size);
        write_u64(&mut out, self.start_from);
        assert(out@ =~= Self::spec_wire(self.remote_fd, self.buffer_size, self.start_from));
        out
    }

    /// Decodes a message: it succeeds exactly on a full, well-formed layout
    /// and returns the value laid out.
    pub fn decode(bytes: &Vec<u8>) -> (r: Result<Self, DecodeError>)
        ensures
            match r {
                Ok(m) => bytes@ == Self::spec_wire(m.remote_fd, m.buffer_size, m.start_from),
                Err(_) => forall|remote_fd: u64, buffer_size: u64, start_from: u64| bytes@ != Self::spec_wire(remote_fd, buffer_size, start_from),
            },
    {
        let (remote_fd, p1) = match read_u64(bytes, 0) {
            Ok(ok) => ok,
            Err(e) => {
                return Err(e);
            },
        };
        let (buffer_size, p2) = match read_u64(bytes, p1) {
            Ok(ok) => ok,
            Err(e) => {
                return Err(e);
            },
        };
        let (start_from, p3) = match read_u64(bytes, p2) {
            Ok(ok) => ok,
            Err(e) => {
                return Err(e);
            },
        };
        if p3 != bytes.len() {
            return Err(DecodeError);
        }
        proof {
            lemma_piece_join(bytes@, 0, spec_enc_u64(remote_fd), spec_enc_u64(buffer_size));
            lemma_piece_join(bytes@, 0, spec_enc_u64(remote_fd) + spec_enc_u64(buffer_size), spec_enc_u64(start_from));
            lemma_piece_whole(bytes@, Self::spec_wire(remote_fd, buffer_size, start_from));
        }
        Ok(ReadLimitedFileRequest { remote_fd, buffer_size, start_from })
    }
}

/// One wire image carries one field tuple: with the decoder's contract,
/// decoding inverts encoding for this message.
pub proof fn lemma_read_limited_file_request_wire_injective(remote_fd1: u64, buffer_size1: u64, start_from1: u64, remote_fd2: u64, buffer_size2: u64, start_from2: u64)
    requires
        ReadLimitedFileRequest::spec_wire(remote_fd1, buffer_size1, start_from1) == ReadLimitedFileRequest::spec_wire(remote_fd2, buffer_size2, start_from2),
    ensures
        remote_fd1 == remote_fd2,
        buffer_size1 == buffer_size2,
        start_from1 == start_from2,
{
    let e = ReadLimitedFileRequest::spec_wire(remote_fd1, buffer_size1, start_from1);
    lemma_piece_self(e);
    lemma_piece_split(e, 0, spec_enc_u64(remote_fd1) + spec_enc_u64(buffer_size1), spec_enc_u64(start_from1));
    lemma_piece_split(e, 0, spec_enc_u64(remote_fd1), spec_enc_u64(buffer_size1));
    lemma_piece_split(e, 0, spec_enc_u64(remote_fd2) + spec_enc_u64(buffer_size2), spec_enc_u64(start_from2));
    lemma_piece_split(e, 0, spec_enc_u64(remote_fd2), spec_enc_u64(buffer_size2));
    lemma_u64_unique(e, 0, remote_fd1, remote_fd2);
    lemma_u64_unique(e, 8, buffer_size1, buffer_size2);
    lemma_u64_unique(e, 16, start_from1, start_from2);
}

impl MakeDirResponse {
    /// Wire layout: the fields in declaration order.
    pub open spec fn spec_wire(result: i32, errno: i32) -> Seq<u8> {
        spec_enc_i32(result) + spec_enc_i32(errno)
    }

    /// Encodes this message.
    pub fn encode(&self) -> (out: Vec<u8>)
        ensures
            out@ == Self::spec_wire(self.result, self.errno),
    {
        let mut out: Vec<u8> = Vec::new();
        write_i32(&mut out, self.result);
        write_i32(&mut out, self.errno);
        assert(out@ =~= Self::spec_wire(self.result, self.errno));
        out
    }

    /// Decodes a message: it succeeds exactly on a full, well-formed layout
    /// and returns the value laid out.
    pub fn decode(bytes: &Vec<u8>) -> (r: Result<Self, DecodeError>)
        ensures
            match r {
                Ok(m) => bytes@ == Self::spec_wire(m.result, m.errno),
                Err(_) => forall|result: i32, errno: i32| bytes@ != Self::spec_wire(result, errno),
            },
    {
        let (result, p1) = match read_i32(bytes, 0) {
            Ok(ok) => ok,
            Err(e) => {
                return Err(e);
            },
        };
        let (errno, p2) = match read_i32(bytes, p1) {
            Ok(ok) => ok,
            Err(e) => {
                return Err(e);
            },
        };
        if p2 != bytes.len() {
            return Err(DecodeError);
        }
        proof {
            lemma_piece_join(bytes@, 0, spec_enc_i32(result), spec_enc_i32(errno));
            lemma_piece_whole(bytes@, Self::spec_wire(result, errno));
        }
        Ok(MakeDirResponse { result, errno })
    }
}

/// One wire image carries one field tuple: with the decoder's contract,
/// decoding inverts encoding for this message.
pub proof fn lemma_make_dir_response_wire_injective(result1: i32, errno1: i32, result2: i32, errno2: i32)
    requires
        MakeDirResponse::spec_wire(result1, errno1) == MakeDirResponse::spec_wire(result2, errno2),
    ensures
        result1 == result2,
        errno1 == errno2,
{
    let e = MakeDirResponse::spec_wire(result1, errno1);
    lemma_piece_self(e);
    lemma_piece_split(e, 0, spec_enc_i32(result1), spec_enc_i32(errno1));
    lemma_piece_split(e, 0, spec_enc_i32(result2), spec_enc_i32(errno2));
    lemma_i32_unique(e, 0, result1, result2);
    lemma_i32_unique(e, 4, errno1, errno2);
}

impl MakeDirAtResponse {
    /// Wire layout: the fields in declaration order.
    pub open spec fn spec_wire(result: i32, errno: i32) -> Seq<u8> {
        spec_enc_i32(result) + spec_enc_i32(errno)
    }

    /// Encodes this message.
    pub fn encode(&self) -> (out: Vec<u8>)
        ensures
            out@ == Self::spec_wire(self.result, self.errno),
    {
        let mut out: Vec<u8> = Vec::new();
        write_i32(&mut out, self.result);
        write_i32(&mut out, self.errno);
        assert(out@ =~= Self::spec_wire(self.result, self.errno));
        out
    }

    /// Decodes a message: it succeeds exactly on a full, well-formed layout
    /// and returns the value laid out.
    pub fn decode(bytes: &Vec<u8>) -> (r: Result<Self, DecodeError>)
        ensures
            match r {
                Ok(m) => bytes@ == Self::spec_wire(m.result, m.errno),
                Err(_) => forall|result: i32, errno: i32| bytes@ != Self::spec_wire(result, errno),
            },
    {
        let (result, p1) = match read_i32(bytes, 0) {
            Ok(ok) => ok,
            Err(e) => {
                return Err(e);
            },
        };
        let (errno, p2) = match read_i32(bytes, p1) {
            Ok(ok) => ok,
            Err(e) => {
                return Err(e);
            },
        };
        if p2 != bytes.len() {
            return Err(DecodeError);
        }
        proof {
            lemma_piece_join(bytes@, 0, spec_enc_i32(result), spec_enc_i32(errno));
            lemma_piece_whole(bytes@, Self::spec_wire(result, errno));
        }
        Ok(MakeDirAtResponse { result, errno })
    }
}

/// One wire image carries one field tuple: with the decoder's contract,
/// decoding inverts encoding for this message.
pub proof fn lemma_make_dir_at_response_wire_injective(result1: i32, errno1: i32, result2: i32, errno2: i32)
    requires
        MakeDirAtResponse::spec_wire(result1, errno1) == MakeDirAtResponse::spec_wire(result2, errno2),
    ensures
        result1 == result2,
        errno1 == errno2,
{
    let e = MakeDirAtResponse::spec_wire(result1, errno1);
    lemma_piece_self(e);
    lemma_piece_split(e, 0, spec_enc_i32(result1), spec_enc_i32(errno1));
    lemma_piece_split(e, 0, spec_enc_i32(result2), spec_enc_i32(errno2));
    lemma_i32_unique(e, 0, result1, result2);
    lemma_i32_unique(e, 4, errno1, errno2);
}

// ---------------------------------------------------------------------------
// Uniqueness of entry runs.
// ---------------------------------------------------------------------------

/// Two equally long runs of entries at one position carry one value.
proof fn lemma_entry_list_unique(s: Seq<u8>, at: int, a: Seq<DirEntryView>, b: Seq<DirEntryView>)
    requires
        piece_at(s, at, spec_enc_entry_list(a)),
        piece_at(s, at, spec_enc_entry_list(b)),
        a.len() == b.len(),
        forall|i: int| 0 <= i < a.len() ==> dir_entry_fits(#[trigger] a[i]),
        forall|i: int| 0 <= i < b.len() ==> dir_entry_fits(#[trigger] b[i]),
    ensures
        a == b,
    decreases a.len(),
{
    if a.len() == 0 {
        assert(a =~= b);
    } else {
        lemma_piece_split(s, at, spec_enc_dir_entry(a[0]), spec_enc_entry_list(a.skip(1)));
        lemma_piece_split(s, at, spec_enc_dir_entry(b[0]), spec_enc_entry_list(b.skip(1)));
        lemma_dir_entry_unique(s, at, a[0], b[0]);
        assert forall|i: int| 0 <= i < a.skip(1).len() implies dir_entry_fits(
            #[trigger] a.skip(1)[i],
        ) by {
            assert(a.skip(1)[i] == a[i + 1]);
        }
        assert forall|i: int| 0 <= i < b.skip(1).len() implies dir_entry_fits(
            #[trigger] b.skip(1)[i],
        ) by {
            assert(b.skip(1)[i] == b[i + 1]);
        }
        lemma_entry_list_unique(s, at + spec_enc_dir_entry(a[0]).len(), a.skip(1), b.skip(1));
        assert forall|i: int| 0 <= i < a.len() implies a[i] == b[i] by {
            if i > 0 {
                assert(a.skip(1)[i - 1] == a[i]);
                assert(b.skip(1)[i - 1] == b[i]);
            }
        }
        assert(a =~= b);
    }
}

/// Two counted runs of entries at one position carry one value.
pub proof fn lemma_entries_unique(s: Seq<u8>, at: int, a: Seq<DirEntryView>, b: Seq<DirEntryView>)
    requires
        piece_at(s, at, spec_enc_entries(a)),
        piece_at(s, at, spec_enc_entries(b)),
        entries_fit(a),
        entries_fit(b),
    ensures
        a == b,
{
    lemma_piece_split(s, at, spec_enc_u64(a.len() as u64), spec_enc_entry_list(a));
    lemma_piece_split(s, at, spec_enc_u64(b.len() as u64), spec_enc_entry_list(b));
    lemma_u64_unique(s, at, a.len() as u64, b.len() as u64);
    lemma_entry_list_unique(s, at + 8, a, b);
}

// ---------------------------------------------------------------------------
// Messages around a single compound field.
// ---------------------------------------------------------------------------

impl AccessFileResponse {
    /// Wire layout: nothing; the outer envelope alone signals success.
    pub open spec fn spec_wire() -> Seq<u8> {
        Seq::empty()
    }

    /// Encodes this message.
    pub fn encode(&self) -> (out: Vec<u8>)
        ensures
            out@ == Self::spec_wire(),
    {
        let out: Vec<u8> = Vec::new();
        assert(out@ =~= Self::spec_wire());
        out
    }

    /// Decodes a message: it succeeds exactly on the empty payload.
    pub fn decode(bytes: &Vec<u8>) -> (r: Result<Self, DecodeError>)
        ensures
            match r {
                Ok(_) => bytes@ == Self::spec_wire(),
                Err(_) => bytes@ != Self::spec_wire(),
            },
    {
        if bytes.len() == 0 {
            proof {
                assert(bytes@ =~= Self::spec_wire());
            }
            Ok(AccessFileResponse)
        } else {
            Err(DecodeError)
        }
    }
}

impl XstatResponse {
    /// Wire layout: the metadata value.
    pub open spec fn spec_wire(metadata: MetadataInternal) -> Seq<u8> {
        spec_enc_metadata(metadata)
    }

    /// Encodes this message.
    pub fn encode(&self) -> (out: Vec<u8>)
        ensures
            out@ == Self::spec_wire(self.metadata),
    {
        let mut out: Vec<u8> = Vec::new();
        write_metadata(&mut out, &self.metadata);
        assert(out@ =~= Self::spec_wire(self.metadata));
        out
    }

    /// Decodes a message: it succeeds exactly on a full, well-formed layout
    /// and returns the value laid out.
    pub fn decode(bytes: &Vec<u8>) -> (r: Result<Self, DecodeError>)
        ensures
            match r {
                Ok(m) => bytes@ == Self::spec_wire(m.metadata),
                Err(_) => forall|metadata: MetadataInternal| bytes@ != Self::spec_wire(metadata),
            },
    {
        let (metadata, end) = match read_metadata(bytes, 0) {
            Ok(ok) => ok,
            Err(e) => {
                proof {
                    assert forall|md: MetadataInternal| bytes@ != Self::spec_wire(md) by {
                        if bytes@ == Self::spec_wire(md) {
                            lemma_piece_self(bytes@);
                        }
                    }
                }
                return Err(e);
            },
        };
        if end != bytes.len() {
            return Err(DecodeError);
        }
        proof {
            lemma_piece_whole(bytes@, Self::spec_wire(metadata));
        }
        Ok(XstatResponse { metadata })
    }
}

impl XstatFsResponse {
    /// Wire layout: the filesystem-metadata value.
    pub open spec fn spec_wire(metadata: FsMetadataInternal) -> Seq<u8> {
        spec_enc_fs_metadata(metadata)
    }

    /// Encodes this message.
    pub fn encode(&self) -> (out: Vec<u8>)
        ensures
            out@ == Self::spec_wire(self.metadata),
    {
        let mut out: Vec<u8> = Vec::new();
        write_fs_metadata(&mut out, &self.metadata);
        assert(out@ =~= Self::spec_wire(self.metadata));
        out
    }

    /// Decodes a message: it succeeds exactly on a full, well-formed layout
    /// and returns the value laid out.
    pub fn decode(bytes: &Vec<u8>) -> (r: Result<Self, DecodeError>)
        ensures
            match r {
                Ok(m) => bytes@ == Self::spec_wire(m.metadata),
                Err(_) => forall|metadata: FsMetadataInternal| bytes@ != Self::spec_wire(metadata),
            },
    {
        let (metadata, end) = match read_fs_metadata(bytes, 0) {
            Ok(ok) => ok,
            Err(e) => {
                proof {
                    assert forall|md: FsMetadataInternal| bytes@ != Self::spec_wire(md) by {
                        if bytes@ == Self::spec_wire(md) {
                            lemma_piece_self(bytes@);
                        }
                    }
                }
                return Err(e);
            },
        };
        if end != bytes.len() {
            return Err(DecodeError);
        }
        proof {
            lemma_piece_whole(bytes@, Self::spec_wire(metadata));
        }
        Ok(XstatFsResponse { metadata })
    }
}

/// One wire image carries one metadata value: with the decoder's contract,
/// decoding inverts encoding for this message.
pub proof fn lemma_xstat_response_wire_injective(md1: MetadataInternal, md2: MetadataInternal)
    requires
        XstatResponse::spec_wire(md1) == XstatResponse::spec_wire(md2),
    ensures
        md1 == md2,
{
    let e = XstatResponse::spec_wire(md1);
    lemma_piece_self(e);
    lemma_metadata_unique(e, 0, md1, md2);
}

/// One wire image carries one filesystem-metadata value: with the decoder's
/// contract, decoding inverts encoding for this message.
pub proof fn lemma_xstat_fs_response_wire_injective(md1: FsMetadataInternal, md2: FsMetadataInternal)
    requires
        XstatFsResponse::spec_wire(md1) == XstatFsResponse::spec_wire(md2),
    ensures
        md1 == md2,
{
    let e = XstatFsResponse::spec_wire(md1);
    lemma_piece_self(e);
    lemma_fs_metadata_unique(e, 0, md1, md2);
}

impl SeekFileRequest {
    /// Wire layout: the descriptor, then the seek origin.
    pub open spec fn spec_wire(fd: u64, seek_from: SeekFromInternal) -> Seq<u8> {
        spec_enc_u64(fd) + spec_enc_seek(seek_from)
    }

    /// Encodes this message.
    pub fn encode(&self) -> (out: Vec<u8>)
        ensures
            out@ == Self::spec_wire(self.fd, self.seek_from),
    {
        let mut out: Vec<u8> = Vec::new();
        write_u64(&mut out, self.fd);
        write_seek(&mut out, &self.seek_from);
        assert(out@ =~= Self::spec_wire(self.fd, self.seek_from));
        out
    }

    /// Decodes a message: it succeeds exactly on a full, well-formed layout
    /// and returns the value laid out.
    pub fn decode(bytes: &Vec<u8>) -> (r: Result<Self, DecodeError>)
        ensures
            match r {
                Ok(m) => bytes@ == Self::spec_wire(m.fd, m.seek_from),
                Err(_) => forall|fd: u64, seek_from: SeekFromInternal|
                    bytes@ != Self::spec_wire(fd, seek_from),
            },
    {
        let (fd, p1) = match read_u64(bytes, 0) {
            Ok(ok) => ok,
            Err(e) => {
                proof {
                    assert forall|fd2: u64, s2: SeekFromInternal|
                        bytes@ != Self::spec_wire(fd2, s2) by {
                        assert(spec_enc_seek(s2).len() == 9);
                    }
                }
                return Err(e);
            },
        };
        let (seek_from, end) = match read_seek(bytes, p1) {
            Ok(ok) => ok,
            Err(e) => {
                proof {
                    assert forall|fd2: u64, s2: SeekFromInternal|
                        bytes@ != Self::spec_wire(fd2, s2) by {
                        if bytes@ == Self::spec_wire(fd2, s2) {
                            lemma_piece_self(bytes@);
                            lemma_piece_split(bytes@, 0, spec_enc_u64(fd2), spec_enc_seek(s2));
                        }
                    }
                }
                return Err(e);
            },
        };
        if end != bytes.len() {
            proof {
                assert forall|fd2: u64, s2: SeekFromInternal| bytes@ != Self::spec_wire(fd2, s2) by {
                    assert(spec_enc_seek(s2).len() == 9);
                }
            }
            return Err(DecodeError);
        }
        proof {
            lemma_piece_join(bytes@, 0, spec_enc_u64(fd), spec_enc_seek(seek_from));
            lemma_piece_whole(bytes@, Self::spec_wire(fd, seek_from));
        }
        Ok(SeekFileRequest { fd, seek_from })
    }
}

/// One wire image carries one field tuple: with the decoder's contract,
/// decoding inverts encoding for this message.
pub proof fn lemma_seek_file_request_wire_injective(
    fd1: u64,
    seek1: SeekFromInternal,
    fd2: u64,
    seek2: SeekFromInternal,
)
    requires
        SeekFileRequest::spec_wire(fd1, seek1) == SeekFileRequest::spec_wire(fd2, seek2),
    ensures
        fd1 == fd2,
        seek1 == seek2,
{
    let e = SeekFileRequest::spec_wire(fd1, seek1);
    lemma_piece_self(e);
    lemma_piece_split(e, 0, spec_enc_u64(fd1), spec_enc_seek(seek1));
    lemma_piece_split(e, 0, spec_enc_u64(fd2), spec_enc_seek(seek2));
    lemma_u64_unique(e, 0, fd1, fd2);
    lemma_seek_unique(e, 8, seek1, seek2);
}

impl ReadDirBatchRequest {
    /// Wire layout: the descriptor, then the batch amount as a `u64`.
    pub open spec fn spec_wire(remote_fd: u64, amount: usize) -> Seq<u8> {
        spec_enc_u64(remote_fd) + spec_enc_u64(amount as u64)
    }

    /// Encodes this message.
    pub fn encode(&self) -> (out: Vec<u8>)
        ensures
            out@ == Self::spec_wire(self.remote_fd, self.amount),
    {
        let mut out: Vec<u8> = Vec::new();
        write_u64(&mut out, self.remote_fd);
        write_u64(&mut out, self.amount as u64);
        assert(out@ =~= Self::spec_wire(self.remote_fd, self.amount));
        out
    }

    /// Decodes a message: it succeeds exactly on a full, well-formed layout
    /// whose amount this machine can hold, and returns the value laid out.
    pub fn decode(bytes: &Vec<u8>) -> (r: Result<Self, DecodeError>)
        ensures
            match r {
                Ok(m) => bytes@ == Self::spec_wire(m.remote_fd, m.amount),
                Err(_) => forall|remote_fd: u64, amount: usize|
                    bytes@ != Self::spec_wire(remote_fd, amount),
            },
    {
        let (remote_fd, p1) = match read_u64(bytes, 0) {
            Ok(ok) => ok,
            Err(e) => {
                return Err(e);
            },
        };
        let (n, end) = match read_u64(bytes, p1) {
            Ok(ok) => ok,
            Err(e) => {
                return Err(e);
            },
        };
        if n > usize::MAX as u64 {
            proof {
                assert forall|fd2: u64, am2: usize| bytes@ != Self::spec_wire(fd2, am2) by {
                    if bytes@ == Self::spec_wire(fd2, am2) {
                        lemma_piece_self(bytes@);
                        lemma_piece_split(bytes@, 0, spec_enc_u64(fd2), spec_enc_u64(am2 as u64));
                        lemma_u64_unique(bytes@, 8, n, am2 as u64);
                    }
                }
            }
            return Err(DecodeError);
        }
        let amount = n as usize;
        if end != bytes.len() {
            return Err(DecodeError);
        }
        proof {
            lemma_piece_join(bytes@, 0, spec_enc_u64(remote_fd), spec_enc_u64(amount as u64));
            lemma_piece_whole(bytes@, Self::spec_wire(remote_fd, amount));
        }
        Ok(ReadDirBatchRequest { remote_fd, amount })
    }
}

/// One wire image carries one field tuple: with the decoder's contract,
/// decoding inverts encoding for this message.
pub proof fn lemma_read_dir_batch_request_wire_injective(
    fd1: u64,
    amount1: usize,
    fd2: u64,
    amount2: usize,
)
    requires
        ReadDirBatchRequest::spec_wire(fd1, amount1) == ReadDirBatchRequest::spec_wire(
            fd2,
            amount2,
        ),
    ensures
        fd1 == fd2,
        amount1 == amount2,
{
    let e = ReadDirBatchRequest::spec_wire(fd1, amount1);
    lemma_piece_self(e);
    lemma_piece_split(e, 0, spec_enc_u64(fd1), spec_enc_u64(amount1 as u64));
    lemma_piece_split(e, 0, spec_enc_u64(fd2), spec_enc_u64(amount2 as u64));
    lemma_u64_unique(e, 0, fd1, fd2);
    lemma_u64_unique(e, 8, amount1 as u64, amount2 as u64);
}

// ---------------------------------------------------------------------------
// Messages with text fields.
// ---------------------------------------------------------------------------

impl ReadLinkFileRequest {
    /// Wire layout: the path of the link to resolve.
    pub open spec fn spec_wire(path: Seq<char>) -> Seq<u8> {
        spec_enc_str(path)
    }

    /// Encodes this message.
    pub fn encode(&self) -> (out: Vec<u8>)
        ensures
            out@ == Self::spec_wire(self.path@),
            str_fits(self.path@),
    {
        let mut out: Vec<u8> = Vec::new();
        write_str(&mut out, &self.path);
        assert(out@ =~= Self::spec_wire(self.path@));
        out
    }

    /// Decodes a message: it succeeds exactly on a full, well-formed layout
    /// and returns the value laid out.
    pub fn decode(bytes: &Vec<u8>) -> (r: Result<Self, DecodeError>)
        ensures
            match r {
                Ok(m) => bytes@ == Self::spec_wire(m.path@) && str_fits(m.path@),
                Err(_) => forall|path: Seq<char>|
                    str_fits(path) ==> bytes@ != Self::spec_wire(path),
            },
    {
        let (path, end) = match read_string(bytes, 0) {
            Ok(ok) => ok,
            Err(e) => {
                proof {
                    assert forall|p2: Seq<char>| str_fits(p2) && bytes@ == Self::spec_wire(p2)
                        implies false by {
                        lemma_piece_self(bytes@);
                    }
                }
                return Err(e);
            },
        };
        if end != bytes.len() {
            proof {
                assert forall|p2: Seq<char>| str_fits(p2) && bytes@ == Self::spec_wire(p2)
                    implies false by {
                    lemma_piece_self(bytes@);
                    lemma_str_unique(bytes@, 0, path@, p2);
                }
            }
            return Err(DecodeError);
        }
        proof {
            lemma_piece_whole(bytes@, Self::spec_wire(path@));
        }
        Ok(ReadLinkFileRequest { path })
    }
}

/// One wire image carries one path: with the decoder's contract, decoding
/// inverts encoding for this message.
pub proof fn lemma_read_link_file_request_wire_injective(path1: Seq<char>, path2: Seq<char>)
    requires
        ReadLinkFileRequest::spec_wire(path1) == ReadLinkFileRequest::spec_wire(path2),
        str_fits(path1),
        str_fits(path2),
    ensures
        path1 == path2,
{
    let e = ReadLinkFileRequest::spec_wire(path1);
    lemma_piece_self(e);
    lemma_str_unique(e, 0, path1, path2);
}

impl ReadLinkFileResponse {
    /// Wire layout: the contents of the symbolic link.
    pub open spec fn spec_wire(path: Seq<char>) -> Seq<u8> {
        spec_enc_str(path)
    }

    /// Encodes this message.
    pub fn encode(&self) -> (out: Vec<u8>)
        ensures
            out@ == Self::spec_wire(self.path@),
            str_fits(self.path@),
    {
        let mut out: Vec<u8> = Vec::new();
        write_str(&mut out, &self.path);
        assert(out@ =~= Self::spec_wire(self.path@));
        out
    }

    /// Decodes a message: it succeeds exactly on a full, well-formed layout
    /// and returns the value laid out.
    pub fn decode(bytes: &Vec<u8>) -> (r: Result<Self, DecodeError>)
        ensures
            match r {
                Ok(m) => bytes@ == Self::spec_wire(m.path@) && str_fits(m.path@),
                Err(_) => forall|path: Seq<char>|
                    str_fits(path) ==> bytes@ != Self::spec_wire(path),
            },
    {
        let (path, end) = match read_string(bytes, 0) {
            Ok(ok) => ok,
            Err(e) => {
                proof {
                    assert forall|p2: Seq<char>| str_fits(p2) && bytes@ == Self::spec_wire(p2)
                        implies false by {
                        lemma_piece_self(bytes@);
                    }
                }
                return Err(e);
            },
        };
        if end != bytes.len() {
            proof {
                assert forall|p2: Seq<char>| str_fits(p2) && bytes@ == Self::spec_wire(p2)
                    implies false by {
                    lemma_piece_self(bytes@);
                    lemma_str_unique(bytes@, 0, path@, p2);
                }
            }
            return Err(DecodeError);
        }
        proof {
            lemma_piece_whole(bytes@, Self::spec_wire(path@));
        }
        Ok(ReadLinkFileResponse { path })
    }
}

/// One wire image carries one path: with the decoder's contract, decoding
/// inverts encoding for this message.
pub proof fn lemma_read_link_file_response_wire_injective(path1: Seq<char>, path2: Seq<char>)
    requires
        ReadLinkFileResponse::spec_wire(path1) == ReadLinkFileResponse::spec_wire(path2),
        str_fits(path1),
        str_fits(path2),
    ensures
        path1 == path2,
{
    let e = ReadLinkFileResponse::spec_wire(path1);
    lemma_piece_self(e);
    lemma_str_unique(e, 0, path1, path2);
}

impl MakeDirRequest {
    /// Wire layout: the directory path, then the native mode bits.
    pub open spec fn spec_wire(pathname: Seq<char>, mode: u32) -> Seq<u8> {
        spec_enc_str(pathname) + spec_enc_u32(mode)
    }

    /// Encodes this message.
    pub fn encode(&self) -> (out: Vec<u8>)
        ensures
            out@ == Self::spec_wire(self.pathname@, self.mode),
            str_fits(self.pathname@),
    {
        let mut out: Vec<u8> = Vec::new();
        write_str(&mut out, &self.pathname);
        write_u32(&mut out, self.mode);
        assert(out@ =~= Self::spec_wire(self.pathname@, self.mode));
        out
    }

    /// Decodes a message: it succeeds exactly on a full, well-formed layout
    /// and returns the value laid out.
    pub fn decode(bytes: &Vec<u8>) -> (r: Result<Self, DecodeError>)
        ensures
            match r {
                Ok(m) => bytes@ == Self::spec_wire(m.pathname@, m.mode) && str_fits(m.pathname@),
                Err(_) => forall|pathname: Seq<char>, mode: u32|
                    str_fits(pathname) ==> bytes@ != Self::spec_wire(pathname, mode),
            },
    {
        let (pathname, p1) = match read_string(bytes, 0) {
            Ok(ok) => ok,
            Err(e) => {
                proof {
                    assert forall|p2: Seq<char>, m2: u32|
                        str_fits(p2) && bytes@ == Self::spec_wire(p2, m2) implies false by {
                        lemma_piece_self(bytes@);
                        lemma_piece_split(bytes@, 0, spec_enc_str(p2), spec_enc_u32(m2));
                    }
                }
                return Err(e);
            },
        };
        let (mode, end) = match read_u32(bytes, p1) {
            Ok(ok) => ok,
            Err(e) => {
                proof {
                    assert forall|p2: Seq<char>, m2: u32|
                        str_fits(p2) && bytes@ == Self::spec_wire(p2, m2) implies false by {
                        lemma_piece_self(bytes@);
                        lemma_piece_split(bytes@, 0, spec_enc_str(p2), spec_enc_u32(m2));
                        lemma_str_unique(bytes@, 0, pathname@, p2);
                    }
                }
                return Err(e);
            },
        };
        if end != bytes.len() {
            proof {
                assert forall|p2: Seq<char>, m2: u32|
                    str_fits(p2) && bytes@ == Self::spec_wire(p2, m2) implies false by {
                    lemma_piece_self(bytes@);
                    lemma_piece_split(bytes@, 0, spec_enc_str(p2), spec_enc_u32(m2));
                    lemma_str_unique(bytes@, 0, pathname@, p2);
                }
            }
            return Err(DecodeError);
        }
        proof {
            lemma_piece_join(bytes@, 0, spec_enc_str(pathname@), spec_enc_u32(mode));
            lemma_piece_whole(bytes@, Self::spec_wire(pathname@, mode));
        }
        Ok(MakeDirRequest { pathname, mode })
    }
}

/// One wire image carries one field tuple: with the decoder's contract,
/// decoding inverts encoding for this message.
pub proof fn lemma_make_dir_request_wire_injective(
    path1: Seq<char>,
    mode1: u32,
    path2: Seq<char>,
    mode2: u32,
)
    requires
        MakeDirRequest::spec_wire(path1, mode1) == MakeDirRequest::spec_wire(path2, mode2),
        str_fits(path1),
        str_fits(path2),
    ensures
        path1 == path2,
        mode1 == mode2,
{
    let e = MakeDirRequest::spec_wire(path1, mode1);
    lemma_piece_self(e);
    lemma_piece_split(e, 0, spec_enc_str(path1), spec_enc_u32(mode1));
    lemma_piece_split(e, 0, spec_enc_str(path2), spec_enc_u32(mode2));
    lemma_str_unique(e, 0, path1, path2);
    lemma_u32_unique(e, spec_enc_str(path1).len() as int, mode1, mode2);
}

impl AccessFileRequest {
    /// Wire layout: the path, then the access mode byte.
    pub open spec fn spec_wire(pathname: Seq<char>, mode: u8) -> Seq<u8> {
        spec_enc_str(pathname) + spec_enc_u8(mode)
    }

    /// Encodes this message.
    pub fn encode(&self) -> (out: Vec<u8>)
        ensures
            out@ == Self::spec_wire(self.pathname@, self.mode),
            str_fits(self.pathname@),
    {
        let mut out: Vec<u8> = Vec::new();
        write_str(&mut out, &self.pathname);
        write_u8(&mut out, self.mode);
        assert(out@ =~= Self::spec_wire(self.pathname@, self.mode));
        out
    }

    /// Decodes a message: it succeeds exactly on a full, well-formed layout
    /// and returns the value laid out.
    pub fn decode(bytes: &Vec<u8>) -> (r: Result<Self, DecodeError>)
        ensures
            match r {
                Ok(m) => bytes@ == Self::spec_wire(m.pathname@, m.mode) && str_fits(m.pathname@),
                Err(_) => forall|pathname: Seq<char>, mode: u8|
                    str_fits(pathname) ==> bytes@ != Self::spec_wire(pathname, mode),
            },
    {
        let (pathname, p1) = match read_string(bytes, 0) {
            Ok(ok) => ok,
            Err(e) => {
                proof {
                    assert forall|p2: Seq<char>, m2: u8|
                        str_fits(p2) && bytes@ == Self::spec_wire(p2, m2) implies false by {
                        lemma_piece_self(bytes@);
                        lemma_piece_split(bytes@, 0, spec_enc_str(p2), spec_enc_u8(m2));
                    }
                }
                return Err(e);
            },
        };
        let (mode, end) = match read_u8(bytes, p1) {
            Ok(ok) => ok,
            Err(e) => {
                proof {
                    assert forall|p2: Seq<char>, m2: u8|
                        str_fits(p2) && bytes@ == Self::spec_wire(p2, m2) implies false by {
                        lemma_piece_self(bytes@);
                        lemma_piece_split(bytes@, 0, spec_enc_str(p2), spec_enc_u8(m2));
                        lemma_str_unique(bytes@, 0, pathname@, p2);
                    }
                }
                return Err(e);
            },
        };
        if end != bytes.len() {
            proof {
                assert forall|p2: Seq<char>, m2: u8|
                    str_fits(p2) && bytes@ == Self::spec_wire(p2, m2) implies false by {
                    lemma_piece_self(bytes@);
                    lemma_piece_split(bytes@, 0, spec_enc_str(p2), spec_enc_u8(m2));
                    lemma_str_unique(bytes@, 0, pathname@, p2);
                }
            }
            return Err(DecodeError);
        }
        proof {
            lemma_piece_join(bytes@, 0, spec_enc_str(pathname@), spec_enc_u8(mode));
            lemma_piece_whole(bytes@, Self::spec_wire(pathname@, mode));
        }
        Ok(AccessFileRequest { pathname, mode })
    }
}

/// One wire image carries one field tuple: with the decoder's contract,
/// decoding inverts encoding for this message.
pub proof fn lemma_access_file_request_wire_injective(
    path1: Seq<char>,
    mode1: u8,
    path2: Seq<char>,
    mode2: u8,
)
    requires
        AccessFileRequest::spec_wire(path1, mode1) == AccessFileRequest::spec_wire(path2, mode2),
        str_fits(path1),
        str_fits(path2),
    ensures
        path1 == path2,
        mode1 == mode2,
{
    let e = AccessFileRequest::spec_wire(path1, mode1);
    lemma_piece_self(e);
    lemma_piece_split(e, 0, spec_enc_str(path1), spec_enc_u8(mode1));
    lemma_piece_split(e, 0, spec_enc_str(path2), spec_enc_u8(mode2));
    lemma_str_unique(e, 0, path1, path2);
    lemma_u8_unique(e, spec_enc_str(path1).len() as int, mode1, mode2);
}

impl MakeDirAtRequest {
    /// Wire layout: the base descriptor, the directory path, the mode bits.
    pub open spec fn spec_wire(dirfd: i32, pathname: Seq<char>, mode: u32) -> Seq<u8> {
        spec_enc_i32(dirfd) + spec_enc_str(pathname) + spec_enc_u32(mode)
    }

    /// Encodes this message.
    pub fn encode(&self) -> (out: Vec<u8>)
        ensures
            out@ == Self::spec_wire(self.dirfd, self.pathname@, self.mode),
            str_fits(self.pathname@),
    {
        let mut out: Vec<u8> = Vec::new();
        write_i32(&mut out, self.dirfd);
        write_str(&mut out, &self.pathname);
        write_u32(&mut out, self.mode);
        assert(out@ =~= Self::spec_wire(self.dirfd, self.pathname@, self.mode));
        out
    }

    /// Decodes a message: it succeeds exactly on a full, well-formed layout
    /// and returns the value laid out.
    pub fn decode(bytes: &Vec<u8>) -> (r: Result<Self, DecodeError>)
        ensures
            match r {
                Ok(m) => bytes@ == Self::spec_wire(m.dirfd, m.pathname@, m.mode) && str_fits(
                    m.pathname@,
                ),
                Err(_) => forall|dirfd: i32, pathname: Seq<char>, mode: u32|
                    str_fits(pathname) ==> bytes@ != Self::spec_wire(dirfd, pathname, mode),
            },
    {
        let (dirfd, p1) = match read_i32(bytes, 0) {
            Ok(ok) => ok,
            Err(e) => {
                proof {
                    assert forall|d2: i32, p2: Seq<char>, m2: u32|
                        str_fits(p2) && bytes@ == Self::spec_wire(d2, p2, m2) implies false by {
                        lemma_piece_self(bytes@);
                        lemma_piece_split(bytes@, 0, spec_enc_i32(d2) + spec_enc_str(p2),
                            spec_enc_u32(m2));
                        lemma_piece_split(bytes@, 0, spec_enc_i32(d2), spec_enc_str(p2));
                    }
                }
                return Err(e);
            },
        };
        let (pathname, p2) = match read_string(bytes, p1) {
            Ok(ok) => ok,
            Err(e) => {
                proof {
                    assert forall|d2: i32, pn2: Seq<char>, m2: u32|
                        str_fits(pn2) && bytes@ == Self::spec_wire(d2, pn2, m2) implies false by {
                        lemma_piece_self(bytes@);
                        lemma_piece_split(bytes@, 0, spec_enc_i32(d2) + spec_enc_str(pn2),
                            spec_enc_u32(m2));
                        lemma_piece_split(bytes@, 0, spec_enc_i32(d2), spec_enc_str(pn2));
                    }
                }
                return Err(e);
            },
        };
        let (mode, end) = match read_u32(bytes, p2) {
            Ok(ok) => ok,
            Err(e) => {
                proof {
                    assert forall|d2: i32, pn2: Seq<char>, m2: u32|
                        str_fits(pn2) && bytes@ == Self::spec_wire(d2, pn2, m2) implies false by {
                        lemma_piece_self(bytes@);
                        lemma_piece_split(bytes@, 0, spec_enc_i32(d2) + spec_enc_str(pn2),
                            spec_enc_u32(m2));
                        lemma_piece_split(bytes@, 0, spec_enc_i32(d2), spec_enc_str(pn2));
                        lemma_str_unique(bytes@, 4, pathname@, pn2);
                    }
                }
                return Err(e);
            },
        };
        if end != bytes.len() {
            proof {
                assert forall|d2: i32, pn2: Seq<char>, m2: u32|
                    str_fits(pn2) && bytes@ == Self::spec_wire(d2, pn2, m2) implies false by {
                    lemma_piece_self(bytes@);
                    lemma_piece_split(bytes@, 0, spec_enc_i32(d2) + spec_enc_str(pn2),
                        spec_enc_u32(m2));
                    lemma_piece_split(bytes@, 0, spec_enc_i32(d2), spec_enc_str(pn2));
                    lemma_str_unique(bytes@, 4, pathname@, pn2);
                }
            }
            return Err(DecodeError);
        }
        proof {
            lemma_piece_join(bytes@, 0, spec_enc_i32(dirfd), spec_enc_str(pathname@));
            lemma_piece_join(bytes@, 0, spec_enc_i32(dirfd) + spec_enc_str(pathname@),
                spec_enc_u32(mode));
            lemma_piece_whole(bytes@, Self::spec_wire(dirfd, pathname@, mode));
        }
        Ok(MakeDirAtRequest { dirfd, pathname, mode })
    }
}

/// One wire image carries one field tuple: with the decoder's contract,
/// decoding inverts encoding for this message.
pub proof fn lemma_make_dir_at_request_wire_injective(
    dirfd1: i32,
    path1: Seq<char>,
    mode1: u32,
    dirfd2: i32,
    path2: Seq<char>,
    mode2: u32,
)
    requires
        MakeDirAtRequest::spec_wire(dirfd1, path1, mode1) == MakeDirAtRequest::spec_wire(
            dirfd2,
            path2,
            mode2,
        ),
        str_fits(path1),
        str_fits(path2),
    ensures
        dirfd1 == dirfd2,
        path1 == path2,
        mode1 == mode2,
{
    let e = MakeDirAtRequest::spec_wire(dirfd1, path1, mode1);
    lemma_piece_self(e);
    lemma_piece_split(e, 0, spec_enc_i32(dirfd1) + spec_enc_str(path1), spec_enc_u32(mode1));
    lemma_piece_split(e, 0, spec_enc_i32(dirfd1), spec_enc_str(path1));
    lemma_piece_split(e, 0, spec_enc_i32(dirfd2) + spec_enc_str(path2), spec_enc_u32(mode2));
    lemma_piece_split(e, 0, spec_enc_i32(dirfd2), spec_enc_str(path2));
    lemma_i32_unique(e, 0, dirfd1, dirfd2);
    lemma_str_unique(e, 4, path1, path2);
    lemma_u32_unique(e, 4 + spec_enc_str(path1).len() as int, mode1, mode2);
}

impl OpenFileRequest {
    /// Wire layout: the path, then the open-flag set.
    pub open spec fn spec_wire(path: Seq<char>, open_options: OpenOptionsInternal) -> Seq<u8> {
        spec_enc_str(path) + spec_enc_open_options(open_options)
    }

    /// Encodes this message.
    pub fn encode(&self) -> (out: Vec<u8>)
        ensures
            out@ == Self::spec_wire(self.path@, self.open_options),
            str_fits(self.path@),
    {
        let mut out: Vec<u8> = Vec::new();
        write_str(&mut out, &self.path);
        write_open_options(&mut out, &self.open_options);
        assert(out@ =~= Self::spec_wire(self.path@, self.open_options));
        out
    }

    /// Decodes a message: it succeeds exactly on a full, well-formed layout
    /// and returns the value laid out.
    #[verifier::rlimit(100)]
    pub fn decode(bytes: &Vec<u8>) -> (r: Result<Self, DecodeError>)
        ensures
            match r {
                Ok(m) => bytes@ == Self::spec_wire(m.path@, m.open_options) && str_fits(m.path@),
                Err(_) => forall|path: Seq<char>, open_options: OpenOptionsInternal|
                    str_fits(path) ==> bytes@ != Self::spec_wire(path, open_options),
            },
    {
        let (path, p1) = match read_string(bytes, 0) {
            Ok(ok) => ok,
            Err(e) => {
                proof {
                    assert forall|p2: Seq<char>, o2: OpenOptionsInternal|
                        str_fits(p2) && bytes@ == Self::spec_wire(p2, o2) implies false by {
                        lemma_piece_self(bytes@);
                        lemma_piece_split(bytes@, 0, spec_enc_str(p2), spec_enc_open_options(o2));
                    }
                }
                return Err(e);
            },
        };
        let (open_options, end) = match read_open_options(bytes, p1) {
            Ok(ok) => ok,
            Err(e) => {
                proof {
                    assert forall|p2: Seq<char>, o2: OpenOptionsInternal|
                        str_fits(p2) && bytes@ == Self::spec_wire(p2, o2) implies false by {
                        lemma_piece_self(bytes@);
                        lemma_piece_split(bytes@, 0, spec_enc_str(p2), spec_enc_open_options(o2));
                        lemma_str_unique(bytes@, 0, path@, p2);
                        lemma_open_options_bytes(bytes@, spec_enc_str(p2).len() as int, o2);
                    }
                }
                return Err(e);
            },
        };
        if end != bytes.len() {
            proof {
                assert forall|p2: Seq<char>, o2: OpenOptionsInternal|
                    str_fits(p2) && bytes@ == Self::spec_wire(p2, o2) implies false by {
                    lemma_piece_self(bytes@);
                    lemma_piece_split(bytes@, 0, spec_enc_str(p2), spec_enc_open_options(o2));
                    lemma_str_unique(bytes@, 0, path@, p2);
                }
            }
            return Err(DecodeError);
        }
        proof {
            lemma_piece_join(bytes@, 0, spec_enc_str(path@), spec_enc_open_options(open_options));
            lemma_piece_whole(bytes@, Self::spec_wire(path@, open_options));
        }
        Ok(OpenFileRequest { path, open_options })
    }
}

/// One wire image carries one field tuple: with the decoder's contract,
/// decoding inverts encoding for this message.
pub proof fn lemma_open_file_request_wire_injective(
    path1: Seq<char>,
    opts1: OpenOptionsInternal,
    path2: Seq<char>,
    opts2: OpenOptionsInternal,
)
    requires
        OpenFileRequest::spec_wire(path1, opts1) == OpenFileRequest::spec_wire(path2, opts2),
        str_fits(path1),
        str_fits(path2),
    ensures
        path1 == path2,
        opts1 == opts2,
{
    let e = OpenFileRequest::spec_wire(path1, opts1);
    lemma_piece_self(e);
    lemma_piece_split(e, 0, spec_enc_str(path1), spec_enc_open_options(opts1));
    lemma_piece_split(e, 0, spec_enc_str(path2), spec_enc_open_options(opts2));
    lemma_str_unique(e, 0, path1, path2);
    lemma_open_options_unique(e, spec_enc_str(path1).len() as int, opts1, opts2);
}

impl OpenRelativeFileRequest {
    /// Wire layout: the base descriptor, the relative path, the flag set.
    pub open spec fn spec_wire(
        relative_fd: u64,
        path: Seq<char>,
        open_options: OpenOptionsInternal,
    ) -> Seq<u8> {
        spec_enc_u64(relative_fd) + spec_enc_str(path) + spec_enc_open_options(open_options)
    }

    /// Encodes this message.
    pub fn encode(&self) -> (out: Vec<u8>)
        ensures
            out@ == Self::spec_wire(self.relative_fd, self.path@, self.open_options),
            str_fits(self.path@),
    {
        let mut out: Vec<u8> = Vec::new();
        write_u64(&mut out, self.relative_fd);
        write_str(&mut out, &self.path);
        write_open_options(&mut out, &self.open_options);
        assert(out@ =~= Self::spec_wire(self.relative_fd, self.path@, self.open_options));
        out
    }

    /// Decodes a message: it succeeds exactly on a full, well-formed layout
    /// and returns the value laid out.
    #[verifier::rlimit(100)]
    pub fn decode(bytes: &Vec<u8>) -> (r: Result<Self, DecodeError>)
        ensures
            match r {
                Ok(m) => bytes@ == Self::spec_wire(m.relative_fd, m.path@, m.open_options)
                    && str_fits(m.path@),
                Err(_) => forall|relative_fd: u64, path: Seq<char>, open_options: OpenOptionsInternal|
                    str_fits(path) ==> bytes@ != Self::spec_wire(relative_fd, path, open_options),
            },
    {
        let (relative_fd, p1) = match read_u64(bytes, 0) {
            Ok(ok) => ok,
            Err(e) => {
                proof {
                    lemma_open_relative_file_request_none_short(bytes@);
                }
                return Err(e);
            },
        };
        let (path, p2) = match read_string(bytes, p1) {
            Ok(ok) => ok,
            Err(e) => {
                proof {
                    lemma_open_relative_file_request_none_without_path(bytes@);
                }
                return Err(e);
            },
        };
        let (open_options, end) = match read_open_options(bytes, p2) {
            Ok(ok) => ok,
            Err(e) => {
                proof {
                    lemma_open_relative_file_request_none_bad_options(bytes@, path@);
                }
                return Err(e);
            },
        };
        if end != bytes.len() {
            proof {
                lemma_open_relative_file_request_none_wrong_len(bytes@, path@);
            }
            return Err(DecodeError);
        }
        proof {
            lemma_open_relative_file_request_join(bytes@, relative_fd, path@, open_options);
        }
        Ok(OpenRelativeFileRequest { relative_fd, path, open_options })
    }
}

/// One wire image carries one field tuple: with the decoder's contract,
/// decoding inverts encoding for this message.
pub proof fn lemma_open_relative_file_request_wire_injective(
    fd1: u64,
    path1: Seq<char>,
    opts1: OpenOptionsInternal,
    fd2: u64,
    path2: Seq<char>,
    opts2: OpenOptionsInternal,
)
    requires
        OpenRelativeFileRequest::spec_wire(fd1, path1, opts1) == OpenRelativeFileRequest::spec_wire(
            fd2,
            path2,
            opts2,
        ),
        str_fits(path1),
        str_fits(path2),
    ensures
        fd1 == fd2,
        path1 == path2,
        opts1 == opts2,
{
    let e = OpenRelativeFileRequest::spec_wire(fd1, path1, opts1);
    lemma_piece_self(e);
    lemma_piece_split(e, 0, spec_enc_u64(fd1) + spec_enc_str(path1), spec_enc_open_options(opts1));
    lemma_piece_split(e, 0, spec_enc_u64(fd1), spec_enc_str(path1));
    lemma_piece_split(e, 0, spec_enc_u64(fd2) + spec_enc_str(path2), spec_enc_open_options(opts2));
    lemma_piece_split(e, 0, spec_enc_u64(fd2), spec_enc_str(path2));
    lemma_u64_unique(e, 0, fd1, fd2);
    lemma_str_unique(e, 8, path1, path2);
    lemma_open_options_unique(e, 8 + spec_enc_str(path1).len() as int, opts1, opts2);
}

impl XstatRequest {
    /// Wire layout: the optional path, the optional descriptor, the
    /// follow-symlink flag.
    pub open spec fn spec_wire(
        path: Option<Seq<char>>,
        fd: Option<u64>,
        follow_symlink: bool,
    ) -> Seq<u8> {
        spec_enc_opt_str(path) + spec_enc_opt_u64(fd) + spec_enc_bool(follow_symlink)
    }

    /// Encodes this message.
    pub fn encode(&self) -> (out: Vec<u8>)
        ensures
            out@ == Self::spec_wire(opt_str_view(self.path), self.fd, self.follow_symlink),
            opt_str_fits(opt_str_view(self.path)),
    {
        let mut out: Vec<u8> = Vec::new();
        write_opt_str(&mut out, &self.path);
        write_opt_u64(&mut out, &self.fd);
        write_bool(&mut out, self.follow_symlink);
        assert(out@ =~= Self::spec_wire(opt_str_view(self.path), self.fd, self.follow_symlink));
        out
    }

    /// Decodes a message: it succeeds exactly on a full, well-formed layout
    /// and returns the value laid out.
    pub fn decode(bytes: &Vec<u8>) -> (r: Result<Self, DecodeError>)
        ensures
            match r {
                Ok(m) => bytes@ == Self::spec_wire(opt_str_view(m.path), m.fd, m.follow_symlink)
                    && opt_str_fits(opt_str_view(m.path)),
                Err(_) => forall|path: Option<Seq<char>>, fd: Option<u64>, follow_symlink: bool|
                    opt_str_fits(path) ==> bytes@ != Self::spec_wire(path, fd, follow_symlink),
            },
    {
        let (path, p1) = match read_opt_str(bytes, 0) {
            Ok(ok) => ok,
            Err(e) => {
                proof {
                    assert forall|pa2: Option<Seq<char>>, f2: Option<u64>, b2: bool|
                        opt_str_fits(pa2) && bytes@ == Self::spec_wire(pa2, f2, b2)
                        implies false by {
                        lemma_piece_self(bytes@);
                        lemma_piece_split(bytes@, 0, spec_enc_opt_str(pa2) + spec_enc_opt_u64(f2),
                            spec_enc_bool(b2));
                        lemma_piece_split(bytes@, 0, spec_enc_opt_str(pa2), spec_enc_opt_u64(f2));
                    }
                }
                return Err(e);
            },
        };
        let (fd, p2) = match read_opt_u64(bytes, p1) {
            Ok(ok) => ok,
            Err(e) => {
                proof {
                    assert forall|pa2: Option<Seq<char>>, f2: Option<u64>, b2: bool|
                        opt_str_fits(pa2) && bytes@ == Self::spec_wire(pa2, f2, b2)
                        implies false by {
                        lemma_piece_self(bytes@);
                        lemma_piece_split(bytes@, 0, spec_enc_opt_str(pa2) + spec_enc_opt_u64(f2),
                            spec_enc_bool(b2));
                        lemma_piece_split(bytes@, 0, spec_enc_opt_str(pa2), spec_enc_opt_u64(f2));
                        lemma_opt_str_unique(bytes@, 0, opt_str_view(path), pa2);
                    }
                }
                return Err(e);
            },
        };
        let (follow_symlink, end) = match read_bool(bytes, p2) {
            Ok(ok) => ok,
            Err(e) => {
                proof {
                    assert forall|pa2: Option<Seq<char>>, f2: Option<u64>, b2: bool|
                        opt_str_fits(pa2) && bytes@ == Self::spec_wire(pa2, f2, b2)
                        implies false by {
                        lemma_piece_self(bytes@);
                        lemma_piece_split(bytes@, 0, spec_enc_opt_str(pa2) + spec_enc_opt_u64(f2),
                            spec_enc_bool(b2));
                        lemma_piece_split(bytes@, 0, spec_enc_opt_str(pa2), spec_enc_opt_u64(f2));
                        lemma_opt_str_unique(bytes@, 0, opt_str_view(path), pa2);
                        lemma_opt_u64_unique(bytes@, spec_enc_opt_str(pa2).len() as int, fd, f2);
                        assert(bytes@.subrange(p2 as int, p2 as int + 1)[0] == bytes@[p2 as int]);
                    }
                }
                return Err(e);
            },
        };
        if end != bytes.len() {
            proof {
                assert forall|pa2: Option<Seq<char>>, f2: Option<u64>, b2: bool|
                    opt_str_fits(pa2) && bytes@ == Self::spec_wire(pa2, f2, b2) implies false by {
                    lemma_piece_self(bytes@);
                    lemma_piece_split(bytes@, 0, spec_enc_opt_str(pa2) + spec_enc_opt_u64(f2),
                        spec_enc_bool(b2));
                    lemma_piece_split(bytes@, 0, spec_enc_opt_str(pa2), spec_enc_opt_u64(f2));
                    lemma_opt_str_unique(bytes@, 0, opt_str_view(path), pa2);
                    lemma_opt_u64_unique(bytes@, spec_enc_opt_str(pa2).len() as int, fd, f2);
                }
            }
            return Err(DecodeError);
        }
        proof {
            lemma_piece_join(bytes@, 0, spec_enc_opt_str(opt_str_view(path)), spec_enc_opt_u64(fd));
            lemma_piece_join(bytes@, 0, spec_enc_opt_str(opt_str_view(path)) + spec_enc_opt_u64(fd),
                spec_enc_bool(follow_symlink));
            lemma_piece_whole(bytes@, Self::spec_wire(opt_str_view(path), fd, follow_symlink));
        }
        Ok(XstatRequest { path, fd, follow_symlink })
    }
}

/// One wire image carries one field tuple: with the decoder's contract,
/// decoding inverts encoding for this message.
pub proof fn lemma_xstat_request_wire_injective(
    path1: Option<Seq<char>>,
    fd1: Option<u64>,
    follow1: bool,
    path2: Option<Seq<char>>,
    fd2: Option<u64>,
    follow2: bool,
)
    requires
        XstatRequest::spec_wire(path1, fd1, follow1) == XstatRequest::spec_wire(
            path2,
            fd2,
            follow2,
        ),
        opt_str_fits(path1),
        opt_str_fits(path2),
    ensures
        path1 == path2,
        fd1 == fd2,
        follow1 == follow2,
{
    let e = XstatRequest::spec_wire(path1, fd1, follow1);
    lemma_piece_self(e);
    lemma_piece_split(e, 0, spec_enc_opt_str(path1) + spec_enc_opt_u64(fd1), spec_enc_bool(
        follow1,
    ));
    lemma_piece_split(e, 0, spec_enc_opt_str(path1), spec_enc_opt_u64(fd1));
    lemma_piece_split(e, 0, spec_enc_opt_str(path2) + spec_enc_opt_u64(fd2), spec_enc_bool(
        follow2,
    ));
    lemma_piece_split(e, 0, spec_enc_opt_str(path2), spec_enc_opt_u64(fd2));
    lemma_opt_str_unique(e, 0, path1, path2);
    lemma_opt_u64_unique(e, spec_enc_opt_str(path1).len() as int, fd1, fd2);
    lemma_bool_unique(
        e,
        spec_enc_opt_str(path1).len() + spec_enc_opt_u64(fd1).len() as int,
        follow1,
        follow2,
    );
}

// ---------------------------------------------------------------------------
// Messages with raw byte payloads.
// ---------------------------------------------------------------------------

impl ReadFileResponse {
    /// Wire layout: the bytes read, then the read amount.
    pub open spec fn spec_wire(data: Seq<u8>, read_amount: u64) -> Seq<u8> {
        spec_enc_bytes(data) + spec_enc_u64(read_amount)
    }

    /// Encodes this message.
    pub fn encode(&self) -> (out: Vec<u8>)
        ensures
            out@ == Self::spec_wire(self.bytes@, self.read_amount),
            bytes_fit(self.bytes@),
    {
        let mut out: Vec<u8> = Vec::new();
        write_bytes(&mut out, &self.bytes);
        write_u64(&mut out, self.read_amount);
        assert(out@ =~= Self::spec_wire(self.bytes@, self.read_amount));
        out
    }

    /// Decodes a message: it succeeds exactly on a full, well-formed layout
    /// and returns the value laid out.
    pub fn decode(input: &Vec<u8>) -> (r: Result<Self, DecodeError>)
        ensures
            match r {
                Ok(m) => input@ == Self::spec_wire(m.bytes@, m.read_amount) && bytes_fit(m.bytes@),
                Err(_) => forall|data: Seq<u8>, read_amount: u64|
                    bytes_fit(data) ==> input@ != Self::spec_wire(data, read_amount),
            },
    {
        let (bytes, p1) = match read_bytes(input, 0) {
            Ok(ok) => ok,
            Err(e) => {
                proof {
                    assert forall|d2: Seq<u8>, a2: u64|
                        bytes_fit(d2) && input@ == Self::spec_wire(d2, a2) implies false by {
                        lemma_piece_self(input@);
                        lemma_piece_split(input@, 0, spec_enc_bytes(d2), spec_enc_u64(a2));
                    }
                }
                return Err(e);
            },
        };
        let (read_amount, end) = match read_u64(input, p1) {
            Ok(ok) => ok,
            Err(e) => {
                proof {
                    assert forall|d2: Seq<u8>, a2: u64|
                        bytes_fit(d2) && input@ == Self::spec_wire(d2, a2) implies false by {
                        lemma_piece_self(input@);
                        lemma_piece_split(input@, 0, spec_enc_bytes(d2), spec_enc_u64(a2));
                        lemma_bytes_unique(input@, 0, bytes@, d2);
                    }
                }
                return Err(e);
            },
        };
        if end != input.len() {
            proof {
                assert forall|d2: Seq<u8>, a2: u64|
                    bytes_fit(d2) && input@ == Self::spec_wire(d2, a2) implies false by {
                    lemma_piece_self(input@);
                    lemma_piece_split(input@, 0, spec_enc_bytes(d2), spec_enc_u64(a2));
                    lemma_bytes_unique(input@, 0, bytes@, d2);
                }
            }
            return Err(DecodeError);
        }
        proof {
            lemma_piece_join(input@, 0, spec_enc_bytes(bytes@), spec_enc_u64(read_amount));
            lemma_piece_whole(input@, Self::spec_wire(bytes@, read_amount));
        }
        Ok(ReadFileResponse { bytes, read_amount })
    }
}

/// One wire image carries one field tuple: with the decoder's contract,
/// decoding inverts encoding for this message.
pub proof fn lemma_read_file_response_wire_injective(
    data1: Seq<u8>,
    amount1: u64,
    data2: Seq<u8>,
    amount2: u64,
)
    requires
        ReadFileResponse::spec_wire(data1, amount1) == ReadFileResponse::spec_wire(data2, amount2),
        bytes_fit(data1),
        bytes_fit(data2),
    ensures
        data1 == data2,
        amount1 == amount2,
{
    let e = ReadFileResponse::spec_wire(data1, amount1);
    lemma_piece_self(e);
    lemma_piece_split(e, 0, spec_enc_bytes(data1), spec_enc_u64(amount1));
    lemma_piece_split(e, 0, spec_enc_bytes(data2), spec_enc_u64(amount2));
    lemma_bytes_unique(e, 0, data1, data2);
    lemma_u64_unique(e, spec_enc_bytes(data1).len() as int, amount1, amount2);
}

impl WriteFileRequest {
    /// Wire layout: the descriptor, then the bytes to write.
    pub open spec fn spec_wire(fd: u64, data: Seq<u8>) -> Seq<u8> {
        spec_enc_u64(fd) + spec_enc_bytes(data)
    }

    /// Encodes this message.
    pub fn encode(&self) -> (out: Vec<u8>)
        ensures
            out@ == Self::spec_wire(self.fd, self.write_bytes@),
            bytes_fit(self.write_bytes@),
    {
        let mut out: Vec<u8> = Vec::new();
        write_u64(&mut out, self.fd);
        write_bytes(&mut out, &self.write_bytes);
        assert(out@ =~= Self::spec_wire(self.fd, self.write_bytes@));
        out
    }

    /// Decodes a message: it succeeds exactly on a full, well-formed layout
    /// and returns the value laid out.
    pub fn decode(input: &Vec<u8>) -> (r: Result<Self, DecodeError>)
        ensures
            match r {
                Ok(m) => input@ == Self::spec_wire(m.fd, m.write_bytes@) && bytes_fit(
                    m.write_bytes@,
                ),
                Err(_) => forall|fd: u64, data: Seq<u8>|
                    bytes_fit(data) ==> input@ != Self::spec_wire(fd, data),
            },
    {
        let (fd, p1) = match read_u64(input, 0) {
            Ok(ok) => ok,
            Err(e) => {
                proof {
                    assert forall|f2: u64, d2: Seq<u8>|
                        bytes_fit(d2) && input@ == Self::spec_wire(f2, d2) implies false by {
                        lemma_piece_self(input@);
                        lemma_piece_split(input@, 0, spec_enc_u64(f2), spec_enc_bytes(d2));
                    }
                }
                return Err(e);
            },
        };
        let (write_bytes, end) = match read_bytes(input, p1) {
            Ok(ok) => ok,
            Err(e) => {
                proof {
                    assert forall|f2: u64, d2: Seq<u8>|
                        bytes_fit(d2) && input@ == Self::spec_wire(f2, d2) implies false by {
                        lemma_piece_self(input@);
                        lemma_piece_split(input@, 0, spec_enc_u64(f2), spec_enc_bytes(d2));
                    }
                }
                return Err(e);
            },
        };
        if end != input.len() {
            proof {
                assert forall|f2: u64, d2: Seq<u8>|
                    bytes_fit(d2) && input@ == Self::spec_wire(f2, d2) implies false by {
                    lemma_piece_self(input@);
                    lemma_piece_split(input@, 0, spec_enc_u64(f2), spec_enc_bytes(d2));
                    lemma_bytes_unique(input@, 8, write_bytes@, d2);
                }
            }
            return Err(DecodeError);
        }
        proof {
            lemma_piece_join(input@, 0, spec_enc_u64(fd), spec_enc_bytes(write_bytes@));
            lemma_piece_whole(input@, Self::spec_wire(fd, write_bytes@));
        }
        Ok(WriteFileRequest { fd, write_bytes })
    }
}

/// One wire image carries one field tuple: with the decoder's contract,
/// decoding inverts encoding for this message.
pub proof fn lemma_write_file_request_wire_injective(
    fd1: u64,
    data1: Seq<u8>,
    fd2: u64,
    data2: Seq<u8>,
)
    requires
        WriteFileRequest::spec_wire(fd1, data1) == WriteFileRequest::spec_wire(fd2, data2),
        bytes_fit(data1),
        bytes_fit(data2),
    ensures
        fd1 == fd2,
        data1 == data2,
{
    let e = WriteFileRequest::spec_wire(fd1, data1);
    lemma_piece_self(e);
    lemma_piece_split(e, 0, spec_enc_u64(fd1), spec_enc_bytes(data1));
    lemma_piece_split(e, 0, spec_enc_u64(fd2), spec_enc_bytes(data2));
    lemma_u64_unique(e, 0, fd1, fd2);
    lemma_bytes_unique(e, 8, data1, data2);
}

impl WriteLimitedFileRequest {
    /// Wire layout: the descriptor, the write offset, the bytes to write.
    pub open spec fn spec_wire(remote_fd: u64, start_from: u64, data: Seq<u8>) -> Seq<u8> {
        spec_enc_u64(remote_fd) + spec_enc_u64(start_from) + spec_enc_bytes(data)
    }

    /// Encodes this message.
    pub fn encode(&self) -> (out: Vec<u8>)
        ensures
            out@ == Self::spec_wire(self.remote_fd, self.start_from, self.write_bytes@),
            bytes_fit(self.write_bytes@),
    {
        let mut out: Vec<u8> = Vec::new();
        write_u64(&mut out, self.remote_fd);
        write_u64(&mut out, self.start_from);
        write_bytes(&mut out, &self.write_bytes);
        assert(out@ =~= Self::spec_wire(self.remote_fd, self.start_from, self.write_bytes@));
        out
    }

    /// Decodes a message: it succeeds exactly on a full, well-formed layout
    /// and returns the value laid out.
    pub fn decode(input: &Vec<u8>) -> (r: Result<Self, DecodeError>)
        ensures
            match r {
                Ok(m) => input@ == Self::spec_wire(m.remote_fd, m.start_from, m.write_bytes@)
                    && bytes_fit(m.write_bytes@),
                Err(_) => forall|remote_fd: u64, start_from: u64, data: Seq<u8>|
                    bytes_fit(data) ==> input@ != Self::spec_wire(remote_fd, start_from, data),
            },
    {
        let (remote_fd, p1) = match read_u64(input, 0) {
            Ok(ok) => ok,
            Err(e) => {
                proof {
                    assert forall|f2: u64, s2: u64, d2: Seq<u8>|
                        bytes_fit(d2) && input@ == Self::spec_wire(f2, s2, d2) implies false by {
                        lemma_write_limited_file_request_parts(input@, f2, s2, d2);
                    }
                }
                return Err(e);
            },
        };
        let (start_from, p2) = match read_u64(input, p1) {
            Ok(ok) => ok,
            Err(e) => {
                proof {
                    assert forall|f2: u64, s2: u64, d2: Seq<u8>|
                        bytes_fit(d2) && input@ == Self::spec_wire(f2, s2, d2) implies false by {
                        lemma_write_limited_file_request_parts(input@, f2, s2, d2);
                    }
                }
                return Err(e);
            },
        };
        let (write_bytes, end) = match read_bytes(input, p2) {
            Ok(ok) => ok,
            Err(e) => {
                proof {
                    assert forall|f2: u64, s2: u64, d2: Seq<u8>|
                        bytes_fit(d2) && input@ == Self::spec_wire(f2, s2, d2) implies false by {
                        lemma_write_limited_file_request_parts(input@, f2, s2, d2);
                    }
                }
                return Err(e);
            },
        };
        if end != input.len() {
            proof {
                assert forall|f2: u64, s2: u64, d2: Seq<u8>|
                    bytes_fit(d2) && input@ == Self::spec_wire(f2, s2, d2) implies false by {
                    lemma_write_limited_file_request_parts(input@, f2, s2, d2);
                    lemma_bytes_unique(input@, 16, write_bytes@, d2);
                }
            }
            return Err(DecodeError);
        }
        proof {
            lemma_piece_join(input@, 0, spec_enc_u64(remote_fd), spec_enc_u64(start_from));
            lemma_piece_join(input@, 0, spec_enc_u64(remote_fd) + spec_enc_u64(start_from),
                spec_enc_bytes(write_bytes@));
            lemma_piece_whole(input@, Self::spec_wire(remote_fd, start_from, write_bytes@));
        }
        Ok(WriteLimitedFileRequest { remote_fd, start_from, write_bytes })
    }
}

/// One wire image carries one field tuple: with the decoder's contract,
/// decoding inverts encoding for this message.
pub proof fn lemma_write_limited_file_request_wire_injective(
    fd1: u64,
    start1: u64,
    data1: Seq<u8>,
    fd2: u64,
    start2: u64,
    data2: Seq<u8>,
)
    requires
        WriteLimitedFileRequest::spec_wire(fd1, start1, data1) == WriteLimitedFileRequest::spec_wire(
            fd2,
            start2,
            data2,
        ),
        bytes_fit(data1),
        bytes_fit(data2),
    ensures
        fd1 == fd2,
        start1 == start2,
        data1 == data2,
{
    let e = WriteLimitedFileRequest::spec_wire(fd1, start1, data1);
    lemma_piece_self(e);
    lemma_piece_split(e, 0, spec_enc_u64(fd1) + spec_enc_u64(start1), spec_enc_bytes(data1));
    lemma_piece_split(e, 0, spec_enc_u64(fd1), spec_enc_u64(start1));
    lemma_piece_split(e, 0, spec_enc_u64(fd2) + spec_enc_u64(start2), spec_enc_bytes(data2));
    lemma_piece_split(e, 0, spec_enc_u64(fd2), spec_enc_u64(start2));
    lemma_u64_unique(e, 0, fd1, fd2);
    lemma_u64_unique(e, 8, start1, start2);
    lemma_bytes_unique(e, 16, data1, data2);
}

// ---------------------------------------------------------------------------
// Messages carrying directory entries.
// ---------------------------------------------------------------------------

impl ReadDirResponse {
    /// Wire layout: the optional directory entry.
    pub open spec fn spec_wire(direntry: Option<DirEntryView>) -> Seq<u8> {
        spec_enc_opt_entry(direntry)
    }

    /// Encodes this message.
    pub fn encode(&self) -> (out: Vec<u8>)
        ensures
            out@ == Self::spec_wire(opt_entry_view(self.direntry)),
            opt_entry_fits(opt_entry_view(self.direntry)),
    {
        let mut out: Vec<u8> = Vec::new();
        write_opt_entry(&mut out, &self.direntry);
        assert(out@ =~= Self::spec_wire(opt_entry_view(self.direntry)));
        out
    }

    /// Decodes a message: it succeeds exactly on a full, well-formed layout
    /// and returns the value laid out.
    pub fn decode(bytes: &Vec<u8>) -> (r: Result<Self, DecodeError>)
        ensures
            match r {
                Ok(m) => bytes@ == Self::spec_wire(opt_entry_view(m.direntry)) && opt_entry_fits(
                    opt_entry_view(m.direntry),
                ),
                Err(_) => forall|direntry: Option<DirEntryView>|
                    opt_entry_fits(direntry) ==> bytes@ != Self::spec_wire(direntry),
            },
    {
        let (direntry, end) = match read_opt_entry(bytes, 0) {
            Ok(ok) => ok,
            Err(e) => {
                proof {
                    assert forall|d2: Option<DirEntryView>|
                        opt_entry_fits(d2) && bytes@ == Self::spec_wire(d2) implies false by {
                        lemma_piece_self(bytes@);
                    }
                }
                return Err(e);
            },
        };
        if end != bytes.len() {
            proof {
                assert forall|d2: Option<DirEntryView>|
                    opt_entry_fits(d2) && bytes@ == Self::spec_wire(d2) implies false by {
                    lemma_piece_self(bytes@);
                    lemma_opt_entry_unique(bytes@, 0, opt_entry_view(direntry), d2);
                }
            }
            return Err(DecodeError);
        }
        proof {
            lemma_piece_whole(bytes@, Self::spec_wire(opt_entry_view(direntry)));
        }
        Ok(ReadDirResponse { direntry })
    }
}

/// One wire image carries one optional entry: with the decoder's contract,
/// decoding inverts encoding for this message.
pub proof fn lemma_read_dir_response_wire_injective(
    entry1: Option<DirEntryView>,
    entry2: Option<DirEntryView>,
)
    requires
        ReadDirResponse::spec_wire(entry1) == ReadDirResponse::spec_wire(entry2),
        opt_entry_fits(entry1),
        opt_entry_fits(entry2),
    ensures
        entry1 == entry2,
{
    let e = ReadDirResponse::spec_wire(entry1);
    lemma_piece_self(e);
    lemma_opt_entry_unique(e, 0, entry1, entry2);
}

impl ReadDirBatchResponse {
    /// Wire layout: the directory descriptor, then the batch of entries.
    pub open spec fn spec_wire(fd: u64, dir_entries: Seq<DirEntryView>) -> Seq<u8> {
        spec_enc_u64(fd) + spec_enc_entries(dir_entries)
    }

    /// Encodes this message.
    pub fn encode(&self) -> (out: Vec<u8>)
        ensures
            out@ == Self::spec_wire(self.fd, entry_views(self.dir_entries@)),
            entries_fit(entry_views(self.dir_entries@)),
    {
        let mut out: Vec<u8> = Vec::new();
        write_u64(&mut out, self.fd);
        write_entries(&mut out, &self.dir_entries);
        assert(out@ =~= Self::spec_wire(self.fd, entry_views(self.dir_entries@)));
        out
    }

    /// Decodes a message: it succeeds exactly on a full, well-formed layout
    /// and returns the value laid out.
    pub fn decode(bytes: &Vec<u8>) -> (r: Result<Self, DecodeError>)
        ensures
            match r {
                Ok(m) => bytes@ == Self::spec_wire(m.fd, entry_views(m.dir_entries@))
                    && entries_fit(entry_views(m.dir_entries@)),
                Err(_) => forall|fd: u64, dir_entries: Seq<DirEntryView>|
                    entries_fit(dir_entries) ==> bytes@ != Self::spec_wire(fd, dir_entries),
            },
    {
        let (fd, p1) = match read_u64(bytes, 0) {
            Ok(ok) => ok,
            Err(e) => {
                proof {
                    assert forall|f2: u64, es2: Seq<DirEntryView>|
                        entries_fit(es2) && bytes@ == Self::spec_wire(f2, es2) implies false by {
                        lemma_piece_self(bytes@);
                        lemma_piece_split(bytes@, 0, spec_enc_u64(f2), spec_enc_entries(es2));
                    }
                }
                return Err(e);
            },
        };
        let (dir_entries, end) = match read_entries(bytes, p1) {
            Ok(ok) => ok,
            Err(e) => {
                proof {
                    assert forall|f2: u64, es2: Seq<DirEntryView>|
                        entries_fit(es2) && bytes@ == Self::spec_wire(f2, es2) implies false by {
                        lemma_piece_self(bytes@);
                        lemma_piece_split(bytes@, 0, spec_enc_u64(f2), spec_enc_entries(es2));
                    }
                }
                return Err(e);
            },
        };
        if end != bytes.len() {
            proof {
                assert forall|f2: u64, es2: Seq<DirEntryView>|
                    entries_fit(es2) && bytes@ == Self::spec_wire(f2, es2) implies false by {
                    lemma_piece_self(bytes@);
                    lemma_piece_split(bytes@, 0, spec_enc_u64(f2), spec_enc_entries(es2));
                    lemma_entries_unique(bytes@, 8, entry_views(dir_entries@), es2);
                }
            }
            return Err(DecodeError);
        }
        proof {
            lemma_piece_join(bytes@, 0, spec_enc_u64(fd), spec_enc_entries(entry_views(
                dir_entries@,
            )));
            lemma_piece_whole(bytes@, Self::spec_wire(fd, entry_views(dir_entries@)));
        }
        Ok(ReadDirBatchResponse { fd, dir_entries })
    }
}

/// One wire image carries one field tuple: with the decoder's contract,
/// decoding inverts encoding for this message.
pub proof fn lemma_read_dir_batch_response_wire_injective(
    fd1: u64,
    entries1: Seq<DirEntryView>,
    fd2: u64,
    entries2: Seq<DirEntryView>,
)
    requires
        ReadDirBatchResponse::spec_wire(fd1, entries1) == ReadDirBatchResponse::spec_wire(
            fd2,
            entries2,
        ),
        entries_fit(entries1),
        entries_fit(entries2),
    ensures
        fd1 == fd2,
        entries1 == entries2,
{
    let e = ReadDirBatchResponse::spec_wire(fd1, entries1);
    lemma_piece_self(e);
    lemma_piece_split(e, 0, spec_enc_u64(fd1), spec_enc_entries(entries1));
    lemma_piece_split(e, 0, spec_enc_u64(fd2), spec_enc_entries(entries2));
    lemma_u64_unique(e, 0, fd1, fd2);
    lemma_entries_unique(e, 8, entries1, entries2);
}

impl GetDEnts64Response {
    /// Wire layout: the descriptor, the entries, the total record size.
    pub open spec fn spec_wire(fd: u64, entries: Seq<DirEntryView>, result_size: u64) -> Seq<u8> {
        spec_enc_u64(fd) + spec_enc_entries(entries) + spec_enc_u64(result_size)
    }

    /// Encodes this message.
    pub fn encode(&self) -> (out: Vec<u8>)
        ensures
            out@ == Self::spec_wire(self.fd, entry_views(self.entries@), self.result_size),
            entries_fit(entry_views(self.entries@)),
    {
        let mut out: Vec<u8> = Vec::new();
        write_u64(&mut out, self.fd);
        write_entries(&mut out, &self.entries);
        write_u64(&mut out, self.result_size);
        assert(out@ =~= Self::spec_wire(self.fd, entry_views(self.entries@), self.result_size));
        out
    }

    /// Decodes a message: it succeeds exactly on a full, well-formed layout
    /// and returns the value laid out.
    pub fn decode(bytes: &Vec<u8>) -> (r: Result<Self, DecodeError>)
        ensures
            match r {
                Ok(m) => bytes@ == Self::spec_wire(m.fd, entry_views(m.entries@), m.result_size)
                    && entries_fit(entry_views(m.entries@)),
                Err(_) => forall|fd: u64, entries: Seq<DirEntryView>, result_size: u64|
                    entries_fit(entries) ==> bytes@ != Self::spec_wire(fd, entries, result_size),
            },
    {
        let (fd, p1) = match read_u64(bytes, 0) {
            Ok(ok) => ok,
            Err(e) => {
                proof {
                    assert forall|f2: u64, es2: Seq<DirEntryView>, rs2: u64|
                        entries_fit(es2) && bytes@ == Self::spec_wire(f2, es2, rs2)
                        implies false by {
                        lemma_get_dents64_response_parts(bytes@, f2, es2, rs2);
                    }
                }
                return Err(e);
            },
        };
        let (entries, p2) = match read_entries(bytes, p1) {
            Ok(ok) => ok,
            Err(e) => {
                proof {
                    assert forall|f2: u64, es2: Seq<DirEntryView>, rs2: u64|
                        entries_fit(es2) && bytes@ == Self::spec_wire(f2, es2, rs2)
                        implies false by {
                        lemma_get_dents64_response_parts(bytes@, f2, es2, rs2);
                    }
                }
                return Err(e);
            },
        };
        let (result_size, end) = match read_u64(bytes, p2) {
            Ok(ok) => ok,
            Err(e) => {
                proof {
                    assert forall|f2: u64, es2: Seq<DirEntryView>, rs2: u64|
                        entries_fit(es2) && bytes@ == Self::spec_wire(f2, es2, rs2)
                        implies false by {
                        lemma_get_dents64_response_parts(bytes@, f2, es2, rs2);
                        lemma_entries_unique(bytes@, 8, entry_views(entries@), es2);
                    }
                }
                return Err(e);
            },
        };
        if end != bytes.len() {
            proof {
                assert forall|f2: u64, es2: Seq<DirEntryView>, rs2: u64|
                    entries_fit(es2) && bytes@ == Self::spec_wire(f2, es2, rs2) implies false by {
                    lemma_get_dents64_response_parts(bytes@, f2, es2, rs2);
                    lemma_entries_unique(bytes@, 8, entry_views(entries@), es2);
                }
            }
            return Err(DecodeError);
        }
        proof {
            lemma_piece_join(bytes@, 0, spec_enc_u64(fd), spec_enc_entries(entry_views(entries@)));
            lemma_piece_join(bytes@, 0, spec_enc_u64(fd) + spec_enc_entries(entry_views(entries@)),
                spec_enc_u64(result_size));
            lemma_piece_whole(bytes@, Self::spec_wire(fd, entry_views(entries@), result_size));
        }
        Ok(GetDEnts64Response { fd, entries, result_size })
    }
}

/// One wire image carries one field tuple: with the decoder's contract,
/// decoding inverts encoding for this message.
pub proof fn lemma_get_dents64_response_wire_injective(
    fd1: u64,
    entries1: Seq<DirEntryView>,
    size1: u64,
    fd2: u64,
    entries2: Seq<DirEntryView>,
    size2: u64,
)
    requires
        GetDEnts64Response::spec_wire(fd1, entries1, size1) == GetDEnts64Response::spec_wire(
            fd2,
            entries2,
            size2,
        ),
        entries_fit(entries1),
        entries_fit(entries2),
    ensures
        fd1 == fd2,
        entries1 == entries2,
        size1 == size2,
{
    let e = GetDEnts64Response::spec_wire(fd1, entries1, size1);
    lemma_piece_self(e);
    lemma_piece_split(e, 0, spec_enc_u64(fd1) + spec_enc_entries(entries1), spec_enc_u64(size1));
    lemma_piece_split(e, 0, spec_enc_u64(fd1), spec_enc_entries(entries1));
    lemma_piece_split(e, 0, spec_enc_u64(fd2) + spec_enc_entries(entries2), spec_enc_u64(size2));
    lemma_piece_split(e, 0, spec_enc_u64(fd2), spec_enc_entries(entries2));
    lemma_u64_unique(e, 0, fd1, fd2);
    lemma_entries_unique(e, 8, entries1, entries2);
    lemma_u64_unique(e, 8 + spec_enc_entries(entries1).len() as int, size1, size2);
}

/// A full wire image of an open-relative request splits into its pieces.
proof fn lemma_open_relative_file_request_parts(
    s: Seq<u8>,
    relative_fd: u64,
    path: Seq<char>,
    open_options: OpenOptionsInternal,
)
    requires
        s == OpenRelativeFileRequest::spec_wire(relative_fd, path, open_options),
    ensures
        piece_at(s, 0, spec_enc_u64(relative_fd)),
        piece_at(s, 8, spec_enc_str(path)),
        piece_at(s, 8 + spec_enc_str(path).len() as int, spec_enc_open_options(open_options)),
        s.len() == 8 + spec_enc_str(path).len() + 6,
{
    lemma_piece_self(s);
    lemma_piece_split(s, 0, spec_enc_u64(relative_fd) + spec_enc_str(path), spec_enc_open_options(
        open_options,
    ));
    lemma_piece_split(s, 0, spec_enc_u64(relative_fd), spec_enc_str(path));
}

/// A full wire image of a limited write splits into its pieces.
proof fn lemma_write_limited_file_request_parts(
    s: Seq<u8>,
    remote_fd: u64,
    start_from: u64,
    data: Seq<u8>,
)
    requires
        s == WriteLimitedFileRequest::spec_wire(remote_fd, start_from, data),
    ensures
        piece_at(s, 0, spec_enc_u64(remote_fd)),
        piece_at(s, 8, spec_enc_u64(start_from)),
        piece_at(s, 16, spec_enc_bytes(data)),
        s.len() == 16 + spec_enc_bytes(data).len(),
{
    lemma_piece_self(s);
    lemma_piece_split(s, 0, spec_enc_u64(remote_fd) + spec_enc_u64(start_from), spec_enc_bytes(
        data,
    ));
    lemma_piece_split(s, 0, spec_enc_u64(remote_fd), spec_enc_u64(start_from));
}

/// A full wire image of a `getdents64` response splits into its pieces.
proof fn lemma_get_dents64_response_parts(
    s: Seq<u8>,
    fd: u64,
    entries: Seq<DirEntryView>,
    result_size: u64,
)
    requires
        s == GetDEnts64Response::spec_wire(fd, entries, result_size),
    ensures
        piece_at(s, 0, spec_enc_u64(fd)),
        piece_at(s, 8, spec_enc_entries(entries)),
        piece_at(s, 8 + spec_enc_entries(entries).len() as int, spec_enc_u64(result_size)),
        s.len() == 8 + spec_enc_entries(entries).len() + 8,
{
    lemma_piece_self(s);
    lemma_piece_split(s, 0, spec_enc_u64(fd) + spec_enc_entries(entries), spec_enc_u64(
        result_size,
    ));
    lemma_piece_split(s, 0, spec_enc_u64(fd), spec_enc_entries(entries));
}

/// Adjacent pieces of the three fields assemble the full wire image of an
/// open-relative request.
proof fn lemma_open_relative_file_request_join(
    s: Seq<u8>,
    relative_fd: u64,
    path: Seq<char>,
    open_options: OpenOptionsInternal,
)
    requires
        piece_at(s, 0, spec_enc_u64(relative_fd)),
        piece_at(s, 8, spec_enc_str(path)),
        piece_at(s, 8 + spec_enc_str(path).len() as int, spec_enc_open_options(open_options)),
        s.len() == 8 + spec_enc_str(path).len() + 6,
    ensures
        s == OpenRelativeFileRequest::spec_wire(relative_fd, path, open_options),
{
    lemma_piece_join(s, 0, spec_enc_u64(relative_fd), spec_enc_str(path));
    lemma_piece_join(s, 0, spec_enc_u64(relative_fd) + spec_enc_str(path), spec_enc_open_options(
        open_options,
    ));
    lemma_piece_whole(s, OpenRelativeFileRequest::spec_wire(relative_fd, path, open_options));
}

/// No open-relative request is laid out in fewer than 8 bytes.
proof fn lemma_open_relative_file_request_none_short(s: Seq<u8>)
    requires
        s.len() < 8,
    ensures
        forall|relative_fd: u64, path: Seq<char>, open_options: OpenOptionsInternal|
            str_fits(path) ==> s != OpenRelativeFileRequest::spec_wire(
                relative_fd,
                path,
                open_options,
            ),
{
    assert forall|f2: u64, p2: Seq<char>, o2: OpenOptionsInternal|
        str_fits(p2) && s == OpenRelativeFileRequest::spec_wire(f2, p2, o2) implies false by {
        lemma_open_relative_file_request_parts(s, f2, p2, o2);
    }
}

/// No open-relative request is laid out where no text stands at 8.
proof fn lemma_open_relative_file_request_none_without_path(s: Seq<u8>)
    requires
        forall|cs: Seq<char>| str_fits(cs) ==> !piece_at(s, 8, spec_enc_str(cs)),
    ensures
        forall|relative_fd: u64, path: Seq<char>, open_options: OpenOptionsInternal|
            str_fits(path) ==> s != OpenRelativeFileRequest::spec_wire(
                relative_fd,
                path,
                open_options,
            ),
{
    assert forall|f2: u64, p2: Seq<char>, o2: OpenOptionsInternal|
        str_fits(p2) && s == OpenRelativeFileRequest::spec_wire(f2, p2, o2) implies false by {
        lemma_open_relative_file_request_parts(s, f2, p2, o2);
    }
}

/// No open-relative request is laid out when no flag set follows the path.
proof fn lemma_open_relative_file_request_none_bad_options(s: Seq<u8>, pv: Seq<char>)
    requires
        piece_at(s, 8, spec_enc_str(pv)),
        str_fits(pv),
        8 + spec_enc_str(pv).len() + 6 > s.len() || s[8 + spec_enc_str(pv).len() as int] > 1 || s[
            9 + spec_enc_str(pv).len() as int] > 1 || s[10 + spec_enc_str(pv).len() as int] > 1
            || s[11 + spec_enc_str(pv).len() as int] > 1 || s[12 + spec_enc_str(pv).len() as int]
            > 1 || s[13 + spec_enc_str(pv).len() as int] > 1,
    ensures
        forall|relative_fd: u64, path: Seq<char>, open_options: OpenOptionsInternal|
            str_fits(path) ==> s != OpenRelativeFileRequest::spec_wire(
                relative_fd,
                path,
                open_options,
            ),
{
    assert forall|f2: u64, p2: Seq<char>, o2: OpenOptionsInternal|
        str_fits(p2) && s == OpenRelativeFileRequest::spec_wire(f2, p2, o2) implies false by {
        lemma_open_relative_file_request_parts(s, f2, p2, o2);
        lemma_str_unique(s, 8, pv, p2);
        lemma_open_options_bytes(s, 8 + spec_enc_str(p2).len() as int, o2);
    }
}

/// No open-relative request spans a length other than its layout's.
proof fn lemma_open_relative_file_request_none_wrong_len(s: Seq<u8>, pv: Seq<char>)
    requires
        piece_at(s, 8, spec_enc_str(pv)),
        str_fits(pv),
        s.len() != 8 + spec_enc_str(pv).len() + 6,
    ensures
        forall|relative_fd: u64, path: Seq<char>, open_options: OpenOptionsInternal|
            str_fits(path) ==> s != OpenRelativeFileRequest::spec_wire(
                relative_fd,
                path,
                open_options,
            ),
{
    assert forall|f2: u64, p2: Seq<char>, o2: OpenOptionsInternal|
        str_fits(p2) && s == OpenRelativeFileRequest::spec_wire(f2, p2, o2) implies false by {
        lemma_open_relative_file_request_parts(s, f2, p2, o2);
        lemma_str_unique(s, 8, pv, p2);
    }
}

} // verus!
