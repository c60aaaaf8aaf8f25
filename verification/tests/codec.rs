//! Wire round trips for every message of the catalog, and rejection of
//! malformed payloads.

use fsproto::file::{
    AccessFileRequest, AccessFileResponse, CloseDirRequest, CloseFileRequest, DirEntryInternal,
    FdOpenDirRequest, FsMetadataInternal, GetDEnts64Request, GetDEnts64Response, MakeDirAtRequest,
    MakeDirAtResponse, MakeDirRequest, MakeDirResponse, MetadataInternal, OpenDirResponse,
    OpenFileRequest, OpenFileResponse, OpenOptionsInternal, OpenRelativeFileRequest,
    ReadDirBatchRequest, ReadDirBatchResponse, ReadDirRequest, ReadDirResponse, ReadFileRequest,
    ReadFileResponse, ReadLimitedFileRequest, ReadLinkFileRequest, ReadLinkFileResponse,
    SeekFileRequest, SeekFileResponse, SeekFromInternal, WriteFileRequest, WriteFileResponse,
    WriteLimitedFileRequest, XstatFsRequest, XstatFsResponse, XstatRequest, XstatResponse, DT_REG,
};

fn sample_entry(name: &str, position: u64) -> DirEntryInternal {
    DirEntryInternal { inode: 77, position, name: name.to_string(), file_type: DT_REG }
}

fn sample_metadata() -> MetadataInternal {
    MetadataInternal {
        device_id: 1,
        inode: 2,
        mode: 0o100644,
        hard_links: 3,
        user_id: 1000,
        group_id: 1000,
        rdevice_id: 0,
        size: 4096,
        access_time: -5,
        modification_time: 6,
        creation_time: 7,
        block_size: 512,
        blocks: 8,
    }
}

#[test]
fn roundtrip_open_file_request() {
    let m = OpenFileRequest {
        path: "/tmp/some file δ".to_string(),
        open_options: OpenOptionsInternal { read: true, create: true, ..Default::default() },
    };
    assert_eq!(OpenFileRequest::decode(&m.encode()).unwrap(), m);
}

#[test]
fn roundtrip_open_file_response() {
    let m = OpenFileResponse { fd: u64::MAX };
    assert_eq!(OpenFileResponse::decode(&m.encode()).unwrap(), m);
}

#[test]
fn roundtrip_open_relative_file_request() {
    let m = OpenRelativeFileRequest {
        relative_fd: 9,
        path: "nested/path".to_string(),
        open_options: OpenOptionsInternal { write: true, ..Default::default() },
    };
    assert_eq!(OpenRelativeFileRequest::decode(&m.encode()).unwrap(), m);
}

#[test]
fn roundtrip_read_file_request() {
    let m = ReadFileRequest { remote_fd: 4, buffer_size: 1 << 20 };
    assert_eq!(ReadFileRequest::decode(&m.encode()).unwrap(), m);
}

#[test]
fn roundtrip_read_file_response() {
    let m = ReadFileResponse { bytes: vec![0, 1, 2, 255], read_amount: 4 };
    assert!(ReadFileResponse::decode(&m.encode()).unwrap() == m);
}

#[test]
fn roundtrip_read_file_response_empty_buffer() {
    let m = ReadFileResponse { bytes: Vec::new(), read_amount: 0 };
    assert!(ReadFileResponse::decode(&m.encode()).unwrap() == m);
}

#[test]
fn roundtrip_read_link_file_request() {
    let m = ReadLinkFileRequest { path: "/sym/link".to_string() };
    assert_eq!(ReadLinkFileRequest::decode(&m.encode()).unwrap(), m);
}

#[test]
fn roundtrip_read_link_file_response() {
    let m = ReadLinkFileResponse { path: String::new() };
    assert_eq!(ReadLinkFileResponse::decode(&m.encode()).unwrap(), m);
}

#[test]
fn roundtrip_make_dir_request() {
    let m = MakeDirRequest { pathname: "/a/b".to_string(), mode: 0o755 };
    assert_eq!(MakeDirRequest::decode(&m.encode()).unwrap(), m);
}

#[test]
fn roundtrip_make_dir_response() {
    let m = MakeDirResponse { result: -1, errno: 17 };
    assert_eq!(MakeDirResponse::decode(&m.encode()).unwrap(), m);
}

#[test]
fn roundtrip_make_dir_at_request() {
    let m = MakeDirAtRequest { dirfd: -100, pathname: "rel".to_string(), mode: 0o700 };
    assert_eq!(MakeDirAtRequest::decode(&m.encode()).unwrap(), m);
}

#[test]
fn roundtrip_make_dir_at_response() {
    let m = MakeDirAtResponse { result: 0, errno: 0 };
    assert_eq!(MakeDirAtResponse::decode(&m.encode()).unwrap(), m);
}

#[test]
fn roundtrip_read_limited_file_request() {
    let m = ReadLimitedFileRequest { remote_fd: 1, buffer_size: 2, start_from: 3 };
    assert_eq!(ReadLimitedFileRequest::decode(&m.encode()).unwrap(), m);
}

#[test]
fn roundtrip_seek_file_request_all_origins() {
    for seek_from in [
        SeekFromInternal::Start(123),
        SeekFromInternal::End(-45),
        SeekFromInternal::Current(i64::MIN),
    ] {
        let m = SeekFileRequest { fd: 8, seek_from };
        assert_eq!(SeekFileRequest::decode(&m.encode()).unwrap(), m);
    }
}

#[test]
fn roundtrip_seek_file_response() {
    let m = SeekFileResponse { result_offset: 99 };
    assert_eq!(SeekFileResponse::decode(&m.encode()).unwrap(), m);
}

#[test]
fn roundtrip_write_file_request() {
    let m = WriteFileRequest { fd: 5, write_bytes: vec![9; 100] };
    assert!(WriteFileRequest::decode(&m.encode()).unwrap() == m);
}

#[test]
fn roundtrip_write_file_response() {
    let m = WriteFileResponse { written_amount: 100 };
    assert_eq!(WriteFileResponse::decode(&m.encode()).unwrap(), m);
}

#[test]
fn roundtrip_write_limited_file_request() {
    let m = WriteLimitedFileRequest { remote_fd: 5, start_from: 7, write_bytes: Vec::new() };
    assert!(WriteLimitedFileRequest::decode(&m.encode()).unwrap() == m);
}

#[test]
fn roundtrip_close_file_request() {
    let m = CloseFileRequest { fd: 0 };
    assert_eq!(CloseFileRequest::decode(&m.encode()).unwrap(), m);
}

#[test]
fn roundtrip_access_file_request() {
    let m = AccessFileRequest { pathname: "/etc/hosts".to_string(), mode: 4 };
    assert_eq!(AccessFileRequest::decode(&m.encode()).unwrap(), m);
}

#[test]
fn roundtrip_access_file_response() {
    let m = AccessFileResponse;
    assert_eq!(AccessFileResponse::decode(&m.encode()).unwrap(), m);
}

#[test]
fn roundtrip_xstat_request() {
    let with_path = XstatRequest {
        path: Some("/proc/self".to_string()),
        fd: None,
        follow_symlink: true,
    };
    assert_eq!(XstatRequest::decode(&with_path.encode()).unwrap(), with_path);
    let with_fd = XstatRequest { path: None, fd: Some(3), follow_symlink: false };
    assert_eq!(XstatRequest::decode(&with_fd.encode()).unwrap(), with_fd);
}

#[test]
fn roundtrip_xstat_response() {
    let m = XstatResponse { metadata: sample_metadata() };
    assert_eq!(XstatResponse::decode(&m.encode()).unwrap(), m);
}

#[test]
fn roundtrip_xstat_fs_request() {
    let m = XstatFsRequest { fd: 11 };
    assert_eq!(XstatFsRequest::decode(&m.encode()).unwrap(), m);
}

#[test]
fn roundtrip_xstat_fs_response() {
    let m = XstatFsResponse {
        metadata: FsMetadataInternal {
            filesystem_type: -42,
            block_size: 4096,
            blocks: 10,
            blocks_free: 5,
            blocks_available: 4,
            files: 100,
            files_free: 50,
        },
    };
    assert_eq!(XstatFsResponse::decode(&m.encode()).unwrap(), m);
}

#[test]
fn roundtrip_fd_open_dir_request() {
    let m = FdOpenDirRequest { remote_fd: 2 };
    assert_eq!(FdOpenDirRequest::decode(&m.encode()).unwrap(), m);
}

#[test]
fn roundtrip_open_dir_response() {
    let m = OpenDirResponse { fd: 2 };
    assert_eq!(OpenDirResponse::decode(&m.encode()).unwrap(), m);
}

#[test]
fn roundtrip_read_dir_request() {
    let m = ReadDirRequest { remote_fd: 2 };
    assert_eq!(ReadDirRequest::decode(&m.encode()).unwrap(), m);
}

#[test]
fn roundtrip_read_dir_batch_request() {
    let m = ReadDirBatchRequest { remote_fd: 2, amount: 128 };
    assert_eq!(ReadDirBatchRequest::decode(&m.encode()).unwrap(), m);
}

#[test]
fn roundtrip_read_dir_response() {
    let none = ReadDirResponse { direntry: None };
    assert_eq!(ReadDirResponse::decode(&none.encode()).unwrap(), none);
    let some = ReadDirResponse { direntry: Some(sample_entry("entry", 1)) };
    assert_eq!(ReadDirResponse::decode(&some.encode()).unwrap(), some);
}

#[test]
fn roundtrip_read_dir_batch_response() {
    let m = ReadDirBatchResponse {
        fd: 6,
        dir_entries: vec![sample_entry(".", 0), sample_entry("", 1), sample_entry("x", 2)],
    };
    assert_eq!(ReadDirBatchResponse::decode(&m.encode()).unwrap(), m);
}

#[test]
fn roundtrip_read_dir_batch_response_empty() {
    let m = ReadDirBatchResponse { fd: 6, dir_entries: Vec::new() };
    assert_eq!(ReadDirBatchResponse::decode(&m.encode()).unwrap(), m);
}

#[test]
fn roundtrip_close_dir_request() {
    let m = CloseDirRequest { remote_fd: 1 };
    assert_eq!(CloseDirRequest::decode(&m.encode()).unwrap(), m);
}

#[test]
fn roundtrip_get_dents64_request() {
    let m = GetDEnts64Request { remote_fd: 1, buffer_size: 4096 };
    assert_eq!(GetDEnts64Request::decode(&m.encode()).unwrap(), m);
}

#[test]
fn roundtrip_get_dents64_response() {
    let m = GetDEnts64Response {
        fd: 1,
        entries: vec![sample_entry("a", 0), sample_entry("file.txt", 1)],
        result_size: 56,
    };
    assert_eq!(GetDEnts64Response::decode(&m.encode()).unwrap(), m);
}

#[test]
fn roundtrip_long_path() {
    let m = ReadLinkFileRequest { path: "p".repeat(10_000) };
    assert_eq!(ReadLinkFileRequest::decode(&m.encode()).unwrap(), m);
}

#[test]
fn decode_rejects_empty_input_for_fixed_message() {
    assert!(CloseFileRequest::decode(&Vec::new()).is_err());
}

#[test]
fn decode_rejects_truncated_payload() {
    let mut bytes = ReadFileRequest { remote_fd: 1, buffer_size: 2 }.encode();
    bytes.pop();
    assert!(ReadFileRequest::decode(&bytes).is_err());
}

#[test]
fn decode_rejects_trailing_bytes() {
    let mut bytes = OpenDirResponse { fd: 1 }.encode();
    bytes.push(0);
    assert!(OpenDirResponse::decode(&bytes).is_err());
}

#[test]
fn decode_rejects_bad_flag_byte() {
    let m = OpenFileRequest {
        path: "f".to_string(),
        open_options: OpenOptionsInternal::default(),
    };
    let mut bytes = m.encode();
    let last = bytes.len() - 1;
    bytes[last] = 7;
    assert!(OpenFileRequest::decode(&bytes).is_err());
}

#[test]
fn decode_rejects_bad_seek_tag() {
    let m = SeekFileRequest { fd: 1, seek_from: SeekFromInternal::Start(0) };
    let mut bytes = m.encode();
    bytes[8] = 9;
    assert!(SeekFileRequest::decode(&bytes).is_err());
}

#[test]
fn decode_rejects_bad_option_tag() {
    let m = ReadDirResponse { direntry: None };
    let mut bytes = m.encode();
    bytes[0] = 2;
    assert!(ReadDirResponse::decode(&bytes).is_err());
}

#[test]
fn decode_rejects_invalid_utf8_text() {
    // A one-byte text field holding 0xFF: the length prefix is valid, the
    // payload is not UTF-8.
    let mut bytes = vec![1, 0, 0, 0, 0, 0, 0, 0];
    bytes.push(0xFF);
    assert!(ReadLinkFileRequest::decode(&bytes).is_err());
}

#[test]
fn decode_rejects_overlong_length_prefix() {
    // The length prefix promises more bytes than follow.
    let bytes = vec![200, 0, 0, 0, 0, 0, 0, 0, 1, 2, 3];
    assert!(ReadLinkFileRequest::decode(&bytes).is_err());
}

#[test]
fn encoding_is_byte_stable() {
    let m = OpenFileResponse { fd: 0x0102030405060708 };
    assert_eq!(m.encode(), vec![8, 7, 6, 5, 4, 3, 2, 1]);
}
