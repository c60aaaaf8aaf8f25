//! Wire-protocol core for performing file-system operations against a remote
//! filesystem: the catalog of request/response messages, the portable
//! (OS-agnostic) metadata model, the kernel-compatible directory-entry
//! record-length computation, the protocol version gate, and the credential
//! validity checks that guard the channel.

pub mod codec;
pub mod credentials;
pub mod file;
pub mod version;
pub mod wire;
