//! Protocol version gate. A batched directory read or a directory creation
//! is allowed only when both peers agreed on a recent enough protocol
//! version. The predicates here decide that, so such a request can be
//! refused before it is ever encoded.

use vstd::prelude::*;

verus! {

/// Minimum negotiated version that allows batched directory reads.
pub const READDIR_BATCH_MIN_MAJOR: u64 = 1;

/// Minor part of the batched-directory-read minimum version.
pub const READDIR_BATCH_MIN_MINOR: u64 = 9;

/// Patch part of the batched-directory-read minimum version.
pub const READDIR_BATCH_MIN_PATCH: u64 = 0;

/// Minimum negotiated version that allows directory creation.
pub const MKDIR_MIN_MAJOR: u64 = 1;

/// Minor part of the directory-creation minimum version.
pub const MKDIR_MIN_MINOR: u64 = 12;

/// Patch part of the directory-creation minimum version.
pub const MKDIR_MIN_PATCH: u64 = 0;

/// A negotiated protocol version: the version agreed upon between two
/// communicating peers, used to gate optional message variants.
#[derive(Debug, PartialEq, Eq, Clone, Copy, Structural)]
pub struct NegotiatedVersion {
    pub major: u64,
    pub minor: u64,
    pub patch: u64,
}

impl NegotiatedVersion {
    /// Lexicographic order on (major, minor, patch): the meaning of a
    /// `>=major.minor.patch` version requirement.
    pub open spec fn spec_at_least(&self, major: u64, minor: u64, patch: u64) -> bool {
        self.major > major || (self.major == major && (self.minor > minor || (self.minor == minor
            && self.patch >= patch)))
    }

    /// Whether this version satisfies a `>=major.minor.patch` requirement.
    pub fn at_least(&self, major: u64, minor: u64, patch: u64) -> (r: bool)
        ensures
            r == self.spec_at_least(major, minor, patch),
    {
        self.major > major || (self.major == major && (self.minor > minor || (self.minor == minor
            && self.patch >= patch)))
    }

    /// Whether a batched directory read ([`crate::file::ReadDirBatchRequest`])
    /// is permitted under this negotiated version (at least 1.9.0).
    pub fn allows_readdir_batch(&self) -> (r: bool)
        ensures
            r == self.spec_at_least(READDIR_BATCH_MIN_MAJOR, READDIR_BATCH_MIN_MINOR,
                READDIR_BATCH_MIN_PATCH),
    {
        self.at_least(READDIR_BATCH_MIN_MAJOR, READDIR_BATCH_MIN_MINOR, READDIR_BATCH_MIN_PATCH)
    }

    /// Whether directory creation ([`crate::file::MakeDirRequest`] and
    /// [`crate::file::MakeDirAtRequest`]) is permitted under this negotiated
    /// version (at least 1.12.0).
    pub fn allows_mkdir(&self) -> (r: bool)
        ensures
            r == self.spec_at_least(MKDIR_MIN_MAJOR, MKDIR_MIN_MINOR, MKDIR_MIN_PATCH),
    {
        self.at_least(MKDIR_MIN_MAJOR, MKDIR_MIN_MINOR, MKDIR_MIN_PATCH)
    }
}

} // verus!
