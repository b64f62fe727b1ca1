//! Host-local filesystem inspection, modelled and verified.
//!
//! The crate separates pure logic from the operating system: a snapshot is
//! an in-memory picture of a directory tree, and every query — metadata
//! lookup, directory listing, recursive search — is a verified function over
//! that picture.  The symbolic permission decoder
//! ([`permissions::decode_permission_string`]) is a pure function on mode
//! strings.  Callers that talk to a real filesystem build a snapshot from
//! whatever metadata source they have and hand it to these functions.

pub mod errors;
pub mod metadata;
pub mod permissions;
pub mod search;
pub mod snapshot;

pub use errors::FsError;
pub use metadata::LinuxEntity;
pub use permissions::{decode_permission_string, EntityKind, Permissions};
pub use snapshot::{FsEntry, FsSnapshot};
