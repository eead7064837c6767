//! Reading and writing UPKF package archives.
//!
//! An archive is a header (signature, version, origin) followed by a list of
//! entries; each entry carries a name, metadata, a compression method, a
//! CRC-32 and a SHA-256 of its stored payload, and the payload itself.

pub mod archive;
pub mod codec;
pub mod compression;
pub mod error;
pub mod format;
pub mod meta;
pub mod presence;
pub mod roundtrip;

pub use archive::{Element, Upkf, UpkfIterator};
pub use compression::CompressionType;
pub use error::UpkfError;
pub use meta::{JsonField, UpkfMeta};
pub use presence::RichPresence;
