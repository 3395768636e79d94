//! Assembly of application packages: aligned, optionally compressed archive
//! entries written in one forward pass.

pub mod align;
pub mod builder;
pub mod error;
pub mod name;
pub mod options;
pub mod record;
pub mod sign;
pub mod sink;
pub mod tree;
pub mod writer;

pub use builder::ApkBuilder;
pub use builder::MANIFEST_NAME;
pub use error::ApkError;
pub use options::Compression;
pub use options::EntryOptions;
pub use tree::DirEntry;
pub use writer::ArchiveWriter;
