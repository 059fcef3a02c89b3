//! Packs a tree of files into one versioned binary archive with a table of
//! contents, and reads single files back out of such an archive by path.
//!
//! Archive layout, all integers little-endian:
//! magic tag, a zero byte, producer identifier, three version bytes; a 32-bit
//! entry count; per entry its payload offset and size (64-bit each) and its
//! path (32-bit length, UTF-8 bytes); then the contents back to back.

pub mod binary;
pub mod compiler;
pub mod file;
pub mod format;
pub mod header;
pub mod laws;
pub mod loader;
pub mod read;
pub mod write;

pub use binary::{Binary, BinaryError, Field, Version};
pub use compiler::{Compiler, CompilerBuilder, CompilerBuilderError, CompilerError, SourceFile};
pub use file::File;
pub use format::Format;
pub use header::Header;
pub use loader::{Loader, LoaderError};
