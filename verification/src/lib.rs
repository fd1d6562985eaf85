//! Decoder for legacy fixed-length-record database files.
//!
//! A file of this format starts with a 32-byte header, followed by an
//! array of 32-byte field descriptors, two trailing bytes, and then the
//! records themselves, packed contiguously at a fixed byte width. The
//! decoder turns such a byte source into named, typed field values.

pub mod error;
pub mod field;
pub mod file;
pub mod header;
pub mod laws;
pub mod record;
pub mod text;

pub use crate::error::DbfError;
pub use crate::file::DbfFile;
pub use crate::file::DbfRecordIterator;
pub use crate::field::Field;
pub use crate::field::FieldHeader;
pub use crate::field::FieldType;
pub use crate::record::Record;
