use vstd::prelude::*;

verus! {

/// The failure conditions a decode operation can surface. Every fatal
/// condition aborts the current operation with one of these; an
/// out-of-range record index is not an error and yields an empty result
/// instead.
#[derive(Debug, Clone, Copy, PartialEq, Eq, Structural)]
pub enum DbfError {
    /// A read past the end of the byte source; carries the requested
    /// absolute offset and byte count.
    IoFailure { offset: u64, length: u64 },
    /// Fewer than 32 header bytes, or header fields that contradict one
    /// another (a negative count, or field lengths that overrun the
    /// declared record width).
    MalformedHeader,
    /// A field descriptor whose type code byte is not in the recognized
    /// set; carries the offending byte.
    UnsupportedFieldType { code: u8 },
    /// Field or name bytes that are not decodable as single-byte text.
    InvalidFieldText,
    /// A numeric field whose trimmed text does not parse as a base-10
    /// decimal literal.
    InvalidNumericLiteral,
}

} // verus!
