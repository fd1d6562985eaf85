//! The fixed 32-byte file header and the 32-byte field descriptors that
//! follow it: their byte layout and decoders.

use vstd::prelude::*;

use crate::error::DbfError;
use crate::field::{FieldHeader, FieldHeaderVal, FieldType};
use crate::text::{all_ascii, ascii_bytes_to_string, chars_of, check_all_ascii, trim_nul_bytes,
    trim_nul_end};

verus! {

/// A little-endian 16-bit integer read at byte offset `off`.
pub open spec fn le16_at(s: Seq<u8>, off: int) -> u16 {
    (s[off] as int + 256 * (s[off + 1] as int)) as u16
}

/// A little-endian 32-bit integer read at byte offset `off`.
pub open spec fn le32_at(s: Seq<u8>, off: int) -> u32 {
    (s[off] as int + 0x100 * (s[off + 1] as int) + 0x10000 * (s[off + 2] as int) + 0x1000000 * (s[
        off + 3] as int)) as u32
}

/// The three header scalars the decoder surfaces; everything else in the
/// 32 header bytes is reserved or informational and skipped.
pub struct HeaderVal {
    /// The declared number of records; a signed 32-bit count in the
    /// file, required to be non-negative.
    pub num_recs: u32,
    /// The declared byte length of the whole header region, which fixes
    /// the number of field descriptors.
    pub bytes_in_header: u16,
    /// The fixed byte width of every record.
    pub bytes_in_rec: u16,
}

/// What parsing the file header yields: the record count at offset 4,
/// the header byte length at offset 8, and the record byte width at
/// offset 10, all little-endian. Fewer than 32 bytes, a negative record
/// count, or a header length that would make the descriptor count
/// negative are malformed.
pub open spec fn spec_parse_header(s: Seq<u8>) -> Result<HeaderVal, DbfError> {
    if s.len() < 32 {
        Err(DbfError::MalformedHeader)
    } else {
        let num_recs = le32_at(s, 4);
        let bytes_in_header = le16_at(s, 8);
        let bytes_in_rec = le16_at(s, 10);
        if num_recs >= 0x8000_0000 {
            Err(DbfError::MalformedHeader)
        } else if bytes_in_header < 33 || bytes_in_header >= 0x8000 {
            Err(DbfError::MalformedHeader)
        } else {
            Ok(HeaderVal { num_recs, bytes_in_header, bytes_in_rec })
        }
    }
}

/// The number of field descriptors a header byte length declares: the
/// header region holds the 32-byte file header, the descriptors, and a
/// one-byte terminator, less one further unit that real-world files
/// require.
pub open spec fn spec_descriptor_count(bytes_in_header: u16) -> int {
    (bytes_in_header - 1) / 32 - 1
}

/// Parses the first 32 bytes of the byte source into the header scalars.
pub fn parse_header(s: &[u8]) -> (r: Result<HeaderVal, DbfError>)
    ensures
        r == spec_parse_header(s@),
{
    if s.len() < 32 {
        return Err(DbfError::MalformedHeader);
    }
    let num_recs: u32 = (s[4] as u32) + 0x100 * (s[5] as u32) + 0x10000 * (s[6] as u32) + 0x1000000
        * (s[7] as u32);
    let bytes_in_header: u16 = (s[8] as u16) + 256 * (s[9] as u16);
    let bytes_in_rec: u16 = (s[10] as u16) + 256 * (s[11] as u16);
    if num_recs >= 0x8000_0000 {
        return Err(DbfError::MalformedHeader);
    }
    if bytes_in_header < 33 || bytes_in_header >= 0x8000 {
        return Err(DbfError::MalformedHeader);
    }
    Ok(HeaderVal { num_recs, bytes_in_header, bytes_in_rec })
}

/// The view of a decoded descriptor result, for stating contracts.
pub open spec fn header_result_view(r: Result<FieldHeader, DbfError>) -> Result<
    FieldHeaderVal,
    DbfError,
> {
    match r {
        Ok(f) => Ok(f@),
        Err(e) => Err(e),
    }
}

/// What decoding one 32-byte descriptor block yields: bytes 0 to 10 are
/// the NUL-padded name, byte 11 the type code (`C` for character, `N`
/// for numeric; anything else is unsupported), byte 16 the field length
/// and byte 17 the decimal count; the rest is skipped.
pub open spec fn spec_decode_descriptor(block: Seq<u8>) -> Result<FieldHeaderVal, DbfError> {
    let name_bytes = block.subrange(0, 11);
    if block[11] != 67 && block[11] != 78 {
        Err(DbfError::UnsupportedFieldType { code: block[11] })
    } else if !all_ascii(name_bytes) {
        Err(DbfError::InvalidFieldText)
    } else {
        Ok(FieldHeaderVal {
            name: chars_of(trim_nul_end(name_bytes)),
            field_type: if block[11] == 67 {
                FieldType::Character
            } else {
                FieldType::Numeric
            },
            field_length: block[16],
            decimal_count: block[17],
        })
    }
}

/// Decodes one 32-byte descriptor block into the column's metadata.
pub fn decode_descriptor(block: &[u8]) -> (r: Result<FieldHeader, DbfError>)
    requires
        block@.len() == 32,
    ensures
        header_result_view(r) == spec_decode_descriptor(block@),
{
    let type_code = block[11];
    if type_code != 67 && type_code != 78 {
        return Err(DbfError::UnsupportedFieldType { code: type_code });
    }
    let name_bytes = vstd::slice::slice_subrange(block, 0, 11);
    if !check_all_ascii(name_bytes) {
        return Err(DbfError::InvalidFieldText);
    }
    let trimmed_name = trim_nul_bytes(name_bytes);
    proof {
        lemma_trim_nul_end_ascii(name_bytes@);
    }
    Ok(FieldHeader {
        name: ascii_bytes_to_string(trimmed_name),
        field_type: if type_code == 67 {
            FieldType::Character
        } else {
            FieldType::Numeric
        },
        field_length: block[16],
        decimal_count: block[17],
    })
}

proof fn lemma_trim_nul_end_ascii(s: Seq<u8>)
    requires
        all_ascii(s),
    ensures
        all_ascii(trim_nul_end(s)),
    decreases s.len(),
{
    if s.len() > 0 && s.last() == 0 {
        lemma_trim_nul_end_ascii(s.drop_last());
    }
}

/// What decoding the first `n` descriptor blocks of the descriptor
/// region yields, in declaration order; the error of the earliest bad
/// block wins.
pub open spec fn spec_decode_descriptors(region: Seq<u8>, n: nat) -> Result<
    Seq<FieldHeaderVal>,
    DbfError,
>
    decreases n,
{
    if n == 0 {
        Ok(Seq::empty())
    } else {
        match spec_decode_descriptors(region, (n - 1) as nat) {
            Err(e) => Err(e),
            Ok(fields) => match spec_decode_descriptor(
                region.subrange(32 * (n - 1), 32 * n as int),
            ) {
                Err(e) => Err(e),
                Ok(f) => Ok(fields.push(f)),
            },
        }
    }
}

} // verus!
