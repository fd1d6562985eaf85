//! The closed set of supported field types, the tagged value a decoded
//! field produces, the per-column metadata, and the per-field byte
//! decoder with its null-detection rules.

use vstd::prelude::*;

use crate::error::DbfError;
use crate::text::{
    all_ascii, ascii_bytes_to_string, chars_of, check_all_ascii, check_decimal_literal,
    is_decimal_literal, trim_bytes, trimmed,
};

verus! {

/// The closed set of field types the decoder supports.
#[derive(Debug, Clone, PartialEq, Eq, Structural)]
pub enum FieldType {
    Character,
    Numeric,
}

/// One decoded field value. A numeric value produced by the decoder
/// carries its trimmed decimal text, which the decoder guarantees to
/// satisfy [`is_decimal_literal`]; a consumer that wants machine
/// arithmetic converts that text itself.
#[derive(Debug, Clone)]
pub enum Field {
    Character(String),
    Numeric(String),
    Null,
}

/// The mathematical value of a [`Field`]: the character sequences a
/// decoded field holds.
pub enum FieldVal {
    Text(Seq<char>),
    Num(Seq<char>),
    Null,
}

impl View for Field {
    type V = FieldVal;

    open spec fn view(&self) -> FieldVal {
        match self {
            Field::Character(s) => FieldVal::Text(s@),
            Field::Numeric(s) => FieldVal::Num(s@),
            Field::Null => FieldVal::Null,
        }
    }
}

impl PartialEq for Field {
    fn eq(&self, other: &Field) -> (r: bool) {
        match (self, other) {
            (Field::Character(a), Field::Character(b)) => *a == *b,
            (Field::Numeric(a), Field::Numeric(b)) => *a == *b,
            (Field::Null, Field::Null) => true,
            _ => false,
        }
    }
}

impl vstd::std_specs::cmp::PartialEqSpecImpl for Field {
    open spec fn obeys_eq_spec() -> bool {
        true
    }

    open spec fn eq_spec(&self, other: &Field) -> bool {
        self@ == other@
    }
}

/// The metadata of one column, decoded from its 32-byte descriptor.
#[derive(Debug, Clone)]
pub struct FieldHeader {
    /// The column name: at most 11 bytes of single-byte text, with the
    /// trailing NUL padding removed.
    pub name: String,
    pub field_type: FieldType,
    /// How many bytes of each record this column occupies.
    pub field_length: u8,
    /// The declared count of decimal places; informational only, and
    /// meaningful only for numeric columns.
    pub decimal_count: u8,
}

/// The mathematical value of a [`FieldHeader`].
pub struct FieldHeaderVal {
    pub name: Seq<char>,
    pub field_type: FieldType,
    pub field_length: u8,
    pub decimal_count: u8,
}

impl View for FieldHeader {
    type V = FieldHeaderVal;

    open spec fn view(&self) -> FieldHeaderVal {
        FieldHeaderVal {
            name: self.name@,
            field_type: self.field_type,
            field_length: self.field_length,
            decimal_count: self.decimal_count,
        }
    }
}

/// What decoding one raw field slice yields: the trimmed text as a typed
/// value, with the null-detection rules applied first. A field is null
/// if its trimmed text begins with `*`, or if it is empty and the field
/// is a character field; an empty numeric field is not null and fails
/// the decimal parse instead.
pub open spec fn spec_decode_field(ftype: FieldType, raw: Seq<u8>) -> Result<FieldVal, DbfError> {
    if !all_ascii(raw) {
        Err(DbfError::InvalidFieldText)
    } else {
        let t = trimmed(raw);
        if t.len() > 0 && t[0] == 42 {
            Ok(FieldVal::Null)
        } else if t.len() == 0 && ftype is Character {
            Ok(FieldVal::Null)
        } else if ftype is Character {
            Ok(FieldVal::Text(chars_of(t)))
        } else if is_decimal_literal(t) {
            Ok(FieldVal::Num(chars_of(t)))
        } else {
            Err(DbfError::InvalidNumericLiteral)
        }
    }
}

/// The view of a decoded field result, for stating contracts.
pub open spec fn field_result_view(r: Result<Field, DbfError>) -> Result<FieldVal, DbfError> {
    match r {
        Ok(f) => Ok(f@),
        Err(e) => Err(e),
    }
}

/// Decodes one raw field slice into a typed value.
pub fn decode_field(ftype: &FieldType, raw: &[u8]) -> (r: Result<Field, DbfError>)
    ensures
        field_result_view(r) == spec_decode_field(*ftype, raw@),
{
    if !check_all_ascii(raw) {
        return Err(DbfError::InvalidFieldText);
    }
    let t = trim_bytes(raw);
    let is_char = match ftype {
        FieldType::Character => true,
        FieldType::Numeric => false,
    };
    if t.len() > 0 && t[0] == 42 {
        return Ok(Field::Null);
    }
    if t.len() == 0 && is_char {
        return Ok(Field::Null);
    }
    proof {
        lemma_trimmed_ascii(raw@);
    }
    if is_char {
        Ok(Field::Character(ascii_bytes_to_string(t)))
    } else if check_decimal_literal(t.as_slice()) {
        Ok(Field::Numeric(ascii_bytes_to_string(t)))
    } else {
        Err(DbfError::InvalidNumericLiteral)
    }
}

/// Trimming keeps every byte of the slice, so trimmed text of single-byte
/// text is itself single-byte text.
proof fn lemma_trimmed_ascii(s: Seq<u8>)
    requires
        all_ascii(s),
    ensures
        all_ascii(trimmed(s)),
{
    lemma_trim_start_ascii(s);
    lemma_trim_end_ascii(crate::text::trim_start(s));
}

proof fn lemma_trim_start_ascii(s: Seq<u8>)
    requires
        all_ascii(s),
    ensures
        all_ascii(crate::text::trim_start(s)),
    decreases s.len(),
{
    if s.len() > 0 && crate::text::is_space_byte(s[0]) {
        lemma_trim_start_ascii(s.drop_first());
    }
}

proof fn lemma_trim_end_ascii(s: Seq<u8>)
    requires
        all_ascii(s),
    ensures
        all_ascii(crate::text::trim_end(s)),
    decreases s.len(),
{
    if s.len() > 0 && crate::text::is_space_byte(s.last()) {
        lemma_trim_end_ascii(s.drop_last());
    }
}

} // verus!
