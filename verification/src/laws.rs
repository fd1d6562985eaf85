//! The decoder's general guarantees, stated once over the abstract
//! model and proved for every input: what opening pins down, that record
//! fetching is pure, that an out-of-range index is empty rather than an
//! error, the null-detection rules, and that an unrecognized type code
//! always aborts an open.

use vstd::prelude::*;

use crate::error::DbfError;
use crate::field::{spec_decode_field, FieldType, FieldVal};
use crate::file::{
    lemma_decode_descriptors_error_propagates, spec_open, spec_read, spec_record, FileVal,
};
use crate::header::{
    spec_decode_descriptor, spec_decode_descriptors, spec_descriptor_count, spec_parse_header,
};
use crate::record::spec_decode_fields;
use crate::text::{all_ascii, is_decimal_literal, is_unsigned_decimal, strip_sign, trimmed};

verus! {

/// Fetching the same record of the same handle twice yields the same
/// result: decoding is a pure function of the handle's bytes, with no
/// caching and no state carried between calls.
pub proof fn lemma_record_fetch_deterministic(
    f: FileVal,
    i: int,
    r1: Result<Option<Seq<(Seq<char>, FieldVal)>>, DbfError>,
    r2: Result<Option<Seq<(Seq<char>, FieldVal)>>, DbfError>,
)
    requires
        r1 == spec_record(f, i),
        r2 == spec_record(f, i),
    ensures
        r1 == r2,
{
}

/// Fetching at or past the record count yields an empty result, never an
/// error, whatever the handle holds.
pub proof fn lemma_out_of_range_is_empty(f: FileVal, i: int)
    requires
        i >= f.num_recs,
    ensures
        spec_record(f, i) == Ok::<Option<Seq<(Seq<char>, FieldVal)>>, DbfError>(None),
{
}

/// The null-detection rules: a field whose trimmed text begins with `*`
/// is null whatever its type; an empty character field is null; an empty
/// numeric field is not null and instead fails the decimal parse.
pub proof fn lemma_null_rules(ftype: FieldType, raw: Seq<u8>)
    requires
        all_ascii(raw),
    ensures
        trimmed(raw).len() > 0 && trimmed(raw)[0] == 42 ==> spec_decode_field(ftype, raw) == Ok::<
            FieldVal,
            DbfError,
        >(FieldVal::Null),
        trimmed(raw).len() == 0 && ftype is Character ==> spec_decode_field(ftype, raw) == Ok::<
            FieldVal,
            DbfError,
        >(FieldVal::Null),
        trimmed(raw).len() == 0 && ftype is Numeric ==> spec_decode_field(ftype, raw) == Err::<
            FieldVal,
            DbfError,
        >(DbfError::InvalidNumericLiteral),
{
    let t = trimmed(raw);
    if t.len() == 0 {
        assert(strip_sign(t) == t);
        assert(!is_unsigned_decimal(t));
        assert(!is_decimal_literal(t));
    }
}

/// Decoding a prefix of a record's columns yields one named value per
/// column, under that column's name.
proof fn lemma_decode_fields_names(fields: Seq<crate::field::FieldHeaderVal>, bytes: Seq<u8>, n: nat)
    requires
        n <= fields.len(),
    ensures
        spec_decode_fields(fields, bytes, n) matches Ok(pairs) ==> pairs.len() == n && forall|
            k: int,
        | 0 <= k < n ==> pairs[k].0 == fields[k].name,
    decreases n,
{
    if n > 0 {
        lemma_decode_fields_names(fields, bytes, (n - 1) as nat);
    }
}

/// Every record a fetch yields holds exactly one value per declared
/// column, under that column's name, in declaration order.
pub proof fn lemma_record_names_follow_columns(
    f: FileVal,
    i: int,
    pairs: Seq<(Seq<char>, FieldVal)>,
)
    requires
        spec_record(f, i) == Ok::<Option<Seq<(Seq<char>, FieldVal)>>, DbfError>(Some(pairs)),
    ensures
        pairs.len() == f.fields.len(),
        forall|k: int| 0 <= k < pairs.len() ==> pairs[k].0 == f.fields[k].name,
{
    let bytes = crate::file::spec_raw_record(f, i)->Ok_0;
    lemma_decode_fields_names(f.fields, bytes, f.fields.len());
}

/// When a record's names are pairwise distinct, as they are in any
/// well-formed file, looking a column's name up yields exactly that
/// column's value.
pub proof fn lemma_get_of_unique_names(pairs: Seq<(Seq<char>, FieldVal)>, k: int)
    requires
        0 <= k < pairs.len(),
        forall|i: int, j: int| 0 <= i < j < pairs.len() ==> pairs[i].0 != pairs[j].0,
    ensures
        crate::record::spec_get(pairs, pairs[k].0) == Some(pairs[k].1),
    decreases pairs.len(),
{
    if k < pairs.len() - 1 {
        assert(pairs.last().0 != pairs[k].0);
        assert(pairs.drop_last()[k] == pairs[k]);
        lemma_get_of_unique_names(pairs.drop_last(), k);
    }
}

/// Decoding a prefix of descriptor blocks succeeds when each of its
/// blocks decodes on its own.
proof fn lemma_descriptors_ok_prefix(region: Seq<u8>, k: nat)
    requires
        forall|j: int|
            0 <= j < k ==> #[trigger] spec_decode_descriptor(
                region.subrange(32 * j, 32 * j + 32),
            ) is Ok,
    ensures
        spec_decode_descriptors(region, k) is Ok,
    decreases k,
{
    if k > 0 {
        lemma_descriptors_ok_prefix(region, (k - 1) as nat);
        let j = k - 1;
        assert(spec_decode_descriptor(region.subrange(32 * j, 32 * j + 32)) is Ok);
        assert(region.subrange(32 * j, 32 * j + 32) == region.subrange(
            32 * (k - 1),
            32 * k as int,
        ));
    }
}

/// A descriptor whose type code byte is outside the recognized set makes
/// the whole open fail with exactly the unsupported-type error carrying
/// that byte, provided the blocks before it decode; there is no silent
/// fallback.
pub proof fn lemma_unknown_type_code_fails_open(s: Seq<u8>, region: Seq<u8>, k: int)
    requires
        spec_parse_header(s) is Ok,
        spec_read(
            s,
            32,
            32 * spec_descriptor_count(spec_parse_header(s)->Ok_0.bytes_in_header),
        ) == Ok::<Seq<u8>, DbfError>(region),
        0 <= k < spec_descriptor_count(spec_parse_header(s)->Ok_0.bytes_in_header),
        forall|j: int|
            0 <= j < k ==> #[trigger] spec_decode_descriptor(
                region.subrange(32 * j, 32 * j + 32),
            ) is Ok,
        region[32 * k + 11] != 67,
        region[32 * k + 11] != 78,
    ensures
        spec_open(s) == Err::<FileVal, DbfError>(
            DbfError::UnsupportedFieldType { code: region[32 * k + 11] },
        ),
{
    let h = spec_parse_header(s)->Ok_0;
    let nd = spec_descriptor_count(h.bytes_in_header);
    let block = region.subrange(32 * k, 32 * k + 32);
    assert(region.len() == 32 * nd);
    assert(block[11] == region[32 * k + 11]);
    assert(spec_decode_descriptor(block) == Err::<crate::field::FieldHeaderVal, DbfError>(
        DbfError::UnsupportedFieldType { code: region[32 * k + 11] },
    ));
    lemma_descriptors_ok_prefix(region, k as nat);
    assert(spec_decode_descriptors(region, (k + 1) as nat) == Err::<
        Seq<crate::field::FieldHeaderVal>,
        DbfError,
    >(DbfError::UnsupportedFieldType { code: region[32 * k + 11] }));
    lemma_decode_descriptors_error_propagates(region, (k + 1) as nat, nd as nat);
}

} // verus!
