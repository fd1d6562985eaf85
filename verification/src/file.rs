//! The file handle: opening a byte source parses the header and the
//! field descriptors once; each record request then slices and decodes
//! one record's bytes. A forward sequence abstraction walks the records
//! lazily.

use vstd::prelude::*;

use crate::error::DbfError;
use crate::field::{Field, FieldHeader, FieldHeaderVal, FieldVal};
use crate::header::{
    decode_descriptor, le16_at, parse_header, spec_decode_descriptors, spec_descriptor_count,
    spec_parse_header,
};
use crate::record::{
    field_offset, field_slice, lemma_decode_fields_error_propagates, lemma_field_offset_mono,
    lemma_field_offset_push, spec_decode_fields, Record,
};

verus! {

/// What reading `len` bytes at absolute offset `off` from an in-memory
/// byte source yields: the bytes if they are all there, a failure
/// carrying the requested offset and count if not. A zero-length read
/// succeeds wherever it is aimed, as a seek-and-read of nothing does.
pub open spec fn spec_read(s: Seq<u8>, off: int, len: int) -> Result<Seq<u8>, DbfError> {
    if len == 0 {
        Ok(Seq::empty())
    } else if 0 <= off && off + len <= s.len() {
        Ok(s.subrange(off, off + len))
    } else {
        Err(DbfError::IoFailure { offset: off as u64, length: len as u64 })
    }
}

/// The view of a raw read result, for stating contracts.
pub open spec fn read_result_view(r: Result<Vec<u8>, DbfError>) -> Result<Seq<u8>, DbfError> {
    match r {
        Ok(v) => Ok(v@),
        Err(e) => Err(e),
    }
}

/// Reads `length` bytes starting at absolute offset `start`, the byte
/// source's only primitive.
pub fn read_bytes(source: &Vec<u8>, start: u64, length: usize) -> (r: Result<Vec<u8>, DbfError>)
    ensures
        read_result_view(r) == spec_read(source@, start as int, length as int),
{
    if length == 0 {
        let empty: Vec<u8> = Vec::new();
        proof {
            assert(empty@ =~= Seq::<u8>::empty());
        }
        return Ok(empty);
    }
    let n = source.len();
    if start > n as u64 || length as u64 > n as u64 - start {
        return Err(DbfError::IoFailure { offset: start, length: length as u64 });
    }
    let lo = start as usize;
    let r = vstd::slice::slice_to_vec(vstd::slice::slice_subrange(source.as_slice(), lo, lo
        + length));
    Ok(r)
}

/// The abstract state of an open file handle: the underlying bytes, the
/// decoded column metadata in declaration order, and the two scalars the
/// header declares.
pub struct FileVal {
    pub source: Seq<u8>,
    pub fields: Seq<FieldHeaderVal>,
    pub num_recs: u32,
    pub bytes_in_rec: u16,
}

/// What opening a byte source yields: the parsed header, then the
/// descriptor array read and decoded block by block, and a final check
/// that the declared column lengths fit inside the declared record
/// width.
pub open spec fn spec_open(s: Seq<u8>) -> Result<FileVal, DbfError> {
    match spec_parse_header(s) {
        Err(e) => Err(e),
        Ok(h) => {
            let nd = spec_descriptor_count(h.bytes_in_header);
            match spec_read(s, 32, 32 * nd) {
                Err(e) => Err(e),
                Ok(region) => match spec_decode_descriptors(region, nd as nat) {
                    Err(e) => Err(e),
                    Ok(fields) => if field_offset(fields, nd) <= h.bytes_in_rec {
                        Ok(
                            FileVal {
                                source: s,
                                fields,
                                num_recs: h.num_recs,
                                bytes_in_rec: h.bytes_in_rec,
                            },
                        )
                    } else {
                        Err(DbfError::MalformedHeader)
                    },
                },
            }
        },
    }
}

/// Decoding the first `n` descriptors yields `n` columns.
pub proof fn lemma_decode_descriptors_len(region: Seq<u8>, n: nat)
    ensures
        spec_decode_descriptors(region, n) matches Ok(fields) ==> fields.len() == n,
    decreases n,
{
    if n > 0 {
        lemma_decode_descriptors_len(region, (n - 1) as nat);
    }
}

/// A descriptor block that fails to decode is fatal for the whole open:
/// the error survives however many further blocks follow.
pub proof fn lemma_decode_descriptors_error_propagates(region: Seq<u8>, k: nat, n: nat)
    requires
        k <= n,
        spec_decode_descriptors(region, k) is Err,
    ensures
        spec_decode_descriptors(region, n) == spec_decode_descriptors(region, k),
    decreases n,
{
    if n > k {
        lemma_decode_descriptors_error_propagates(region, k, (n - 1) as nat);
    }
}

/// Every handle an open yields is internally consistent: its source is
/// the opened bytes, it holds exactly the declared number of columns,
/// and their lengths sum to at most the record width.
pub proof fn lemma_open_bounds(s: Seq<u8>, f: FileVal)
    requires
        spec_open(s) == Ok::<FileVal, DbfError>(f),
    ensures
        f.source == s,
        spec_parse_header(s) == Ok::<crate::header::HeaderVal, DbfError>(
            crate::header::HeaderVal {
                num_recs: f.num_recs,
                bytes_in_header: le16_at(s, 8),
                bytes_in_rec: f.bytes_in_rec,
            },
        ),
        f.fields.len() == spec_descriptor_count(le16_at(s, 8)),
        0 <= f.fields.len() <= 1022,
        field_offset(f.fields, f.fields.len() as int) <= f.bytes_in_rec,
        f.num_recs < 0x8000_0000,
{
    let h = spec_parse_header(s)->Ok_0;
    let nd = spec_descriptor_count(h.bytes_in_header);
    assert(33 <= h.bytes_in_header < 0x8000);
    assert(1 <= (h.bytes_in_header - 1) / 32 <= 1023);
    let region = spec_read(s, 32, 32 * nd)->Ok_0;
    lemma_decode_descriptors_len(region, nd as nat);
}

/// The byte length of the whole header region: the 32-byte file header,
/// the 32-byte descriptors, and two trailing bytes (the descriptor
/// terminator and a padding byte observed in practice).
pub open spec fn spec_header_region_len(f: FileVal) -> int {
    32 + 32 * f.fields.len() as int + 2
}

/// The absolute byte offset of record `i`.
pub open spec fn spec_record_offset(f: FileVal, i: int) -> int {
    spec_header_region_len(f) + i * f.bytes_in_rec
}

/// The raw bytes of record `i`: one full-width read, except that the
/// last record of the file may be one byte short, in which case a
/// one-byte-shorter read at the same offset is accepted before giving
/// up.
pub open spec fn spec_raw_record(f: FileVal, i: int) -> Result<Seq<u8>, DbfError> {
    let off = spec_record_offset(f, i);
    match spec_read(f.source, off, f.bytes_in_rec as int) {
        Ok(b) => Ok(b),
        Err(e) => if i == f.num_recs - 1 {
            spec_read(f.source, off, f.bytes_in_rec - 1)
        } else {
            Err(e)
        },
    }
}

/// What fetching record `i` yields: nothing, if `i` is out of range;
/// otherwise the record's bytes are read and every column decoded in
/// declaration order.
pub open spec fn spec_record(f: FileVal, i: int) -> Result<
    Option<Seq<(Seq<char>, FieldVal)>>,
    DbfError,
> {
    if i >= f.num_recs {
        Ok(None)
    } else {
        match spec_raw_record(f, i) {
            Err(e) => Err(e),
            Ok(bytes) => match spec_decode_fields(f.fields, bytes, f.fields.len()) {
                Err(e) => Err(e),
                Ok(pairs) => Ok(Some(pairs)),
            },
        }
    }
}

/// The view of an open result, for stating contracts.
pub open spec fn file_result_view(r: Result<DbfFile, DbfError>) -> Result<FileVal, DbfError> {
    match r {
        Ok(f) => Ok(f@),
        Err(e) => Err(e),
    }
}

/// The view of a record fetch result, for stating contracts.
pub open spec fn record_result_view(r: Result<Option<Record>, DbfError>) -> Result<
    Option<Seq<(Seq<char>, FieldVal)>>,
    DbfError,
> {
    match r {
        Ok(Some(rec)) => Ok(Some(rec@)),
        Ok(None) => Ok(None),
        Err(e) => Err(e),
    }
}

/// An open file handle. It owns its byte source exclusively and is
/// immutable after construction; every record request decodes afresh
/// from the source bytes.
#[derive(Debug)]
pub struct DbfFile {
    source: Vec<u8>,
    fields: Vec<FieldHeader>,
    num_recs: u32,
    bytes_in_rec: u16,
}

impl View for DbfFile {
    type V = FileVal;

    closed spec fn view(&self) -> FileVal {
        FileVal {
            source: self.source@,
            fields: self.fields@.map_values(|f: FieldHeader| f@),
            num_recs: self.num_recs,
            bytes_in_rec: self.bytes_in_rec,
        }
    }
}

impl DbfFile {
    /// The handle is exactly what opening its own byte source yields.
    pub closed spec fn wf(self) -> bool {
        spec_open(self.source@) == Ok::<FileVal, DbfError>(self@)
    }

    /// Opens an in-memory byte source: parses the 32-byte header, reads
    /// and decodes the field descriptor array, and checks that the
    /// declared column lengths fit in the declared record width.
    #[verifier::loop_isolation(false)]
    pub fn open(source: Vec<u8>) -> (r: Result<DbfFile, DbfError>)
        ensures
            file_result_view(r) == spec_open(source@),
            r matches Ok(f) ==> f.wf(),
    {
        let h = match parse_header(source.as_slice()) {
            Ok(h) => h,
            Err(e) => {
                return Err(e);
            },
        };
        let nd: u16 = (h.bytes_in_header - 1) / 32 - 1;
        let region = match read_bytes(&source, 32, 32 * nd as usize) {
            Ok(v) => v,
            Err(e) => {
                return Err(e);
            },
        };
        let nd: usize = nd as usize;
        let mut fields: Vec<FieldHeader> = Vec::new();
        let mut total: u32 = 0;
        let mut k: usize = 0;
        proof {
            assert(fields@.map_values(|f: FieldHeader| f@) =~= Seq::<FieldHeaderVal>::empty());
        }
        while k < nd
            invariant
                k <= nd <= 1022,
                region@.len() == 32 * nd,
                fields@.len() == k,
                total <= 255 * k,
                spec_decode_descriptors(region@, k as nat) == Ok::<Seq<FieldHeaderVal>, DbfError>(
                    fields@.map_values(|f: FieldHeader| f@),
                ),
                total == field_offset(fields@.map_values(|f: FieldHeader| f@), k as int),
            decreases nd - k,
        {
            let block = vstd::slice::slice_subrange(region.as_slice(), 32 * k, 32 * k + 32);
            let ghost before = fields@.map_values(|f: FieldHeader| f@);
            match decode_descriptor(block) {
                Err(e) => {
                    proof {
                        lemma_decode_descriptors_error_propagates(
                            region@,
                            (k + 1) as nat,
                            nd as nat,
                        );
                    }
                    return Err(e);
                },
                Ok(fh) => {
                    proof {
                        lemma_field_offset_push(before, fh@, k as int);
                        assert(fields@.push(fh).map_values(|f: FieldHeader| f@) =~= before.push(
                            fh@,
                        ));
                    }
                    total = total + fh.field_length as u32;
                    fields.push(fh);
                },
            }
            k = k + 1;
        }
        if total > h.bytes_in_rec as u32 {
            return Err(DbfError::MalformedHeader);
        }
        let file = DbfFile { source, fields, num_recs: h.num_recs, bytes_in_rec: h.bytes_in_rec };
        Ok(file)
    }

    /// The number of records the file declares.
    pub fn num_records(&self) -> (r: u32)
        ensures
            r == self@.num_recs,
    {
        self.num_recs
    }

    /// The column metadata, in declaration order.
    pub fn headers(&self) -> (r: &Vec<FieldHeader>)
        ensures
            r@.map_values(|f: FieldHeader| f@) == self@.fields,
    {
        &self.fields
    }

    /// Fetches record `rec_id`: nothing if the index is out of range,
    /// otherwise one bounded read of the record's bytes and one decode
    /// of every column.
    #[verifier::loop_isolation(false)]
    pub fn record(&self, rec_id: u32) -> (r: Result<Option<Record>, DbfError>)
        requires
            self.wf(),
        ensures
            record_result_view(r) == spec_record(self@, rec_id as int),
    {
        proof {
            lemma_open_bounds(self.source@, self@);
        }
        if rec_id >= self.num_recs {
            return Ok(None);
        }
        let nf = self.fields.len();
        proof {
            assert(self@.fields.len() == self.fields@.len());
            assert((rec_id as int) * (self.bytes_in_rec as int) <= 0xFFFF_FFFF * 0xFFFF)
                by (nonlinear_arith)
                requires
                    0 <= rec_id as int <= 0xFFFF_FFFF,
                    0 <= self.bytes_in_rec as int <= 0xFFFF,
            ;
        }
        let header_len: u64 = 32 + 32 * (nf as u64) + 2;
        let offset: u64 = header_len + (rec_id as u64) * (self.bytes_in_rec as u64);
        let width = self.bytes_in_rec as usize;
        let bytes = match read_bytes(&self.source, offset, width) {
            Ok(b) => b,
            Err(e) => {
                if rec_id == self.num_recs - 1 {
                    match read_bytes(&self.source, offset, width - 1) {
                        Ok(b) => b,
                        Err(e2) => {
                            return Err(e2);
                        },
                    }
                } else {
                    return Err(e);
                }
            },
        };
        let ghost fv = self@.fields;
        let mut pairs: Vec<(String, Field)> = Vec::new();
        let mut off: usize = 0;
        let mut k: usize = 0;
        proof {
            assert(pairs@.map_values(|p: (String, Field)| (p.0@, p.1@)) =~= Seq::<
                (Seq<char>, FieldVal),
            >::empty());
        }
        while k < nf
            invariant
                k <= nf,
                nf == self.fields@.len(),
                fv == self@.fields,
                fv.len() == nf,
                fv == self.fields@.map_values(|f: FieldHeader| f@),
                bytes@ == spec_raw_record(self@, rec_id as int)->Ok_0,
                spec_raw_record(self@, rec_id as int) is Ok,
                rec_id < self@.num_recs,
                field_offset(fv, nf as int) <= self@.bytes_in_rec,
                off == field_offset(fv, k as int),
                spec_decode_fields(fv, bytes@, k as nat) == Ok::<
                    Seq<(Seq<char>, FieldVal)>,
                    DbfError,
                >(pairs@.map_values(|p: (String, Field)| (p.0@, p.1@))),
            decreases nf - k,
        {
            proof {
                lemma_field_offset_mono(fv, k as int, nf as int);
                lemma_field_offset_mono(fv, k + 1, nf as int);
                assert(fv[k as int] == self.fields@[k as int]@);
            }
            let fh = &self.fields[k];
            let blen = bytes.len();
            let lo = if off <= blen {
                off
            } else {
                blen
            };
            let end = off + fh.field_length as usize;
            let hi = if end <= blen {
                end
            } else {
                blen
            };
            let raw = vstd::slice::slice_subrange(bytes.as_slice(), lo, hi);
            proof {
                assert(raw@ == field_slice(bytes@, field_offset(fv, k as int), fv[
                    k as int].field_length as int));
            }
            let ghost before = pairs@.map_values(|p: (String, Field)| (p.0@, p.1@));
            match crate::field::decode_field(&fh.field_type, raw) {
                Err(e) => {
                    proof {
                        lemma_decode_fields_error_propagates(fv, bytes@, (k + 1) as nat, nf as nat);
                    }
                    return Err(e);
                },
                Ok(v) => {
                    let name = fh.name.clone();
                    proof {
                        assert(pairs@.push((name, v)).map_values(|p: (String, Field)| (p.0@, p.1@))
                            =~= before.push((name@, v@)));
                    }
                    pairs.push((name, v));
                },
            }
            off = off + fh.field_length as usize;
            k = k + 1;
        }
        Ok(Some(Record::from_pairs(pairs)))
    }

    /// Converts the handle into a forward record sequence; ownership of
    /// the byte source transfers with it.
    pub fn records(self) -> (it: DbfRecordIterator)
        requires
            self.wf(),
        ensures
            it.wf(),
            it.file_view() == self@,
            it.cursor() == 0,
    {
        DbfRecordIterator { file: self, next_rec: 0 }
    }
}

/// A forward, single-pass walk over all records: a cursor that advances
/// monotonically from zero to the record count.
#[derive(Debug)]
pub struct DbfRecordIterator {
    file: DbfFile,
    next_rec: u32,
}

impl DbfRecordIterator {
    /// The abstract state of the wrapped handle.
    pub closed spec fn file_view(self) -> FileVal {
        self.file@
    }

    /// The zero-based index of the next record the walk will decode.
    pub closed spec fn cursor(self) -> u32 {
        self.next_rec
    }

    /// The wrapped handle is a well-formed product of an open.
    pub closed spec fn wf(self) -> bool {
        self.file.wf()
    }

    /// Unwraps the sequence back into its file handle, so that
    /// non-sequential access can resume after a scan; re-wrapping
    /// restarts the cursor at zero.
    pub fn into_inner(self) -> (r: DbfFile)
        requires
            self.wf(),
        ensures
            r.wf(),
            r@ == self.file_view(),
    {
        self.file
    }

    /// Decodes the record under the cursor and advances; at the end of
    /// the sequence it yields nothing and moves nothing.
    pub fn next(&mut self) -> (r: Result<Option<Record>, DbfError>)
        requires
            old(self).wf(),
        ensures
            final(self).wf(),
            final(self).file_view() == old(self).file_view(),
            old(self).cursor() >= old(self).file_view().num_recs ==> r == Ok::<
                Option<Record>,
                DbfError,
            >(None) && final(self).cursor() == old(self).cursor(),
            old(self).cursor() < old(self).file_view().num_recs ==> final(self).cursor() == old(
                self,
            ).cursor() + 1 && record_result_view(r) == spec_record(
                old(self).file_view(),
                old(self).cursor() as int,
            ),
    {
        if self.next_rec >= self.file.num_recs {
            return Ok(None);
        }
        let r = self.file.record(self.next_rec);
        self.next_rec = self.next_rec + 1;
        r
    }

    /// Exactly how many records remain: the record count less the
    /// cursor, which is known up front.
    pub fn size_hint(&self) -> (r: (usize, Option<usize>))
        ensures
            r.0 == if self.cursor() < self.file_view().num_recs {
                self.file_view().num_recs - self.cursor()
            } else {
                0
            },
            r.1 == Some(r.0),
    {
        let remaining: u32 = if self.next_rec < self.file.num_recs {
            self.file.num_recs - self.next_rec
        } else {
            0
        };
        (remaining as usize, Some(remaining as usize))
    }
}

} // verus!
