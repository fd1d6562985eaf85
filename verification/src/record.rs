//! One decoded record: the ordered field-name/value pairs a record's raw
//! bytes decode to, and the byte-slicing model that assigns each column
//! its slice of the record buffer.

use vstd::prelude::*;

use crate::error::DbfError;
use crate::field::{spec_decode_field, Field, FieldHeaderVal, FieldVal};

verus! {

/// The byte offset at which column `k` starts inside a record buffer:
/// the sum of the declared lengths of the columns before it.
pub open spec fn field_offset(fields: Seq<FieldHeaderVal>, k: int) -> int
    decreases k,
{
    if k <= 0 {
        0
    } else {
        field_offset(fields, k - 1) + fields[k - 1].field_length
    }
}

/// Column offsets never decrease as columns are passed over, and start
/// at zero, so every column offset lies between zero and the sum of all
/// column lengths.
pub proof fn lemma_field_offset_mono(fields: Seq<FieldHeaderVal>, i: int, j: int)
    requires
        0 <= i <= j,
    ensures
        0 <= field_offset(fields, i) <= field_offset(fields, j),
    decreases j,
{
    if j > 0 {
        if i == j {
            lemma_field_offset_mono(fields, 0, j - 1);
        } else {
            lemma_field_offset_mono(fields, i, j - 1);
        }
    }
}

/// Pushing a column at the end does not move the columns before it.
pub proof fn lemma_field_offset_push(fields: Seq<FieldHeaderVal>, f: FieldHeaderVal, k: int)
    requires
        0 <= k <= fields.len(),
    ensures
        field_offset(fields.push(f), k) == field_offset(fields, k),
    decreases k,
{
    if k > 0 {
        lemma_field_offset_push(fields, f, k - 1);
        assert(fields.push(f)[k - 1] == fields[k - 1]);
    }
}

/// The slice of the record buffer that a column reads: `len` bytes
/// starting at `off`, truncated to what the buffer actually holds.
pub open spec fn field_slice(bytes: Seq<u8>, off: int, len: int) -> Seq<u8> {
    let lo = if off <= bytes.len() {
        off
    } else {
        bytes.len() as int
    };
    let hi = if off + len <= bytes.len() {
        off + len
    } else {
        bytes.len() as int
    };
    bytes.subrange(lo, hi)
}

/// What decoding the first `n` columns of a record buffer yields: each
/// column consumes exactly its declared length of bytes, whatever value
/// its slice decodes to, and the error of the earliest bad column wins.
pub open spec fn spec_decode_fields(fields: Seq<FieldHeaderVal>, bytes: Seq<u8>, n: nat) -> Result<
    Seq<(Seq<char>, FieldVal)>,
    DbfError,
>
    decreases n,
{
    if n == 0 {
        Ok(Seq::empty())
    } else {
        match spec_decode_fields(fields, bytes, (n - 1) as nat) {
            Err(e) => Err(e),
            Ok(pairs) => {
                let fh = fields[n - 1];
                match spec_decode_field(
                    fh.field_type,
                    field_slice(bytes, field_offset(fields, n - 1), fh.field_length as int),
                ) {
                    Err(e) => Err(e),
                    Ok(v) => Ok(pairs.push((fh.name, v))),
                }
            },
        }
    }
}

/// A column that fails to decode is fatal for the whole record: the
/// error survives however many further columns follow.
pub proof fn lemma_decode_fields_error_propagates(
    fields: Seq<FieldHeaderVal>,
    bytes: Seq<u8>,
    k: nat,
    n: nat,
)
    requires
        k <= n,
        spec_decode_fields(fields, bytes, k) is Err,
    ensures
        spec_decode_fields(fields, bytes, n) == spec_decode_fields(fields, bytes, k),
    decreases n,
{
    if n > k {
        lemma_decode_fields_error_propagates(fields, bytes, k, (n - 1) as nat);
    }
}

/// A record: the mapping from field name to decoded value, held in
/// declaration order. When a malformed file repeats a field name, the
/// later column's value shadows the earlier one's, as a lookup in a map
/// filled in declaration order would have it.
#[derive(Debug)]
pub struct Record {
    pairs: Vec<(String, Field)>,
}

impl View for Record {
    type V = Seq<(Seq<char>, FieldVal)>;

    closed spec fn view(&self) -> Seq<(Seq<char>, FieldVal)> {
        self.pairs@.map_values(|p: (String, Field)| (p.0@, p.1@))
    }
}

/// The value a name looks up in the pair sequence: the value of the last
/// pair carrying that name, or nothing.
pub open spec fn spec_get(pairs: Seq<(Seq<char>, FieldVal)>, name: Seq<char>) -> Option<FieldVal>
    decreases pairs.len(),
{
    if pairs.len() == 0 {
        None
    } else if pairs.last().0 == name {
        Some(pairs.last().1)
    } else {
        spec_get(pairs.drop_last(), name)
    }
}

impl Record {
    /// Builds a record from its name/value pairs in declaration order.
    pub(crate) fn from_pairs(pairs: Vec<(String, Field)>) -> (r: Record)
        ensures
            r@ == pairs@.map_values(|p: (String, Field)| (p.0@, p.1@)),
    {
        Record { pairs }
    }

    /// How many columns the record holds.
    pub fn len(&self) -> (r: usize)
        ensures
            r == self@.len(),
    {
        self.pairs.len()
    }

    /// The name of column `i`, in declaration order.
    pub fn name_at(&self, i: usize) -> (r: &String)
        requires
            i < self@.len(),
        ensures
            r@ == self@[i as int].0,
    {
        proof {
            assert(self@[i as int] == (self.pairs@[i as int].0@, self.pairs@[i as int].1@));
        }
        &self.pairs[i].0
    }

    /// The value of column `i`, in declaration order.
    pub fn value_at(&self, i: usize) -> (r: &Field)
        requires
            i < self@.len(),
        ensures
            r@ == self@[i as int].1,
    {
        proof {
            assert(self@[i as int] == (self.pairs@[i as int].0@, self.pairs@[i as int].1@));
        }
        &self.pairs[i].1
    }

    /// Looks a field up by name; with a repeated name the last column
    /// wins.
    pub fn get(&self, name: &String) -> (r: Option<&Field>)
        ensures
            match r {
                Some(f) => spec_get(self@, name@) == Some(f@),
                None => spec_get(self@, name@) is None,
            },
    {
        let mut j: usize = self.pairs.len();
        proof {
            assert(self@.take(j as int) =~= self@);
        }
        while j > 0
            invariant
                j <= self@.len(),
                self@.len() == self.pairs@.len(),
                spec_get(self@, name@) == spec_get(self@.take(j as int), name@),
            decreases j,
        {
            proof {
                assert(self@[j - 1] == (self.pairs@[j - 1].0@, self.pairs@[j - 1].1@));
                assert(self@.take(j as int).last() == self@[j - 1]);
                assert(self@.take(j as int).drop_last() =~= self@.take(j - 1));
            }
            if self.pairs[j - 1].0 == *name {
                return Some(&self.pairs[j - 1].1);
            }
            j = j - 1;
        }
        proof {
            assert(self@.take(0) =~= Seq::<(Seq<char>, FieldVal)>::empty());
        }
        None
    }
}

impl PartialEq for Record {
    fn eq(&self, other: &Record) -> (r: bool) {
        if self.pairs.len() != other.pairs.len() {
            proof {
                assert(self@.len() != other@.len());
            }
            return false;
        }
        let n = self.pairs.len();
        let mut i: usize = 0;
        while i < n
            invariant
                0 <= i <= n,
                n == self.pairs@.len(),
                n == other.pairs@.len(),
                forall|k: int| 0 <= k < i ==> self@[k] == other@[k],
            decreases n - i,
        {
            proof {
                assert(self@[i as int] == (self.pairs@[i as int].0@, self.pairs@[i as int].1@));
                assert(other@[i as int] == (other.pairs@[i as int].0@, other.pairs@[i as int].1@));
            }
            if self.pairs[i].0 != other.pairs[i].0 {
                return false;
            }
            if self.pairs[i].1 != other.pairs[i].1 {
                return false;
            }
            i = i + 1;
        }
        proof {
            assert(self@ =~= other@);
        }
        true
    }
}

impl vstd::std_specs::cmp::PartialEqSpecImpl for Record {
    open spec fn obeys_eq_spec() -> bool {
        true
    }

    open spec fn eq_spec(&self, other: &Record) -> bool {
        self@ == other@
    }
}

} // verus!
