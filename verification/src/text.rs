//! Single-byte text handling: the whitespace-trimming rule applied to
//! every field slice, the narrow character set the decoder accepts, and
//! the decimal-literal grammar that numeric fields must satisfy.

use vstd::prelude::*;

verus! {

/// The bytes that count as whitespace when a field slice is trimmed.
pub open spec fn is_space_byte(b: u8) -> bool {
    b == 9 || b == 10 || b == 11 || b == 12 || b == 13 || b == 32
}

/// Every byte of the sequence is single-byte text.
pub open spec fn all_ascii(s: Seq<u8>) -> bool {
    forall|i: int| 0 <= i < s.len() ==> s[i] < 128
}

/// The characters a byte sequence spells, one character per byte.
pub open spec fn chars_of(s: Seq<u8>) -> Seq<char> {
    s.map_values(|b: u8| b as char)
}

/// The sequence with leading whitespace bytes removed.
pub open spec fn trim_start(s: Seq<u8>) -> Seq<u8>
    decreases s.len(),
{
    if s.len() > 0 && is_space_byte(s[0]) {
        trim_start(s.drop_first())
    } else {
        s
    }
}

/// The sequence with trailing whitespace bytes removed.
pub open spec fn trim_end(s: Seq<u8>) -> Seq<u8>
    decreases s.len(),
{
    if s.len() > 0 && is_space_byte(s.last()) {
        trim_end(s.drop_last())
    } else {
        s
    }
}

/// The sequence with whitespace removed from both ends.
pub open spec fn trimmed(s: Seq<u8>) -> Seq<u8> {
    trim_end(trim_start(s))
}

/// The sequence with trailing NUL padding removed; this is how a field
/// name is cut out of its 11-byte descriptor slot.
pub open spec fn trim_nul_end(s: Seq<u8>) -> Seq<u8>
    decreases s.len(),
{
    if s.len() > 0 && s.last() == 0 {
        trim_nul_end(s.drop_last())
    } else {
        s
    }
}

proof fn lemma_trim_start_is_suffix(s: Seq<u8>, k: int)
    requires
        0 <= k <= s.len(),
        forall|i: int| 0 <= i < k ==> is_space_byte(s[i]),
        k < s.len() ==> !is_space_byte(s[k]),
    ensures
        trim_start(s) == s.subrange(k, s.len() as int),
    decreases k,
{
    if k == 0 {
        assert(s.subrange(0, s.len() as int) =~= s);
    } else {
        let t = s.drop_first();
        assert(t =~= s.subrange(1, s.len() as int));
        lemma_trim_start_is_suffix(t, k - 1);
        assert(t.subrange(k - 1, t.len() as int) =~= s.subrange(k, s.len() as int));
    }
}

proof fn lemma_trim_end_is_prefix(s: Seq<u8>, h: int)
    requires
        0 <= h <= s.len(),
        forall|j: int| h <= j < s.len() ==> is_space_byte(s[j]),
        h > 0 ==> !is_space_byte(s[h - 1]),
    ensures
        trim_end(s) == s.subrange(0, h),
    decreases s.len() - h,
{
    if h == s.len() {
        if s.len() > 0 && is_space_byte(s.last()) {
            assert(!is_space_byte(s[h - 1]));
        }
        assert(s.subrange(0, h) =~= s);
    } else {
        let t = s.drop_last();
        assert(t =~= s.subrange(0, s.len() - 1));
        lemma_trim_end_is_prefix(t, h);
        assert(t.subrange(0, h) =~= s.subrange(0, h));
    }
}

/// Removes leading and trailing whitespace bytes, as the decoder does to
/// every raw field slice before it looks at the value.
pub fn trim_bytes(s: &[u8]) -> (r: Vec<u8>)
    ensures
        r@ == trimmed(s@),
{
    let len: usize = s.len();
    let mut lo: usize = 0;
    while lo < len && is_space(s[lo])
        invariant
            0 <= lo <= len,
            len == s@.len(),
            forall|i: int| 0 <= i < lo ==> is_space_byte(s@[i]),
        decreases len - lo,
    {
        lo = lo + 1;
    }
    let mut hi: usize = len;
    while hi > lo && is_space(s[hi - 1])
        invariant
            lo <= hi <= len,
            len == s@.len(),
            forall|j: int| hi <= j < len ==> is_space_byte(s@[j]),
        decreases hi,
    {
        hi = hi - 1;
    }
    proof {
        lemma_trim_start_is_suffix(s@, lo as int);
        let t = s@.subrange(lo as int, len as int);
        lemma_trim_end_is_prefix(t, hi - lo);
        assert(t.subrange(0, hi - lo) =~= s@.subrange(lo as int, hi as int));
    }
    let r = vstd::slice::slice_to_vec(vstd::slice::slice_subrange(s, lo, hi));
    r
}

/// Removes trailing NUL padding bytes.
pub fn trim_nul_bytes(s: &[u8]) -> (r: Vec<u8>)
    ensures
        r@ == trim_nul_end(s@),
{
    let len: usize = s.len();
    let mut hi: usize = len;
    while hi > 0 && s[hi - 1] == 0
        invariant
            0 <= hi <= len,
            len == s@.len(),
            forall|j: int| hi <= j < len ==> s@[j] == 0,
        decreases hi,
    {
        hi = hi - 1;
    }
    proof {
        lemma_trim_nul_end_is_prefix(s@, hi as int);
    }
    let r = vstd::slice::slice_to_vec(vstd::slice::slice_subrange(s, 0, hi));
    r
}

proof fn lemma_trim_nul_end_is_prefix(s: Seq<u8>, h: int)
    requires
        0 <= h <= s.len(),
        forall|j: int| h <= j < s.len() ==> s[j] == 0,
        h > 0 ==> s[h - 1] != 0,
    ensures
        trim_nul_end(s) == s.subrange(0, h),
    decreases s.len() - h,
{
    if h == s.len() {
        assert(s.subrange(0, h) =~= s);
    } else {
        let t = s.drop_last();
        assert(t =~= s.subrange(0, s.len() - 1));
        lemma_trim_nul_end_is_prefix(t, h);
        assert(t.subrange(0, h) =~= s.subrange(0, h));
    }
}

fn is_space(b: u8) -> (r: bool)
    ensures
        r == is_space_byte(b),
{
    b == 9 || b == 10 || b == 11 || b == 12 || b == 13 || b == 32
}

/// Checks that every byte is single-byte text.
pub fn check_all_ascii(s: &[u8]) -> (r: bool)
    ensures
        r == all_ascii(s@),
{
    let len: usize = s.len();
    let mut i: usize = 0;
    while i < len
        invariant
            0 <= i <= len,
            len == s@.len(),
            forall|j: int| 0 <= j < i ==> s@[j] < 128,
        decreases len - i,
    {
        if s[i] >= 128 {
            return false;
        }
        i = i + 1;
    }
    true
}

/// The byte spells a decimal digit.
pub open spec fn is_digit_byte(b: u8) -> bool {
    48 <= b <= 57
}

/// The sequence with one leading sign byte (`+` or `-`) removed, if any.
pub open spec fn strip_sign(s: Seq<u8>) -> Seq<u8> {
    if s.len() > 0 && (s[0] == 43 || s[0] == 45) {
        s.drop_first()
    } else {
        s
    }
}

/// An unsigned decimal body: only digits and at most one decimal point,
/// with at least one digit somewhere.
pub open spec fn is_unsigned_decimal(s: Seq<u8>) -> bool {
    &&& forall|i: int| 0 <= i < s.len() ==> is_digit_byte(s[i]) || s[i] == 46
    &&& forall|i: int, j: int| 0 <= i < j < s.len() && s[i] == 46 ==> s[j] != 46
    &&& exists|i: int| 0 <= i < s.len() && is_digit_byte(s[i])
}

/// The grammar a numeric field's trimmed text must satisfy: an optional
/// leading sign, then digits with at most one decimal point.
pub open spec fn is_decimal_literal(s: Seq<u8>) -> bool {
    is_unsigned_decimal(strip_sign(s))
}

/// Decides whether trimmed field text parses as a base-10 decimal
/// literal.
pub fn check_decimal_literal(s: &[u8]) -> (r: bool)
    ensures
        r == is_decimal_literal(s@),
{
    let len: usize = s.len();
    let start: usize = if len > 0 && (s[0] == 43 || s[0] == 45) {
        1
    } else {
        0
    };
    let ghost t = strip_sign(s@);
    proof {
        assert(t =~= s@.subrange(start as int, len as int));
    }
    let mut seen_point = false;
    let mut seen_digit = false;
    let mut i: usize = start;
    while i < len
        invariant
            start <= i <= len,
            len == s@.len(),
            t == strip_sign(s@),
            t =~= s@.subrange(start as int, len as int),
            forall|k: int| 0 <= k < i - start ==> is_digit_byte(t[k]) || t[k] == 46,
            seen_digit == exists|k: int| 0 <= k < i - start && is_digit_byte(t[k]),
            seen_point == exists|k: int| 0 <= k < i - start && t[k] == 46,
            forall|k: int, l: int| 0 <= k < l < i - start && t[k] == 46 ==> t[l] != 46,
        decreases len - i,
    {
        let b = s[i];
        assert(t[i - start] == b);
        if 48 <= b && b <= 57 {
            seen_digit = true;
        } else if b == 46 {
            if seen_point {
                proof {
                    let k = choose|k: int| 0 <= k < i - start && t[k] == 46;
                    assert(0 <= k < i - start && t[k] == 46 && t[i - start] == 46);
                    assert(!is_unsigned_decimal(t));
                }
                return false;
            }
            seen_point = true;
        } else {
            proof {
                assert(0 <= i - start < t.len() && !(is_digit_byte(t[i - start]) || t[i - start]
                    == 46));
                assert(!is_unsigned_decimal(t));
            }
            return false;
        }
        i = i + 1;
    }
    seen_digit
}

/// Relies on String::from_utf8: bytes below 128 are valid UTF-8 and
/// decode to exactly one character per byte, the character with that
/// byte's code.
#[verifier::external_body]
pub fn ascii_bytes_to_string(v: Vec<u8>) -> (r: String)
    requires
        all_ascii(v@),
    ensures
        r@ == chars_of(v@),
{
    String::from_utf8(v).unwrap()
}

} // verus!
