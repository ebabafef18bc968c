use vstd::prelude::*;
use vstd::slice::{slice_subrange, slice_to_vec};
use vstd::utf8::encode_utf8;

verus! {

/// The UTF-8 bytes of a string slice, as a slice.
pub fn str_bytes(s: &str) -> (r: &[u8])
    ensures
        r@ == encode_utf8(s@),
{
    s.as_bytes()
}

/// Append the bytes of a slice to a vector.
pub fn extend_bytes(out: &mut Vec<u8>, s: &[u8])
    ensures
        final(out)@ == old(out)@ + s@,
{
    let mut i: usize = 0;
    while i < s.len()
        invariant
            i <= s@.len(),
            out@ == old(out)@ + s@.subrange(0, i as int),
        decreases s@.len() - i,
    {
        out.push(s[i]);
        i = i + 1;
        assert(old(out)@ + s@.subrange(0, i as int) == (old(out)@ + s@.subrange(0, i - 1)).push(
            s@[i - 1],
        ));
    }
    assert(s@.subrange(0, s@.len() as int) == s@);
}

/// Whether two byte slices hold the same bytes.
pub fn bytes_eq(a: &[u8], b: &[u8]) -> (r: bool)
    ensures
        r <==> a@ == b@,
{
    if a.len() != b.len() {
        assert(a@ != b@);
        return false;
    }
    let mut i: usize = 0;
    while i < a.len()
        invariant
            i <= a@.len(),
            a@.len() == b@.len(),
            forall|j: int| 0 <= j < i ==> a@[j] == b@[j],
        decreases a@.len() - i,
    {
        if a[i] != b[i] {
            return false;
        }
        i = i + 1;
    }
    assert(a@ =~= b@);
    true
}

/// Copy of a region of a byte slice.
pub fn copy_range(d: &[u8], from: usize, to: usize) -> (r: Vec<u8>)
    requires
        from <= to <= d@.len(),
    ensures
        r@ == d@.subrange(from as int, to as int),
{
    slice_to_vec(slice_subrange(d, from, to))
}

/// Relies on `String::from_utf8`: it succeeds exactly on well-formed UTF-8
/// input and decodes it to the characters that encoding denotes.
#[verifier::external_body]
pub fn utf8_to_string(v: Vec<u8>) -> (r: Option<String>)
    ensures
        match r {
            Some(s) => vstd::utf8::valid_utf8(v@) && s@ == vstd::utf8::decode_utf8(v@),
            None => !vstd::utf8::valid_utf8(v@),
        },
{
    match String::from_utf8(v) {
        Ok(s) => Some(s),
        Err(_) => None,
    }
}

/// Decimal digit characters of a number, most significant first.
pub open spec fn dec_bytes(n: nat) -> Seq<u8>
    decreases n,
{
    if n < 10 {
        seq![(48 + n) as u8]
    } else {
        dec_bytes(n / 10).push((48 + n % 10) as u8)
    }
}

/// Render a number in decimal.
pub fn dec_u64(n: u64) -> (r: Vec<u8>)
    ensures
        r@ == dec_bytes(n as nat),
    decreases n,
{
    if n < 10 {
        let mut v: Vec<u8> = Vec::new();
        v.push(48 + n as u8);
        v
    } else {
        let mut v = dec_u64(n / 10);
        v.push(48 + (n % 10) as u8);
        v
    }
}

/// Whether a byte is a decimal digit character.
pub open spec fn is_digit(b: u8) -> bool {
    48 <= b <= 57
}

/// Whether every byte of a sequence is a decimal digit character.
pub open spec fn all_digits(s: Seq<u8>) -> bool {
    forall|i: int| 0 <= i < s.len() ==> is_digit(#[trigger] s[i])
}

/// The number a sequence of decimal digit characters denotes.
pub open spec fn digits_val(s: Seq<u8>) -> nat
    decreases s.len(),
{
    if s.len() == 0 {
        0
    } else {
        digits_val(s.drop_last()) * 10 + (s.last() - 48) as nat
    }
}

/// A longer run of digits never denotes a smaller number.
proof fn lemma_digits_prefix_le(s: Seq<u8>, i: int, j: int)
    requires
        0 <= i <= j <= s.len(),
        all_digits(s),
    ensures
        digits_val(s.subrange(0, i)) <= digits_val(s.subrange(0, j)),
    decreases j - i,
{
    if i < j {
        lemma_digits_prefix_le(s, i, j - 1);
        assert(s.subrange(0, j).drop_last() == s.subrange(0, j - 1));
        assert(digits_val(s.subrange(0, j - 1)) <= digits_val(s.subrange(0, j)));
    }
}

/// Read the number denoted by the digits in `d[from..to]`: the value, when the
/// region is nonempty, all digits, and the value fits in a `u64`; `None`
/// otherwise.
pub fn parse_u64_digits(d: &[u8], from: usize, to: usize) -> (r: Option<u64>)
    requires
        from <= to <= d@.len(),
    ensures
        ({
            let s = d@.subrange(from as int, to as int);
            match r {
                Some(v) => from < to && all_digits(s) && v == digits_val(s) && digits_val(s)
                    <= u64::MAX,
                None => !(from < to && all_digits(s) && digits_val(s) <= u64::MAX),
            }
        }),
{
    let ghost s = d@.subrange(from as int, to as int);
    if from == to {
        return None;
    }
    let mut acc: u64 = 0;
    let mut i: usize = from;
    while i < to
        invariant
            from <= i <= to <= d@.len(),
            s == d@.subrange(from as int, to as int),
            all_digits(s.subrange(0, i - from)),
            acc == digits_val(s.subrange(0, i - from)),
        decreases to - i,
    {
        let b = d[i];
        if b < 48 || b > 57 {
            assert(s[i - from] == b);
            return None;
        }
        let dg = (b - 48) as u64;
        if acc > (u64::MAX - dg) / 10 {
            proof {
                assert(s.subrange(0, i - from + 1).drop_last() == s.subrange(0, i - from));
                assert(digits_val(s.subrange(0, i - from + 1)) == acc * 10 + dg);
                assert(acc * 10 + dg > u64::MAX) by (nonlinear_arith)
                    requires
                        acc > (u64::MAX - dg) / 10,
                        0 <= dg <= 9,
                ;
                if all_digits(s) {
                    lemma_digits_prefix_le(s, i - from + 1, s.len() as int);
                    assert(s.subrange(0, s.len() as int) == s);
                }
            }
            return None;
        }
        proof {
            assert(acc * 10 + dg <= u64::MAX) by (nonlinear_arith)
                requires
                    acc <= (u64::MAX - dg) / 10,
                    0 <= dg <= 9,
            ;
            assert(s.subrange(0, i - from + 1).drop_last() == s.subrange(0, i - from));
            assert(s.subrange(0, i - from + 1).last() == b);
        }
        acc = acc * 10 + dg;
        i = i + 1;
    }
    assert(s.subrange(0, s.len() as int) == s);
    Some(acc)
}

} // verus!
