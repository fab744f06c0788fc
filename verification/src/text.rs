//! Decimal text: formatting unsigned integers as ASCII digit strings and
//! parsing them back. The wire protocol and task-identifier display form are
//! built on these.

use vstd::prelude::*;

verus! {

/// The ASCII digit standing for the value `d` (which must be below ten).
pub open spec fn digit_byte(d: nat) -> u8 {
    (d + 0x30) as u8
}

/// Whether `b` is an ASCII decimal digit.
pub open spec fn is_digit(b: u8) -> bool {
    0x30 <= b <= 0x39
}

/// The numeric value of the ASCII digit `b`.
pub open spec fn digit_val(b: u8) -> nat {
    (b - 0x30) as nat
}

/// The canonical decimal rendering of `n`: no leading zeros, most
/// significant digit first, and `"0"` for zero itself.
pub open spec fn dec_digits(n: nat) -> Seq<u8>
    decreases n,
{
    if n < 10 {
        seq![digit_byte(n)]
    } else {
        dec_digits(n / 10) + seq![digit_byte(n % 10)]
    }
}

/// The value of a digit string, most significant digit first.
pub open spec fn dec_value(s: Seq<u8>) -> nat
    decreases s.len(),
{
    if s.len() == 0 {
        0
    } else {
        dec_value(s.drop_last()) * 10 + digit_val(s.last())
    }
}

/// Whether every byte of `s` is an ASCII decimal digit.
pub open spec fn all_digits(s: Seq<u8>) -> bool {
    forall|i: int| 0 <= i < s.len() ==> is_digit(s[i])
}

/// What parsing a decimal string as a `u64` yields: the value of the digits
/// when the string is non-empty, all digits, and the value fits; nothing
/// otherwise. Leading zeros are accepted.
pub open spec fn spec_parse_u64(s: Seq<u8>) -> Option<u64> {
    if s.len() > 0 && all_digits(s) && dec_value(s) <= u64::MAX {
        Some(dec_value(s) as u64)
    } else {
        None
    }
}

/// As `spec_parse_u64`, for `u32`.
pub open spec fn spec_parse_u32(s: Seq<u8>) -> Option<u32> {
    if s.len() > 0 && all_digits(s) && dec_value(s) <= u32::MAX {
        Some(dec_value(s) as u32)
    } else {
        None
    }
}

pub proof fn lemma_dec_digits_wf(n: nat)
    ensures
        dec_digits(n).len() >= 1,
        all_digits(dec_digits(n)),
    decreases n,
{
    if n >= 10 {
        lemma_dec_digits_wf(n / 10);
    }
}

/// The canonical rendering of `n` evaluates back to `n`.
pub proof fn lemma_dec_value_of_digits(n: nat)
    ensures
        dec_value(dec_digits(n)) == n,
    decreases n,
{
    if n < 10 {
        assert(dec_digits(n).drop_last() =~= Seq::<u8>::empty());
        assert(dec_value(Seq::<u8>::empty()) == 0);
        assert(dec_digits(n).last() == digit_byte(n));
        assert(digit_val(digit_byte(n)) == n);
    } else {
        lemma_dec_value_of_digits(n / 10);
        lemma_dec_digits_wf(n / 10);
        assert(dec_digits(n).drop_last() =~= dec_digits(n / 10));
        assert(dec_digits(n).last() == digit_byte(n % 10));
        assert(digit_val(digit_byte(n % 10)) == n % 10);
        assert(dec_value(dec_digits(n)) == (n / 10) * 10 + n % 10);
        assert((n / 10) * 10 + n % 10 == n) by (nonlinear_arith);
    }
}

/// Appending a digit multiplies the value by ten and adds the digit.
proof fn lemma_dec_value_push(s: Seq<u8>, b: u8)
    ensures
        dec_value(s.push(b)) == dec_value(s) * 10 + digit_val(b),
{
    assert(s.push(b).drop_last() =~= s);
}

/// A prefix of a digit string never has a larger value than the whole.
proof fn lemma_dec_value_prefix_le(s: Seq<u8>, i: int)
    requires
        0 <= i <= s.len(),
    ensures
        dec_value(s.take(i)) <= dec_value(s),
    decreases s.len() - i,
{
    if i < s.len() {
        lemma_dec_value_prefix_le(s, i + 1);
        let t = s.take(i);
        let v = dec_value(t);
        lemma_dec_value_push(t, s[i]);
        assert(t.push(s[i]) =~= s.take(i + 1));
        assert(v * 10 >= v * 1) by (nonlinear_arith);
    } else {
        assert(s.take(i) =~= s);
    }
}

/// Format `n` as its canonical decimal digit string.
pub fn format_u64(n: u64) -> (r: Vec<u8>)
    ensures
        r@ == dec_digits(n as nat),
    decreases n,
{
    if n < 10 {
        let mut v: Vec<u8> = Vec::new();
        v.push((n as u8) + 0x30);
        assert(v@ =~= dec_digits(n as nat));
        v
    } else {
        let mut v = format_u64(n / 10);
        v.push(((n % 10) as u8) + 0x30);
        assert(v@ =~= dec_digits(n as nat));
        v
    }
}

/// Format `n` as its canonical decimal digit string.
pub fn format_u32(n: u32) -> (r: Vec<u8>)
    ensures
        r@ == dec_digits(n as nat),
{
    let r = format_u64(n as u64);
    r
}

/// Parse a decimal digit string as a `u64`. Accepts leading zeros; rejects
/// the empty string, any non-digit byte, and values above `u64::MAX`.
pub fn parse_u64(v: &Vec<u8>) -> (r: Option<u64>)
    ensures
        r == spec_parse_u64(v@),
{
    if v.len() == 0 {
        return None;
    }
    let mut acc: u128 = 0;
    let mut i: usize = 0;
    while i < v.len()
        invariant
            0 <= i <= v@.len(),
            v@.len() > 0,
            all_digits(v@.take(i as int)),
            acc == dec_value(v@.take(i as int)),
            acc <= u64::MAX,
        decreases v@.len() - i,
    {
        let b = v[i];
        if b < 0x30 || b > 0x39 {
            assert(!all_digits(v@));
            return None;
        }
        let d = (b - 0x30) as u128;
        assert(acc * 10 + d < u128::MAX) by (nonlinear_arith)
            requires
                acc <= u64::MAX,
                d <= 9,
        ;
        acc = acc * 10 + d;
        proof {
            lemma_dec_value_push(v@.take(i as int), b);
            assert(v@.take(i as int).push(b) =~= v@.take(i + 1 as int));
        }
        i = i + 1;
        if acc > u64::MAX as u128 {
            proof {
                lemma_dec_value_prefix_le(v@, i as int);
            }
            return None;
        }
    }
    proof {
        assert(v@.take(v@.len() as int) =~= v@);
    }
    Some(acc as u64)
}

/// Parse a decimal digit string as a `u32`, as `parse_u64` does.
pub fn parse_u32(v: &Vec<u8>) -> (r: Option<u32>)
    ensures
        r == spec_parse_u32(v@),
{
    match parse_u64(v) {
        Some(n) if n <= u32::MAX as u64 => Some(n as u32),
        _ => None,
    }
}

/// Parsing the canonical rendering of a `u64` gives the number back.
pub proof fn lemma_parse_format_u64(n: u64)
    ensures
        spec_parse_u64(dec_digits(n as nat)) == Some(n),
{
    lemma_dec_digits_wf(n as nat);
    lemma_dec_value_of_digits(n as nat);
}

/// Parsing the canonical rendering of a `u32` gives the number back.
pub proof fn lemma_parse_format_u32(n: u32)
    ensures
        spec_parse_u32(dec_digits(n as nat)) == Some(n),
{
    lemma_dec_digits_wf(n as nat);
    lemma_dec_value_of_digits(n as nat);
}

/// The characters standing for an ASCII byte string, byte for byte.
pub open spec fn ascii_view(s: Seq<u8>) -> Seq<char> {
    Seq::new(s.len(), |i: int| s[i] as char)
}

/// Whether every byte of `s` is ASCII.
pub open spec fn all_ascii(s: Seq<u8>) -> bool {
    forall|i: int| 0 <= i < s.len() ==> s[i] < 0x80
}

/// Relies on `String::from_utf8`: ASCII bytes are valid UTF-8 and decode to
/// the characters with the same code points.
#[verifier::external_body]
pub fn ascii_to_string(v: &Vec<u8>) -> (r: String)
    requires
        all_ascii(v@),
    ensures
        r@ == ascii_view(v@),
{
    String::from_utf8(v.clone()).unwrap_or_default()
}

/// The first index at which `b` occurs in `s`, or `s.len()` if it never does.
pub open spec fn find_byte(s: Seq<u8>, b: u8) -> int
    decreases s.len(),
{
    if s.len() == 0 {
        0
    } else if s[0] == b {
        0
    } else {
        1 + find_byte(s.skip(1), b)
    }
}

/// `find_byte` is characterised by "first occurrence or end".
pub proof fn lemma_find_byte(s: Seq<u8>, b: u8, i: int)
    requires
        0 <= i <= s.len(),
        i == s.len() || s[i] == b,
        forall|j: int| 0 <= j < i ==> s[j] != b,
    ensures
        find_byte(s, b) == i,
    decreases s.len(),
{
    if s.len() == 0 {
    } else if s[0] == b {
    } else {
        assert(forall|j: int| 0 <= j < i - 1 ==> s.skip(1)[j] != b);
        lemma_find_byte(s.skip(1), b, i - 1);
    }
}

/// Scan `v` from `from` for the first occurrence of `b`.
pub fn find_from(v: &Vec<u8>, from: usize, b: u8) -> (r: usize)
    requires
        from <= v@.len(),
    ensures
        from <= r <= v@.len(),
        r < v@.len() ==> v@[r as int] == b,
        forall|j: int| from <= j < r ==> v@[j] != b,
        r - from == find_byte(v@.skip(from as int), b),
{
    let mut i: usize = from;
    while i < v.len()
        invariant
            from <= i <= v@.len(),
            forall|j: int| from <= j < i ==> v@[j] != b,
        decreases v@.len() - i,
    {
        if v[i] == b {
            proof {
                assert(forall|j: int| 0 <= j < i - from ==> v@.skip(from as int)[j] != b);
                lemma_find_byte(v@.skip(from as int), b, i - from);
            }
            return i;
        }
        i = i + 1;
    }
    proof {
        assert(forall|j: int| 0 <= j < i - from ==> v@.skip(from as int)[j] != b);
        lemma_find_byte(v@.skip(from as int), b, i - from);
    }
    i
}

/// Copy a byte vector.
pub fn clone_bytes(v: &Vec<u8>) -> (r: Vec<u8>)
    ensures
        r@ == v@,
{
    let mut r: Vec<u8> = Vec::new();
    let mut i: usize = 0;
    while i < v.len()
        invariant
            0 <= i <= v@.len(),
            r@ == v@.take(i as int),
        decreases v@.len() - i,
    {
        r.push(v[i]);
        proof {
            assert(r@ =~= v@.take(i + 1 as int));
        }
        i = i + 1;
    }
    proof {
        assert(v@.take(v@.len() as int) =~= v@);
    }
    r
}

/// Whether two byte vectors hold the same bytes.
pub fn bytes_eq(a: &Vec<u8>, b: &Vec<u8>) -> (r: bool)
    ensures
        r <==> a@ == b@,
{
    if a.len() != b.len() {
        return false;
    }
    let mut i: usize = 0;
    while i < a.len()
        invariant
            0 <= i <= a@.len(),
            a@.len() == b@.len(),
            forall|j: int| 0 <= j < i ==> a@[j] == b@[j],
        decreases a@.len() - i,
    {
        if a[i] != b[i] {
            return false;
        }
        i = i + 1;
    }
    proof {
        assert(a@ =~= b@);
    }
    true
}

/// Whether the bytes of `lit` stand in `buf` at `pos`.
pub fn match_at(buf: &Vec<u8>, pos: usize, lit: &Vec<u8>) -> (r: bool)
    requires
        pos <= buf@.len(),
    ensures
        r <==> (pos + lit@.len() <= buf@.len() && buf@.subrange(pos as int, pos + lit@.len())
            == lit@),
{
    if buf.len() - pos < lit.len() {
        return false;
    }
    let mut i: usize = 0;
    while i < lit.len()
        invariant
            0 <= i <= lit@.len(),
            pos + lit@.len() <= buf@.len(),
            buf@.len() <= usize::MAX,
            forall|j: int| 0 <= j < i ==> buf@[pos + j] == lit@[j],
        decreases lit@.len() - i,
    {
        if buf[pos + i] != lit[i] {
            proof {
                assert(buf@.subrange(pos as int, pos + lit@.len())[i as int] == buf@[pos + i]);
            }
            return false;
        }
        i = i + 1;
    }
    proof {
        assert forall|j: int| 0 <= j < lit@.len() implies buf@.subrange(
            pos as int,
            pos + lit@.len(),
        )[j] == lit@[j] by {
            assert(buf@[pos + j] == lit@[j]);
        }
        assert(buf@.subrange(pos as int, pos + lit@.len()) =~= lit@);
    }
    true
}

/// Copy the bytes of `v` between `from` (inclusive) and `to` (exclusive).
pub fn subvec(v: &Vec<u8>, from: usize, to: usize) -> (r: Vec<u8>)
    requires
        from <= to <= v@.len(),
    ensures
        r@ == v@.subrange(from as int, to as int),
{
    let mut r: Vec<u8> = Vec::new();
    let mut i: usize = from;
    while i < to
        invariant
            from <= i <= to <= v@.len(),
            r@ == v@.subrange(from as int, i as int),
        decreases to - i,
    {
        r.push(v[i]);
        proof {
            assert(r@ =~= v@.subrange(from as int, i + 1 as int));
        }
        i = i + 1;
    }
    r
}

} // verus!
