//! Binary primitives shared by every chunk: little-endian integer
//! encoding, exact-length byte extraction, and the even-byte padding rule.

use vstd::prelude::*;

use crate::RiffError;

verus! {

/// The on-disk size of a payload of `n` bytes: odd sizes are rounded up to
/// the next even number, because RIFF chunks are word-aligned on disk.
pub open spec fn spec_padded_size(n: int) -> int {
    n + n % 2
}

/// The value of four bytes read as a little-endian 32-bit unsigned integer.
pub open spec fn le32_val(b: Seq<u8>) -> int
    recommends
        b.len() == 4,
{
    b[0] + 256 * b[1] + 65536 * b[2] + 16777216 * b[3]
}

/// The four little-endian bytes of the low 32 bits of `v`.
pub open spec fn le32_bytes(v: int) -> Seq<u8> {
    seq![
        (v % 256) as u8,
        ((v / 256) % 256) as u8,
        ((v / 65536) % 256) as u8,
        ((v / 16777216) % 256) as u8,
    ]
}

/// Little-endian encoding is the inverse of little-endian decoding
/// for values that fit in 32 bits.
pub proof fn lemma_le32_roundtrip(v: int)
    requires
        0 <= v <= u32::MAX,
    ensures
        le32_val(le32_bytes(v)) == v,
        le32_bytes(v).len() == 4,
{
    let b0 = v % 256;
    let b1 = (v / 256) % 256;
    let b2 = (v / 65536) % 256;
    let b3 = (v / 16777216) % 256;
    assert(b0 + 256 * b1 + 65536 * b2 + 16777216 * b3 == v) by (nonlinear_arith)
        requires
            0 <= v < 4294967296,
            b0 == v % 256,
            b1 == (v / 256) % 256,
            b2 == (v / 65536) % 256,
            b3 == (v / 16777216) % 256,
    ;
}

/// Little-endian decoding is the inverse of little-endian encoding: the
/// four bytes of a decoded value are the bytes decoded.
pub proof fn lemma_le32_bytes_of_val(s: Seq<u8>)
    requires
        s.len() == 4,
    ensures
        le32_bytes(le32_val(s)) == s,
{
    let v = le32_val(s);
    let s0 = s[0] as int;
    let s1 = s[1] as int;
    let s2 = s[2] as int;
    let s3 = s[3] as int;
    assert(v % 256 == s0 && (v / 256) % 256 == s1 && (v / 65536) % 256 == s2 && (v / 16777216)
        % 256 == s3) by (nonlinear_arith)
        requires
            v == s0 + 256 * s1 + 65536 * s2 + 16777216 * s3,
            0 <= s0 <= 255,
            0 <= s1 <= 255,
            0 <= s2 <= 255,
            0 <= s3 <= 255,
    ;
    assert(le32_bytes(v) =~= s);
}

/// `padded_size(n) = n + (n % 2)`: round an odd chunk size up to the next
/// even number, the size the payload occupies on disk.
pub fn padded_size(size: u32) -> (r: u32)
    requires
        size < u32::MAX,
    ensures
        r == spec_padded_size(size as int),
{
    ((size + 1) / 2) * 2
}

/// Append `size` zero bytes to `v`.
pub fn pad_vec(v: &mut Vec<u8>, size: usize)
    ensures
        final(v)@ == old(v)@ + Seq::new(size as nat, |i: int| 0u8),
{
    let mut k: usize = 0;
    while k < size
        invariant
            k <= size,
            v@ == old(v)@ + Seq::new(k as nat, |i: int| 0u8),
            v@.len() == old(v)@.len() + k,
        decreases size - k,
    {
        v.push(0u8);
        k = k + 1;
        assert(v@ =~= old(v)@ + Seq::new(k as nat, |i: int| 0u8));
    }
}

/// Read exactly `n` bytes of `data` starting at `pos`; fails with
/// `TruncatedInput` if fewer than `n` bytes are available.
pub fn read_bytes(data: &Vec<u8>, pos: usize, n: usize) -> (r: Result<Vec<u8>, RiffError>)
    ensures
        pos + n <= data@.len() ==> (r matches Ok(b) && b@ == data@.subrange(
            pos as int,
            pos + n,
        )),
        pos + n > data@.len() ==> (r matches Err(e) && e == RiffError::TruncatedInput),
{
    if n > data.len() || pos > data.len() - n {
        return Err(RiffError::TruncatedInput);
    }
    let end: usize = pos + n;
    let mut out: Vec<u8> = Vec::new();
    let mut j: usize = pos;
    while j < end
        invariant
            pos <= j <= end,
            end == pos + n,
            end <= data@.len(),
            out@ == data@.subrange(pos as int, j as int),
        decreases end - j,
    {
        out.push(data[j]);
        j = j + 1;
        assert(out@ =~= data@.subrange(pos as int, j as int));
    }
    Ok(out)
}

/// Read a little-endian `u32` from `data` at `pos`; fails with
/// `TruncatedInput` if fewer than four bytes are available.
pub fn read_u32_le(data: &Vec<u8>, pos: usize) -> (r: Result<u32, RiffError>)
    ensures
        pos + 4 <= data@.len() ==> (r matches Ok(v) && v == le32_val(
            data@.subrange(pos as int, pos + 4),
        )),
        pos + 4 > data@.len() ==> (r matches Err(e) && e == RiffError::TruncatedInput),
{
    if data.len() < 4 || pos > data.len() - 4 {
        return Err(RiffError::TruncatedInput);
    }
    let b0 = data[pos] as u32;
    let b1 = data[pos + 1] as u32;
    let b2 = data[pos + 2] as u32;
    let b3 = data[pos + 3] as u32;
    Ok(b0 + 256 * b1 + 65536 * b2 + 16777216 * b3)
}

/// Append all bytes of `data` to `out`.
pub fn push_bytes(out: &mut Vec<u8>, data: &Vec<u8>)
    ensures
        final(out)@ == old(out)@ + data@,
{
    let mut k: usize = 0;
    while k < data.len()
        invariant
            k <= data@.len(),
            out@ == old(out)@ + data@.subrange(0, k as int),
        decreases data@.len() - k,
    {
        out.push(data[k]);
        k = k + 1;
        assert(out@ =~= old(out)@ + data@.subrange(0, k as int));
    }
    assert(data@.subrange(0, data@.len() as int) =~= data@);
}

/// Append the four little-endian bytes of `v` to `out`.
pub fn push_u32_le(out: &mut Vec<u8>, v: u32)
    ensures
        final(out)@ == old(out)@ + le32_bytes(v as int),
{
    out.push((v % 256) as u8);
    out.push(((v / 256) % 256) as u8);
    out.push(((v / 65536) % 256) as u8);
    out.push(((v / 16777216) % 256) as u8);
    assert(out@ =~= old(out)@ + le32_bytes(v as int));
}

/// ASCII whitespace, the characters stripped from both ends of a string.
pub open spec fn spec_is_space(c: char) -> bool {
    c == ' ' || c == '\t' || c == '\n' || c == '\r'
}

/// The first index at or after `i` holding a non-space character, or the
/// string's length.
pub open spec fn spec_trim_start(s: Seq<char>, i: int) -> int
    decreases s.len() - i,
{
    if i < 0 || i >= s.len() {
        s.len() as int
    } else if spec_is_space(s[i]) {
        spec_trim_start(s, i + 1)
    } else {
        i
    }
}

/// The index after the last non-space character at or before index `i - 1`,
/// or 0.
pub open spec fn spec_trim_end(s: Seq<char>, i: int) -> int
    decreases i,
{
    if i <= 0 || i > s.len() {
        0
    } else if spec_is_space(s[i - 1]) {
        spec_trim_end(s, i - 1)
    } else {
        i
    }
}

/// `s` without leading and trailing ASCII whitespace.
pub open spec fn spec_trim(s: Seq<char>) -> Seq<char> {
    let a = spec_trim_start(s, 0);
    let b = spec_trim_end(s, s.len() as int);
    if a < b {
        s.subrange(a, b)
    } else {
        Seq::empty()
    }
}

/// Strip leading and trailing ASCII whitespace.
pub fn trim(s: &str) -> (r: &str)
    ensures
        r@ == spec_trim(s@),
{
    let n = s.unicode_len();
    let mut a: usize = 0;
    while a < n
        invariant
            0 <= a <= n,
            n == s@.len(),
            spec_trim_start(s@, 0) == spec_trim_start(s@, a as int),
        ensures
            0 <= a <= n,
            n == s@.len(),
            spec_trim_start(s@, 0) == a,
        decreases n - a,
    {
        let c = s.get_char(a);
        if !(c == ' ' || c == '\t' || c == '\n' || c == '\r') {
            proof {
                assert(spec_trim_start(s@, a as int) == a);
            }
            break;
        }
        a = a + 1;
    }
    let mut b: usize = n;
    while b > a
        invariant
            a <= b <= n,
            n == s@.len(),
            spec_trim_start(s@, 0) == a,
            spec_trim_end(s@, n as int) == spec_trim_end(s@, b as int),
        ensures
            a <= b <= n,
            n == s@.len(),
            spec_trim_end(s@, n as int) == spec_trim_end(s@, b as int),
            b > a ==> spec_trim_end(s@, b as int) == b,
        decreases b,
    {
        let c = s.get_char(b - 1);
        if !(c == ' ' || c == '\t' || c == '\n' || c == '\r') {
            proof {
                assert(spec_trim_end(s@, b as int) == b);
            }
            break;
        }
        b = b - 1;
    }
    if a < b {
        s.substring_char(a, b)
    } else {
        proof {
            assert(b == a);
            lemma_trim_end_le(s@, b as int);
            assert(spec_trim(s@) =~= Seq::<char>::empty());
        }
        s.substring_char(0, 0)
    }
}

/// The trim-end index never exceeds its starting index.
proof fn lemma_trim_end_le(s: Seq<char>, i: int)
    requires
        0 <= i,
    ensures
        0 <= spec_trim_end(s, i) <= i,
    decreases i,
{
    if i <= 0 || i > s.len() {
    } else if spec_is_space(s[i - 1]) {
        lemma_trim_end_le(s, i - 1);
    }
}

/// True when `t` is one or more decimal digit characters.
pub open spec fn spec_all_digits(t: Seq<char>) -> bool {
    t.len() > 0 && forall|i: int| 0 <= i < t.len() ==> '0' <= #[trigger] t[i] <= '9'
}

/// The number written in decimal digits `t`.
pub open spec fn spec_dec_val(t: Seq<char>) -> int
    decreases t.len(),
{
    if t.len() == 0 {
        0
    } else {
        spec_dec_val(t.drop_last()) * 10 + (t.last() as int - 48)
    }
}

/// The value of a digit-string prefix never exceeds the whole value.
pub proof fn lemma_dec_val_prefix(t: Seq<char>, i: int)
    requires
        forall|k: int| 0 <= k < t.len() ==> '0' <= #[trigger] t[k] <= '9',
        0 <= i <= t.len(),
    ensures
        0 <= spec_dec_val(t.take(i)) <= spec_dec_val(t),
    decreases t.len() - i,
{
    if i == t.len() {
        assert(t.take(i) =~= t);
        lemma_dec_val_nonneg(t);
    } else {
        lemma_dec_val_prefix(t, i + 1);
        assert(t.take(i + 1).drop_last() =~= t.take(i));
        assert(t.take(i + 1).last() == t[i]);
        lemma_dec_val_nonneg(t.take(i));
    }
}

/// A digit string's value is non-negative.
pub proof fn lemma_dec_val_nonneg(t: Seq<char>)
    requires
        forall|k: int| 0 <= k < t.len() ==> '0' <= #[trigger] t[k] <= '9',
    ensures
        spec_dec_val(t) >= 0,
    decreases t.len(),
{
    if t.len() > 0 {
        assert(forall|k: int|
            0 <= k < t.drop_last().len() ==> '0' <= #[trigger] t.drop_last()[k] <= '9');
        lemma_dec_val_nonneg(t.drop_last());
    }
}

/// Parse the decimal number written in `s`, ignoring surrounding
/// whitespace; `s` must hold only digits once trimmed, and the value must
/// fit in 32 bits.
pub fn str_to_int(s: &str) -> (r: u32)
    requires
        spec_all_digits(spec_trim(s@)),
        spec_dec_val(spec_trim(s@)) <= u32::MAX,
    ensures
        r == spec_dec_val(spec_trim(s@)),
{
    let t = trim(s);
    let ghost tv = t@;
    let n = t.unicode_len();
    let mut acc: u32 = 0;
    let mut i: usize = 0;
    proof {
        assert(tv.take(0) =~= Seq::<char>::empty());
    }
    while i < n
        invariant
            0 <= i <= n,
            n == tv.len(),
            tv == t@,
            tv == spec_trim(s@),
            spec_all_digits(tv),
            spec_dec_val(tv) <= u32::MAX,
            acc == spec_dec_val(tv.take(i as int)),
        decreases n - i,
    {
        let c = t.get_char(i);
        proof {
            lemma_dec_val_prefix(tv, i + 1 as int);
            assert(tv.take(i + 1 as int).drop_last() =~= tv.take(i as int));
            assert(tv.take(i + 1 as int).last() == tv[i as int]);
        }
        let d = (c as u32) - 48;
        acc = acc * 10 + d;
        i = i + 1;
    }
    proof {
        assert(tv.take(n as int) =~= tv);
    }
    acc
}

} // verus!
