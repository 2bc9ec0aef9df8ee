//! Big-endian integers and padding, the building blocks of the wire format.

use vstd::prelude::*;

verus! {

/// The fixed constant that marks a STUN header.
pub const MAGIC_COOKIE: u32 = 0x2112_A442;

/// The number of bytes of a header.
pub const HEADER_LEN: usize = 20;

/// The largest number that a 16-bit length field can state.
pub const MAX_LENGTH: usize = 0xFFFF;

/// The two bytes of a 16-bit number, most significant first.
pub open spec fn spec_u16_be(v: u16) -> Seq<u8> {
    seq![(v >> 8) as u8, (v & 0xff) as u8]
}

/// The 16-bit number that two bytes make, most significant first.
pub open spec fn spec_be_u16(hi: u8, lo: u8) -> u16 {
    ((hi as u16) << 8) | (lo as u16)
}

/// The 16-bit number at a position of a byte sequence.
pub open spec fn spec_u16_at(s: Seq<u8>, pos: int) -> u16
    recommends
        0 <= pos,
        pos + 2 <= s.len(),
{
    spec_be_u16(s[pos], s[pos + 1])
}

/// The four bytes of a 32-bit number, most significant first.
pub open spec fn spec_u32_be(v: u32) -> Seq<u8> {
    seq![(v >> 24) as u8, ((v >> 16) & 0xff) as u8, ((v >> 8) & 0xff) as u8, (v & 0xff) as u8]
}

/// The 32-bit number that four bytes make, most significant first.
pub open spec fn spec_be_u32(b0: u8, b1: u8, b2: u8, b3: u8) -> u32 {
    ((b0 as u32) << 24) | ((b1 as u32) << 16) | ((b2 as u32) << 8) | (b3 as u32)
}

/// The 32-bit number at a position of a byte sequence.
pub open spec fn spec_u32_at(s: Seq<u8>, pos: int) -> u32
    recommends
        0 <= pos,
        pos + 4 <= s.len(),
{
    spec_be_u32(s[pos], s[pos + 1], s[pos + 2], s[pos + 3])
}

/// The 128-bit number that four 32-bit words make, most significant first.
pub open spec fn spec_words_u128(w0: u32, w1: u32, w2: u32, w3: u32) -> u128 {
    ((w0 as u128) << 96) | ((w1 as u128) << 64) | ((w2 as u128) << 32) | (w3 as u128)
}

/// The sixteen bytes of a 128-bit number, most significant first.
pub open spec fn spec_u128_be(v: u128) -> Seq<u8> {
    spec_u32_be((v >> 96) as u32) + spec_u32_be(((v >> 64) & 0xffff_ffff) as u32) + spec_u32_be(
        ((v >> 32) & 0xffff_ffff) as u32,
    ) + spec_u32_be((v & 0xffff_ffff) as u32)
}

/// The 128-bit number at a position of a byte sequence.
pub open spec fn spec_u128_at(s: Seq<u8>, pos: int) -> u128
    recommends
        0 <= pos,
        pos + 16 <= s.len(),
{
    spec_words_u128(
        spec_u32_at(s, pos),
        spec_u32_at(s, pos + 4),
        spec_u32_at(s, pos + 8),
        spec_u32_at(s, pos + 12),
    )
}

/// A length rounded up to the next multiple of four.
pub open spec fn spec_padded_len(n: int) -> int {
    ((n + 3) / 4) * 4
}

/// A run of zero bytes.
pub open spec fn spec_zeros(n: int) -> Seq<u8> {
    Seq::new(
        if n >= 0 {
            n as nat
        } else {
            0
        },
        |i: int| 0u8,
    )
}

/// Reading the two bytes of a number gives the number.
pub proof fn lemma_u16_roundtrip(v: u16)
    ensures
        spec_u16_be(v).len() == 2,
        spec_u16_at(spec_u16_be(v), 0) == v,
{
    assert(((((v >> 8) as u8) as u16) << 8) | (((v & 0xff) as u8) as u16) == v) by (bit_vector);
}

/// Reading the four bytes of a number gives the number.
pub proof fn lemma_u32_roundtrip(v: u32)
    ensures
        spec_u32_be(v).len() == 4,
        spec_u32_at(spec_u32_be(v), 0) == v,
{
    assert(((((v >> 24) as u8) as u32) << 24) | (((((v >> 16) & 0xff) as u8) as u32) << 16) | (((((v
        >> 8) & 0xff) as u8) as u32) << 8) | (((v & 0xff) as u8) as u32) == v) by (bit_vector);
}

/// Reading the sixteen bytes of a number gives the number.
pub proof fn lemma_u128_roundtrip(v: u128)
    ensures
        spec_u128_be(v).len() == 16,
        spec_u128_at(spec_u128_be(v), 0) == v,
{
    let w0: u32 = (v >> 96) as u32;
    let w1: u32 = ((v >> 64) & 0xffff_ffff) as u32;
    let w2: u32 = ((v >> 32) & 0xffff_ffff) as u32;
    let w3: u32 = (v & 0xffff_ffff) as u32;
    lemma_u32_roundtrip(w0);
    lemma_u32_roundtrip(w1);
    lemma_u32_roundtrip(w2);
    lemma_u32_roundtrip(w3);
    let s = spec_u128_be(v);
    assert(spec_u32_at(s, 0) == w0);
    assert(spec_u32_at(s, 4) == w1);
    assert(spec_u32_at(s, 8) == w2);
    assert(spec_u32_at(s, 12) == w3);
    assert(((w0 as u128) << 96) | ((w1 as u128) << 64) | ((w2 as u128) << 32) | (w3 as u128) == v)
        by (bit_vector)
        requires
            w0 == (v >> 96) as u32,
            w1 == ((v >> 64) & 0xffff_ffff) as u32,
            w2 == ((v >> 32) & 0xffff_ffff) as u32,
            w3 == (v & 0xffff_ffff) as u32,
    ;
}

/// A padded length is the least multiple of four that is no smaller.
pub proof fn lemma_padded_len(n: int)
    requires
        n >= 0,
    ensures
        n <= spec_padded_len(n) < n + 4,
        spec_padded_len(n) % 4 == 0,
        n % 4 == 0 ==> spec_padded_len(n) == n,
{
}

/// Appends the two bytes of a 16-bit number.
pub fn push_u16(out: &mut Vec<u8>, v: u16)
    ensures
        final(out)@ == old(out)@ + spec_u16_be(v),
{
    assert(v >> 8 <= 0xff) by (bit_vector);
    assert(v & 0xff <= 0xff) by (bit_vector);
    out.push((v >> 8) as u8);
    out.push((v & 0xff) as u8);
    assert(out@ =~= old(out)@ + spec_u16_be(v));
}

/// Appends the four bytes of a 32-bit number.
pub fn push_u32(out: &mut Vec<u8>, v: u32)
    ensures
        final(out)@ == old(out)@ + spec_u32_be(v),
{
    assert(v >> 24 <= 0xff) by (bit_vector);
    assert((v >> 16) & 0xff <= 0xff) by (bit_vector);
    assert((v >> 8) & 0xff <= 0xff) by (bit_vector);
    assert(v & 0xff <= 0xff) by (bit_vector);
    out.push((v >> 24) as u8);
    out.push(((v >> 16) & 0xff) as u8);
    out.push(((v >> 8) & 0xff) as u8);
    out.push((v & 0xff) as u8);
    assert(out@ =~= old(out)@ + spec_u32_be(v));
}

/// Appends the sixteen bytes of a 128-bit number.
pub fn push_u128(out: &mut Vec<u8>, v: u128)
    ensures
        final(out)@ == old(out)@ + spec_u128_be(v),
{
    assert(v >> 96 <= 0xffff_ffff) by (bit_vector);
    assert((v >> 64) & 0xffff_ffff <= 0xffff_ffff) by (bit_vector);
    assert((v >> 32) & 0xffff_ffff <= 0xffff_ffff) by (bit_vector);
    assert(v & 0xffff_ffff <= 0xffff_ffff) by (bit_vector);
    push_u32(out, (v >> 96) as u32);
    push_u32(out, ((v >> 64) & 0xffff_ffff) as u32);
    push_u32(out, ((v >> 32) & 0xffff_ffff) as u32);
    push_u32(out, (v & 0xffff_ffff) as u32);
    assert(out@ =~= old(out)@ + spec_u128_be(v));
}

/// Appends a copy of a byte slice.
pub fn push_bytes(out: &mut Vec<u8>, data: &[u8])
    ensures
        final(out)@ == old(out)@ + data@,
{
    let mut i: usize = 0;
    while i < data.len()
        invariant
            i <= data@.len(),
            out@ == old(out)@ + data@.subrange(0, i as int),
        decreases data@.len() - i,
    {
        out.push(data[i]);
        i += 1;
        assert(out@ =~= old(out)@ + data@.subrange(0, i as int));
    }
    assert(data@.subrange(0, i as int) =~= data@);
}

/// Appends the zero bytes that pad `written` bytes to a multiple of four.
pub fn push_padding(out: &mut Vec<u8>, written: usize)
    ensures
        final(out)@ == old(out)@ + spec_zeros(spec_padded_len(written as int) - written),
{
    let rest: usize = written % 4;
    let pad: usize = if rest == 0 {
        0
    } else {
        4 - rest
    };
    assert(spec_padded_len(written as int) - written == pad);
    let mut k: usize = 0;
    assert(out@ =~= old(out)@ + spec_zeros(0));
    while k < pad
        invariant
            k <= pad,
            out@ == old(out)@ + spec_zeros(k as int),
        decreases pad - k,
    {
        out.push(0u8);
        k += 1;
        assert(out@ =~= old(out)@ + spec_zeros(k as int));
    }
}

/// Reads the 16-bit number at a position.
pub fn read_u16(data: &[u8], pos: usize) -> (v: u16)
    requires
        pos + 2 <= data@.len(),
    ensures
        v == spec_u16_at(data@, pos as int),
{
    ((data[pos] as u16) << 8) | (data[pos + 1] as u16)
}

/// Reads the 32-bit number at a position.
pub fn read_u32(data: &[u8], pos: usize) -> (v: u32)
    requires
        pos + 4 <= data@.len(),
    ensures
        v == spec_u32_at(data@, pos as int),
{
    ((data[pos] as u32) << 24) | ((data[pos + 1] as u32) << 16) | ((data[pos + 2] as u32) << 8) | (
    data[pos + 3] as u32)
}

/// Reads the 128-bit number at a position.
pub fn read_u128(data: &[u8], pos: usize) -> (v: u128)
    requires
        pos + 16 <= data@.len(),
    ensures
        v == spec_u128_at(data@, pos as int),
{
    let len: usize = data.len();
    let w0: u32 = read_u32(data, pos);
    let w1: u32 = read_u32(data, pos + 4);
    let w2: u32 = read_u32(data, pos + 8);
    let w3: u32 = read_u32(data, pos + 12);
    ((w0 as u128) << 96) | ((w1 as u128) << 64) | ((w2 as u128) << 32) | (w3 as u128)
}

/// A length rounded up to the next multiple of four.
pub fn padded_len(n: usize) -> (p: usize)
    requires
        n + 3 <= usize::MAX,
    ensures
        p == spec_padded_len(n as int),
{
    ((n + 3) / 4) * 4
}

/// Whether two byte vectors hold the same bytes.
pub fn bytes_eq(a: &Vec<u8>, b: &Vec<u8>) -> (equal: bool)
    ensures
        equal == (a@ == b@),
{
    if a.len() != b.len() {
        return false;
    }
    let mut i: usize = 0;
    while i < a.len()
        invariant
            i <= a@.len(),
            a@.len() == b@.len(),
            forall|j: int| 0 <= j < i ==> a@[j] == b@[j],
        decreases a@.len() - i,
    {
        if a[i] != b[i] {
            return false;
        }
        i += 1;
    }
    assert(a@ =~= b@);
    true
}

} // verus!
