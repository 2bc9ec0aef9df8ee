//! CRC-32, the checksum under the FINGERPRINT attribute.

use vstd::prelude::*;

verus! {

/// The reversed generator polynomial of CRC-32.
pub const CRC32_POLYNOMIAL: u32 = 0xEDB8_8320;

/// The constant that a FINGERPRINT value is XORed with.
pub const FINGERPRINT_XOR: u32 = 0x5354_554e;

/// One shift of the checksum register.
pub open spec fn spec_crc32_shift(reg: u32) -> u32 {
    if reg & 1 == 1 {
        (reg >> 1) ^ CRC32_POLYNOMIAL
    } else {
        reg >> 1
    }
}

/// `n` shifts of the checksum register.
pub open spec fn spec_crc32_shifts(reg: u32, n: nat) -> u32
    decreases n,
{
    if n == 0 {
        reg
    } else {
        spec_crc32_shift(spec_crc32_shifts(reg, (n - 1) as nat))
    }
}

/// The checksum register after one more byte.
pub open spec fn spec_crc32_byte(reg: u32, byte: u8) -> u32 {
    spec_crc32_shifts(reg ^ (byte as u32), 8)
}

/// The checksum register after a sequence of bytes, from the register's
/// initial value of all ones.
pub open spec fn spec_crc32_register(data: Seq<u8>) -> u32
    decreases data.len(),
{
    if data.len() == 0 {
        0xFFFF_FFFF
    } else {
        spec_crc32_byte(spec_crc32_register(data.drop_last()), data.last())
    }
}

/// The CRC-32 of a sequence of bytes: the final register, inverted.
pub open spec fn spec_crc32(data: Seq<u8>) -> u32 {
    spec_crc32_register(data) ^ 0xFFFF_FFFF
}

/// The FINGERPRINT value for the bytes that come before the attribute.
pub open spec fn spec_fingerprint(data: Seq<u8>) -> u32 {
    spec_crc32(data) ^ FINGERPRINT_XOR
}

/// Computes the CRC-32 of a byte slice.
pub fn crc32(data: &[u8]) -> (crc: u32)
    ensures
        crc == spec_crc32(data@),
{
    let mut reg: u32 = 0xFFFF_FFFF;
    let mut i: usize = 0;
    assert(data@.subrange(0, 0).len() == 0);
    while i < data.len()
        invariant
            i <= data@.len(),
            reg == spec_crc32_register(data@.subrange(0, i as int)),
        decreases data@.len() - i,
    {
        let mut cur: u32 = reg ^ (data[i] as u32);
        let ghost start: u32 = cur;
        let mut k: u8 = 0;
        while k < 8
            invariant
                k <= 8,
                cur == spec_crc32_shifts(start, k as nat),
            decreases 8 - k,
        {
            cur = if cur & 1 == 1 {
                (cur >> 1) ^ CRC32_POLYNOMIAL
            } else {
                cur >> 1
            };
            k += 1;
        }
        proof {
            let next = data@.subrange(0, i + 1);
            assert(next.drop_last() =~= data@.subrange(0, i as int));
            assert(next.last() == data@[i as int]);
        }
        reg = cur;
        i += 1;
    }
    assert(data@.subrange(0, i as int) =~= data@);
    reg ^ 0xFFFF_FFFF
}

/// Computes the FINGERPRINT value for the bytes that come before the
/// attribute.
pub fn fingerprint(data: &[u8]) -> (value: u32)
    ensures
        value == spec_fingerprint(data@),
{
    crc32(data) ^ FINGERPRINT_XOR
}

} // verus!
