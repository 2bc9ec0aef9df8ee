//! Transport addresses, and their layout inside the address attributes.

use crate::error::DecodeError;
use crate::transaction_id::TransactionId;
use crate::wire::{
    lemma_u128_roundtrip, lemma_u16_roundtrip, lemma_u32_roundtrip, push_u128, push_u16, push_u32,
    read_u128, read_u16, read_u32, spec_u128_at, spec_u128_be, spec_u16_at, spec_u16_be,
    spec_u32_at, spec_u32_be, spec_words_u128, MAGIC_COOKIE,
};
use vstd::prelude::*;

verus! {

/// The family byte of an IPv4 address.
pub const FAMILY_IPV4: u8 = 0x01;

/// The family byte of an IPv6 address.
pub const FAMILY_IPV6: u8 = 0x02;

/// The high 16 bits of the magic cookie, which mask a port.
pub const PORT_MASK: u16 = 0x2112;

/// An IP address as a number, most significant byte first on the wire:
/// 192.0.2.1 is `V4(0xC0000201)`.
#[derive(Debug, Clone, Copy, PartialEq, Eq, Structural)]
pub enum IpAddress {
    V4(u32),
    V6(u128),
}

/// An IP address and a port.
#[derive(Debug, Clone, Copy, PartialEq, Eq, Structural)]
pub struct SocketAddress {
    pub ip: IpAddress,
    pub port: u16,
}

/// The 128 bits that mask an IPv6 address: the magic cookie followed by the
/// transaction id.
pub open spec fn spec_xor_mask(tid: Seq<u8>) -> u128
    recommends
        tid.len() == 12,
{
    spec_words_u128(MAGIC_COOKIE, spec_u32_at(tid, 0), spec_u32_at(tid, 4), spec_u32_at(tid, 8))
}

/// An address under the XOR mask of a message: the port XORed with the high
/// half of the magic cookie, an IPv4 address with the magic cookie, an IPv6
/// address with the magic cookie followed by the transaction id. Masking
/// twice gives the address back.
pub open spec fn spec_mask_address(addr: SocketAddress, tid: Seq<u8>) -> SocketAddress {
    SocketAddress {
        ip: match addr.ip {
            IpAddress::V4(a) => IpAddress::V4(a ^ MAGIC_COOKIE),
            IpAddress::V6(a) => IpAddress::V6(a ^ spec_xor_mask(tid)),
        },
        port: addr.port ^ PORT_MASK,
    }
}

/// The value of an address attribute: a zero byte, the family, the port and
/// the address.
pub open spec fn spec_address_value(addr: SocketAddress) -> Seq<u8> {
    match addr.ip {
        IpAddress::V4(a) => seq![0u8, FAMILY_IPV4] + spec_u16_be(addr.port) + spec_u32_be(a),
        IpAddress::V6(a) => seq![0u8, FAMILY_IPV6] + spec_u16_be(addr.port) + spec_u128_be(a),
    }
}

/// The address that the value of an address attribute of type `typ` holds.
/// The first byte is ignored. The length must be the one of the family.
pub open spec fn spec_decode_address(typ: u16, value: Seq<u8>) -> Result<
    SocketAddress,
    DecodeError,
> {
    if value.len() < 4 {
        Err(DecodeError::InvalidAttributeLength(typ))
    } else if value[1] == FAMILY_IPV4 {
        if value.len() != 8 {
            Err(DecodeError::InvalidAttributeLength(typ))
        } else {
            Ok(SocketAddress { ip: IpAddress::V4(spec_u32_at(value, 4)), port: spec_u16_at(value, 2) })
        }
    } else if value[1] == FAMILY_IPV6 {
        if value.len() != 20 {
            Err(DecodeError::InvalidAttributeLength(typ))
        } else {
            Ok(
                SocketAddress {
                    ip: IpAddress::V6(spec_u128_at(value, 4)),
                    port: spec_u16_at(value, 2),
                },
            )
        }
    } else {
        Err(DecodeError::InvalidAddressFamily(value[1]))
    }
}

/// Masking an address twice gives the address back.
pub proof fn lemma_mask_twice(addr: SocketAddress, tid: Seq<u8>)
    ensures
        spec_mask_address(spec_mask_address(addr, tid), tid) == addr,
{
    let p: u16 = addr.port;
    assert((p ^ 0x2112u16) ^ 0x2112u16 == p) by (bit_vector);
    match addr.ip {
        IpAddress::V4(a) => {
            assert((a ^ 0x2112_A442u32) ^ 0x2112_A442u32 == a) by (bit_vector);
        },
        IpAddress::V6(a) => {
            let m: u128 = spec_xor_mask(tid);
            assert((a ^ m) ^ m == a) by (bit_vector);
        },
    }
}

/// Reading the value of an address attribute gives the address.
pub proof fn lemma_address_roundtrip(typ: u16, addr: SocketAddress)
    ensures
        spec_decode_address(typ, spec_address_value(addr)) == Ok::<SocketAddress, DecodeError>(
            addr,
        ),
        spec_address_value(addr).len() == 8 || spec_address_value(addr).len() == 20,
{
    let value = spec_address_value(addr);
    lemma_u16_roundtrip(addr.port);
    assert(spec_u16_at(value, 2) == spec_u16_at(spec_u16_be(addr.port), 0));
    match addr.ip {
        IpAddress::V4(a) => {
            lemma_u32_roundtrip(a);
            assert(value.len() == 8);
            assert(spec_u32_at(value, 4) == spec_u32_at(spec_u32_be(a), 0));
        },
        IpAddress::V6(a) => {
            lemma_u128_roundtrip(a);
            let b = spec_u128_be(a);
            assert(value.len() == 20);
            assert(forall|i: int| 0 <= i < 16 ==> value[4 + i] == b[i]);
            assert(spec_u32_at(value, 4) == spec_u32_at(b, 0));
            assert(spec_u32_at(value, 8) == spec_u32_at(b, 4));
            assert(spec_u32_at(value, 12) == spec_u32_at(b, 8));
            assert(spec_u32_at(value, 16) == spec_u32_at(b, 12));
            assert(spec_u128_at(value, 4) == spec_u128_at(b, 0));
        },
    }
}

/// Computes the 128 bits that mask an IPv6 address.
pub fn xor_mask(tid: &TransactionId) -> (mask: u128)
    ensures
        mask == spec_xor_mask(tid@),
{
    let bytes: &[u8] = tid.as_bytes();
    let w1: u32 = read_u32(bytes, 0);
    let w2: u32 = read_u32(bytes, 4);
    let w3: u32 = read_u32(bytes, 8);
    ((MAGIC_COOKIE as u128) << 96) | ((w1 as u128) << 64) | ((w2 as u128) << 32) | (w3 as u128)
}

impl SocketAddress {
    /// Puts the address under the XOR mask of a message, or takes it out.
    pub fn mask(self, tid: &TransactionId) -> (masked: SocketAddress)
        ensures
            masked == spec_mask_address(self, tid@),
    {
        let ip: IpAddress = match self.ip {
            IpAddress::V4(a) => IpAddress::V4(a ^ MAGIC_COOKIE),
            IpAddress::V6(a) => IpAddress::V6(a ^ xor_mask(tid)),
        };
        SocketAddress { ip, port: self.port ^ PORT_MASK }
    }

    /// Appends the value of an address attribute.
    pub fn encode_value(self, out: &mut Vec<u8>)
        ensures
            final(out)@ == old(out)@ + spec_address_value(self),
    {
        out.push(0u8);
        match self.ip {
            IpAddress::V4(a) => {
                out.push(FAMILY_IPV4);
                push_u16(out, self.port);
                push_u32(out, a);
            },
            IpAddress::V6(a) => {
                out.push(FAMILY_IPV6);
                push_u16(out, self.port);
                push_u128(out, a);
            },
        }
        assert(out@ =~= old(out)@ + spec_address_value(self));
    }

    /// Reads the value of an address attribute of type `typ`.
    pub fn decode_value(typ: u16, value: &[u8]) -> (decoded: Result<SocketAddress, DecodeError>)
        ensures
            decoded == spec_decode_address(typ, value@),
    {
        if value.len() < 4 {
            return Err(DecodeError::InvalidAttributeLength(typ));
        }
        let family: u8 = value[1];
        let port: u16 = read_u16(value, 2);
        if family == FAMILY_IPV4 {
            if value.len() != 8 {
                return Err(DecodeError::InvalidAttributeLength(typ));
            }
            Ok(SocketAddress { ip: IpAddress::V4(read_u32(value, 4)), port })
        } else if family == FAMILY_IPV6 {
            if value.len() != 20 {
                return Err(DecodeError::InvalidAttributeLength(typ));
            }
            Ok(SocketAddress { ip: IpAddress::V6(read_u128(value, 4)), port })
        } else {
            Err(DecodeError::InvalidAddressFamily(family))
        }
    }
}

} // verus!
