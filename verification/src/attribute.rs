//! Attributes: typed values, each framed on the wire as a type, a length, a
//! value and zero padding to the next 4-byte boundary.

use crate::address::{
    lemma_address_roundtrip, lemma_mask_twice, spec_address_value, spec_decode_address,
    spec_mask_address, SocketAddress,
};
use crate::algorithm::{
    algorithms_eq, algorithms_len, decode_algorithms, encode_algorithms, lemma_algorithm_len,
    lemma_algorithms_roundtrip, lemma_decoded_algorithms_wf, spec_algorithm_views,
    spec_algorithms_wf, spec_decode_algorithms, spec_encode_algorithms, PasswordAlgorithm,
    PasswordAlgorithmView,
};
use crate::error::DecodeError;
use crate::transaction_id::TransactionId;
use crate::wire::{
    bytes_eq, lemma_padded_len, lemma_u16_roundtrip, lemma_u32_roundtrip, padded_len, push_bytes,
    push_padding, push_u16, push_u32, read_u16, read_u32, spec_padded_len, spec_u16_at, spec_u16_be,
    spec_u32_at, spec_u32_be, spec_zeros, MAX_LENGTH,
};
use vstd::prelude::*;
use vstd::slice::{slice_subrange, slice_to_vec};
use vstd::std_specs::cmp::PartialEqSpecImpl;
use vstd::utf8::{
    decode_utf8, decode_utf8_encode_utf8, encode_utf8, encode_utf8_decode_utf8,
    encode_utf8_valid_utf8, valid_utf8,
};

verus! {

/// The type of a MAPPED-ADDRESS attribute.
pub const MAPPED_ADDRESS: u16 = 0x0001;

/// The type of a MESSAGE-INTEGRITY attribute.
pub const MESSAGE_INTEGRITY: u16 = 0x0008;

/// The type of an ERROR-CODE attribute.
pub const ERROR_CODE: u16 = 0x0009;

/// The type of an UNKNOWN-ATTRIBUTES attribute.
pub const UNKNOWN_ATTRIBUTES: u16 = 0x000A;

/// The type of a PASSWORD-ALGORITHM attribute.
pub const PASSWORD_ALGORITHM: u16 = 0x001D;

/// The type of an XOR-MAPPED-ADDRESS attribute.
pub const XOR_MAPPED_ADDRESS: u16 = 0x0020;

/// The type of a PASSWORD-ALGORITHMS attribute.
pub const PASSWORD_ALGORITHMS: u16 = 0x8002;

/// The type of a FINGERPRINT attribute.
pub const FINGERPRINT: u16 = 0x8028;

/// The first type that a receiver may ignore when it does not know it.
pub const COMPREHENSION_OPTIONAL: u16 = 0x8000;

/// The number of bytes of a MESSAGE-INTEGRITY value.
pub const MESSAGE_INTEGRITY_LEN: usize = 20;

/// The error code Try Alternate.
pub const TRY_ALTERNATE: u16 = 300;

/// The error code Bad Request.
pub const BAD_REQUEST: u16 = 400;

/// The error code Unauthenticated.
pub const UNAUTHENTICATED: u16 = 401;

/// The error code Unknown Attribute.
pub const UNKNOWN_ATTRIBUTE: u16 = 420;

/// The error code Stale Nonce.
pub const STALE_NONCE: u16 = 438;

/// The error code Server Error.
pub const SERVER_ERROR: u16 = 500;

/// An attribute of a message.
#[derive(Debug, Clone)]
pub enum Attribute {
    /// The reflexive transport address, in the clear.
    MappedAddress(SocketAddress),
    /// The reflexive transport address. On the wire it lies under the XOR
    /// mask of the message; here it is the address itself.
    XorMappedAddress(SocketAddress),
    /// An error: its class (the hundreds digit of the code), its number (the
    /// code modulo 100) and a reason phrase.
    ErrorCode { class: u8, number: u8, reason: String },
    /// The types of the attributes that a receiver did not understand.
    UnknownAttributes(Vec<u16>),
    /// The password algorithm that the sender chose.
    PasswordAlgorithm(PasswordAlgorithm),
    /// The password algorithms that the sender offers.
    PasswordAlgorithms(Vec<PasswordAlgorithm>),
    /// A 20-byte message authentication code, carried as it is.
    MessageIntegrity(Vec<u8>),
    /// The checksum of the message up to this attribute.
    Fingerprint(u32),
    /// An attribute of a type that the codec does not know and that a
    /// receiver may ignore: its type and its raw value.
    Opaque { attribute_type: u16, value: Vec<u8> },
}

/// The mathematical value of an [`Attribute`].
pub enum AttributeView {
    MappedAddress(SocketAddress),
    XorMappedAddress(SocketAddress),
    ErrorCode { class: u8, number: u8, reason: Seq<char> },
    UnknownAttributes(Seq<u16>),
    PasswordAlgorithm(PasswordAlgorithmView),
    PasswordAlgorithms(Seq<PasswordAlgorithmView>),
    MessageIntegrity(Seq<u8>),
    Fingerprint(u32),
    Opaque { attribute_type: u16, value: Seq<u8> },
}

impl View for Attribute {
    type V = AttributeView;

    open spec fn view(&self) -> AttributeView {
        match *self {
            Attribute::MappedAddress(a) => AttributeView::MappedAddress(a),
            Attribute::XorMappedAddress(a) => AttributeView::XorMappedAddress(a),
            Attribute::ErrorCode { class, number, reason } => AttributeView::ErrorCode {
                class,
                number,
                reason: reason@,
            },
            Attribute::UnknownAttributes(types) => AttributeView::UnknownAttributes(types@),
            Attribute::PasswordAlgorithm(a) => AttributeView::PasswordAlgorithm(a@),
            Attribute::PasswordAlgorithms(list) => AttributeView::PasswordAlgorithms(
                spec_algorithm_views(list@),
            ),
            Attribute::MessageIntegrity(mac) => AttributeView::MessageIntegrity(mac@),
            Attribute::Fingerprint(v) => AttributeView::Fingerprint(v),
            Attribute::Opaque { attribute_type, value } => AttributeView::Opaque {
                attribute_type,
                value: value@,
            },
        }
    }
}

/// Whether the codec knows an attribute type.
pub open spec fn spec_is_known_type(typ: u16) -> bool {
    typ == MAPPED_ADDRESS || typ == MESSAGE_INTEGRITY || typ == ERROR_CODE || typ
        == UNKNOWN_ATTRIBUTES || typ == PASSWORD_ALGORITHM || typ == XOR_MAPPED_ADDRESS || typ
        == PASSWORD_ALGORITHMS || typ == FINGERPRINT
}

/// The bytes of a list of 16-bit numbers, each most significant byte first.
pub open spec fn spec_u16_list_bytes(list: Seq<u16>) -> Seq<u8> {
    Seq::new(2 * list.len(), |i: int| spec_u16_be(list[i / 2])[i % 2])
}

/// The first `n` 16-bit numbers of a byte sequence.
pub open spec fn spec_u16_list_prefix(value: Seq<u8>, n: int) -> Seq<u16> {
    Seq::new(
        if n >= 0 {
            n as nat
        } else {
            0
        },
        |i: int| spec_u16_at(value, 2 * i),
    )
}

/// The 16-bit numbers that a byte sequence of even length holds.
pub open spec fn spec_u16_list(value: Seq<u8>) -> Seq<u16> {
    spec_u16_list_prefix(value, (value.len() / 2) as int)
}

impl AttributeView {
    /// The type under which the attribute goes on the wire.
    pub open spec fn attribute_type(self) -> u16 {
        match self {
            AttributeView::MappedAddress(_) => MAPPED_ADDRESS,
            AttributeView::XorMappedAddress(_) => XOR_MAPPED_ADDRESS,
            AttributeView::ErrorCode { .. } => ERROR_CODE,
            AttributeView::UnknownAttributes(_) => UNKNOWN_ATTRIBUTES,
            AttributeView::PasswordAlgorithm(_) => PASSWORD_ALGORITHM,
            AttributeView::PasswordAlgorithms(_) => PASSWORD_ALGORITHMS,
            AttributeView::MessageIntegrity(_) => MESSAGE_INTEGRITY,
            AttributeView::Fingerprint(_) => FINGERPRINT,
            AttributeView::Opaque { attribute_type, .. } => attribute_type,
        }
    }

    /// The error code of an ERROR-CODE attribute: a hundred times the class,
    /// plus the number.
    pub open spec fn spec_error_code(self) -> Option<u16> {
        match self {
            AttributeView::ErrorCode { class, number, reason } => Some(
                (class * 100 + number) as u16,
            ),
            _ => None,
        }
    }

    /// Whether the attribute can go on the wire: its value fits the 16-bit
    /// length field, an error class fits its three bits, a message
    /// authentication code has 20 bytes, and an opaque attribute has a type
    /// that a receiver may ignore and that the codec does not know.
    pub open spec fn wf(self) -> bool {
        match self {
            AttributeView::MappedAddress(_) => true,
            AttributeView::XorMappedAddress(_) => true,
            AttributeView::ErrorCode { class, number, reason } => class <= 7 && 4 + encode_utf8(
                reason,
            ).len() <= MAX_LENGTH,
            AttributeView::UnknownAttributes(types) => 2 * types.len() <= MAX_LENGTH,
            AttributeView::PasswordAlgorithm(a) => a.wf() && a.spec_encode().len() <= MAX_LENGTH,
            AttributeView::PasswordAlgorithms(list) => spec_algorithms_wf(list)
                && spec_encode_algorithms(list).len() <= MAX_LENGTH,
            AttributeView::MessageIntegrity(mac) => mac.len() == MESSAGE_INTEGRITY_LEN,
            AttributeView::Fingerprint(_) => true,
            AttributeView::Opaque { attribute_type, value } => attribute_type
                >= COMPREHENSION_OPTIONAL && !spec_is_known_type(attribute_type) && value.len()
                <= MAX_LENGTH,
        }
    }

    /// The value of the attribute on the wire, without padding, in a message
    /// with the transaction id `tid`.
    pub open spec fn spec_value(self, tid: Seq<u8>) -> Seq<u8> {
        match self {
            AttributeView::MappedAddress(a) => spec_address_value(a),
            AttributeView::XorMappedAddress(a) => spec_address_value(spec_mask_address(a, tid)),
            AttributeView::ErrorCode { class, number, reason } => seq![0u8, 0u8, class, number]
                + encode_utf8(reason),
            AttributeView::UnknownAttributes(types) => spec_u16_list_bytes(types),
            AttributeView::PasswordAlgorithm(a) => a.spec_encode(),
            AttributeView::PasswordAlgorithms(list) => spec_encode_algorithms(list),
            AttributeView::MessageIntegrity(mac) => mac,
            AttributeView::Fingerprint(v) => spec_u32_be(v),
            AttributeView::Opaque { attribute_type, value } => value,
        }
    }

    /// The attribute on the wire: type, length of the value, value, and zero
    /// bytes up to the next 4-byte boundary.
    pub open spec fn spec_encode(self, tid: Seq<u8>) -> Seq<u8> {
        let value = self.spec_value(tid);
        spec_u16_be(self.attribute_type()) + spec_u16_be(value.len() as u16) + value + spec_zeros(
            spec_padded_len(value.len() as int) - value.len(),
        )
    }
}

/// The attribute that a type and a value stand for, in a message with the
/// transaction id `tid`; or why they stand for none.
pub open spec fn spec_decode_value(typ: u16, value: Seq<u8>, tid: Seq<u8>) -> Result<
    AttributeView,
    DecodeError,
> {
    if typ == MAPPED_ADDRESS {
        match spec_decode_address(typ, value) {
            Ok(a) => Ok(AttributeView::MappedAddress(a)),
            Err(e) => Err(e),
        }
    } else if typ == XOR_MAPPED_ADDRESS {
        match spec_decode_address(typ, value) {
            Ok(a) => Ok(AttributeView::XorMappedAddress(spec_mask_address(a, tid))),
            Err(e) => Err(e),
        }
    } else if typ == ERROR_CODE {
        if value.len() < 4 {
            Err(DecodeError::InvalidAttributeLength(typ))
        } else if !valid_utf8(value.subrange(4, value.len() as int)) {
            Err(DecodeError::InvalidReasonPhrase)
        } else {
            Ok(
                AttributeView::ErrorCode {
                    class: value[2] & 0x07,
                    number: value[3],
                    reason: decode_utf8(value.subrange(4, value.len() as int)),
                },
            )
        }
    } else if typ == UNKNOWN_ATTRIBUTES {
        if value.len() % 2 != 0 {
            Err(DecodeError::InvalidAttributeLength(typ))
        } else {
            Ok(AttributeView::UnknownAttributes(spec_u16_list(value)))
        }
    } else if typ == PASSWORD_ALGORITHM {
        match spec_decode_algorithms(typ, value, 0) {
            Ok(list) => if list.len() == 1 {
                Ok(AttributeView::PasswordAlgorithm(list[0]))
            } else {
                Err(DecodeError::InvalidAttributeLength(typ))
            },
            Err(e) => Err(e),
        }
    } else if typ == PASSWORD_ALGORITHMS {
        match spec_decode_algorithms(typ, value, 0) {
            Ok(list) => Ok(AttributeView::PasswordAlgorithms(list)),
            Err(e) => Err(e),
        }
    } else if typ == MESSAGE_INTEGRITY {
        if value.len() != MESSAGE_INTEGRITY_LEN {
            Err(DecodeError::InvalidAttributeLength(typ))
        } else {
            Ok(AttributeView::MessageIntegrity(value))
        }
    } else if typ == FINGERPRINT {
        if value.len() != 4 {
            Err(DecodeError::InvalidAttributeLength(typ))
        } else {
            Ok(AttributeView::Fingerprint(spec_u32_at(value, 0)))
        }
    } else if typ < COMPREHENSION_OPTIONAL {
        Err(DecodeError::UnknownRequiredAttribute(typ))
    } else {
        Ok(AttributeView::Opaque { attribute_type: typ, value })
    }
}

/// Checks a byte slice for UTF-8 by `core::str::from_utf8`. The contract
/// claims what the documentation of that function says: the call succeeds
/// exactly on valid UTF-8, and the string slice that comes back has the given
/// bytes as its encoding.
#[verifier::external_body]
fn str_from_utf8(bytes: &[u8]) -> (text: Option<&str>)
    ensures
        text is Some <==> valid_utf8(bytes@),
        text matches Some(s) ==> encode_utf8(s@) == bytes@,
{
    core::str::from_utf8(bytes).ok()
}

/// Appends the bytes of a list of 16-bit numbers.
pub fn push_u16_list(out: &mut Vec<u8>, list: &Vec<u16>)
    ensures
        final(out)@ == old(out)@ + spec_u16_list_bytes(list@),
{
    let mut i: usize = 0;
    assert(out@ =~= old(out)@ + spec_u16_list_bytes(list@.take(0)));
    while i < list.len()
        invariant
            i <= list@.len(),
            out@ == old(out)@ + spec_u16_list_bytes(list@.take(i as int)),
        decreases list@.len() - i,
    {
        push_u16(out, list[i]);
        i += 1;
        assert(out@ =~= old(out)@ + spec_u16_list_bytes(list@.take(i as int)));
    }
    assert(list@.take(i as int) =~= list@);
}

/// Reads the 16-bit numbers that a byte slice of even length holds.
pub fn read_u16_list(value: &[u8]) -> (list: Vec<u16>)
    requires
        value@.len() % 2 == 0,
    ensures
        list@ == spec_u16_list(value@),
{
    let len: usize = value.len();
    let n: usize = len / 2;
    let mut list: Vec<u16> = Vec::new();
    let mut i: usize = 0;
    assert(list@ =~= spec_u16_list_prefix(value@, 0));
    while i < n
        invariant
            i <= n,
            len == value@.len(),
            n == len / 2,
            list@ == spec_u16_list_prefix(value@, i as int),
        decreases n - i,
    {
        list.push(read_u16(value, 2 * i));
        i += 1;
        assert(list@ =~= spec_u16_list_prefix(value@, i as int));
    }
    list
}

/// Reading the bytes of a list of 16-bit numbers gives the list.
pub proof fn lemma_u16_list_roundtrip(list: Seq<u16>)
    ensures
        spec_u16_list_bytes(list).len() == 2 * list.len(),
        spec_u16_list(spec_u16_list_bytes(list)) == list,
{
    let bytes = spec_u16_list_bytes(list);
    let back = spec_u16_list(bytes);
    assert(back.len() == list.len());
    assert forall|i: int| 0 <= i < list.len() implies back[i] == list[i] by {
        lemma_u16_roundtrip(list[i]);
        assert(bytes[2 * i] == spec_u16_be(list[i])[0]);
        assert(bytes[2 * i + 1] == spec_u16_be(list[i])[1]);
    }
    assert(back =~= list);
}

/// Decoding the value of an attribute that can go on the wire, under its own
/// type and the same transaction id, gives the attribute back; and the value
/// fits the 16-bit length field.
pub proof fn lemma_value_roundtrip(a: AttributeView, tid: Seq<u8>)
    requires
        a.wf(),
    ensures
        spec_decode_value(a.attribute_type(), a.spec_value(tid), tid) == Ok::<
            AttributeView,
            DecodeError,
        >(a),
        a.spec_value(tid).len() <= MAX_LENGTH,
{
    let typ = a.attribute_type();
    let value = a.spec_value(tid);
    match a {
        AttributeView::MappedAddress(addr) => {
            lemma_address_roundtrip(typ, addr);
        },
        AttributeView::XorMappedAddress(addr) => {
            lemma_address_roundtrip(typ, spec_mask_address(addr, tid));
            lemma_mask_twice(addr, tid);
        },
        AttributeView::ErrorCode { class, number, reason } => {
            encode_utf8_valid_utf8(reason);
            encode_utf8_decode_utf8(reason);
            assert(value.subrange(4, value.len() as int) =~= encode_utf8(reason));
            assert(value[2] == class && value[3] == number);
            assert(class & 0x07 == class) by (bit_vector)
                requires
                    class <= 7,
            ;
        },
        AttributeView::UnknownAttributes(types) => {
            lemma_u16_list_roundtrip(types);
        },
        AttributeView::PasswordAlgorithm(alg) => {
            let list = seq![alg];
            assert(list.drop_first() =~= Seq::empty());
            assert(spec_encode_algorithms(list.drop_first()) =~= Seq::empty());
            assert(spec_encode_algorithms(list) =~= alg.spec_encode());
            assert(value.subrange(0, value.len() as int) =~= value);
            lemma_algorithms_roundtrip(typ, value, 0, list);
        },
        AttributeView::PasswordAlgorithms(list) => {
            assert(value.subrange(0, value.len() as int) =~= value);
            lemma_algorithms_roundtrip(typ, value, 0, list);
        },
        AttributeView::MessageIntegrity(mac) => {},
        AttributeView::Fingerprint(v) => {
            lemma_u32_roundtrip(v);
        },
        AttributeView::Opaque { attribute_type, value } => {},
    }
}

/// A decoded attribute can be encoded again: it can go on the wire under the
/// type it was decoded from, and its value takes as many bytes as the value
/// it was decoded from.
pub proof fn lemma_decoded_value_wf(typ: u16, value: Seq<u8>, tid: Seq<u8>)
    requires
        value.len() <= MAX_LENGTH,
        spec_decode_value(typ, value, tid) is Ok,
    ensures
        (spec_decode_value(typ, value, tid)->Ok_0).wf(),
        (spec_decode_value(typ, value, tid)->Ok_0).attribute_type() == typ,
        (spec_decode_value(typ, value, tid)->Ok_0).spec_value(tid).len() == value.len(),
        (spec_decode_value(typ, value, tid)->Ok_0) is Fingerprint <==> typ == FINGERPRINT,
{
    let a = spec_decode_value(typ, value, tid)->Ok_0;
    if typ == MAPPED_ADDRESS || typ == XOR_MAPPED_ADDRESS {
    } else if typ == ERROR_CODE {
        let phrase = value.subrange(4, value.len() as int);
        decode_utf8_encode_utf8(phrase);
        let b: u8 = value[2];
        assert(b & 0x07 <= 7) by (bit_vector);
    } else if typ == UNKNOWN_ATTRIBUTES {
    } else if typ == PASSWORD_ALGORITHM {
        lemma_decoded_algorithms_wf(typ, value, 0);
        let list = spec_decode_algorithms(typ, value, 0)->Ok_0;
        assert(list.drop_first() =~= Seq::empty());
        assert(spec_encode_algorithms(list.drop_first()) =~= Seq::empty());
        assert(spec_encode_algorithms(list) =~= list[0].spec_encode());
        assert(list[0].wf());
    } else if typ == PASSWORD_ALGORITHMS {
        lemma_decoded_algorithms_wf(typ, value, 0);
    } else {
    }
}

impl Attribute {
    /// An ERROR-CODE attribute for an error code from 300 to 699: the class
    /// is the hundreds digit of the code, the number the rest. Other codes
    /// have no class on the wire.
    pub fn error(code: u16, reason: String) -> (attr: Option<Attribute>)
        ensures
            attr is Some <==> 300 <= code <= 699,
            attr matches Some(a) ==> a@ == (AttributeView::ErrorCode {
                class: (code / 100) as u8,
                number: (code % 100) as u8,
                reason: reason@,
            }) && a@.spec_error_code() == Some(code),
    {
        if code < 300 || code > 699 {
            return None;
        }
        Some(Attribute::ErrorCode { class: (code / 100) as u8, number: (code % 100) as u8, reason })
    }

    /// The error code of an ERROR-CODE attribute: a hundred times the class,
    /// plus the number.
    pub fn error_code(&self) -> (code: Option<u16>)
        ensures
            code == self@.spec_error_code(),
    {
        match self {
            Attribute::ErrorCode { class, number, reason } => {
                let class: u16 = *class as u16;
                let number: u16 = *number as u16;
                Some(class * 100 + number)
            },
            _ => None,
        }
    }

    /// Whether the attribute is a FINGERPRINT attribute.
    pub fn is_fingerprint(&self) -> (fingerprint: bool)
        ensures
            fingerprint == (self@ is Fingerprint),
    {
        match self {
            Attribute::Fingerprint(_) => true,
            _ => false,
        }
    }

    /// The type under which the attribute goes on the wire.
    pub fn attribute_type(&self) -> (typ: u16)
        ensures
            typ == self@.attribute_type(),
    {
        match self {
            Attribute::MappedAddress(_) => MAPPED_ADDRESS,
            Attribute::XorMappedAddress(_) => XOR_MAPPED_ADDRESS,
            Attribute::ErrorCode { .. } => ERROR_CODE,
            Attribute::UnknownAttributes(_) => UNKNOWN_ATTRIBUTES,
            Attribute::PasswordAlgorithm(_) => PASSWORD_ALGORITHM,
            Attribute::PasswordAlgorithms(_) => PASSWORD_ALGORITHMS,
            Attribute::MessageIntegrity(_) => MESSAGE_INTEGRITY,
            Attribute::Fingerprint(_) => FINGERPRINT,
            Attribute::Opaque { attribute_type, .. } => *attribute_type,
        }
    }

    /// Whether the attribute can go on the wire.
    pub fn is_valid(&self) -> (valid: bool)
        ensures
            valid == self@.wf(),
    {
        match self {
            Attribute::MappedAddress(_) => true,
            Attribute::XorMappedAddress(_) => true,
            Attribute::ErrorCode { class, number, reason } => {
                let len: usize = reason.as_str().as_bytes().len();
                *class <= 7 && len <= MAX_LENGTH - 4
            },
            Attribute::UnknownAttributes(types) => types.len() <= MAX_LENGTH / 2,
            Attribute::PasswordAlgorithm(a) => {
                let len: usize = a.parameters.len();
                proof {
                    lemma_algorithm_len(a@);
                    lemma_padded_len(len as int);
                }
                len <= MAX_LENGTH && 4 + padded_len(len) <= MAX_LENGTH
            },
            Attribute::PasswordAlgorithms(list) => algorithms_len(list).is_some(),
            Attribute::MessageIntegrity(mac) => mac.len() == MESSAGE_INTEGRITY_LEN,
            Attribute::Fingerprint(_) => true,
            Attribute::Opaque { attribute_type, value } => {
                let typ: u16 = *attribute_type;
                typ >= COMPREHENSION_OPTIONAL && typ != PASSWORD_ALGORITHMS && typ != FINGERPRINT
                    && value.len() <= MAX_LENGTH
            },
        }
    }

    /// The value of the attribute on the wire, without padding.
    pub fn encode_value(&self, tid: &TransactionId) -> (value: Vec<u8>)
        requires
            self@.wf(),
        ensures
            value@ == self@.spec_value(tid@),
            value@.len() <= MAX_LENGTH,
    {
        let mut value: Vec<u8> = Vec::new();
        proof {
            lemma_value_roundtrip(self@, tid@);
        }
        match self {
            Attribute::MappedAddress(a) => {
                a.encode_value(&mut value);
            },
            Attribute::XorMappedAddress(a) => {
                a.mask(tid).encode_value(&mut value);
            },
            Attribute::ErrorCode { class, number, reason } => {
                value.push(0u8);
                value.push(0u8);
                value.push(*class);
                value.push(*number);
                push_bytes(&mut value, reason.as_str().as_bytes());
            },
            Attribute::UnknownAttributes(types) => {
                push_u16_list(&mut value, types);
            },
            Attribute::PasswordAlgorithm(a) => {
                a.encode(&mut value);
            },
            Attribute::PasswordAlgorithms(list) => {
                encode_algorithms(list, &mut value);
            },
            Attribute::MessageIntegrity(mac) => {
                push_bytes(&mut value, mac.as_slice());
            },
            Attribute::Fingerprint(v) => {
                push_u32(&mut value, *v);
            },
            Attribute::Opaque { attribute_type, value: raw } => {
                push_bytes(&mut value, raw.as_slice());
            },
        }
        assert(value@ =~= self@.spec_value(tid@));
        value
    }

    /// Appends the attribute as it goes on the wire.
    pub fn encode(&self, tid: &TransactionId, out: &mut Vec<u8>)
        requires
            self@.wf(),
        ensures
            final(out)@ == old(out)@ + self@.spec_encode(tid@),
    {
        let value: Vec<u8> = self.encode_value(tid);
        let len: usize = value.len();
        push_u16(out, self.attribute_type());
        push_u16(out, len as u16);
        push_bytes(out, value.as_slice());
        push_padding(out, len);
        assert(out@ =~= old(out)@ + self@.spec_encode(tid@));
    }

    /// Reads an attribute from its type and its value without padding.
    pub fn decode_value(typ: u16, value: &[u8], tid: &TransactionId) -> (decoded: Result<
        Attribute,
        DecodeError,
    >)
        ensures
            match decoded {
                Ok(a) => spec_decode_value(typ, value@, tid@) == Ok::<AttributeView, DecodeError>(
                    a@,
                ),
                Err(e) => spec_decode_value(typ, value@, tid@) == Err::<AttributeView, DecodeError>(
                    e,
                ),
            },
    {
        let len: usize = value.len();
        if typ == MAPPED_ADDRESS {
            match SocketAddress::decode_value(typ, value) {
                Ok(a) => Ok(Attribute::MappedAddress(a)),
                Err(e) => Err(e),
            }
        } else if typ == XOR_MAPPED_ADDRESS {
            match SocketAddress::decode_value(typ, value) {
                Ok(a) => Ok(Attribute::XorMappedAddress(a.mask(tid))),
                Err(e) => Err(e),
            }
        } else if typ == ERROR_CODE {
            if len < 4 {
                return Err(DecodeError::InvalidAttributeLength(typ));
            }
            let phrase: &[u8] = slice_subrange(value, 4, len);
            match str_from_utf8(phrase) {
                None => Err(DecodeError::InvalidReasonPhrase),
                Some(text) => {
                    proof {
                        encode_utf8_decode_utf8(text@);
                    }
                    Ok(
                        Attribute::ErrorCode {
                            class: value[2] & 0x07,
                            number: value[3],
                            reason: text.to_owned(),
                        },
                    )
                },
            }
        } else if typ == UNKNOWN_ATTRIBUTES {
            if len % 2 != 0 {
                return Err(DecodeError::InvalidAttributeLength(typ));
            }
            Ok(Attribute::UnknownAttributes(read_u16_list(value)))
        } else if typ == PASSWORD_ALGORITHM {
            match decode_algorithms(typ, value) {
                Ok(list) => {
                    let mut list: Vec<PasswordAlgorithm> = list;
                    if list.len() != 1 {
                        return Err(DecodeError::InvalidAttributeLength(typ));
                    }
                    match list.pop() {
                        Some(a) => Ok(Attribute::PasswordAlgorithm(a)),
                        None => Err(DecodeError::InvalidAttributeLength(typ)),
                    }
                },
                Err(e) => Err(e),
            }
        } else if typ == PASSWORD_ALGORITHMS {
            match decode_algorithms(typ, value) {
                Ok(list) => Ok(Attribute::PasswordAlgorithms(list)),
                Err(e) => Err(e),
            }
        } else if typ == MESSAGE_INTEGRITY {
            if len != MESSAGE_INTEGRITY_LEN {
                return Err(DecodeError::InvalidAttributeLength(typ));
            }
            Ok(Attribute::MessageIntegrity(slice_to_vec(value)))
        } else if typ == FINGERPRINT {
            if len != 4 {
                return Err(DecodeError::InvalidAttributeLength(typ));
            }
            Ok(Attribute::Fingerprint(read_u32(value, 0)))
        } else if typ < COMPREHENSION_OPTIONAL {
            Err(DecodeError::UnknownRequiredAttribute(typ))
        } else {
            Ok(Attribute::Opaque { attribute_type: typ, value: slice_to_vec(value) })
        }
    }
}

/// Whether two lists hold the same 16-bit numbers in the same order.
pub fn u16_list_eq(a: &Vec<u16>, b: &Vec<u16>) -> (equal: bool)
    ensures
        equal == (a@ == b@),
{
    if a.len() != b.len() {
        return false;
    }
    let mut i: usize = 0;
    while i < a.len()
        invariant
            i <= a@.len(),
            a@.len() == b@.len(),
            forall|j: int| 0 <= j < i ==> a@[j] == b@[j],
        decreases a@.len() - i,
    {
        if a[i] != b[i] {
            return false;
        }
        i += 1;
    }
    assert(a@ =~= b@);
    true
}

impl PartialEq for Attribute {
    /// Two attributes are equal where they are of the same kind and hold the
    /// same values.
    fn eq(&self, other: &Self) -> (equal: bool) {
        match (self, other) {
            (Attribute::MappedAddress(a), Attribute::MappedAddress(b)) => *a == *b,
            (Attribute::XorMappedAddress(a), Attribute::XorMappedAddress(b)) => *a == *b,
            (
                Attribute::ErrorCode { class: c1, number: n1, reason: r1 },
                Attribute::ErrorCode { class: c2, number: n2, reason: r2 },
            ) => *c1 == *c2 && *n1 == *n2 && *r1 == *r2,
            (Attribute::UnknownAttributes(a), Attribute::UnknownAttributes(b)) => u16_list_eq(a, b),
            (Attribute::PasswordAlgorithm(a), Attribute::PasswordAlgorithm(b)) => *a == *b,
            (Attribute::PasswordAlgorithms(a), Attribute::PasswordAlgorithms(b)) => algorithms_eq(
                a,
                b,
            ),
            (Attribute::MessageIntegrity(a), Attribute::MessageIntegrity(b)) => bytes_eq(a, b),
            (Attribute::Fingerprint(a), Attribute::Fingerprint(b)) => *a == *b,
            (
                Attribute::Opaque { attribute_type: t1, value: v1 },
                Attribute::Opaque { attribute_type: t2, value: v2 },
            ) => *t1 == *t2 && bytes_eq(v1, v2),
            _ => false,
        }
    }
}

impl PartialEqSpecImpl for Attribute {
    open spec fn obeys_eq_spec() -> bool {
        true
    }

    open spec fn eq_spec(&self, other: &Self) -> bool {
        self@ == other@
    }
}

} // verus!
