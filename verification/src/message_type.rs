//! The 14-bit message type: a 2-bit class interleaved with a 12-bit method.

use crate::error::EncodeError;
use vstd::prelude::*;

verus! {

/// The largest method that fits the twelve method bits.
pub const MAX_METHOD: u16 = 0x0FFF;

/// The Binding method.
pub const BINDING: u16 = 0x0001;

/// The class of a message.
#[derive(Debug, Copy, Clone, Eq, PartialEq, Structural)]
pub enum MessageClass {
    /// 0b00
    Request,
    /// 0b01
    Indication,
    /// 0b10
    SuccessResponse,
    /// 0b11
    ErrorResponse,
}

impl MessageClass {
    /// The two class bits as a number.
    pub open spec fn bits(self) -> u8 {
        match self {
            MessageClass::Request => 0,
            MessageClass::Indication => 1,
            MessageClass::SuccessResponse => 2,
            MessageClass::ErrorResponse => 3,
        }
    }

    /// The class that a number stands for, if it fits in two bits.
    pub open spec fn from_bits(value: u8) -> Option<MessageClass> {
        if value == 0 {
            Some(MessageClass::Request)
        } else if value == 1 {
            Some(MessageClass::Indication)
        } else if value == 2 {
            Some(MessageClass::SuccessResponse)
        } else if value == 3 {
            Some(MessageClass::ErrorResponse)
        } else {
            None
        }
    }

    /// Reads a class from its two bits; any larger number is no class.
    pub fn from_u8(value: u8) -> (class: Option<Self>)
        ensures
            class == Self::from_bits(value),
            value <= 3 <==> class is Some,
            class matches Some(c) ==> c.bits() == value,
    {
        match value {
            0b00 => Some(MessageClass::Request),
            0b01 => Some(MessageClass::Indication),
            0b10 => Some(MessageClass::SuccessResponse),
            0b11 => Some(MessageClass::ErrorResponse),
            _ => None,
        }
    }

    /// The two class bits.
    pub fn to_u8(self) -> (value: u8)
        ensures
            value == self.bits(),
            value <= 3,
    {
        match self {
            MessageClass::Request => 0b00,
            MessageClass::Indication => 0b01,
            MessageClass::SuccessResponse => 0b10,
            MessageClass::ErrorResponse => 0b11,
        }
    }
}

/// The method of a message, such as Binding (1). Only twelve bits reach the
/// wire, so a method above [`MAX_METHOD`] cannot be encoded.
#[derive(Debug, Copy, Clone, Eq, PartialEq, Structural)]
pub struct Method(pub u16);

impl Method {
    /// Whether the method fits in twelve bits.
    pub open spec fn fits(self) -> bool {
        self.0 <= MAX_METHOD
    }

    pub fn new(p: u16) -> (method: Self)
        ensures
            method.0 == p,
    {
        Self(p)
    }

    pub fn to_u16(self) -> (value: u16)
        ensures
            value == self.0,
    {
        self.0
    }

    /// Whether the method fits in twelve bits.
    pub fn is_valid(self) -> (valid: bool)
        ensures
            valid == self.fits(),
    {
        self.0 <= MAX_METHOD
    }
}

impl From<u8> for Method {
    fn from(f: u8) -> (method: Self) {
        Method(f as u16)
    }
}

impl vstd::std_specs::convert::FromSpecImpl<u8> for Method {
    open spec fn obeys_from_spec() -> bool {
        true
    }

    open spec fn from_spec(f: u8) -> Self {
        Method(f as u16)
    }
}

/// The 14-bit field that a class and a method make, all taken as numbers.
///
/// With the method's bits written M0 to M11 and the class's C0 and C1, the
/// field reads, from the most significant bit down:
/// M11 M10 M9 M8 M7 C1 M6 M5 M4 C0 M3 M2 M1 M0.
pub open spec fn spec_pack(class: u8, method: u16) -> u16 {
    (method & 0x000F) | (((class as u16) & 0b01) << 4) | ((method & 0x0070) << 1) | (((
    class as u16) & 0b10) << 7) | ((method & 0x0F80) << 2)
}

/// The class bits of a 14-bit field.
pub open spec fn spec_unpack_class(value: u16) -> u8 {
    (((value >> 4) & 0b01) | ((value >> 7) & 0b10)) as u8
}

/// The method bits of a 14-bit field.
pub open spec fn spec_unpack_method(value: u16) -> u16 {
    (value & 0x000F) | ((value >> 1) & 0x0070) | ((value >> 2) & 0x0F80)
}

/// Packs a class and a method given as numbers into the 14-bit field.
///
/// A class above two bits or a method above twelve bits is an error: no bit
/// is dropped silently.
pub fn pack(class: u8, method: u16) -> (packed: Result<u16, EncodeError>)
    ensures
        class > 3 ==> packed == Err::<u16, EncodeError>(EncodeError::InvalidClass),
        class <= 3 && method > MAX_METHOD ==> packed == Err::<u16, EncodeError>(
            EncodeError::InvalidMethod,
        ),
        class <= 3 && method <= MAX_METHOD ==> packed == Ok::<u16, EncodeError>(
            spec_pack(class, method),
        ),
        packed matches Ok(v) ==> v < 0x4000,
{
    if class > 3 {
        return Err(EncodeError::InvalidClass);
    }
    if method > MAX_METHOD {
        return Err(EncodeError::InvalidMethod);
    }
    let class: u16 = class as u16;
    let value: u16 = (method & 0x000F) | ((class & 0b01) << 4) | ((method & 0x0070) << 1) | ((class
        & 0b10) << 7) | ((method & 0x0F80) << 2);
    proof {
        lemma_pack_bounds(class as u8, method);
    }
    Ok(value)
}

/// The class and the method of a message, which share one header field.
#[derive(Debug, Copy, Clone, Eq, PartialEq, Structural)]
pub struct MessageType {
    pub class: MessageClass,
    pub method: Method,
}

impl MessageType {
    /// The 14-bit field for this class and method.
    pub open spec fn encoded(self) -> u16 {
        spec_pack(self.class.bits(), self.method.0)
    }

    /// The class and method that a 14-bit field holds.
    pub open spec fn decoded(value: u16) -> MessageType {
        MessageType {
            class: MessageClass::from_bits(spec_unpack_class(value)).unwrap(),
            method: Method(spec_unpack_method(value)),
        }
    }

    /// Packs the class and the method into the first header word, whose two
    /// most significant bits stay zero.
    pub fn to_u16(self) -> (value: u16)
        requires
            self.method.fits(),
        ensures
            value == self.encoded(),
            value < 0x4000,
    {
        if !self.method.is_valid() {
            // only a caller that broke the contract gets here: stop, drop no bit
            return unreached();
        }
        let class: u16 = self.class.to_u8() as u16;
        let method: u16 = self.method.to_u16();
        proof {
            lemma_pack_bounds(self.class.bits(), method);
        }
        (method & 0x000F) | ((class & 0b01) << 4) | ((method & 0x0070) << 1) | ((class & 0b10)
            << 7) | ((method & 0x0F80) << 2)
    }

    /// Unpacks the first header word. A word in which one of the two most
    /// significant bits is set holds no message type.
    pub fn from_u16(value: u16) -> (unpacked: Result<Self, ()>)
        ensures
            value >= 0x4000 <==> unpacked is Err,
            value < 0x4000 ==> unpacked == Ok::<Self, ()>(Self::decoded(value)),
            unpacked matches Ok(t) ==> t.method.fits() && t.encoded() == value,
    {
        if value >= 0x4000 {
            return Err(());
        }
        let class: u16 = ((value >> 4) & 0b01) | ((value >> 7) & 0b10);
        let method: u16 = (value & 0x000F) | ((value >> 1) & 0x0070) | ((value >> 2) & 0x0F80);
        proof {
            lemma_unpack_bounds(value);
            lemma_unpack_pack(value);
        }
        match MessageClass::from_u8(class as u8) {
            Some(class) => Ok(Self { class, method: Method(method) }),
            None => Err(()),
        }
    }
}

/// A packed field never reaches the two most significant bits.
pub proof fn lemma_pack_bounds(class: u8, method: u16)
    requires
        class <= 3,
        method <= MAX_METHOD,
    ensures
        spec_pack(class, method) < 0x4000,
{
    assert(((method & 0x000F) | (((class as u16) & 0b01) << 4) | ((method & 0x0070) << 1) | (((
    class as u16) & 0b10) << 7) | ((method & 0x0F80) << 2)) < 0x4000) by (bit_vector)
        requires
            class <= 3,
            method <= 0x0FFF,
    ;
}

/// Whatever the word, the unpacked class fits in two bits and the unpacked
/// method in twelve.
pub proof fn lemma_unpack_bounds(value: u16)
    ensures
        spec_unpack_class(value) <= 3,
        spec_unpack_method(value) <= MAX_METHOD,
        (((value >> 4) & 0b01) | ((value >> 7) & 0b10)) <= 3,
{
    assert((((value >> 4) & 0b01) | ((value >> 7) & 0b10)) <= 3) by (bit_vector);
    assert(((value & 0x000F) | ((value >> 1) & 0x0070) | ((value >> 2) & 0x0F80)) <= 0x0FFF)
        by (bit_vector);
}

/// Unpacking a packed class and method gives both back.
pub proof fn lemma_pack_unpack(class: u8, method: u16)
    requires
        class <= 3,
        method <= MAX_METHOD,
    ensures
        spec_unpack_class(spec_pack(class, method)) == class,
        spec_unpack_method(spec_pack(class, method)) == method,
{
    let v: u16 = spec_pack(class, method);
    let c: u16 = class as u16;
    assert(v == ((method & 0x000F) | ((c & 0b01) << 4) | ((method & 0x0070) << 1) | ((c & 0b10)
        << 7) | ((method & 0x0F80) << 2)));
    assert((((v >> 4) & 0b01) | ((v >> 7) & 0b10)) == c) by (bit_vector)
        requires
            c <= 3,
            method <= 0x0FFF,
            v == ((method & 0x000F) | ((c & 0b01) << 4) | ((method & 0x0070) << 1) | ((c & 0b10)
                << 7) | ((method & 0x0F80) << 2)),
    ;
    assert(((v & 0x000F) | ((v >> 1) & 0x0070) | ((v >> 2) & 0x0F80)) == method) by (bit_vector)
        requires
            c <= 3,
            method <= 0x0FFF,
            v == ((method & 0x000F) | ((c & 0b01) << 4) | ((method & 0x0070) << 1) | ((c & 0b10)
                << 7) | ((method & 0x0F80) << 2)),
    ;
}

/// Packing the class and method unpacked from a word whose two most
/// significant bits are zero gives the word back.
pub proof fn lemma_unpack_pack(value: u16)
    requires
        value < 0x4000,
    ensures
        spec_pack(spec_unpack_class(value), spec_unpack_method(value)) == value,
{
    let c: u16 = ((value >> 4) & 0b01) | ((value >> 7) & 0b10);
    let m: u16 = spec_unpack_method(value);
    assert(c <= 3) by (bit_vector)
        requires
            c == ((value >> 4) & 0b01) | ((value >> 7) & 0b10),
    ;
    assert(spec_unpack_class(value) as u16 == c);
    assert(((m & 0x000F) | ((c & 0b01) << 4) | ((m & 0x0070) << 1) | ((c & 0b10) << 7) | ((m
        & 0x0F80) << 2)) == value) by (bit_vector)
        requires
            value < 0x4000,
            c == ((value >> 4) & 0b01) | ((value >> 7) & 0b10),
            m == (value & 0x000F) | ((value >> 1) & 0x0070) | ((value >> 2) & 0x0F80),
    ;
}

/// For every class and every method of at most twelve bits, unpacking the
/// packed message type gives the same class and method back.
pub proof fn lemma_message_type_roundtrip(class: MessageClass, method: Method)
    requires
        method.fits(),
    ensures
        MessageType::decoded((MessageType { class, method }).encoded()) == (MessageType {
            class,
            method,
        }),
        (MessageType { class, method }).encoded() < 0x4000,
{
    lemma_pack_unpack(class.bits(), method.0);
    lemma_pack_bounds(class.bits(), method.0);
}

/// For every header word whose two most significant bits are zero, packing
/// the unpacked message type gives the word back.
pub proof fn lemma_message_type_word_roundtrip(value: u16)
    requires
        value < 0x4000,
    ensures
        MessageType::decoded(value).encoded() == value,
        MessageType::decoded(value).method.fits(),
{
    lemma_unpack_bounds(value);
    lemma_unpack_pack(value);
}

} // verus!
