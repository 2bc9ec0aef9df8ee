//! The errors of the codec.

use vstd::prelude::*;

verus! {

/// Why a value cannot be written to the wire.
#[derive(Debug, Clone, Copy, PartialEq, Eq, Structural)]
pub enum EncodeError {
    /// The class does not fit in two bits.
    InvalidClass,
    /// The method does not fit in twelve bits.
    InvalidMethod,
    /// An attribute's value does not fit the 16-bit length field, or cannot
    /// be represented on the wire. Carries the attribute's position in the
    /// message.
    InvalidAttribute(usize),
    /// A MESSAGE-INTEGRITY attribute that would be followed by anything but a
    /// FINGERPRINT attribute. Carries the attribute's position in the message.
    MisplacedIntegrity(usize),
    /// A FINGERPRINT attribute that would not be the last attribute of the
    /// encoded message. Carries the attribute's position in the message.
    MisplacedFingerprint(usize),
    /// The attribute section is longer than the 16-bit message length allows.
    MessageTooLong,
}

/// Why a byte buffer is not a STUN message.
#[derive(Debug, Clone, Copy, PartialEq, Eq, Structural)]
pub enum DecodeError {
    /// Fewer than the 20 bytes of a header.
    TooShort,
    /// The two most significant bits of the first byte are not zero.
    InvalidLeadingBits,
    /// The stated length disagrees with the number of bytes after the header.
    LengthMismatch,
    /// The magic cookie is not the fixed constant.
    BadMagicCookie,
    /// An attribute's header or declared value runs past the end of the
    /// message.
    TruncatedAttribute,
    /// The last attribute's value ends inside the message, but its padding to
    /// the next 4-byte boundary does not.
    MisalignedPadding,
    /// An attribute type below 0x8000 that the codec does not know. Carries
    /// the type.
    UnknownRequiredAttribute(u16),
    /// The declared length does not fit the attribute's layout. Carries the
    /// attribute type.
    InvalidAttributeLength(u16),
    /// An address attribute names a family other than IPv4 or IPv6. Carries
    /// the family byte.
    InvalidAddressFamily(u8),
    /// The reason phrase of an ERROR-CODE attribute is not UTF-8.
    InvalidReasonPhrase,
    /// A FINGERPRINT attribute is followed by another attribute.
    FingerprintNotLast,
    /// The FINGERPRINT attribute does not match the bytes before it.
    FingerprintMismatch,
}

/// What is in front of a result that went well; an error stays as it is.
pub open spec fn spec_prepend<T>(front: Seq<T>, rest: Result<Seq<T>, DecodeError>) -> Result<
    Seq<T>,
    DecodeError,
> {
    match rest {
        Ok(items) => Ok(front + items),
        Err(e) => Err(e),
    }
}

} // verus!
