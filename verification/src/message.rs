//! Messages: a 20-byte header followed by attributes.
//!
//! ```text
//! Bytes 0-1:   00 + 14-bit message type (class and method interleaved)
//! Bytes 2-3:   message length, the number of bytes of the attributes
//! Bytes 4-7:   magic cookie
//! Bytes 8-19:  transaction id
//! Bytes 20+:   attributes
//! ```

use crate::attribute::{spec_decode_value, Attribute, AttributeView, FINGERPRINT};
use crate::crc::{fingerprint, spec_fingerprint};
use crate::error::{spec_prepend, DecodeError, EncodeError};
use crate::message_type::{MessageClass, MessageType, Method};
use crate::roundtrip::{
    lemma_accepted_not_rejected, lemma_decoded_is_encodable, lemma_encode_attributes_skip,
    lemma_leading_bits,
};
use crate::transaction_id::TransactionId;
use crate::wire::{
    lemma_padded_len, padded_len, push_bytes, push_u16, push_u32, read_u16, read_u32,
    spec_padded_len, spec_u16_at, spec_u16_be, spec_u32_at, spec_u32_be, HEADER_LEN, MAGIC_COOKIE,
    MAX_LENGTH,
};
use vstd::prelude::*;
use vstd::slice::slice_subrange;
use vstd::std_specs::cmp::PartialEqSpecImpl;

verus! {

/// The number of bytes of a FINGERPRINT attribute on the wire.
pub const FINGERPRINT_ATTRIBUTE_LEN: usize = 8;

/// The number of bytes of a MESSAGE-INTEGRITY attribute on the wire.
pub const MESSAGE_INTEGRITY_ATTRIBUTE_LEN: usize = 24;

/// The mathematical value of a [`Message`].
pub struct MessageView {
    pub class: MessageClass,
    pub method: Method,
    pub transaction_id: Seq<u8>,
    pub attributes: Seq<AttributeView>,
}

/// The mathematical values of a list of attributes.
pub open spec fn spec_attribute_views(list: Seq<Attribute>) -> Seq<AttributeView> {
    Seq::new(list.len(), |i: int| list[i]@)
}

/// Whether every attribute of a list can go on the wire.
pub open spec fn spec_attributes_wf(attrs: Seq<AttributeView>) -> bool {
    forall|i: int| 0 <= i < attrs.len() ==> (#[trigger] attrs[i]).wf()
}

/// Whether a list holds no FINGERPRINT attribute.
pub open spec fn spec_no_fingerprint(attrs: Seq<AttributeView>) -> bool {
    forall|i: int| 0 <= i < attrs.len() ==> !((#[trigger] attrs[i]) is Fingerprint)
}

/// What is still to come behind the attributes that a message holds, where
/// the message is encoded ahead of its last attribute.
#[derive(Debug, Clone, Copy, PartialEq, Eq, Structural)]
pub enum Trailer {
    /// Nothing: the message is encoded as it stands.
    Nothing,
    /// A MESSAGE-INTEGRITY attribute.
    MessageIntegrity,
    /// A FINGERPRINT attribute.
    Fingerprint,
}

impl Trailer {
    /// The number of bytes that the attribute to come takes on the wire.
    pub open spec fn spec_len(self) -> int {
        match self {
            Trailer::Nothing => 0,
            Trailer::MessageIntegrity => MESSAGE_INTEGRITY_ATTRIBUTE_LEN as int,
            Trailer::Fingerprint => FINGERPRINT_ATTRIBUTE_LEN as int,
        }
    }

    /// The number of bytes that the attribute to come takes on the wire.
    pub fn len(self) -> (len: usize)
        ensures
            len == self.spec_len(),
    {
        match self {
            Trailer::Nothing => 0,
            Trailer::MessageIntegrity => MESSAGE_INTEGRITY_ATTRIBUTE_LEN,
            Trailer::Fingerprint => FINGERPRINT_ATTRIBUTE_LEN,
        }
    }
}

/// Whether the attribute at `i` is a FINGERPRINT attribute that will not be
/// the last attribute on the wire: another attribute follows it in the list,
/// or one is still to come.
pub open spec fn spec_misplaced_fingerprint(
    attrs: Seq<AttributeView>,
    i: int,
    next: Trailer,
) -> bool {
    attrs[i] is Fingerprint && (i + 1 < attrs.len() || next != Trailer::Nothing)
}

/// Whether the attribute at `i` is a MESSAGE-INTEGRITY attribute that will be
/// followed on the wire by anything but a FINGERPRINT attribute: by such an
/// attribute of the list, or, at the end of the list, by a MESSAGE-INTEGRITY
/// attribute that is still to come.
pub open spec fn spec_misplaced_integrity(attrs: Seq<AttributeView>, i: int, next: Trailer) -> bool {
    attrs[i] is MessageIntegrity && if i + 1 < attrs.len() {
        !(attrs[i + 1] is Fingerprint)
    } else {
        next == Trailer::MessageIntegrity
    }
}

/// Whether the attribute at `i` can go on the wire where it stands.
pub open spec fn spec_attribute_fits(attrs: Seq<AttributeView>, i: int, next: Trailer) -> bool {
    &&& attrs[i].wf()
    &&& !spec_misplaced_fingerprint(attrs, i, next)
    &&& !spec_misplaced_integrity(attrs, i, next)
}

/// Whether every attribute of a list can go on the wire where it stands, in
/// a message behind whose attributes `next` is still to come.
pub open spec fn spec_attributes_fit(attrs: Seq<AttributeView>, next: Trailer) -> bool {
    forall|i: int| 0 <= i < attrs.len() ==> #[trigger] spec_attribute_fits(attrs, i, next)
}

/// Whether `i` is the position of the first attribute that cannot go on the
/// wire where it stands.
pub open spec fn spec_first_unfit(attrs: Seq<AttributeView>, i: int, next: Trailer) -> bool {
    &&& 0 <= i < attrs.len()
    &&& !spec_attribute_fits(attrs, i, next)
    &&& forall|j: int| 0 <= j < i ==> #[trigger] spec_attribute_fits(attrs, j, next)
}

/// Whether a FINGERPRINT attribute comes last in a list, if the list holds
/// one.
pub open spec fn spec_fingerprint_last(attrs: Seq<AttributeView>) -> bool {
    forall|i: int|
        0 <= i < attrs.len() ==> !#[trigger] spec_misplaced_fingerprint(attrs, i, Trailer::Nothing)
}

/// Whether nothing but a FINGERPRINT attribute follows a MESSAGE-INTEGRITY
/// attribute in a list.
pub open spec fn spec_integrity_last(attrs: Seq<AttributeView>) -> bool {
    forall|i: int|
        0 <= i < attrs.len() ==> !#[trigger] spec_misplaced_integrity(attrs, i, Trailer::Nothing)
}

/// The attributes of a list on the wire, one after the other, in a message
/// with the transaction id `tid`.
pub open spec fn spec_encode_attributes(attrs: Seq<AttributeView>, tid: Seq<u8>) -> Seq<u8>
    decreases attrs.len(),
{
    if attrs.len() == 0 {
        Seq::empty()
    } else {
        attrs.first().spec_encode(tid) + spec_encode_attributes(attrs.drop_first(), tid)
    }
}

impl MessageView {
    /// The class and the method as one message type.
    pub open spec fn message_type(self) -> MessageType {
        MessageType { class: self.class, method: self.method }
    }

    /// The attribute section on the wire.
    pub open spec fn spec_body(self) -> Seq<u8> {
        spec_encode_attributes(self.attributes, self.transaction_id)
    }

    /// The header on the wire, for a given message length.
    pub open spec fn spec_header(self, length: u16) -> Seq<u8> {
        spec_u16_be(self.message_type().encoded()) + spec_u16_be(length) + spec_u32_be(
            MAGIC_COOKIE,
        ) + self.transaction_id
    }

    /// Whether the message can go on the wire with `next` still to come
    /// behind its attributes: the method fits its twelve bits, the
    /// transaction id has twelve bytes, every attribute can go on the wire, a
    /// FINGERPRINT attribute is the last attribute of all, a
    /// MESSAGE-INTEGRITY attribute is followed by nothing but a FINGERPRINT
    /// attribute, and the attribute section with the bytes to come fits the
    /// 16-bit message length.
    pub open spec fn encodable_ahead(self, next: Trailer) -> bool {
        &&& self.method.fits()
        &&& self.transaction_id.len() == 12
        &&& spec_attributes_fit(self.attributes, next)
        &&& self.spec_body().len() + next.spec_len() <= MAX_LENGTH
    }

    /// Whether the message can go on the wire as it stands.
    pub open spec fn encodable(self) -> bool {
        self.encodable_ahead(Trailer::Nothing)
    }

    /// The message on the wire: the header, whose length field states the
    /// number of bytes of the attribute section, and the attribute section.
    pub open spec fn spec_encode(self) -> Seq<u8> {
        self.spec_header(self.spec_body().len() as u16) + self.spec_body()
    }

    /// The message on the wire short of `extra` bytes of attributes that are
    /// still to come: the length field already counts them.
    pub open spec fn spec_encode_ahead(self, extra: int) -> Seq<u8> {
        self.spec_header((self.spec_body().len() + extra) as u16) + self.spec_body()
    }

    /// The bytes that the checksum of a trailing FINGERPRINT attribute covers.
    pub open spec fn spec_fingerprint_input(self) -> Seq<u8> {
        self.spec_encode_ahead(FINGERPRINT_ATTRIBUTE_LEN as int)
    }

    /// The bytes that the authentication code of a trailing
    /// MESSAGE-INTEGRITY attribute covers.
    pub open spec fn spec_integrity_input(self) -> Seq<u8> {
        self.spec_encode_ahead(MESSAGE_INTEGRITY_ATTRIBUTE_LEN as int)
    }

    /// The FINGERPRINT attribute that closes the message.
    pub open spec fn spec_fingerprint_attribute(self) -> AttributeView {
        AttributeView::Fingerprint(spec_fingerprint(self.spec_fingerprint_input()))
    }

    /// The message on the wire, closed by a FINGERPRINT attribute over all
    /// that comes before it.
    pub open spec fn spec_encode_with_fingerprint(self) -> Seq<u8> {
        self.spec_fingerprint_input() + self.spec_fingerprint_attribute().spec_encode(
            self.transaction_id,
        )
    }

    /// Whether encoding the message ahead of `next` is refused with the error
    /// `e`: `InvalidMethod` where the method does not fit its twelve bits;
    /// otherwise, for the first attribute that cannot go on the wire where it
    /// stands, `InvalidAttribute`, `MisplacedIntegrity` or
    /// `MisplacedFingerprint` with its position; otherwise `MessageTooLong`
    /// where the attribute section and the bytes to come do not fit the
    /// 16-bit message length.
    pub open spec fn spec_rejects(self, next: Trailer, e: EncodeError) -> bool {
        match e {
            EncodeError::InvalidClass => false,
            EncodeError::InvalidMethod => !self.method.fits(),
            EncodeError::InvalidAttribute(i) => {
                &&& self.method.fits()
                &&& spec_first_unfit(self.attributes, i as int, next)
                &&& !self.attributes[i as int].wf()
            },
            EncodeError::MisplacedIntegrity(i) => {
                &&& self.method.fits()
                &&& spec_first_unfit(self.attributes, i as int, next)
                &&& self.attributes[i as int].wf()
                &&& self.attributes[i as int] is MessageIntegrity
            },
            EncodeError::MisplacedFingerprint(i) => {
                &&& self.method.fits()
                &&& spec_first_unfit(self.attributes, i as int, next)
                &&& self.attributes[i as int].wf()
                &&& self.attributes[i as int] is Fingerprint
            },
            EncodeError::MessageTooLong => {
                &&& self.method.fits()
                &&& spec_attributes_fit(self.attributes, next)
                &&& self.spec_body().len() + next.spec_len() > MAX_LENGTH
            },
        }
    }

    /// The message with one more attribute at its end.
    pub open spec fn with_attribute(self, attr: AttributeView) -> MessageView {
        MessageView { attributes: self.attributes.push(attr), ..self }
    }
}

/// The attributes that a message holds from `pos` on, or why it holds none.
///
/// Each attribute is a type, a length, a value of that length and padding to
/// the next 4-byte boundary, all inside the message. A FINGERPRINT attribute
/// must be the last one and, where `verify` is set, must hold the checksum of
/// all bytes in front of it.
pub open spec fn spec_decode_attributes(msg: Seq<u8>, pos: int, verify: bool) -> Result<
    Seq<AttributeView>,
    DecodeError,
>
    decreases msg.len() - pos,
{
    if pos >= msg.len() {
        Ok(Seq::empty())
    } else if msg.len() - pos < 4 {
        Err(DecodeError::TruncatedAttribute)
    } else {
        let typ = spec_u16_at(msg, pos);
        let len = spec_u16_at(msg, pos + 2) as int;
        let next = pos + 4 + spec_padded_len(len);
        if pos + 4 + len > msg.len() {
            Err(DecodeError::TruncatedAttribute)
        } else if next > msg.len() {
            Err(DecodeError::MisalignedPadding)
        } else {
            match spec_decode_value(typ, msg.subrange(pos + 4, pos + 4 + len), msg.subrange(8, 20)) {
                Err(e) => Err(e),
                Ok(attr) => if typ == FINGERPRINT && next < msg.len() {
                    Err(DecodeError::FingerprintNotLast)
                } else if typ == FINGERPRINT && verify && attr != AttributeView::Fingerprint(
                    spec_fingerprint(msg.subrange(0, pos)),
                ) {
                    Err(DecodeError::FingerprintMismatch)
                } else {
                    spec_prepend(seq![attr], spec_decode_attributes(msg, next, verify))
                },
            }
        }
    }
}

/// The message that a byte sequence holds, or why it holds none. The checks
/// come in this order: the length of the header, the two leading bits, the
/// stated length, the magic cookie, the attributes.
pub open spec fn spec_decode(bytes: Seq<u8>, verify: bool) -> Result<MessageView, DecodeError> {
    if bytes.len() < HEADER_LEN {
        Err(DecodeError::TooShort)
    } else if bytes[0] & 0xC0 != 0 {
        Err(DecodeError::InvalidLeadingBits)
    } else if HEADER_LEN + spec_u16_at(bytes, 2) != bytes.len() {
        Err(DecodeError::LengthMismatch)
    } else if spec_u32_at(bytes, 4) != MAGIC_COOKIE {
        Err(DecodeError::BadMagicCookie)
    } else {
        match spec_decode_attributes(bytes, HEADER_LEN as int, verify) {
            Err(e) => Err(e),
            Ok(attributes) => Ok(
                MessageView {
                    class: MessageType::decoded(spec_u16_at(bytes, 0)).class,
                    method: MessageType::decoded(spec_u16_at(bytes, 0)).method,
                    transaction_id: bytes.subrange(8, 20),
                    attributes,
                },
            ),
        }
    }
}

/// Whether `i` is the position of the first attribute of type `typ`.
pub open spec fn spec_first_of_type(attrs: Seq<AttributeView>, typ: u16, i: int) -> bool {
    &&& 0 <= i < attrs.len()
    &&& attrs[i].attribute_type() == typ
    &&& forall|j: int| 0 <= j < i ==> (#[trigger] attrs[j]).attribute_type() != typ
}

/// A STUN message: class, method, transaction id and attributes in the order
/// in which they were added. The message length and the magic cookie of the
/// header are not stored: the cookie is fixed, and the length is the number of
/// bytes that the attributes take when the message is encoded.
#[derive(Debug, Clone)]
pub struct Message {
    class: MessageClass,
    method: Method,
    transaction_id: TransactionId,
    attributes: Vec<Attribute>,
}

impl View for Message {
    type V = MessageView;

    closed spec fn view(&self) -> MessageView {
        MessageView {
            class: self.class,
            method: self.method,
            transaction_id: self.transaction_id@,
            attributes: spec_attribute_views(self.attributes@),
        }
    }
}

/// Reads the attributes of a message whose header has been checked.
fn decode_attributes(bytes: &[u8], tid: &TransactionId, verify: bool) -> (decoded: Result<
    Vec<Attribute>,
    DecodeError,
>)
    requires
        bytes@.len() >= 20,
        tid@ == bytes@.subrange(8, 20),
    ensures
        match decoded {
            Ok(list) => spec_decode_attributes(bytes@, 20, verify) == Ok::<
                Seq<AttributeView>,
                DecodeError,
            >(spec_attribute_views(list@)),
            Err(e) => spec_decode_attributes(bytes@, 20, verify) == Err::<
                Seq<AttributeView>,
                DecodeError,
            >(e),
        },
{
    let len: usize = bytes.len();
    let mut pos: usize = HEADER_LEN;
    let mut list: Vec<Attribute> = Vec::new();
    proof {
        assert(spec_attribute_views(list@) =~= Seq::empty());
        match spec_decode_attributes(bytes@, 20, verify) {
            Ok(items) => {
                assert(Seq::<AttributeView>::empty() + items =~= items);
            },
            Err(e) => {},
        }
    }
    while pos < len
        invariant
            20 <= pos <= len,
            len == bytes@.len(),
            tid@ == bytes@.subrange(8, 20),
            spec_decode_attributes(bytes@, 20, verify) == spec_prepend(
                spec_attribute_views(list@),
                spec_decode_attributes(bytes@, pos as int, verify),
            ),
        decreases len - pos,
    {
        if len - pos < 4 {
            return Err(DecodeError::TruncatedAttribute);
        }
        let typ: u16 = read_u16(bytes, pos);
        let value_len: usize = read_u16(bytes, pos + 2) as usize;
        if value_len > len - pos - 4 {
            return Err(DecodeError::TruncatedAttribute);
        }
        let padded: usize = padded_len(value_len);
        proof {
            lemma_padded_len(value_len as int);
        }
        if padded > len - pos - 4 {
            return Err(DecodeError::MisalignedPadding);
        }
        let next: usize = pos + 4 + padded;
        let value: &[u8] = slice_subrange(bytes, pos + 4, pos + 4 + value_len);
        let attr: Attribute = match Attribute::decode_value(typ, value, tid) {
            Ok(a) => a,
            Err(e) => {
                return Err(e);
            },
        };
        if typ == FINGERPRINT {
            if next < len {
                return Err(DecodeError::FingerprintNotLast);
            }
            if verify {
                let expected: u32 = fingerprint(slice_subrange(bytes, 0, pos));
                match &attr {
                    Attribute::Fingerprint(v) => {
                        if *v != expected {
                            return Err(DecodeError::FingerprintMismatch);
                        }
                    },
                    _ => {},
                }
            }
        }
        let ghost before = spec_attribute_views(list@);
        let ghost item = attr@;
        list.push(attr);
        proof {
            assert(spec_attribute_views(list@) =~= before + seq![item]);
            match spec_decode_attributes(bytes@, next as int, verify) {
                Ok(items) => {
                    assert(before + (seq![item] + items) =~= (before + seq![item]) + items);
                },
                Err(e) => {},
            }
        }
        pos = next;
    }
    assert(spec_attribute_views(list@) + Seq::<AttributeView>::empty() =~= spec_attribute_views(
        list@,
    ));
    Ok(list)
}

impl Message {
    /// A message without attributes, under a fresh transaction id from an
    /// unpredictable source.
    pub fn new(class: MessageClass, method: Method) -> (message: Self)
        ensures
            message@.class == class,
            message@.method == method,
            message@.transaction_id.len() == 12,
            message@.attributes == Seq::<AttributeView>::empty(),
    {
        Self::with_transaction_id(class, method, TransactionId::new())
    }

    /// A message without attributes, under a given transaction id.
    pub fn with_transaction_id(
        class: MessageClass,
        method: Method,
        transaction_id: TransactionId,
    ) -> (message: Self)
        ensures
            message@ == (MessageView {
                class,
                method,
                transaction_id: transaction_id@,
                attributes: Seq::empty(),
            }),
            message@.transaction_id.len() == 12,
    {
        let attributes: Vec<Attribute> = Vec::new();
        proof {
            transaction_id.lemma_len();
            assert(spec_attribute_views(attributes@) =~= Seq::empty());
        }
        Self { class, method, transaction_id, attributes }
    }

    /// A message from its parts.
    pub fn from_parts(
        class: MessageClass,
        method: Method,
        transaction_id: TransactionId,
        attributes: Vec<Attribute>,
    ) -> (message: Self)
        ensures
            message@ == (MessageView {
                class,
                method,
                transaction_id: transaction_id@,
                attributes: spec_attribute_views(attributes@),
            }),
            message@.transaction_id.len() == 12,
    {
        proof {
            transaction_id.lemma_len();
        }
        Self { class, method, transaction_id, attributes }
    }

    /// Returns the class of the message
    pub fn class(&self) -> (class: MessageClass)
        ensures
            class == self@.class,
    {
        self.class
    }

    /// Returns the method of the message
    pub fn method(&self) -> (method: Method)
        ensures
            method == self@.method,
    {
        self.method
    }

    /// Returns the Transaction ID reference of the message
    pub fn transaction_id(&self) -> (id: &TransactionId)
        ensures
            id@ == self@.transaction_id,
            id@.len() == 12,
    {
        proof {
            self.transaction_id.lemma_len();
        }
        &self.transaction_id
    }

    /// Add Attribute to the message
    pub fn add_attribute(&mut self, attr: Attribute)
        ensures
            final(self)@ == old(self)@.with_attribute(attr@),
    {
        self.attributes.push(attr);
        assert(spec_attribute_views(self.attributes@) =~= spec_attribute_views(
            old(self).attributes@,
        ).push(attr@));
    }

    /// Get the set of Attribute from the message
    pub fn attributes(&self) -> (attributes: &[Attribute])
        ensures
            spec_attribute_views(attributes@) == self@.attributes,
    {
        self.attributes.as_slice()
    }

    /// The first attribute of a given type, if the message holds one.
    pub fn attribute(&self, attribute_type: u16) -> (found: Option<&Attribute>)
        ensures
            found is None <==> forall|i: int|
                0 <= i < self@.attributes.len() ==> (
                #[trigger] self@.attributes[i]).attribute_type() != attribute_type,
            found matches Some(a) ==> exists|i: int|
                spec_first_of_type(self@.attributes, attribute_type, i) && a@
                    == self@.attributes[i],
    {
        let mut i: usize = 0;
        while i < self.attributes.len()
            invariant
                i <= self.attributes@.len(),
                forall|j: int|
                    0 <= j < i ==> (#[trigger] self@.attributes[j]).attribute_type()
                        != attribute_type,
            decreases self.attributes@.len() - i,
        {
            let a: &Attribute = &self.attributes[i];
            if a.attribute_type() == attribute_type {
                assert(self@.attributes[i as int] == a@);
                assert(spec_first_of_type(self@.attributes, attribute_type, i as int));
                return Some(a);
            }
            assert(self@.attributes[i as int] == a@);
            i += 1;
        }
        None
    }

    /// Encodes the attributes one after the other, unless one of them cannot
    /// go on the wire where it stands.
    fn encode_body(&self, next: Trailer) -> (encoded: Result<Vec<u8>, EncodeError>)
        requires
            self@.method.fits(),
        ensures
            match encoded {
                Ok(body) => spec_attributes_fit(self@.attributes, next) && body@
                    == self@.spec_body(),
                Err(e) => self@.spec_rejects(next, e) && !(e is MessageTooLong),
            },
    {
        let ghost views = self@.attributes;
        let ghost tid = self@.transaction_id;
        let count: usize = self.attributes.len();
        let mut body: Vec<u8> = Vec::new();
        let mut i: usize = 0;
        assert(views.skip(0) =~= views);
        assert(body@ + spec_encode_attributes(views, tid) =~= spec_encode_attributes(views, tid));
        while i < count
            invariant
                i <= count,
                count == self.attributes@.len(),
                views == self@.attributes,
                tid == self@.transaction_id,
                self@.method.fits(),
                forall|j: int| 0 <= j < i ==> #[trigger] spec_attribute_fits(views, j, next),
                body@ + spec_encode_attributes(views.skip(i as int), tid) == spec_encode_attributes(
                    views,
                    tid,
                ),
            decreases count - i,
        {
            let a: &Attribute = &self.attributes[i];
            assert(views[i as int] == a@);
            if !a.is_valid() {
                return Err(EncodeError::InvalidAttribute(i));
            }
            match a {
                Attribute::Fingerprint(_) => {
                    if i + 1 < count || next != Trailer::Nothing {
                        return Err(EncodeError::MisplacedFingerprint(i));
                    }
                },
                Attribute::MessageIntegrity(_) => {
                    let followed: bool = if i + 1 < count {
                        assert(views[i + 1] == self.attributes@[i + 1]@);
                        !self.attributes[i + 1].is_fingerprint()
                    } else {
                        next == Trailer::MessageIntegrity
                    };
                    if followed {
                        return Err(EncodeError::MisplacedIntegrity(i));
                    }
                },
                _ => {},
            }
            assert(spec_attribute_fits(views, i as int, next));
            let ghost before = body@;
            proof {
                lemma_encode_attributes_skip(views, tid, i as int);
            }
            a.encode(&self.transaction_id, &mut body);
            assert(body@ + spec_encode_attributes(views.skip(i + 1), tid) =~= before
                + spec_encode_attributes(views.skip(i as int), tid));
            i += 1;
        }
        assert(views.skip(i as int) =~= Seq::empty());
        assert(body@ =~= body@ + spec_encode_attributes(views.skip(i as int), tid));
        Ok(body)
    }

    /// Appends the header for a given message length.
    fn encode_header(&self, length: u16, out: &mut Vec<u8>)
        requires
            self@.method.fits(),
        ensures
            final(out)@ == old(out)@ + self@.spec_header(length),
    {
        let message_type: u16 = (MessageType { class: self.class, method: self.method }).to_u16();
        push_u16(out, message_type);
        push_u16(out, length);
        push_u32(out, MAGIC_COOKIE);
        push_bytes(out, self.transaction_id.as_bytes());
        assert(out@ =~= old(out)@ + self@.spec_header(length));
    }

    /// Encodes the message ahead of what is still to come behind its
    /// attributes.
    fn encode_ahead(&self, next: Trailer) -> (encoded: Result<Vec<u8>, EncodeError>)
        ensures
            match encoded {
                Ok(bytes) => self@.encodable_ahead(next) && bytes@ == self@.spec_encode_ahead(
                    next.spec_len(),
                ),
                Err(e) => self@.spec_rejects(next, e),
            },
            encoded is Ok <==> self@.encodable_ahead(next),
    {
        proof {
            if self@.encodable_ahead(next) {
                assert forall|e: EncodeError| !self@.spec_rejects(next, e) by {
                    lemma_accepted_not_rejected(self@, next, e);
                }
            }
        }
        if !self.method.is_valid() {
            return Err(EncodeError::InvalidMethod);
        }
        let body: Vec<u8> = match self.encode_body(next) {
            Ok(body) => body,
            Err(e) => {
                return Err(e);
            },
        };
        let extra: usize = next.len();
        if body.len() > MAX_LENGTH - extra {
            return Err(EncodeError::MessageTooLong);
        }
        proof {
            self.transaction_id.lemma_len();
        }
        let mut bytes: Vec<u8> = Vec::new();
        self.encode_header((body.len() + extra) as u16, &mut bytes);
        push_bytes(&mut bytes, body.as_slice());
        assert(bytes@ =~= self@.spec_encode_ahead(extra as int));
        Ok(bytes)
    }

    /// Encodes the message: the header, with the length of the attribute
    /// section in its length field, followed by the attributes in the order
    /// in which they were added.
    ///
    /// Fails with `InvalidMethod` where the method does not fit its twelve
    /// bits; otherwise, at the first attribute that cannot go on the wire
    /// where it stands, with its position and `InvalidAttribute`, or
    /// `MisplacedIntegrity` for a MESSAGE-INTEGRITY attribute that is
    /// followed by anything but a FINGERPRINT attribute, or
    /// `MisplacedFingerprint` for a FINGERPRINT attribute that is not the
    /// last attribute; otherwise with `MessageTooLong` where the attribute
    /// section does not fit the 16-bit message length.
    pub fn encode(&self) -> (encoded: Result<Vec<u8>, EncodeError>)
        ensures
            match encoded {
                Ok(bytes) => self@.encodable() && bytes@ == self@.spec_encode(),
                Err(e) => self@.spec_rejects(Trailer::Nothing, e),
            },
            encoded is Ok <==> self@.encodable(),
    {
        self.encode_ahead(Trailer::Nothing)
    }

    /// Whether the message can go on the wire as it stands.
    pub fn is_encodable(&self) -> (encodable: bool)
        ensures
            encodable == self@.encodable(),
    {
        self.encode().is_ok()
    }

    /// Encodes a message that can go on the wire. Where it is not known
    /// that the message can, [`Message::encode`] says so in its result.
    pub fn to_binary(&self) -> (bytes: Vec<u8>)
        requires
            self@.encodable(),
        ensures
            bytes@ == self@.spec_encode(),
    {
        match self.encode() {
            Ok(bytes) => bytes,
            // only a caller that broke the contract gets here
            Err(_) => unreached(),
        }
    }

    /// Encodes the message and closes it with a FINGERPRINT attribute.
    ///
    /// The length field counts the FINGERPRINT attribute before its value is
    /// computed; the value is the checksum of the header and the attributes
    /// under that length field; the attribute is appended last.
    ///
    /// Fails as [`Message::encode`] does, with `MisplacedFingerprint` also
    /// where the message holds a FINGERPRINT attribute already, and with
    /// `MessageTooLong` also where the attribute section leaves no room for
    /// the FINGERPRINT attribute.
    pub fn encode_with_fingerprint(&self) -> (encoded: Result<Vec<u8>, EncodeError>)
        ensures
            match encoded {
                Ok(bytes) => {
                    &&& self@.encodable_ahead(Trailer::Fingerprint)
                    &&& bytes@ == self@.spec_encode_with_fingerprint()
                },
                Err(e) => self@.spec_rejects(Trailer::Fingerprint, e),
            },
            encoded is Ok <==> self@.encodable_ahead(Trailer::Fingerprint),
    {
        let mut bytes: Vec<u8> = match self.encode_ahead(Trailer::Fingerprint) {
            Ok(bytes) => bytes,
            Err(e) => {
                return Err(e);
            },
        };
        let value: u32 = fingerprint(bytes.as_slice());
        let trailer: Attribute = Attribute::Fingerprint(value);
        trailer.encode(&self.transaction_id, &mut bytes);
        Ok(bytes)
    }

    /// Closes the message with a FINGERPRINT attribute over all that it
    /// holds: the attribute that [`Message::encode_with_fingerprint`] writes
    /// is added to the message itself.
    ///
    /// Fails as [`Message::encode_with_fingerprint`] does, and then leaves
    /// the message as it was.
    pub fn add_fingerprint(&mut self) -> (added: Result<(), EncodeError>)
        ensures
            match added {
                Ok(()) => {
                    &&& old(self)@.encodable_ahead(Trailer::Fingerprint)
                    &&& final(self)@ == old(self)@.with_attribute(
                        old(self)@.spec_fingerprint_attribute(),
                    )
                },
                Err(e) => {
                    &&& old(self)@.spec_rejects(Trailer::Fingerprint, e)
                    &&& final(self)@ == old(self)@
                },
            },
            added is Ok <==> old(self)@.encodable_ahead(Trailer::Fingerprint),
    {
        let bytes: Vec<u8> = match self.encode_ahead(Trailer::Fingerprint) {
            Ok(bytes) => bytes,
            Err(e) => {
                return Err(e);
            },
        };
        let value: u32 = fingerprint(bytes.as_slice());
        self.add_attribute(Attribute::Fingerprint(value));
        Ok(())
    }

    /// The bytes that a message authentication code must cover before it is
    /// added to the message as a MESSAGE-INTEGRITY attribute: the message as
    /// it stands, under a length field that already counts that attribute.
    ///
    /// Fails as [`Message::encode`] does, with `MisplacedFingerprint` or
    /// `MisplacedIntegrity` also where the message holds a FINGERPRINT
    /// attribute already, or ends in a MESSAGE-INTEGRITY attribute, and with
    /// `MessageTooLong` also where the attribute section leaves no room for
    /// the MESSAGE-INTEGRITY attribute.
    pub fn integrity_input(&self) -> (encoded: Result<Vec<u8>, EncodeError>)
        ensures
            match encoded {
                Ok(bytes) => {
                    &&& self@.encodable_ahead(Trailer::MessageIntegrity)
                    &&& bytes@ == self@.spec_integrity_input()
                },
                Err(e) => self@.spec_rejects(Trailer::MessageIntegrity, e),
            },
            encoded is Ok <==> self@.encodable_ahead(Trailer::MessageIntegrity),
    {
        self.encode_ahead(Trailer::MessageIntegrity)
    }

    /// Decodes a message and verifies its FINGERPRINT attribute, if it has
    /// one.
    ///
    /// What follows a MESSAGE-INTEGRITY attribute is decoded like any other
    /// attribute. A message in which anything but a FINGERPRINT attribute
    /// follows one is the only decoded message that cannot be encoded again.
    pub fn decode(bytes: &[u8]) -> (decoded: Result<Message, DecodeError>)
        ensures
            match decoded {
                Ok(m) => spec_decode(bytes@, true) == Ok::<MessageView, DecodeError>(m@),
                Err(e) => spec_decode(bytes@, true) == Err::<MessageView, DecodeError>(e),
            },
            decoded matches Ok(m) ==> (m@.encodable() <==> spec_integrity_last(m@.attributes)),
            bytes@.len() < 20 ==> decoded == Err::<Message, DecodeError>(DecodeError::TooShort),
            bytes@.len() >= 20 && bytes@[0] & 0xC0 != 0 ==> decoded == Err::<Message, DecodeError>(
                DecodeError::InvalidLeadingBits,
            ),
            bytes@.len() >= 20 && bytes@[0] & 0xC0 == 0 && 20 + spec_u16_at(bytes@, 2)
                != bytes@.len() ==> decoded == Err::<Message, DecodeError>(
                DecodeError::LengthMismatch,
            ),
            bytes@.len() >= 20 && bytes@[0] & 0xC0 == 0 && 20 + spec_u16_at(bytes@, 2)
                == bytes@.len() && spec_u32_at(bytes@, 4) != MAGIC_COOKIE ==> decoded == Err::<
                Message,
                DecodeError,
            >(DecodeError::BadMagicCookie),
    {
        Self::decode_with(bytes, true)
    }

    /// Decodes a message. A FINGERPRINT attribute must be the last attribute;
    /// its value is verified only where `verify_fingerprint` is set.
    pub fn decode_with(bytes: &[u8], verify_fingerprint: bool) -> (decoded: Result<
        Message,
        DecodeError,
    >)
        ensures
            match decoded {
                Ok(m) => spec_decode(bytes@, verify_fingerprint) == Ok::<MessageView, DecodeError>(
                    m@,
                ),
                Err(e) => spec_decode(bytes@, verify_fingerprint) == Err::<
                    MessageView,
                    DecodeError,
                >(e),
            },
            decoded matches Ok(m) ==> (m@.encodable() <==> spec_integrity_last(m@.attributes)),
            bytes@.len() < 20 ==> decoded == Err::<Message, DecodeError>(DecodeError::TooShort),
            bytes@.len() >= 20 && bytes@[0] & 0xC0 != 0 ==> decoded == Err::<Message, DecodeError>(
                DecodeError::InvalidLeadingBits,
            ),
            bytes@.len() >= 20 && bytes@[0] & 0xC0 == 0 && 20 + spec_u16_at(bytes@, 2)
                != bytes@.len() ==> decoded == Err::<Message, DecodeError>(
                DecodeError::LengthMismatch,
            ),
            bytes@.len() >= 20 && bytes@[0] & 0xC0 == 0 && 20 + spec_u16_at(bytes@, 2)
                == bytes@.len() && spec_u32_at(bytes@, 4) != MAGIC_COOKIE ==> decoded == Err::<
                Message,
                DecodeError,
            >(DecodeError::BadMagicCookie),
    {
        let len: usize = bytes.len();
        if len < HEADER_LEN {
            return Err(DecodeError::TooShort);
        }
        proof {
            if spec_decode(bytes@, verify_fingerprint) is Ok {
                lemma_decoded_is_encodable(bytes@, verify_fingerprint);
            }
        }
        let word: u16 = read_u16(bytes, 0);
        proof {
            lemma_leading_bits(bytes@[0], bytes@[1]);
        }
        let message_type: MessageType = match MessageType::from_u16(word) {
            Ok(t) => t,
            Err(_) => {
                return Err(DecodeError::InvalidLeadingBits);
            },
        };
        let length: usize = read_u16(bytes, 2) as usize;
        if length != len - HEADER_LEN {
            return Err(DecodeError::LengthMismatch);
        }
        if read_u32(bytes, 4) != MAGIC_COOKIE {
            return Err(DecodeError::BadMagicCookie);
        }
        let transaction_id: TransactionId = TransactionId::read(bytes, 8);
        match decode_attributes(bytes, &transaction_id, verify_fingerprint) {
            Ok(attributes) => Ok(
                Message {
                    class: message_type.class,
                    method: message_type.method,
                    transaction_id,
                    attributes,
                },
            ),
            Err(e) => Err(e),
        }
    }

    /// Decodes a buffer and verifies the FINGERPRINT attribute of the
    /// message, if it has one: [`Message::decode`] for a buffer that the
    /// caller owns.
    pub fn from(data: Vec<u8>) -> (decoded: Result<Message, DecodeError>)
        ensures
            match decoded {
                Ok(m) => spec_decode(data@, true) == Ok::<MessageView, DecodeError>(m@),
                Err(e) => spec_decode(data@, true) == Err::<MessageView, DecodeError>(e),
            },
            decoded matches Ok(m) ==> (m@.encodable() <==> spec_integrity_last(m@.attributes)),
            data@.len() < 20 ==> decoded == Err::<Message, DecodeError>(DecodeError::TooShort),
            data@.len() >= 20 && data@[0] & 0xC0 != 0 ==> decoded == Err::<Message, DecodeError>(
                DecodeError::InvalidLeadingBits,
            ),
            data@.len() >= 20 && data@[0] & 0xC0 == 0 && 20 + spec_u16_at(data@, 2)
                != data@.len() ==> decoded == Err::<Message, DecodeError>(
                DecodeError::LengthMismatch,
            ),
            data@.len() >= 20 && data@[0] & 0xC0 == 0 && 20 + spec_u16_at(data@, 2)
                == data@.len() && spec_u32_at(data@, 4) != MAGIC_COOKIE ==> decoded == Err::<
                Message,
                DecodeError,
            >(DecodeError::BadMagicCookie),
    {
        Self::decode(data.as_slice())
    }
}

/// Whether two lists hold the same attributes in the same order.
pub fn attributes_eq(a: &Vec<Attribute>, b: &Vec<Attribute>) -> (equal: bool)
    ensures
        equal == (spec_attribute_views(a@) == spec_attribute_views(b@)),
{
    let ghost va = spec_attribute_views(a@);
    let ghost vb = spec_attribute_views(b@);
    if a.len() != b.len() {
        assert(va.len() != vb.len());
        return false;
    }
    let mut i: usize = 0;
    while i < a.len()
        invariant
            i <= a@.len(),
            a@.len() == b@.len(),
            va == spec_attribute_views(a@),
            vb == spec_attribute_views(b@),
            forall|j: int| 0 <= j < i ==> va[j] == vb[j],
        decreases a@.len() - i,
    {
        if !(a[i] == b[i]) {
            assert(va[i as int] != vb[i as int]);
            return false;
        }
        assert(va[i as int] == vb[i as int]);
        i += 1;
    }
    assert(va =~= vb);
    true
}

impl PartialEq for Message {
    /// Two messages are equal where they have the same class, method and
    /// transaction id, and the same attributes in the same order.
    fn eq(&self, other: &Self) -> (equal: bool) {
        if self.class != other.class {
            return false;
        }
        if self.method.0 != other.method.0 {
            return false;
        }
        if !(self.transaction_id == other.transaction_id) {
            return false;
        }
        attributes_eq(&self.attributes, &other.attributes)
    }
}

impl PartialEqSpecImpl for Message {
    open spec fn obeys_eq_spec() -> bool {
        true
    }

    open spec fn eq_spec(&self, other: &Self) -> bool {
        self@ == other@
    }
}

} // verus!
