//! What is written can be read, and what was read can be written: the
//! statements and their proofs.

use crate::attribute::{
    lemma_decoded_value_wf, lemma_value_roundtrip, spec_decode_value, AttributeView, FINGERPRINT,
};
use crate::crc::spec_fingerprint;
use crate::error::{spec_prepend, DecodeError, EncodeError};
use crate::message::{
    spec_attribute_fits, spec_attributes_fit, spec_attributes_wf, spec_decode,
    spec_decode_attributes, spec_encode_attributes, spec_fingerprint_last, spec_integrity_last,
    spec_misplaced_fingerprint, spec_misplaced_integrity, spec_no_fingerprint, MessageView,
    Trailer, FINGERPRINT_ATTRIBUTE_LEN,
};
use crate::message_type::{lemma_message_type_roundtrip, lemma_unpack_bounds, MessageType};
use crate::wire::{
    lemma_padded_len, lemma_u16_roundtrip, lemma_u32_roundtrip, spec_padded_len, spec_u16_at,
    spec_u16_be, spec_u32_at, spec_u32_be, HEADER_LEN, MAGIC_COOKIE, MAX_LENGTH,
};
use vstd::prelude::*;

verus! {

/// A message that can go on the wire is not refused: no error is owed to it.
pub proof fn lemma_accepted_not_rejected(m: MessageView, next: Trailer, e: EncodeError)
    requires
        m.encodable_ahead(next),
    ensures
        !m.spec_rejects(next, e),
{
    if let Some(i) = spec_rejected_at(e) {
        if i < m.attributes.len() {
            assert(spec_attribute_fits(m.attributes, i as int, next));
        }
    }
}

/// The position that an error names, if it names one.
pub open spec fn spec_rejected_at(e: EncodeError) -> Option<usize> {
    match e {
        EncodeError::InvalidAttribute(i) => Some(i),
        EncodeError::MisplacedIntegrity(i) => Some(i),
        EncodeError::MisplacedFingerprint(i) => Some(i),
        _ => None,
    }
}

/// A message that is refused is refused for one reason only: the error says
/// which.
pub proof fn lemma_rejection_unique(m: MessageView, next: Trailer, e1: EncodeError, e2: EncodeError)
    requires
        m.spec_rejects(next, e1),
        m.spec_rejects(next, e2),
    ensures
        e1 == e2,
{
    let attrs = m.attributes;
    if let Some(i) = spec_rejected_at(e1) {
        if let Some(j) = spec_rejected_at(e2) {
            if i < j {
                assert(spec_attribute_fits(attrs, i as int, next));
            } else if j < i {
                assert(spec_attribute_fits(attrs, j as int, next));
            }
        } else if e2 is MessageTooLong {
            assert(spec_attribute_fits(attrs, i as int, next));
        }
    } else if e1 is MessageTooLong {
        if let Some(j) = spec_rejected_at(e2) {
            assert(spec_attribute_fits(attrs, j as int, next));
        }
    }
}

/// Where every attribute of a list can go on the wire ahead of what is still
/// to come, every attribute can go on the wire, the list can stand alone,
/// and it holds no FINGERPRINT attribute if anything is to come.
pub proof fn lemma_fit_ahead(attrs: Seq<AttributeView>, next: Trailer)
    requires
        spec_attributes_fit(attrs, next),
    ensures
        spec_attributes_wf(attrs),
        next != Trailer::Nothing ==> spec_no_fingerprint(attrs),
        spec_attributes_fit(attrs, Trailer::Nothing),
{
    assert forall|i: int| 0 <= i < attrs.len() implies (#[trigger] attrs[i]).wf() && (next
        != Trailer::Nothing ==> !(attrs[i] is Fingerprint)) && spec_attribute_fits(
        attrs,
        i,
        Trailer::Nothing,
    ) by {
        assert(spec_attribute_fits(attrs, i, next));
    }
}

/// The two leading bits of a header are zero exactly where its first word
/// holds a message type.
pub proof fn lemma_leading_bits(hi: u8, lo: u8)
    ensures
        (hi & 0xC0 != 0) <==> (((hi as u16) << 8) | (lo as u16)) >= 0x4000,
{
    assert((hi & 0xC0 != 0) <==> (((hi as u16) << 8) | (lo as u16)) >= 0x4000) by (bit_vector);
}

/// The length of an attribute on the wire is four bytes more than its padded
/// value.
pub proof fn lemma_attribute_len(a: AttributeView, tid: Seq<u8>)
    ensures
        a.spec_encode(tid).len() == 4 + spec_padded_len(a.spec_value(tid).len() as int),
        a.spec_encode(tid).len() % 4 == 0,
{
    lemma_padded_len(a.spec_value(tid).len() as int);
}

/// The attributes from `i` on are the attribute at `i` followed by the
/// attributes after it.
pub proof fn lemma_encode_attributes_skip(attrs: Seq<AttributeView>, tid: Seq<u8>, i: int)
    requires
        0 <= i < attrs.len(),
    ensures
        spec_encode_attributes(attrs.skip(i), tid) == attrs[i].spec_encode(tid)
            + spec_encode_attributes(attrs.skip(i + 1), tid),
{
    assert(attrs.skip(i).drop_first() =~= attrs.skip(i + 1));
}

/// The attribute section has a multiple of four bytes.
pub proof fn lemma_body_aligned(attrs: Seq<AttributeView>, tid: Seq<u8>)
    ensures
        spec_encode_attributes(attrs, tid).len() % 4 == 0,
    decreases attrs.len(),
{
    if attrs.len() > 0 {
        lemma_attribute_len(attrs.first(), tid);
        lemma_body_aligned(attrs.drop_first(), tid);
    }
}

/// Where an encoded attribute lies in a byte sequence at `pos`, its type,
/// the length of its value and its value can be read there.
pub proof fn lemma_attribute_framing(msg: Seq<u8>, pos: int, a: AttributeView, tid: Seq<u8>)
    requires
        0 <= pos,
        pos + a.spec_encode(tid).len() <= msg.len(),
        msg.subrange(pos, pos + a.spec_encode(tid).len()) == a.spec_encode(tid),
        a.spec_value(tid).len() <= MAX_LENGTH,
    ensures
        a.spec_encode(tid).len() == 4 + spec_padded_len(a.spec_value(tid).len() as int),
        spec_u16_at(msg, pos) == a.attribute_type(),
        spec_u16_at(msg, pos + 2) == a.spec_value(tid).len(),
        msg.subrange(pos + 4, pos + 4 + a.spec_value(tid).len()) == a.spec_value(tid),
{
    let entry = a.spec_encode(tid);
    let value = a.spec_value(tid);
    let len = value.len() as int;
    let part = msg.subrange(pos, pos + entry.len());
    lemma_padded_len(len);
    lemma_u16_roundtrip(a.attribute_type());
    lemma_u16_roundtrip(len as u16);
    assert(msg[pos] == part[0] && msg[pos + 1] == part[1]);
    assert(msg[pos + 2] == part[2] && msg[pos + 3] == part[3]);
    assert(entry[0] == spec_u16_be(a.attribute_type())[0]);
    assert(entry[1] == spec_u16_be(a.attribute_type())[1]);
    assert(entry[2] == spec_u16_be(len as u16)[0]);
    assert(entry[3] == spec_u16_be(len as u16)[1]);
    assert forall|k: int| 0 <= k < len implies msg[pos + 4 + k] == value[k] by {
        assert(msg[pos + 4 + k] == part[4 + k]);
        assert(entry[4 + k] == value[k]);
    }
    assert(msg.subrange(pos + 4, pos + 4 + len) =~= value);
}

/// Decoding at the position of an attribute that is no FINGERPRINT yields
/// the attribute followed by what decoding behind it yields.
proof fn lemma_decode_attribute_step(
    msg: Seq<u8>,
    pos: int,
    a: AttributeView,
    verify: bool,
)
    requires
        20 <= pos,
        pos + a.spec_encode(msg.subrange(8, 20)).len() <= msg.len(),
        msg.subrange(pos, pos + a.spec_encode(msg.subrange(8, 20)).len()) == a.spec_encode(
            msg.subrange(8, 20),
        ),
        a.wf(),
        !(a is Fingerprint),
    ensures
        spec_decode_attributes(msg, pos, verify) == spec_prepend(
            seq![a],
            spec_decode_attributes(
                msg,
                pos + a.spec_encode(msg.subrange(8, 20)).len(),
                verify,
            ),
        ),
{
    let tid = msg.subrange(8, 20);
    lemma_value_roundtrip(a, tid);
    lemma_attribute_framing(msg, pos, a, tid);
    lemma_padded_len(a.spec_value(tid).len() as int);
    assert(a.attribute_type() != FINGERPRINT);
}

/// Where a stretch of bytes is the encoding of a list of attributes, its
/// front is the encoding of the first attribute and the rest that of the
/// others.
proof fn lemma_split_first(msg: Seq<u8>, pos: int, end: int, attrs: Seq<AttributeView>, tid: Seq<u8>)
    requires
        0 <= pos <= end <= msg.len(),
        attrs.len() > 0,
        msg.subrange(pos, end) == spec_encode_attributes(attrs, tid),
    ensures
        pos + attrs.first().spec_encode(tid).len() <= end,
        msg.subrange(pos, pos + attrs.first().spec_encode(tid).len()) == attrs.first().spec_encode(
            tid,
        ),
        msg.subrange(pos + attrs.first().spec_encode(tid).len(), end) == spec_encode_attributes(
            attrs.drop_first(),
            tid,
        ),
{
    let tail = msg.subrange(pos, end);
    let entry = attrs.first().spec_encode(tid);
    let others = spec_encode_attributes(attrs.drop_first(), tid);
    let next = pos + entry.len();
    assert(tail == entry + others);
    assert(tail.len() == entry.len() + others.len());
    assert(msg.subrange(pos, next) =~= entry) by {
        assert forall|k: int| 0 <= k < entry.len() implies msg[pos + k] == entry[k] by {
            assert(msg[pos + k] == tail[k]);
        }
    }
    assert(msg.subrange(next, end) =~= others) by {
        assert forall|k: int| 0 <= k < others.len() implies msg[next + k] == others[k] by {
            assert(msg[next + k] == tail[entry.len() + k]);
        }
    }
}

/// What holds of every attribute of a list holds of all but the first.
proof fn lemma_rest_of_list(attrs: Seq<AttributeView>)
    requires
        attrs.len() > 0,
        spec_attributes_wf(attrs),
        spec_no_fingerprint(attrs),
    ensures
        attrs.first().wf(),
        !(attrs.first() is Fingerprint),
        spec_attributes_wf(attrs.drop_first()),
        spec_no_fingerprint(attrs.drop_first()),
{
    let rest = attrs.drop_first();
    assert(attrs[0].wf());
    assert(!(attrs[0] is Fingerprint));
    assert forall|i: int| 0 <= i < rest.len() implies (#[trigger] rest[i]).wf() && !(rest[i]
        is Fingerprint) by {
        assert(rest[i] == attrs[i + 1]);
        assert(attrs[i + 1].wf());
        assert(!(attrs[i + 1] is Fingerprint));
    }
}

/// Putting the first attribute in front of the others in front of a result
/// is putting the whole list in front of it.
proof fn lemma_prepend_first(attrs: Seq<AttributeView>, after: Result<Seq<AttributeView>, DecodeError>)
    requires
        attrs.len() > 0,
    ensures
        spec_prepend(seq![attrs.first()], spec_prepend(attrs.drop_first(), after)) == spec_prepend(
            attrs,
            after,
        ),
{
    match after {
        Ok(items) => {
            assert(seq![attrs.first()] + (attrs.drop_first() + items) =~= attrs + items);
        },
        Err(e) => {},
    }
}

/// Where the bytes of a message from `pos` to `end` are the encoding of a
/// list of attributes that can go on the wire, none of them a FINGERPRINT,
/// decoding from `pos` yields that list followed by what decoding from `end`
/// yields.
pub proof fn lemma_attributes_roundtrip(
    msg: Seq<u8>,
    pos: int,
    end: int,
    attrs: Seq<AttributeView>,
    verify: bool,
)
    requires
        20 <= pos <= end <= msg.len(),
        msg.subrange(pos, end) == spec_encode_attributes(attrs, msg.subrange(8, 20)),
        spec_attributes_wf(attrs),
        spec_no_fingerprint(attrs),
    ensures
        spec_decode_attributes(msg, pos, verify) == spec_prepend(
            attrs,
            spec_decode_attributes(msg, end, verify),
        ),
    decreases attrs.len(),
{
    let tid = msg.subrange(8, 20);
    let after = spec_decode_attributes(msg, end, verify);
    if attrs.len() == 0 {
        assert(msg.subrange(pos, end).len() == 0);
        assert(pos == end);
        match after {
            Ok(items) => {
                assert(attrs + items =~= items);
            },
            Err(e) => {},
        }
    } else {
        let a = attrs.first();
        let rest = attrs.drop_first();
        let next = pos + a.spec_encode(tid).len();
        lemma_split_first(msg, pos, end, attrs, tid);
        lemma_rest_of_list(attrs);
        lemma_decode_attribute_step(msg, pos, a, verify);
        lemma_attributes_roundtrip(msg, next, end, rest, verify);
        lemma_prepend_first(attrs, after);
    }
}

/// The header of an encoded message reads back as it was written.
pub proof fn lemma_header_roundtrip(m: MessageView, length: u16, body: Seq<u8>)
    requires
        m.method.fits(),
        m.transaction_id.len() == 12,
    ensures
        ({
            let bytes = m.spec_header(length) + body;
            &&& bytes.len() == 20 + body.len()
            &&& bytes[0] & 0xC0 == 0
            &&& spec_u16_at(bytes, 0) == m.message_type().encoded()
            &&& MessageType::decoded(spec_u16_at(bytes, 0)) == m.message_type()
            &&& spec_u16_at(bytes, 2) == length
            &&& spec_u32_at(bytes, 4) == MAGIC_COOKIE
            &&& bytes.subrange(8, 20) == m.transaction_id
            &&& bytes.subrange(20, bytes.len() as int) == body
        }),
{
    let bytes = m.spec_header(length) + body;
    let word = m.message_type().encoded();
    lemma_message_type_roundtrip(m.class, m.method);
    lemma_u16_roundtrip(word);
    lemma_u16_roundtrip(length);
    lemma_u32_roundtrip(MAGIC_COOKIE);
    assert(bytes[0] == spec_u16_be(word)[0]);
    assert(bytes[1] == spec_u16_be(word)[1]);
    assert(bytes[2] == spec_u16_be(length)[0]);
    assert(bytes[3] == spec_u16_be(length)[1]);
    assert(bytes[4] == spec_u32_be(MAGIC_COOKIE)[0]);
    assert(bytes[5] == spec_u32_be(MAGIC_COOKIE)[1]);
    assert(bytes[6] == spec_u32_be(MAGIC_COOKIE)[2]);
    assert(bytes[7] == spec_u32_be(MAGIC_COOKIE)[3]);
    lemma_leading_bits(bytes[0], bytes[1]);
    assert(bytes.subrange(8, 20) =~= m.transaction_id);
    assert(bytes.subrange(20, bytes.len() as int) =~= body);
}

/// Decoding an encoded message gives the message back: for every message
/// that can go on the wire and holds no FINGERPRINT attribute, with or
/// without verification of fingerprints.
pub proof fn lemma_decode_encode(m: MessageView, verify: bool)
    requires
        m.encodable(),
        spec_no_fingerprint(m.attributes),
    ensures
        spec_decode(m.spec_encode(), verify) == Ok::<MessageView, DecodeError>(m),
{
    let body = m.spec_body();
    let bytes = m.spec_encode();
    lemma_fit_ahead(m.attributes, Trailer::Nothing);
    lemma_header_roundtrip(m, body.len() as u16, body);
    lemma_attributes_roundtrip(bytes, 20, bytes.len() as int, m.attributes, verify);
    assert(m.attributes + Seq::<AttributeView>::empty() =~= m.attributes);
}

/// The encoding of a list with one more attribute at its end is the
/// encoding of the list followed by that attribute.
pub proof fn lemma_encode_attributes_push(attrs: Seq<AttributeView>, a: AttributeView, tid: Seq<u8>)
    ensures
        spec_encode_attributes(attrs.push(a), tid) == spec_encode_attributes(attrs, tid)
            + a.spec_encode(tid),
    decreases attrs.len(),
{
    let longer = attrs.push(a);
    if attrs.len() == 0 {
        assert(longer.drop_first() =~= Seq::empty());
        assert(spec_encode_attributes(longer.drop_first(), tid) =~= Seq::empty());
        assert(spec_encode_attributes(longer, tid) =~= a.spec_encode(tid));
        assert(spec_encode_attributes(attrs, tid) + a.spec_encode(tid) =~= a.spec_encode(tid));
    } else {
        assert(longer.drop_first() =~= attrs.drop_first().push(a));
        assert(longer.first() == attrs.first());
        lemma_encode_attributes_push(attrs.drop_first(), a, tid);
        assert(spec_encode_attributes(longer, tid) =~= spec_encode_attributes(attrs, tid)
            + a.spec_encode(tid));
    }
}

/// A message with one more attribute at its end encodes to the message
/// encoded ahead of that attribute, followed by the attribute: what was
/// computed over the bytes encoded ahead holds of the final message, length
/// field included.
pub proof fn lemma_encode_with_attribute(m: MessageView, a: AttributeView)
    ensures
        m.with_attribute(a).spec_encode() == m.spec_encode_ahead(
            a.spec_encode(m.transaction_id).len() as int,
        ) + a.spec_encode(m.transaction_id),
{
    let tid = m.transaction_id;
    lemma_encode_attributes_push(m.attributes, a, tid);
    let longer = m.with_attribute(a);
    assert(longer.spec_body() == m.spec_body() + a.spec_encode(tid));
    assert(longer.spec_header(longer.spec_body().len() as u16) == m.spec_header(
        (m.spec_body().len() + a.spec_encode(tid).len()) as u16,
    ));
    assert(longer.spec_encode() =~= m.spec_encode_ahead(a.spec_encode(tid).len() as int)
        + a.spec_encode(tid));
}

/// A FINGERPRINT attribute that ends the message decodes to itself, where
/// fingerprints are not verified or it holds the checksum of all bytes in
/// front of it.
pub proof fn lemma_decode_trailing_fingerprint(msg: Seq<u8>, end: int, v: u32, verify: bool)
    requires
        20 <= end,
        msg.len() == end + 8,
        msg.subrange(end, end + 8) == AttributeView::Fingerprint(v).spec_encode(
            msg.subrange(8, 20),
        ),
        verify ==> v == spec_fingerprint(msg.subrange(0, end)),
    ensures
        spec_decode_attributes(msg, end, verify) == Ok::<Seq<AttributeView>, DecodeError>(
            seq![AttributeView::Fingerprint(v)],
        ),
{
    let tid = msg.subrange(8, 20);
    let fp = AttributeView::Fingerprint(v);
    assert(fp.spec_value(tid) == spec_u32_be(v));
    assert(spec_padded_len(4) == 4);
    assert(fp.spec_encode(tid).len() == 8);
    lemma_value_roundtrip(fp, tid);
    lemma_attribute_framing(msg, end, fp, tid);
    assert(spec_decode_attributes(msg, end + 8, verify) == Ok::<Seq<AttributeView>, DecodeError>(
        Seq::empty(),
    ));
    assert(seq![fp] + Seq::<AttributeView>::empty() =~= seq![fp]);
}

/// The layout of a message that was encoded ahead of eight more bytes,
/// followed by those bytes.
proof fn lemma_trailer_layout(m: MessageView, trailer: Seq<u8>)
    requires
        m.method.fits(),
        m.transaction_id.len() == 12,
        m.spec_body().len() + 8 <= MAX_LENGTH,
        trailer.len() == 8,
    ensures
        ({
            let bytes = m.spec_encode_ahead(8) + trailer;
            let end = 20 + m.spec_body().len() as int;
            &&& bytes.len() == end + 8
            &&& bytes[0] & 0xC0 == 0
            &&& MessageType::decoded(spec_u16_at(bytes, 0)) == m.message_type()
            &&& HEADER_LEN + spec_u16_at(bytes, 2) == bytes.len()
            &&& spec_u32_at(bytes, 4) == MAGIC_COOKIE
            &&& bytes.subrange(8, 20) == m.transaction_id
            &&& bytes.subrange(20, end) == m.spec_body()
            &&& bytes.subrange(0, end) == m.spec_encode_ahead(8)
            &&& bytes.subrange(end, end + 8) == trailer
        }),
{
    let body = m.spec_body();
    let length = (body.len() + 8) as u16;
    let head = m.spec_encode_ahead(8);
    let bytes = head + trailer;
    let end = 20 + body.len() as int;
    lemma_header_roundtrip(m, length, body + trailer);
    assert(bytes =~= m.spec_header(length) + (body + trailer));
    assert(head.len() == end);
    assert(bytes.subrange(20, end) =~= body);
    assert(bytes.subrange(0, end) =~= head);
    assert(bytes.subrange(end, end + 8) =~= trailer);
}

/// Decoding the attributes of a message whose attribute section is the
/// encoding of a list without FINGERPRINT attributes, followed by a
/// FINGERPRINT attribute, yields the list with that attribute at its end.
proof fn lemma_decode_attributes_with_trailer(
    msg: Seq<u8>,
    end: int,
    attrs: Seq<AttributeView>,
    v: u32,
    verify: bool,
)
    requires
        20 <= end,
        msg.len() == end + 8,
        msg.subrange(20, end) == spec_encode_attributes(attrs, msg.subrange(8, 20)),
        msg.subrange(end, end + 8) == AttributeView::Fingerprint(v).spec_encode(
            msg.subrange(8, 20),
        ),
        spec_attributes_wf(attrs),
        spec_no_fingerprint(attrs),
        verify ==> v == spec_fingerprint(msg.subrange(0, end)),
    ensures
        spec_decode_attributes(msg, 20, verify) == Ok::<Seq<AttributeView>, DecodeError>(
            attrs.push(AttributeView::Fingerprint(v)),
        ),
{
    let fp = AttributeView::Fingerprint(v);
    lemma_decode_trailing_fingerprint(msg, end, v, verify);
    lemma_attributes_roundtrip(msg, 20, end, attrs, verify);
    assert(attrs + seq![fp] =~= attrs.push(fp));
}

/// Decoding a message that was encoded ahead of a FINGERPRINT attribute and
/// closed by one gives the message back with that attribute at its end, where
/// fingerprints are not verified or the attribute holds the checksum of all
/// bytes in front of it.
pub proof fn lemma_decode_closed(m: MessageView, v: u32, verify: bool)
    requires
        m.encodable_ahead(Trailer::Fingerprint),
        verify ==> v == spec_fingerprint(m.spec_fingerprint_input()),
    ensures
        spec_decode(
            m.spec_fingerprint_input() + AttributeView::Fingerprint(v).spec_encode(
                m.transaction_id,
            ),
            verify,
        ) == Ok::<MessageView, DecodeError>(m.with_attribute(AttributeView::Fingerprint(v))),
{
    let tid = m.transaction_id;
    let fp = AttributeView::Fingerprint(v);
    let trailer = fp.spec_encode(tid);
    let bytes = m.spec_encode_ahead(8) + trailer;
    let end = 20 + m.spec_body().len() as int;
    assert(trailer.len() == 8) by {
        lemma_attribute_len(fp, tid);
        assert(fp.spec_value(tid) == spec_u32_be(v));
        assert(spec_padded_len(4) == 4);
    }
    lemma_fit_ahead(m.attributes, Trailer::Fingerprint);
    lemma_trailer_layout(m, trailer);
    lemma_decode_attributes_with_trailer(bytes, end, m.attributes, v, verify);
}

/// Decoding a message that was encoded with a trailing FINGERPRINT attribute,
/// with verification of fingerprints, gives the message back with that
/// attribute at its end: for every message that can go on the wire ahead of a
/// FINGERPRINT attribute.
pub proof fn lemma_decode_encode_with_fingerprint(m: MessageView)
    requires
        m.encodable_ahead(Trailer::Fingerprint),
    ensures
        spec_decode(m.spec_encode_with_fingerprint(), true) == Ok::<MessageView, DecodeError>(
            m.with_attribute(m.spec_fingerprint_attribute()),
        ),
{
    lemma_decode_closed(m, spec_fingerprint(m.spec_fingerprint_input()), true);
}

/// Decoding an encoded message without verification of fingerprints gives
/// the message back: for every message that can go on the wire.
pub proof fn lemma_decode_encode_unverified(m: MessageView)
    requires
        m.encodable(),
    ensures
        spec_decode(m.spec_encode(), false) == Ok::<MessageView, DecodeError>(m),
{
    let attrs = m.attributes;
    if spec_no_fingerprint(attrs) {
        lemma_decode_encode(m, false);
    } else {
        let tid = m.transaction_id;
        let i = choose|i: int| 0 <= i < attrs.len() && (#[trigger] attrs[i]) is Fingerprint;
        assert(spec_attribute_fits(attrs, i, Trailer::Nothing));
        let fp = attrs.last();
        let v = fp->Fingerprint_0;
        let front = attrs.drop_last();
        let inner = MessageView { attributes: front, ..m };
        assert(fp == AttributeView::Fingerprint(v));
        assert(m == inner.with_attribute(fp)) by {
            assert(attrs =~= front.push(fp));
        }
        assert(fp.spec_encode(tid).len() == 8) by {
            lemma_attribute_len(fp, tid);
            assert(fp.spec_value(tid) == spec_u32_be(v));
            assert(spec_padded_len(4) == 4);
        }
        lemma_encode_with_attribute(inner, fp);
        lemma_encode_attributes_push(front, fp, tid);
        assert(spec_attributes_fit(front, Trailer::Fingerprint)) by {
            assert forall|j: int| 0 <= j < front.len() implies #[trigger] spec_attribute_fits(
                front,
                j,
                Trailer::Fingerprint,
            ) by {
                assert(spec_attribute_fits(attrs, j, Trailer::Nothing));
                assert(front[j] == attrs[j]);
                if j + 1 < front.len() {
                    assert(front[j + 1] == attrs[j + 1]);
                }
            }
        }
        lemma_decode_closed(inner, v, false);
    }
}

/// Encoding with a trailing FINGERPRINT attribute is encoding the message
/// with that attribute at its end: the length field that the checksum covers
/// is the one of the finished message.
pub proof fn lemma_fingerprint_is_last_attribute(m: MessageView)
    ensures
        m.spec_encode_with_fingerprint() == m.with_attribute(
            m.spec_fingerprint_attribute(),
        ).spec_encode(),
{
    let fp = m.spec_fingerprint_attribute();
    let tid = m.transaction_id;
    lemma_attribute_len(fp, tid);
    assert(fp.spec_value(tid).len() == 4) by {
        assert(fp.spec_value(tid) == spec_u32_be(spec_fingerprint(m.spec_fingerprint_input())));
    }
    assert(spec_padded_len(4) == 4);
    assert(fp.spec_encode(tid).len() == FINGERPRINT_ATTRIBUTE_LEN);
    lemma_encode_with_attribute(m, fp);
}

/// The header of an encoded message states what the message holds: its two
/// leading bits are zero, its length field is the number of bytes after the
/// header, which is a multiple of four, and its cookie is the fixed constant.
pub proof fn lemma_encoded_header(m: MessageView)
    requires
        m.encodable(),
    ensures
        m.spec_encode().len() == HEADER_LEN + m.spec_body().len(),
        m.spec_body().len() % 4 == 0,
        m.spec_encode()[0] & 0xC0 == 0,
        spec_u16_at(m.spec_encode(), 0) == m.message_type().encoded(),
        spec_u16_at(m.spec_encode(), 2) == m.spec_body().len(),
        spec_u32_at(m.spec_encode(), 4) == MAGIC_COOKIE,
        m.spec_encode().subrange(8, 20) == m.transaction_id,
{
    lemma_body_aligned(m.attributes, m.transaction_id);
    lemma_header_roundtrip(m, m.spec_body().len() as u16, m.spec_body());
}

/// Decoded attributes can each go on the wire again, into as many bytes as
/// they were decoded from, and a FINGERPRINT attribute among them is the last
/// one.
pub proof fn lemma_decoded_attributes(msg: Seq<u8>, pos: int, verify: bool)
    requires
        20 <= pos <= msg.len(),
        spec_decode_attributes(msg, pos, verify) is Ok,
    ensures
        spec_attributes_wf(spec_decode_attributes(msg, pos, verify)->Ok_0),
        spec_fingerprint_last(spec_decode_attributes(msg, pos, verify)->Ok_0),
        spec_encode_attributes(
            spec_decode_attributes(msg, pos, verify)->Ok_0,
            msg.subrange(8, 20),
        ).len() == msg.len() - pos,
    decreases msg.len() - pos,
{
    let tid = msg.subrange(8, 20);
    let attrs = spec_decode_attributes(msg, pos, verify)->Ok_0;
    if pos >= msg.len() {
        assert(attrs =~= Seq::empty());
    } else {
        let typ = spec_u16_at(msg, pos);
        let len = spec_u16_at(msg, pos + 2) as int;
        let next = pos + 4 + spec_padded_len(len);
        let value = msg.subrange(pos + 4, pos + 4 + len);
        let a = spec_decode_value(typ, value, tid)->Ok_0;
        lemma_padded_len(len);
        lemma_decoded_value_wf(typ, value, tid);
        lemma_attribute_len(a, tid);
        lemma_decoded_attributes(msg, next, verify);
        let rest = spec_decode_attributes(msg, next, verify)->Ok_0;
        assert(attrs == seq![a] + rest);
        assert(attrs.first() == a);
        assert(attrs.drop_first() =~= rest);
        if a is Fingerprint {
            assert(typ == FINGERPRINT);
            assert(next >= msg.len());
            assert(rest.len() == 0);
        }
        assert forall|i: int| 0 <= i < attrs.len() implies (#[trigger] attrs[i]).wf() by {
            if i > 0 {
                assert(attrs[i] == rest[i - 1]);
            }
        }
        assert forall|i: int| 0 <= i < attrs.len() implies !#[trigger] spec_misplaced_fingerprint(
            attrs,
            i,
            Trailer::Nothing,
        ) by {
            if i > 0 {
                assert(attrs[i] == rest[i - 1]);
                assert(!spec_misplaced_fingerprint(rest, i - 1, Trailer::Nothing));
            }
        }
    }
}

/// A decoded message can be encoded again, into as many bytes as it was
/// decoded from, unless it holds a MESSAGE-INTEGRITY attribute that is
/// followed by anything but a FINGERPRINT attribute.
pub proof fn lemma_decoded_is_encodable(bytes: Seq<u8>, verify: bool)
    requires
        spec_decode(bytes, verify) is Ok,
    ensures
        (spec_decode(bytes, verify)->Ok_0).encodable() <==> spec_integrity_last(
            (spec_decode(bytes, verify)->Ok_0).attributes,
        ),
        (spec_decode(bytes, verify)->Ok_0).spec_encode().len() == bytes.len(),
{
    let m = spec_decode(bytes, verify)->Ok_0;
    let attrs = m.attributes;
    lemma_unpack_bounds(spec_u16_at(bytes, 0));
    lemma_decoded_attributes(bytes, 20, verify);
    assert(m.transaction_id.len() == 12);
    assert(m.spec_body().len() == bytes.len() - 20);
    lemma_header_roundtrip(m, m.spec_body().len() as u16, m.spec_body());
    if spec_integrity_last(attrs) {
        assert forall|i: int| 0 <= i < attrs.len() implies #[trigger] spec_attribute_fits(
            attrs,
            i,
            Trailer::Nothing,
        ) by {
            assert(attrs[i].wf());
            assert(!spec_misplaced_fingerprint(attrs, i, Trailer::Nothing));
            assert(!spec_misplaced_integrity(attrs, i, Trailer::Nothing));
        }
    }
    if m.encodable() {
        assert forall|i: int| 0 <= i < attrs.len() implies !#[trigger] spec_misplaced_integrity(
            attrs,
            i,
            Trailer::Nothing,
        ) by {
            assert(spec_attribute_fits(attrs, i, Trailer::Nothing));
        }
    }
}

} // verus!
