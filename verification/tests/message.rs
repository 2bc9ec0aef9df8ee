use stun_proto::message::Trailer;
use stun_proto::{
    Attribute, Client, DecodeError, EncodeError, IpAddress, Message, MessageClass, Method,
    SocketAddress, TransactionId,
};

const TEST_ID: [u8; 12] = [
    0xb7, 0xe7, 0xa7, 0x01, 0xbc, 0x34, 0xd6, 0x86, 0xfa, 0x87, 0xdf, 0xae,
];

fn binding_request_with_test_id() -> Message {
    Message::with_transaction_id(
        MessageClass::Request,
        Method::new(1),
        TransactionId::from(&TEST_ID),
    )
}

#[test]
fn message_from() {
    let m = Message::new(MessageClass::Request, Method(10));
    println!("{:?}", m);

    let v: Vec<u8> = m.to_binary();
    println!("{:?}", v);

    let m2 = Message::from(v);
    println!("{:?}", m2);

    assert_eq!(Ok(m), m2);
}

#[test]
fn transaction_id() {
    let id = TransactionId::new();
    println!("{:?}", id);
}

#[test]
fn transaction_id_has_twelve_bytes() {
    let id = TransactionId::new();
    assert_eq!(id.as_bytes().len(), 12);
}

#[test]
fn transaction_id_wraps_bytes_verbatim() {
    let id = TransactionId::from(&TEST_ID);
    assert_eq!(id.as_bytes(), &TEST_ID[..]);
    assert_eq!(id, TransactionId::from(&TEST_ID));
    assert_ne!(id, TransactionId::from(&[0u8; 12]));
}

#[test]
fn fresh_transaction_ids_differ() {
    let a = TransactionId::new();
    let b = TransactionId::new();
    assert_ne!(a, b);
}

#[test]
fn new_message_has_no_attributes() {
    let m = Message::new(MessageClass::Indication, Method::new(0x0abc));
    assert_eq!(m.class(), MessageClass::Indication);
    assert_eq!(m.method(), Method(0x0abc));
    assert_eq!(m.transaction_id().as_bytes().len(), 12);
    assert!(m.attributes().is_empty());
}

#[test]
fn binding_request_encodes_to_twenty_bytes() {
    let m = binding_request_with_test_id();
    let bytes = m.to_binary();
    assert_eq!(
        bytes,
        vec![
            0x00, 0x01, 0x00, 0x00, 0x21, 0x12, 0xA4, 0x42, 0xb7, 0xe7, 0xa7, 0x01, 0xbc, 0x34,
            0xd6, 0x86, 0xfa, 0x87, 0xdf, 0xae,
        ]
    );
    assert_eq!(m.encode(), Ok(bytes.clone()));

    let back = Message::decode(&bytes).unwrap();
    assert_eq!(back.class(), MessageClass::Request);
    assert_eq!(back.method(), Method(1));
    assert_eq!(back.transaction_id().as_bytes(), &TEST_ID[..]);
    assert!(back.attributes().is_empty());
    assert_eq!(back, m);
}

#[test]
fn header_carries_class_and_method_interleaved() {
    let m = Message::with_transaction_id(
        MessageClass::ErrorResponse,
        Method::new(0x0fff),
        TransactionId::from(&TEST_ID),
    );
    let bytes = m.to_binary();
    assert_eq!(&bytes[0..2], &[0x3f, 0xff]);
    let m = Message::with_transaction_id(
        MessageClass::SuccessResponse,
        Method::new(1),
        TransactionId::from(&TEST_ID),
    );
    assert_eq!(&m.to_binary()[0..2], &[0x01, 0x01]);
}

#[test]
fn add_attribute_keeps_order() {
    let mut m = binding_request_with_test_id();
    m.add_attribute(Attribute::Fingerprint(7));
    m.add_attribute(Attribute::UnknownAttributes(vec![1]));
    assert_eq!(
        m.attributes(),
        &[Attribute::Fingerprint(7), Attribute::UnknownAttributes(vec![1])][..]
    );
}

#[test]
fn attribute_finds_first_of_type() {
    let mut m = binding_request_with_test_id();
    m.add_attribute(Attribute::UnknownAttributes(vec![1]));
    m.add_attribute(Attribute::Opaque { attribute_type: 0x8022, value: vec![1, 2, 3] });
    m.add_attribute(Attribute::UnknownAttributes(vec![2]));
    assert_eq!(m.attribute(0x000a), Some(&Attribute::UnknownAttributes(vec![1])));
    assert_eq!(
        m.attribute(0x8022),
        Some(&Attribute::Opaque { attribute_type: 0x8022, value: vec![1, 2, 3] })
    );
    assert_eq!(m.attribute(0x0020), None);
}

#[test]
fn length_field_counts_padded_attributes() {
    let mut m = binding_request_with_test_id();
    m.add_attribute(Attribute::Opaque { attribute_type: 0x8022, value: vec![b'a', b'b', b'c'] });
    let bytes = m.to_binary();
    assert_eq!(bytes.len(), 28);
    assert_eq!(&bytes[2..4], &[0x00, 0x08]);
    assert_eq!(&bytes[20..28], &[0x80, 0x22, 0x00, 0x03, b'a', b'b', b'c', 0x00]);
}

#[test]
fn messages_differ_by_each_field() {
    let m = binding_request_with_test_id();
    let other_class = Message::with_transaction_id(
        MessageClass::Indication,
        Method::new(1),
        TransactionId::from(&TEST_ID),
    );
    let other_method = Message::with_transaction_id(
        MessageClass::Request,
        Method::new(2),
        TransactionId::from(&TEST_ID),
    );
    let other_id = Message::with_transaction_id(
        MessageClass::Request,
        Method::new(1),
        TransactionId::from(&[1u8; 12]),
    );
    let mut other_attributes = binding_request_with_test_id();
    other_attributes.add_attribute(Attribute::Fingerprint(0));
    assert_eq!(m, binding_request_with_test_id());
    assert_ne!(m, other_class);
    assert_ne!(m, other_method);
    assert_ne!(m, other_id);
    assert_ne!(m, other_attributes);
}

#[test]
fn encode_rejects_method_above_twelve_bits() {
    let m = Message::new(MessageClass::Request, Method::new(0x1000));
    assert_eq!(m.encode(), Err(EncodeError::InvalidMethod));
    assert_eq!(m.encode_with_fingerprint(), Err(EncodeError::InvalidMethod));
    assert_eq!(m.integrity_input(), Err(EncodeError::InvalidMethod));
}

#[test]
fn encode_names_first_invalid_attribute() {
    let mut m = binding_request_with_test_id();
    m.add_attribute(Attribute::UnknownAttributes(vec![1]));
    m.add_attribute(Attribute::MessageIntegrity(vec![0u8; 19]));
    m.add_attribute(Attribute::Opaque { attribute_type: 0x0001, value: vec![] });
    assert_eq!(m.encode(), Err(EncodeError::InvalidAttribute(1)));
    assert_eq!(m.encode_with_fingerprint(), Err(EncodeError::InvalidAttribute(1)));
}

#[test]
fn encode_rejects_fingerprint_that_is_not_last() {
    let mut m = binding_request_with_test_id();
    m.add_attribute(Attribute::UnknownAttributes(vec![1]));
    m.add_attribute(Attribute::Fingerprint(1));
    // last: the value is written as it is
    let bytes = m.encode().unwrap();
    assert_eq!(&bytes[28..], &[0x80, 0x28, 0x00, 0x04, 0, 0, 0, 1]);
    assert_eq!(Message::decode_with(&bytes, false), Ok(m.clone()));
    assert_eq!(Message::decode(&bytes), Err(DecodeError::FingerprintMismatch));
    // nothing may come behind it
    assert_eq!(m.encode_with_fingerprint(), Err(EncodeError::MisplacedFingerprint(1)));
    assert_eq!(m.integrity_input(), Err(EncodeError::MisplacedFingerprint(1)));
    m.add_attribute(Attribute::MessageIntegrity(vec![0u8; 19]));
    assert_eq!(m.encode(), Err(EncodeError::MisplacedFingerprint(1)));
    let mut m = binding_request_with_test_id();
    m.add_attribute(Attribute::MessageIntegrity(vec![0u8; 19]));
    m.add_attribute(Attribute::Fingerprint(1));
    m.add_attribute(Attribute::Fingerprint(1));
    assert_eq!(m.encode(), Err(EncodeError::InvalidAttribute(0)));
}

#[test]
fn encode_rejects_attribute_section_over_length_field() {
    let mut m = binding_request_with_test_id();
    m.add_attribute(Attribute::Opaque { attribute_type: 0x8022, value: vec![0u8; 40000] });
    m.add_attribute(Attribute::Opaque { attribute_type: 0x8022, value: vec![0u8; 40000] });
    assert_eq!(m.encode(), Err(EncodeError::MessageTooLong));
}

#[test]
fn largest_attribute_section_round_trips() {
    let mut m = binding_request_with_test_id();
    m.add_attribute(Attribute::Opaque { attribute_type: 0x8022, value: vec![7u8; 65528] });
    let bytes = m.encode().unwrap();
    assert_eq!(bytes.len(), 20 + 65532);
    assert_eq!(&bytes[2..4], &[0xff, 0xfc]);
    assert_eq!(Message::decode(&bytes), Ok(m.clone()));
    assert_eq!(m.encode_with_fingerprint(), Err(EncodeError::MessageTooLong));
    m.add_attribute(Attribute::Fingerprint(0));
    assert_eq!(m.encode(), Err(EncodeError::MessageTooLong));
}

#[test]
fn decode_inverts_encode_for_every_kind_of_attribute() {
    let mut m = Message::with_transaction_id(
        MessageClass::ErrorResponse,
        Method::new(0x0123),
        TransactionId::from(&TEST_ID),
    );
    m.add_attribute(Attribute::MappedAddress(SocketAddress {
        ip: IpAddress::V4(0xc0000201),
        port: 32853,
    }));
    m.add_attribute(Attribute::MappedAddress(SocketAddress {
        ip: IpAddress::V6(0x2001_0db8_1234_5678_0011_2233_4455_6677),
        port: 1,
    }));
    m.add_attribute(Attribute::XorMappedAddress(SocketAddress {
        ip: IpAddress::V4(0xc0000201),
        port: 32853,
    }));
    m.add_attribute(Attribute::XorMappedAddress(SocketAddress {
        ip: IpAddress::V6(0x2001_0db8_1234_5678_0011_2233_4455_6677),
        port: 65535,
    }));
    m.add_attribute(Attribute::ErrorCode {
        class: 4,
        number: 20,
        reason: String::from("Unknown Attribute \u{2603}"),
    });
    m.add_attribute(Attribute::UnknownAttributes(vec![0x0001, 0x0002, 0x7fff]));
    m.add_attribute(Attribute::PasswordAlgorithm(stun_proto::PasswordAlgorithm {
        algorithm: 2,
        parameters: vec![1, 2, 3, 4, 5],
    }));
    m.add_attribute(Attribute::PasswordAlgorithms(vec![
        stun_proto::PasswordAlgorithm { algorithm: 1, parameters: vec![] },
        stun_proto::PasswordAlgorithm { algorithm: 2, parameters: vec![9] },
        stun_proto::PasswordAlgorithm { algorithm: 3, parameters: vec![1, 2, 3, 4] },
    ]));
    m.add_attribute(Attribute::PasswordAlgorithms(vec![]));
    m.add_attribute(Attribute::Opaque { attribute_type: 0x8022, value: b"test vector".to_vec() });
    m.add_attribute(Attribute::Opaque { attribute_type: 0xffff, value: vec![] });
    m.add_attribute(Attribute::MessageIntegrity(vec![0xaa; 20]));

    let bytes = m.encode().unwrap();
    assert_eq!(bytes.len() % 4, 0);
    assert_eq!(
        usize::from(bytes[2]) * 256 + usize::from(bytes[3]),
        bytes.len() - 20
    );
    assert_eq!(Message::decode(&bytes), Ok(m.clone()));
    assert_eq!(Message::decode_with(&bytes, false), Ok(m.clone()));
    assert_eq!(Message::from(bytes), Ok(m));
}

#[test]
fn fingerprint_closes_the_message() {
    let mut m = binding_request_with_test_id();
    m.add_attribute(Attribute::Opaque { attribute_type: 0x8022, value: b"abc".to_vec() });
    let plain = m.encode().unwrap();
    let bytes = m.encode_with_fingerprint().unwrap();
    assert_eq!(bytes.len(), plain.len() + 8);
    // the length field counts the fingerprint attribute
    assert_eq!(&bytes[2..4], &[0x00, 0x10]);
    assert_eq!(&bytes[4..28], &plain[4..28]);
    assert_eq!(&bytes[28..32], &[0x80, 0x28, 0x00, 0x04]);
    let value = u32::from_be_bytes([bytes[32], bytes[33], bytes[34], bytes[35]]);
    assert_eq!(value, stun_proto::crc::crc32(&bytes[..28]) ^ 0x5354554e);

    let decoded = Message::decode(&bytes).unwrap();
    m.add_attribute(Attribute::Fingerprint(value));
    assert_eq!(decoded, m);
    // the message with the attribute added by hand encodes to the same bytes
    assert_eq!(m.encode(), Ok(bytes));
}

#[test]
fn corrupted_fingerprint_is_a_mismatch() {
    let m = binding_request_with_test_id();
    let mut bytes = m.encode_with_fingerprint().unwrap();
    bytes[10] ^= 0x01;
    assert_eq!(Message::decode(&bytes), Err(DecodeError::FingerprintMismatch));
    let unverified = Message::decode_with(&bytes, false).unwrap();
    assert_eq!(unverified.attributes().len(), 1);
}

#[test]
fn fingerprint_must_be_last() {
    let mut bytes = binding_request_with_test_id().to_binary();
    bytes[3] = 12;
    bytes.extend_from_slice(&[0x80, 0x28, 0x00, 0x04, 0, 0, 0, 1]);
    bytes.extend_from_slice(&[0x00, 0x0a, 0x00, 0x00]);
    assert_eq!(Message::decode(&bytes), Err(DecodeError::FingerprintNotLast));
    assert_eq!(Message::decode_with(&bytes, false), Err(DecodeError::FingerprintNotLast));
}

#[test]
fn integrity_input_counts_the_attribute_to_come() {
    let mut m = binding_request_with_test_id();
    m.add_attribute(Attribute::Opaque { attribute_type: 0x8022, value: b"abcd".to_vec() });
    let input = m.integrity_input().unwrap();
    assert_eq!(input.len(), 28);
    assert_eq!(&input[2..4], &[0x00, 0x20]);
    m.add_attribute(Attribute::MessageIntegrity(vec![0x55; 20]));
    let bytes = m.encode().unwrap();
    assert_eq!(&bytes[..28], &input[..]);
    assert_eq!(&bytes[28..32], &[0x00, 0x08, 0x00, 0x14]);
}

#[test]
fn client_builds_binding_request() {
    let c = Client::new("127.0.0.1:8080".to_string());
    assert_eq!(c.server_address(), "127.0.0.1:8080");
    let request = c.binding_request();
    assert_eq!(request.class(), MessageClass::Request);
    assert_eq!(request.method(), Method(1));
    assert!(request.attributes().is_empty());
    let bytes = request.to_binary();
    assert_eq!(bytes.len(), 20);
    assert_eq!(&bytes[..8], &[0x00, 0x01, 0x00, 0x00, 0x21, 0x12, 0xa4, 0x42]);
    assert_eq!(&bytes[8..], request.transaction_id().as_bytes());
}

#[test]
fn encode_rejects_integrity_that_is_not_last() {
    let address = Attribute::MappedAddress(SocketAddress { ip: IpAddress::V4(1), port: 2 });
    let mut m = binding_request_with_test_id();
    m.add_attribute(address.clone());
    m.add_attribute(Attribute::MessageIntegrity(vec![7u8; 20]));
    // last: it goes on the wire, and a fingerprint may still close the message
    assert!(m.is_encodable());
    assert!(m.encode().is_ok());
    assert!(m.encode_with_fingerprint().is_ok());
    // a second one may not come behind it
    assert_eq!(m.integrity_input(), Err(EncodeError::MisplacedIntegrity(1)));
    m.add_attribute(Attribute::MessageIntegrity(vec![8u8; 20]));
    assert_eq!(m.encode(), Err(EncodeError::MisplacedIntegrity(1)));

    let mut m = binding_request_with_test_id();
    m.add_attribute(Attribute::MessageIntegrity(vec![7u8; 20]));
    m.add_attribute(address.clone());
    assert!(!m.is_encodable());
    assert_eq!(m.encode(), Err(EncodeError::MisplacedIntegrity(0)));
    assert_eq!(m.encode_with_fingerprint(), Err(EncodeError::MisplacedIntegrity(0)));
    assert_eq!(m.add_fingerprint(), Err(EncodeError::MisplacedIntegrity(0)));
    assert_eq!(m.attributes().len(), 2);

    // only a fingerprint may follow, and then nothing
    let mut m = binding_request_with_test_id();
    m.add_attribute(Attribute::MessageIntegrity(vec![7u8; 20]));
    m.add_attribute(Attribute::Fingerprint(1));
    let bytes = m.encode().unwrap();
    assert_eq!(Message::decode_with(&bytes, false), Ok(m.clone()));
    m.add_attribute(address);
    assert_eq!(m.encode(), Err(EncodeError::MisplacedFingerprint(1)));
    // an attribute that cannot go on the wire at all is named first
    let mut m = binding_request_with_test_id();
    m.add_attribute(Attribute::MessageIntegrity(vec![7u8; 19]));
    m.add_attribute(Attribute::UnknownAttributes(vec![]));
    assert_eq!(m.encode(), Err(EncodeError::InvalidAttribute(0)));
}

#[test]
fn decoded_message_with_attribute_behind_integrity_cannot_be_encoded() {
    let mut bytes = binding_request_with_test_id().to_binary();
    bytes[3] = 32;
    bytes.extend_from_slice(&[0x00, 0x08, 0x00, 0x14]);
    bytes.extend_from_slice(&[9u8; 20]);
    bytes.extend_from_slice(&[0x80, 0x22, 0x00, 0x01, b'x', 0, 0, 0]);
    let m = Message::decode(&bytes).unwrap();
    assert_eq!(
        m.attributes(),
        &[
            Attribute::MessageIntegrity(vec![9u8; 20]),
            Attribute::Opaque { attribute_type: 0x8022, value: vec![b'x'] },
        ][..]
    );
    assert!(!m.is_encodable());
    assert_eq!(m.encode(), Err(EncodeError::MisplacedIntegrity(0)));
    // without the attribute behind it, the message goes back on the wire
    let m = Message::decode(&{
        let mut b = bytes[..44].to_vec();
        b[3] = 24;
        b
    })
    .unwrap();
    assert!(m.is_encodable());
    assert_eq!(m.to_binary().len(), 44);
}

#[test]
fn from_reports_malformed_buffers() {
    assert_eq!(Message::from(vec![]), Err(DecodeError::TooShort));
    assert_eq!(Message::from(vec![0u8; 19]), Err(DecodeError::TooShort));
    for n in 0..20usize {
        assert_eq!(Message::from(vec![0xffu8; n]), Err(DecodeError::TooShort));
    }
    let good = binding_request_with_test_id().to_binary();
    for first in [0x40u8, 0x80, 0xc0, 0xff] {
        let mut bytes = good.clone();
        bytes[0] = first;
        assert_eq!(Message::from(bytes), Err(DecodeError::InvalidLeadingBits));
    }
    let mut bytes = good.clone();
    bytes[7] = 0x43;
    assert_eq!(Message::from(bytes), Err(DecodeError::BadMagicCookie));
    assert_eq!(
        Message::from(vec![
            0x00, 0x01, 0x00, 0x00, 0x00, 0x00, 0x00, 0x00, 1, 2, 3, 4, 5, 6, 7, 8, 9, 10, 11, 12,
        ]),
        Err(DecodeError::BadMagicCookie)
    );
    let mut bytes = good.clone();
    bytes[3] = 4;
    assert_eq!(Message::from(bytes), Err(DecodeError::LengthMismatch));
    let mut bytes = good.clone();
    bytes.extend_from_slice(&[0u8; 4]);
    assert_eq!(Message::from(bytes), Err(DecodeError::LengthMismatch));
    let mut bytes = good.clone();
    bytes[3] = 8;
    bytes.extend_from_slice(&[0x00, 0x24, 0x00, 0x04, 0x6e, 0x00, 0x01, 0xff]);
    assert_eq!(Message::from(bytes), Err(DecodeError::UnknownRequiredAttribute(0x0024)));
    assert_eq!(
        Message::from(vec![
            0x00, 0x01, 0x00, 0x04, 0x21, 0x12, 0xA4, 0x42, 1, 2, 3, 4, 5, 6, 7, 8, 9, 10, 11, 12,
            0x80, 0x22, 0x00, 0x08,
        ]),
        Err(DecodeError::TruncatedAttribute)
    );
}

#[test]
fn from_agrees_with_decode() {
    let mut m = binding_request_with_test_id();
    m.add_attribute(Attribute::UnknownAttributes(vec![1, 2]));
    let bytes = m.encode_with_fingerprint().unwrap();
    assert_eq!(Message::from(bytes.clone()), Message::decode(&bytes));
    assert_eq!(Message::from(bytes.clone()).unwrap().attributes().len(), 2);
    let mut broken = bytes;
    broken[25] ^= 0x01;
    assert_eq!(Message::from(broken.clone()), Message::decode(&broken));
    assert_eq!(Message::from(broken), Err(DecodeError::FingerprintMismatch));
}

#[test]
fn trailer_lengths() {
    assert_eq!(Trailer::Nothing.len(), 0);
    assert_eq!(Trailer::MessageIntegrity.len(), 24);
    assert_eq!(Trailer::Fingerprint.len(), 8);
    assert!(Attribute::Fingerprint(0).is_fingerprint());
    assert!(!Attribute::MessageIntegrity(vec![0; 20]).is_fingerprint());
    assert!(!Attribute::UnknownAttributes(vec![]).is_fingerprint());
}
