use stun_proto::attribute::{
    ERROR_CODE, FINGERPRINT, MAPPED_ADDRESS, MESSAGE_INTEGRITY, PASSWORD_ALGORITHM,
    PASSWORD_ALGORITHMS, UNKNOWN_ATTRIBUTES, XOR_MAPPED_ADDRESS,
};
use stun_proto::{
    Attribute, DecodeError, IpAddress, Message, MessageClass, Method, PasswordAlgorithm,
    SocketAddress, TransactionId,
};

const VECTOR_ID: [u8; 12] = [
    0xb7, 0xe7, 0xa7, 0x01, 0xbc, 0x34, 0xd6, 0x86, 0xfa, 0x87, 0xdf, 0xae,
];

fn vector_id() -> TransactionId {
    TransactionId::from(&VECTOR_ID)
}

fn encoded(attr: &Attribute) -> Vec<u8> {
    let mut out = Vec::new();
    attr.encode(&vector_id(), &mut out);
    out
}

fn decoded(typ: u16, value: &[u8]) -> Result<Attribute, DecodeError> {
    Attribute::decode_value(typ, value, &vector_id())
}

#[test]
fn attribute_types() {
    let addr = SocketAddress { ip: IpAddress::V4(0), port: 0 };
    assert_eq!(Attribute::MappedAddress(addr).attribute_type(), 0x0001);
    assert_eq!(Attribute::MessageIntegrity(vec![0; 20]).attribute_type(), 0x0008);
    assert_eq!(
        Attribute::ErrorCode { class: 4, number: 0, reason: String::new() }.attribute_type(),
        0x0009
    );
    assert_eq!(Attribute::UnknownAttributes(vec![]).attribute_type(), 0x000a);
    assert_eq!(
        Attribute::PasswordAlgorithm(PasswordAlgorithm { algorithm: 1, parameters: vec![] })
            .attribute_type(),
        0x001d
    );
    assert_eq!(Attribute::XorMappedAddress(addr).attribute_type(), 0x0020);
    assert_eq!(Attribute::PasswordAlgorithms(vec![]).attribute_type(), 0x8002);
    assert_eq!(Attribute::Fingerprint(0).attribute_type(), 0x8028);
    assert_eq!(
        Attribute::Opaque { attribute_type: 0x8022, value: vec![] }.attribute_type(),
        0x8022
    );
    assert_eq!(MAPPED_ADDRESS, 0x0001);
    assert_eq!(MESSAGE_INTEGRITY, 0x0008);
    assert_eq!(ERROR_CODE, 0x0009);
    assert_eq!(UNKNOWN_ATTRIBUTES, 0x000a);
    assert_eq!(PASSWORD_ALGORITHM, 0x001d);
    assert_eq!(XOR_MAPPED_ADDRESS, 0x0020);
    assert_eq!(PASSWORD_ALGORITHMS, 0x8002);
    assert_eq!(FINGERPRINT, 0x8028);
}

#[test]
fn xor_mapped_address_ipv4_matches_published_vector() {
    let attr = Attribute::XorMappedAddress(SocketAddress {
        ip: IpAddress::V4(0xc0000201),
        port: 32853,
    });
    let value = attr.encode_value(&vector_id());
    assert_eq!(value, vec![0x00, 0x01, 0xa1, 0x47, 0xe1, 0x12, 0xa6, 0x43]);
    assert_eq!(u16::from_be_bytes([value[2], value[3]]), 32853 ^ 0x2112);
    assert_eq!(
        u32::from_be_bytes([value[4], value[5], value[6], value[7]]),
        0xc0000201 ^ 0x2112a442
    );
    assert_eq!(
        encoded(&attr),
        vec![0x00, 0x20, 0x00, 0x08, 0x00, 0x01, 0xa1, 0x47, 0xe1, 0x12, 0xa6, 0x43]
    );
    assert_eq!(decoded(0x0020, &value), Ok(attr));
}

#[test]
fn xor_mapped_address_ipv6_matches_published_vector() {
    let attr = Attribute::XorMappedAddress(SocketAddress {
        ip: IpAddress::V6(0x2001_0db8_1234_5678_0011_2233_4455_6677),
        port: 32853,
    });
    let value = attr.encode_value(&vector_id());
    assert_eq!(
        value,
        vec![
            0x00, 0x02, 0xa1, 0x47, 0x01, 0x13, 0xa9, 0xfa, 0xa5, 0xd3, 0xf1, 0x79, 0xbc, 0x25,
            0xf4, 0xb5, 0xbe, 0xd2, 0xb9, 0xd9,
        ]
    );
    assert_eq!(decoded(0x0020, &value), Ok(attr));
}

#[test]
fn xor_mask_depends_on_transaction_id_for_ipv6_only() {
    let other = TransactionId::from(&[0u8; 12]);
    let v4 = Attribute::XorMappedAddress(SocketAddress { ip: IpAddress::V4(1), port: 2 });
    let v6 = Attribute::XorMappedAddress(SocketAddress { ip: IpAddress::V6(1), port: 2 });
    assert_eq!(v4.encode_value(&vector_id()), v4.encode_value(&other));
    assert_ne!(v6.encode_value(&vector_id()), v6.encode_value(&other));
    assert_eq!(
        v6.encode_value(&other),
        vec![
            0x00, 0x02, 0x21, 0x10, 0x21, 0x12, 0xa4, 0x42, 0, 0, 0, 0, 0, 0, 0, 0, 0, 0, 0, 1,
        ]
    );
}

#[test]
fn mapped_address_is_in_the_clear() {
    let attr = Attribute::MappedAddress(SocketAddress {
        ip: IpAddress::V4(0xc0000201),
        port: 32853,
    });
    let value = attr.encode_value(&vector_id());
    assert_eq!(value, vec![0x00, 0x01, 0x80, 0x55, 0xc0, 0x00, 0x02, 0x01]);
    assert_eq!(decoded(0x0001, &value), Ok(attr));
    // the first byte is ignored on receipt
    assert_eq!(
        decoded(0x0001, &[0xff, 0x01, 0x80, 0x55, 0xc0, 0x00, 0x02, 0x01]),
        Ok(Attribute::MappedAddress(SocketAddress { ip: IpAddress::V4(0xc0000201), port: 32853 }))
    );
}

#[test]
fn socket_address_mask_is_an_involution() {
    let id = vector_id();
    let v4 = SocketAddress { ip: IpAddress::V4(0xc0000201), port: 32853 };
    let v6 = SocketAddress { ip: IpAddress::V6(0x2001_0db8_1234_5678_0011_2233_4455_6677), port: 9 };
    assert_eq!(v4.mask(&id), SocketAddress { ip: IpAddress::V4(0xe112a643), port: 0xa147 });
    assert_eq!(v4.mask(&id).mask(&id), v4);
    assert_eq!(v6.mask(&id).mask(&id), v6);
    assert_eq!(
        stun_proto::address::xor_mask(&id),
        0x2112a442_b7e7a701_bc34d686_fa87dfae
    );
}

#[test]
fn address_errors() {
    assert_eq!(decoded(0x0001, &[0, 1, 0]), Err(DecodeError::InvalidAttributeLength(0x0001)));
    assert_eq!(
        decoded(0x0001, &[0, 1, 0, 80, 1, 2, 3]),
        Err(DecodeError::InvalidAttributeLength(0x0001))
    );
    assert_eq!(
        decoded(0x0020, &[0, 2, 0, 80, 1, 2, 3, 4]),
        Err(DecodeError::InvalidAttributeLength(0x0020))
    );
    assert_eq!(
        decoded(0x0020, &[0, 1, 0, 80, 1, 2, 3, 4, 5, 6, 7, 8, 9, 10, 11, 12, 13, 14, 15, 16]),
        Err(DecodeError::InvalidAttributeLength(0x0020))
    );
    assert_eq!(
        decoded(0x0001, &[0, 3, 0, 80, 1, 2, 3, 4]),
        Err(DecodeError::InvalidAddressFamily(3))
    );
    assert_eq!(
        decoded(0x0020, &[0, 0, 0, 80, 1, 2, 3, 4]),
        Err(DecodeError::InvalidAddressFamily(0))
    );
}

#[test]
fn error_code_layout() {
    let attr = Attribute::ErrorCode { class: 4, number: 20, reason: String::from("Unknown") };
    let bytes = encoded(&attr);
    assert_eq!(
        bytes,
        vec![
            0x00, 0x09, 0x00, 0x0b, 0x00, 0x00, 0x04, 0x14, b'U', b'n', b'k', b'n', b'o', b'w',
            b'n', 0x00,
        ]
    );
    assert_eq!(decoded(0x0009, &bytes[4..15]), Ok(attr));
}

#[test]
fn error_code_reason_is_utf8() {
    let attr = Attribute::ErrorCode {
        class: 3,
        number: 0,
        reason: String::from("r\u{e9}essayer \u{2764}"),
    };
    let value = attr.encode_value(&vector_id());
    assert_eq!(&value[4..], "r\u{e9}essayer \u{2764}".as_bytes());
    assert_eq!(decoded(0x0009, &value), Ok(attr));
    assert_eq!(
        decoded(0x0009, &[0, 0, 4, 1]),
        Ok(Attribute::ErrorCode { class: 4, number: 1, reason: String::new() })
    );
    assert_eq!(decoded(0x0009, &[0, 0, 4, 1, 0xff]), Err(DecodeError::InvalidReasonPhrase));
    assert_eq!(decoded(0x0009, &[0, 0, 4, 1, 0xc3]), Err(DecodeError::InvalidReasonPhrase));
    assert_eq!(
        decoded(0x0009, &[0, 0, 4, 1, 0xed, 0xa0, 0x80]),
        Err(DecodeError::InvalidReasonPhrase)
    );
}

#[test]
fn error_code_ignores_reserved_bits() {
    assert_eq!(
        decoded(0x0009, &[0xff, 0xff, 0xfc, 99, b'x']),
        Ok(Attribute::ErrorCode { class: 4, number: 99, reason: String::from("x") })
    );
    assert_eq!(decoded(0x0009, &[0, 0, 4]), Err(DecodeError::InvalidAttributeLength(0x0009)));
    assert_eq!(decoded(0x0009, &[]), Err(DecodeError::InvalidAttributeLength(0x0009)));
}

#[test]
fn unknown_attributes_round_trip_in_order() {
    let mut m = Message::with_transaction_id(
        MessageClass::ErrorResponse,
        Method::new(1),
        vector_id(),
    );
    m.add_attribute(Attribute::ErrorCode {
        class: 4,
        number: 20,
        reason: String::from("Unknown Attribute"),
    });
    m.add_attribute(Attribute::UnknownAttributes(vec![0x0001, 0x0002]));
    let bytes = m.encode().unwrap();
    assert_eq!(&bytes[bytes.len() - 8..], &[0x00, 0x0a, 0x00, 0x04, 0x00, 0x01, 0x00, 0x02]);
    let back = Message::decode(&bytes).unwrap();
    assert_eq!(
        back.attribute(0x000a),
        Some(&Attribute::UnknownAttributes(vec![0x0001, 0x0002]))
    );
    match back.attribute(0x000a) {
        Some(Attribute::UnknownAttributes(types)) => assert_eq!(types, &vec![0x0001, 0x0002]),
        other => panic!("unexpected attribute {:?}", other),
    }
}

#[test]
fn unknown_attributes_layout() {
    let attr = Attribute::UnknownAttributes(vec![0x0001, 0x8022, 0x1234]);
    assert_eq!(
        encoded(&attr),
        vec![0x00, 0x0a, 0x00, 0x06, 0x00, 0x01, 0x80, 0x22, 0x12, 0x34, 0x00, 0x00]
    );
    assert_eq!(decoded(0x000a, &[0x00, 0x01, 0x80, 0x22, 0x12, 0x34]), Ok(attr));
    assert_eq!(decoded(0x000a, &[]), Ok(Attribute::UnknownAttributes(vec![])));
    assert_eq!(
        decoded(0x000a, &[0x00, 0x01, 0x80]),
        Err(DecodeError::InvalidAttributeLength(0x000a))
    );
}

#[test]
fn password_algorithm_layout() {
    let attr = Attribute::PasswordAlgorithm(PasswordAlgorithm {
        algorithm: 2,
        parameters: vec![0xaa, 0xbb, 0xcc],
    });
    assert_eq!(
        encoded(&attr),
        vec![0x00, 0x1d, 0x00, 0x08, 0x00, 0x02, 0x00, 0x03, 0xaa, 0xbb, 0xcc, 0x00]
    );
    assert_eq!(decoded(0x001d, &[0x00, 0x02, 0x00, 0x03, 0xaa, 0xbb, 0xcc, 0x00]), Ok(attr));
    assert_eq!(decoded(0x001d, &[]), Err(DecodeError::InvalidAttributeLength(0x001d)));
    assert_eq!(
        decoded(0x001d, &[0x00, 0x02, 0x00, 0x03, 0xaa, 0xbb, 0xcc]),
        Err(DecodeError::InvalidAttributeLength(0x001d))
    );
    assert_eq!(
        decoded(0x001d, &[0x00, 0x01, 0x00, 0x00, 0x00, 0x02, 0x00, 0x00]),
        Err(DecodeError::InvalidAttributeLength(0x001d))
    );
}

#[test]
fn password_algorithms_layout() {
    let list = vec![
        PasswordAlgorithm { algorithm: 1, parameters: vec![] },
        PasswordAlgorithm { algorithm: 2, parameters: vec![1, 2, 3, 4, 5] },
    ];
    let attr = Attribute::PasswordAlgorithms(list.clone());
    let value = attr.encode_value(&vector_id());
    assert_eq!(
        value,
        vec![0x00, 0x01, 0x00, 0x00, 0x00, 0x02, 0x00, 0x05, 1, 2, 3, 4, 5, 0, 0, 0]
    );
    assert_eq!(decoded(0x8002, &value), Ok(attr));
    assert_eq!(stun_proto::algorithm::decode_algorithms(0x8002, &value), Ok(list.clone()));
    assert_eq!(stun_proto::algorithm::algorithms_len(&list), Some(16));
    assert_eq!(decoded(0x8002, &[]), Ok(Attribute::PasswordAlgorithms(vec![])));
    assert_eq!(decoded(0x8002, &[0, 1, 0]), Err(DecodeError::InvalidAttributeLength(0x8002)));
    assert_eq!(
        decoded(0x8002, &[0, 1, 0, 1, 9]),
        Err(DecodeError::InvalidAttributeLength(0x8002))
    );
}

#[test]
fn message_integrity_and_fingerprint_layout() {
    let mac: Vec<u8> = (0u8..20).collect();
    let attr = Attribute::MessageIntegrity(mac.clone());
    let bytes = encoded(&attr);
    assert_eq!(&bytes[..4], &[0x00, 0x08, 0x00, 0x14]);
    assert_eq!(&bytes[4..], &mac[..]);
    assert_eq!(decoded(0x0008, &mac), Ok(attr));
    assert_eq!(decoded(0x0008, &mac[..19]), Err(DecodeError::InvalidAttributeLength(0x0008)));

    let fp = Attribute::Fingerprint(0xe57a3bcf);
    assert_eq!(encoded(&fp), vec![0x80, 0x28, 0x00, 0x04, 0xe5, 0x7a, 0x3b, 0xcf]);
    assert_eq!(decoded(0x8028, &[0xe5, 0x7a, 0x3b, 0xcf]), Ok(fp));
    assert_eq!(
        decoded(0x8028, &[0xe5, 0x7a, 0x3b]),
        Err(DecodeError::InvalidAttributeLength(0x8028))
    );
}

#[test]
fn unknown_types_split_at_comprehension_boundary() {
    assert_eq!(decoded(0x7fff, &[1]), Err(DecodeError::UnknownRequiredAttribute(0x7fff)));
    assert_eq!(decoded(0x0000, &[]), Err(DecodeError::UnknownRequiredAttribute(0x0000)));
    assert_eq!(decoded(0x0006, b"user"), Err(DecodeError::UnknownRequiredAttribute(0x0006)));
    assert_eq!(
        decoded(0x8000, &[1, 2]),
        Ok(Attribute::Opaque { attribute_type: 0x8000, value: vec![1, 2] })
    );
    assert_eq!(
        decoded(0xffff, &[]),
        Ok(Attribute::Opaque { attribute_type: 0xffff, value: vec![] })
    );
}

#[test]
fn padding_is_zero_and_not_part_of_the_value() {
    for n in 0..9usize {
        let attr = Attribute::Opaque { attribute_type: 0x8022, value: vec![0x5a; n] };
        let bytes = encoded(&attr);
        let padded = (n + 3) / 4 * 4;
        assert_eq!(bytes.len(), 4 + padded);
        assert_eq!(&bytes[..4], &[0x80, 0x22, 0x00, n as u8]);
        assert!(bytes[4..4 + n].iter().all(|b| *b == 0x5a));
        assert!(bytes[4 + n..].iter().all(|b| *b == 0));
        assert_eq!(attr.encode_value(&vector_id()).len(), n);
    }
}

#[test]
fn validity_of_attributes() {
    let addr = SocketAddress { ip: IpAddress::V6(0), port: 0 };
    assert!(Attribute::MappedAddress(addr).is_valid());
    assert!(Attribute::XorMappedAddress(addr).is_valid());
    assert!(Attribute::Fingerprint(0).is_valid());
    assert!(Attribute::ErrorCode { class: 7, number: 255, reason: String::new() }.is_valid());
    assert!(!Attribute::ErrorCode { class: 8, number: 0, reason: String::new() }.is_valid());
    assert!(Attribute::ErrorCode { class: 4, number: 0, reason: "x".repeat(65531) }.is_valid());
    assert!(!Attribute::ErrorCode { class: 4, number: 0, reason: "x".repeat(65532) }.is_valid());
    assert!(Attribute::UnknownAttributes(vec![0; 32767]).is_valid());
    assert!(!Attribute::UnknownAttributes(vec![0; 32768]).is_valid());
    assert!(Attribute::MessageIntegrity(vec![0; 20]).is_valid());
    assert!(!Attribute::MessageIntegrity(vec![0; 21]).is_valid());
    assert!(Attribute::Opaque { attribute_type: 0x8000, value: vec![0; 65535] }.is_valid());
    assert!(!Attribute::Opaque { attribute_type: 0x8000, value: vec![0; 65536] }.is_valid());
    assert!(!Attribute::Opaque { attribute_type: 0x7fff, value: vec![] }.is_valid());
    assert!(!Attribute::Opaque { attribute_type: 0x8028, value: vec![] }.is_valid());
    assert!(!Attribute::Opaque { attribute_type: 0x8002, value: vec![] }.is_valid());
    let algorithm = |n: usize| PasswordAlgorithm { algorithm: 1, parameters: vec![0; n] };
    assert!(Attribute::PasswordAlgorithm(algorithm(65528)).is_valid());
    assert!(!Attribute::PasswordAlgorithm(algorithm(65529)).is_valid());
    assert!(Attribute::PasswordAlgorithms(vec![algorithm(32760), algorithm(32764)]).is_valid());
    assert!(!Attribute::PasswordAlgorithms(vec![algorithm(32764), algorithm(32764)]).is_valid());
    assert!(!Attribute::PasswordAlgorithms(vec![algorithm(70000)]).is_valid());
}

#[test]
fn attributes_compare_by_kind_and_value() {
    let addr = SocketAddress { ip: IpAddress::V4(1), port: 2 };
    assert_eq!(Attribute::MappedAddress(addr), Attribute::MappedAddress(addr));
    assert_ne!(Attribute::MappedAddress(addr), Attribute::XorMappedAddress(addr));
    assert_ne!(
        Attribute::MappedAddress(addr),
        Attribute::MappedAddress(SocketAddress { ip: IpAddress::V4(1), port: 3 })
    );
    assert_ne!(Attribute::UnknownAttributes(vec![1, 2]), Attribute::UnknownAttributes(vec![2, 1]));
    assert_ne!(Attribute::UnknownAttributes(vec![1]), Attribute::UnknownAttributes(vec![1, 1]));
    assert_ne!(
        Attribute::ErrorCode { class: 4, number: 0, reason: String::from("a") },
        Attribute::ErrorCode { class: 4, number: 0, reason: String::from("b") }
    );
    assert_ne!(
        Attribute::Opaque { attribute_type: 0x8001, value: vec![1] },
        Attribute::Opaque { attribute_type: 0x8003, value: vec![1] }
    );
    assert_ne!(
        Attribute::PasswordAlgorithms(vec![PasswordAlgorithm { algorithm: 1, parameters: vec![] }]),
        Attribute::PasswordAlgorithms(vec![PasswordAlgorithm { algorithm: 1, parameters: vec![0] }])
    );
    assert_ne!(Attribute::Fingerprint(1), Attribute::Fingerprint(2));
    assert_ne!(Attribute::MessageIntegrity(vec![0; 20]), Attribute::MessageIntegrity(vec![1; 20]));
}

#[test]
fn error_codes_split_into_class_and_number() {
    assert_eq!(
        Attribute::error(420, String::from("Unknown Attribute")),
        Some(Attribute::ErrorCode {
            class: 4,
            number: 20,
            reason: String::from("Unknown Attribute"),
        })
    );
    assert_eq!(
        Attribute::error(699, String::new()),
        Some(Attribute::ErrorCode { class: 6, number: 99, reason: String::new() })
    );
    assert_eq!(
        Attribute::error(300, String::new()),
        Some(Attribute::ErrorCode { class: 3, number: 0, reason: String::new() })
    );
    assert_eq!(Attribute::error(299, String::new()), None);
    assert_eq!(Attribute::error(700, String::new()), None);
    assert_eq!(Attribute::error(0, String::new()), None);
    for code in 300..=699u16 {
        let attr = Attribute::error(code, String::new()).unwrap();
        assert!(attr.is_valid());
        assert_eq!(attr.error_code(), Some(code));
    }
    assert_eq!(
        Attribute::ErrorCode { class: 7, number: 255, reason: String::new() }.error_code(),
        Some(955)
    );
    assert_eq!(Attribute::Fingerprint(0).error_code(), None);
    assert_eq!(stun_proto::attribute::TRY_ALTERNATE, 300);
    assert_eq!(stun_proto::attribute::BAD_REQUEST, 400);
    assert_eq!(stun_proto::attribute::UNAUTHENTICATED, 401);
    assert_eq!(stun_proto::attribute::UNKNOWN_ATTRIBUTE, 420);
    assert_eq!(stun_proto::attribute::STALE_NONCE, 438);
    assert_eq!(stun_proto::attribute::SERVER_ERROR, 500);
}
