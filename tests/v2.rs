use ppp::v2::{
    AddressFamily, Addresses, ClientType, Command, Header, ParseError, Protocol, Type,
    TypeLengthValue, TypeLengthValues, Unix, Version, IPv4, IPv6, PROTOCOL_PREFIX,
};
use ppp::v2::SocketAddress;
use ppp::PartialResult;

fn prefixed(rest: &[u8]) -> Vec<u8> {
    let mut input: Vec<u8> = Vec::with_capacity(PROTOCOL_PREFIX.len());
    input.extend_from_slice(&PROTOCOL_PREFIX);
    input.extend_from_slice(rest);
    input
}

#[test]
fn mod_no_tlvs() {
    let mut input: Vec<u8> = Vec::with_capacity(PROTOCOL_PREFIX.len());

    input.extend_from_slice(&PROTOCOL_PREFIX);
    input.push(0x21);
    input.push(0x11);
    input.extend([0, 12]);
    input.extend([127, 0, 0, 1]);
    input.extend([127, 0, 0, 2]);
    input.extend([0, 80]);
    input.extend([1, 187]);

    let expected = Header {
        header: input.as_slice(),
        version: Version::Two,
        command: Command::Proxy,
        protocol: Protocol::Stream,
        addresses: IPv4::new([127, 0, 0, 1], [127, 0, 0, 2], 80, 443).into(),
    };
    let actual = Header::try_from(input.as_slice()).unwrap();

    assert_eq!(actual, expected);
    assert!(actual.tlvs().next().is_none());
    assert_eq!(actual.length(), 12);
    assert_eq!(actual.address_family(), AddressFamily::IPv4);
    assert_eq!(
        actual.address_bytes(),
        &[127, 0, 0, 1, 127, 0, 0, 2, 0, 80, 1, 187]
    );
    assert_eq!(actual.tlv_bytes(), &[]);
}

#[test]
fn mod_no_tlvs_unspec() {
    let mut input: Vec<u8> = Vec::with_capacity(PROTOCOL_PREFIX.len());

    input.extend_from_slice(&PROTOCOL_PREFIX);
    input.push(0x21);
    input.push(0x00);
    input.extend([0, 12]);
    input.extend([127, 0, 0, 1]);
    input.extend([127, 0, 0, 2]);
    input.extend([0, 80]);
    input.extend([1, 187]);

    let expected = Header {
        header: input.as_slice(),
        version: Version::Two,
        command: Command::Proxy,
        protocol: Protocol::Unspecified,
        addresses: Addresses::Unspecified,
    };
    let actual = Header::try_from(input.as_slice()).unwrap();

    assert_eq!(actual, expected);
    assert_eq!(
        actual.tlvs().to_vec(),
        vec![
            Ok(TypeLengthValue { kind: 127, value: &[] }),
            Err(ParseError::InvalidTLV(1, 0x7F00)),
        ]
    );
    assert_eq!(actual.length(), 12);
    assert_eq!(actual.address_family(), AddressFamily::Unspecified);
    assert_eq!(actual.address_bytes(), &[]);
    assert_eq!(
        actual.tlv_bytes(),
        &[127, 0, 0, 1, 127, 0, 0, 2, 0, 80, 1, 187]
    );
    assert_eq!(actual.tlv_bytes(), &actual.header[16..]);
}

#[test]
fn mod_no_tlvs_unspec_stream() {
    let mut input: Vec<u8> = Vec::with_capacity(PROTOCOL_PREFIX.len());

    input.extend_from_slice(&PROTOCOL_PREFIX);
    input.push(0x21);
    input.push(0x01);
    input.extend([0, 8]);
    input.extend([127, 0, 0, 1]);
    input.extend([127, 0, 0, 2]);

    let expected = Header {
        header: input.as_slice(),
        version: Version::Two,
        command: Command::Proxy,
        protocol: Protocol::Stream,
        addresses: Addresses::Unspecified,
    };
    let actual = Header::try_from(input.as_slice()).unwrap();

    assert_eq!(actual, expected);
    assert_eq!(
        actual.tlvs().to_vec(),
        vec![
            Ok(TypeLengthValue { kind: 127, value: &[] }),
            Err(ParseError::InvalidTLV(1, 0x7F00)),
        ]
    );
    assert_eq!(actual.length(), 8);
    assert_eq!(actual.address_family(), AddressFamily::Unspecified);
    assert_eq!(actual.address_bytes(), &[]);
    assert_eq!(actual.tlv_bytes(), &[127, 0, 0, 1, 127, 0, 0, 2]);
}

#[test]
fn mod_no_tlvs_unspec_ipv4() {
    let mut input: Vec<u8> = Vec::with_capacity(PROTOCOL_PREFIX.len());

    input.extend_from_slice(&PROTOCOL_PREFIX);
    input.push(0x21);
    input.push(0x10);
    input.extend([0, 8]);
    input.extend([127, 0, 0, 1]);
    input.extend([127, 0, 0, 2]);

    let actual = Header::try_from(input.as_slice()).unwrap_err();

    assert_eq!(actual, ParseError::InvalidAddresses(8, 12));
}

#[test]
fn mod_invalid_version() {
    let input = prefixed(&[0x11, 0x11, 0, 12, 127, 0, 0, 1, 127, 0, 0, 2, 0, 80, 1, 187]);

    let actual = Header::try_from(input.as_slice()).unwrap_err();

    assert_eq!(actual, ParseError::Version(0x10));
}

#[test]
fn mod_invalid_address_family() {
    let input = prefixed(&[0x21, 0x51, 0, 12, 127, 0, 0, 1, 127, 0, 0, 2, 0, 80, 1, 187]);

    let actual = Header::try_from(input.as_slice()).unwrap_err();

    assert_eq!(actual, ParseError::AddressFamily(0x50));
}

#[test]
fn mod_invalid_command() {
    let input = prefixed(&[0x23, 0x11, 0, 12, 127, 0, 0, 1, 127, 0, 0, 2, 0, 80, 1, 187]);

    let actual = Header::try_from(input.as_slice()).unwrap_err();

    assert_eq!(actual, ParseError::Command(0x03));
}

#[test]
fn mod_invalid_protocol() {
    let input = prefixed(&[0x20, 0x17, 0, 12, 127, 0, 0, 1, 127, 0, 0, 2, 0, 80, 1, 187]);

    let actual = Header::try_from(input.as_slice()).unwrap_err();

    assert_eq!(actual, ParseError::Protocol(0x07));
}

#[test]
fn mod_proxy_with_extra() {
    let mut input: Vec<u8> = Vec::with_capacity(PROTOCOL_PREFIX.len());

    input.extend_from_slice(&PROTOCOL_PREFIX);
    input.push(0x21);
    input.push(0x11);
    input.extend([0, 12]);
    input.extend([127, 0, 0, 1]);
    input.extend([127, 0, 0, 2]);
    input.extend([0, 80]);
    input.extend([1, 187]);
    input.extend([42]);

    let expected = Header {
        header: &input[..input.len() - 1],
        version: Version::Two,
        command: Command::Proxy,
        protocol: Protocol::Stream,
        addresses: IPv4::new([127, 0, 0, 1], [127, 0, 0, 2], 80, 443).into(),
    };
    let actual = Header::try_from(input.as_slice()).unwrap();

    assert_eq!(actual, expected);
    assert!(actual.tlvs().next().is_none());
    assert_eq!(actual.length(), 12);
    assert_eq!(actual.address_family(), AddressFamily::IPv4);
    assert_eq!(
        actual.address_bytes(),
        &[127, 0, 0, 1, 127, 0, 0, 2, 0, 80, 1, 187]
    );
    assert_eq!(actual.tlv_bytes(), &[]);
}

#[test]
fn mod_with_tlvs() {
    let source_address = [
        0xFF, 0xFF, 0xFF, 0xFF, 0xFF, 0xFF, 0xFF, 0xFF, 0xFF, 0xFF, 0xFF, 0xFF, 0xFF, 0xFF, 0xFF,
        0xF2,
    ];
    let destination_address = [
        0xFF, 0xFF, 0xFF, 0xFF, 0xFF, 0xFF, 0xFF, 0xFF, 0xFF, 0xFF, 0xFF, 0xFF, 0xFF, 0xFF, 0xFF,
        0xF1,
    ];
    let mut input: Vec<u8> = Vec::with_capacity(PROTOCOL_PREFIX.len());

    input.extend_from_slice(&PROTOCOL_PREFIX);
    input.push(0x21);
    input.push(0x21);
    input.extend([0, 45]);
    input.extend(source_address);
    input.extend(destination_address);
    input.extend([0, 80]);
    input.extend([1, 187]);
    input.extend([1, 0, 1, 5]);
    input.extend([2, 0, 2, 5, 5]);

    let expected = Header {
        header: input.as_slice(),
        version: Version::Two,
        command: Command::Proxy,
        protocol: Protocol::Stream,
        addresses: IPv6::new(source_address, destination_address, 80, 443).into(),
    };
    let expected_tlvs = vec![
        Ok(TypeLengthValue::new(Type::ALPN, &[5])),
        Ok(TypeLengthValue::new(ClientType::CertificateConnection, &[5, 5])),
    ];

    let actual = Header::try_from(input.as_slice()).unwrap();
    let actual_tlvs: Vec<Result<TypeLengthValue<'_>, ParseError>> = actual.tlvs().to_vec();

    assert_eq!(actual, expected);
    assert_eq!(actual_tlvs, expected_tlvs);
    assert_eq!(actual.length(), 45);
    assert_eq!(actual.address_family(), AddressFamily::IPv6);
    assert_eq!(
        actual.address_bytes(),
        &[
            0xFF, 0xFF, 0xFF, 0xFF, 0xFF, 0xFF, 0xFF, 0xFF, 0xFF, 0xFF, 0xFF, 0xFF, 0xFF, 0xFF,
            0xFF, 0xF2, 0xFF, 0xFF, 0xFF, 0xFF, 0xFF, 0xFF, 0xFF, 0xFF, 0xFF, 0xFF, 0xFF, 0xFF,
            0xFF, 0xFF, 0xFF, 0xF1, 0, 80, 1, 187
        ]
    );
    assert_eq!(actual.tlv_bytes(), &[1, 0, 1, 5, 2, 0, 2, 5, 5]);
}

#[test]
fn v2_ipv4_stream_without_records() {
    let input = prefixed(&[0x21, 0x11, 0x00, 0x0C, 0x7F, 0, 0, 1, 0x7F, 0, 0, 2, 0x00, 0x50, 0x01, 0xBB]);
    let header = Header::try_from(input.as_slice()).unwrap();

    assert_eq!(header.version, Version::Two);
    assert_eq!(header.command, Command::Proxy);
    assert_eq!(header.protocol, Protocol::Stream);
    assert_eq!(header.addresses, Addresses::IPv4(IPv4::new([127, 0, 0, 1], [127, 0, 0, 2], 80, 443)));
    assert!(header.tlvs().to_vec().is_empty());
    assert_eq!(header.len(), 28);
    assert_eq!(header.len(), 16 + header.length());
    assert_eq!(header.as_bytes().as_ptr(), input.as_ptr());
}

#[test]
fn v2_ipv6_stream_with_two_records() {
    let mut rest = vec![0x21, 0x21, 0x00, 0x2D];
    rest.extend([0xFF; 15]);
    rest.push(0xF2);
    rest.extend([0xFF; 15]);
    rest.push(0xF1);
    rest.extend([0x00, 0x50, 0x01, 0xBB]);
    rest.extend([0x01, 0x00, 0x01, 0x05]);
    rest.extend([0x02, 0x00, 0x02, 0x05, 0x05]);
    let input = prefixed(&rest);
    let header = Header::try_from(input.as_slice()).unwrap();

    assert_eq!(
        header.tlvs().to_vec(),
        vec![
            Ok(TypeLengthValue { kind: 1, value: &[5] }),
            Ok(TypeLengthValue { kind: 2, value: &[5, 5] }),
        ]
    );
    assert_eq!(header.length(), header.address_bytes().len() + header.tlv_bytes().len());
    assert_eq!(header.address_bytes().len(), 36);
}

#[test]
fn v2_partial_payload() {
    let input = prefixed(&[0x21, 0x11, 0x00, 0x0C, 0x7F, 0x00, 0x00, 0x01, 0x7F, 0x00]);
    let result = Header::try_from(input.as_slice());

    assert_eq!(result, Err(ParseError::Partial(12, 6)));
    assert!(result.is_incomplete());
    assert!(!result.is_complete());
}

#[test]
fn v2_incomplete_short_input() {
    let bytes = [0x0D, 0x0A, 0x0D, 0x0A, 0x00];
    let result = Header::try_from(&bytes[..]);

    assert_eq!(result, Err(ParseError::Incomplete(5)));
    assert!(result.unwrap_err().is_incomplete());
}

#[test]
fn v2_not_prefixed() {
    let result = Header::try_from(b"\r\n\r\n\x01\r\nQUIT\n\x21\x11\x00\x00");

    assert_eq!(result, Err(ParseError::Prefix));
    assert!(!result.unwrap_err().is_incomplete());
}

#[test]
fn v2_declared_length_below_family_is_fatal() {
    let input = prefixed(&[0x20, 0x22, 0, 0, 0, 80]);
    let error = Header::try_from(input.as_slice()).unwrap_err();

    assert_eq!(error, ParseError::InvalidAddresses(0, 36));
    assert!(!error.is_incomplete());
}

#[test]
fn v2_missing_payload_is_incomplete() {
    let input = prefixed(&[0x21, 0x11, 0, 17, 127, 0, 0, 1, 127, 0, 0, 2, 0, 80, 1, 187, 1, 0, 1]);
    let error = Header::try_from(input.as_slice()).unwrap_err();

    assert_eq!(error, ParseError::Partial(17, 15));
    assert!(error.is_incomplete());
}

#[test]
fn v2_tlv_longer_than_payload() {
    let input = prefixed(&[0x21, 0x11, 0, 15, 127, 0, 0, 1, 127, 0, 0, 2, 0, 80, 1, 187, 1, 0, 1]);
    let header = Header::try_from(input.as_slice()).unwrap();
    let mut tlvs = header.tlvs();

    assert_eq!(tlvs.next(), Some(Err(ParseError::InvalidTLV(1, 1))));
    assert_eq!(tlvs.next(), None);
    assert!(!ParseError::InvalidTLV(1, 1).is_incomplete());
}

#[test]
fn v2_tlv_leftovers() {
    let input = prefixed(&[0x21, 0x11, 0, 17, 127, 0, 0, 1, 127, 0, 0, 2, 0, 80, 1, 187, 4, 0, 0, 7, 7]);
    let header = Header::try_from(input.as_slice()).unwrap();

    assert_eq!(
        header.tlvs().to_vec(),
        vec![Ok(TypeLengthValue { kind: 4, value: &[] }), Err(ParseError::Leftovers(5))]
    );
}

#[test]
fn v2_unix_addresses() {
    let mut rest = vec![0x20, 0x31, 0, 216];
    rest.extend([0xFFu8; 108]);
    rest.extend([0xAAu8; 108]);
    let input = prefixed(&rest);
    let header = Header::try_from(input.as_slice()).unwrap();

    assert_eq!(header.command, Command::Local);
    assert_eq!(header.addresses, Unix::new([0xFF; 108], [0xAA; 108]).into());
    assert_eq!(header.addresses.len(), 216);
    assert!(!header.addresses.is_empty());
    assert_eq!(AddressFamily::Unix.byte_length(), Some(216));
    assert_eq!(AddressFamily::Unspecified.byte_length(), None);
}

#[test]
fn tlv_cursor_over_bytes() {
    let bytes = [3u8, 0, 2, 9, 9];
    let tlvs = TypeLengthValues::from(&bytes);

    assert_eq!(tlvs.len(), 5);
    assert!(!tlvs.is_empty());
    assert_eq!(tlvs.as_bytes(), &bytes);
    let record = TypeLengthValue::new(Type::CRC32C, &[9, 9]);
    assert_eq!(tlvs.to_vec(), vec![Ok(record)]);
    assert_eq!(record.len(), 2);
    assert!(!record.is_empty());
    assert_eq!(record.to_tlv().value(), &[9, 9]);
    assert_eq!(record.to_tlv().value_type(), 3);
}

#[test]
fn type_codes() {
    assert_eq!(u8::from(Type::NoOp), 4);
    assert_eq!(u8::from(Type::SSL), 20);
    assert_eq!(u8::from(Type::NetworkNamespace), 30);
    assert_eq!(Version::Two.with_command(Command::Local), 0x20);
    assert_eq!(AddressFamily::IPv6.with_protocol(Protocol::Datagram), 0x22);
}

#[test]
fn nibble_bytes_combine_either_way() {
    assert_eq!(Version::Two | Command::Proxy, 0x21);
    assert_eq!(Command::Local | Version::Two, 0x20);
    assert_eq!(AddressFamily::Unix | Protocol::Stream, 0x31);
    assert_eq!(Protocol::Datagram | AddressFamily::IPv4, 0x12);
}

#[test]
fn addresses_from_sockets() {
    assert_eq!(
        Addresses::from_sockets(SocketAddress::V4([127, 0, 0, 1], 80), SocketAddress::V4([192, 168, 1, 1], 443)),
        IPv4::new([127, 0, 0, 1], [192, 168, 1, 1], 80, 443).into()
    );
    assert_eq!(
        Addresses::from_sockets(SocketAddress::V6([0; 16], 1), SocketAddress::V6([1; 16], 2)),
        IPv6::new([0; 16], [1; 16], 1, 2).into()
    );
    assert_eq!(
        Addresses::from_sockets(SocketAddress::V4([127, 0, 0, 1], 80), SocketAddress::V6([1; 16], 2)),
        Addresses::Unspecified
    );
    assert_eq!(Addresses::Unspecified.address_family(), AddressFamily::Unspecified);
    assert!(Addresses::Unspecified.is_empty());
}

#[test]
fn unspecified_family_payload_is_records() {
    let input = prefixed(&[0x20, 0x00, 0, 7, 4, 0, 1, 42, 1, 0, 0]);
    let header = Header::try_from(input.as_slice()).unwrap();

    assert_eq!(header.addresses, Addresses::Unspecified);
    assert!(header.address_bytes().is_empty());
    assert_eq!(
        header.tlvs().to_vec(),
        vec![
            Ok(TypeLengthValue::new(Type::NoOp, &[42])),
            Ok(TypeLengthValue::new(Type::ALPN, &[])),
        ]
    );
}
