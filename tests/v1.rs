use ppp::text::IntErrorKind;
use ppp::v1::{Addresses, BinaryParseError, Header, ParseError};
use ppp::PartialResult;

fn kind_of(error: std::num::ParseIntError) -> IntErrorKind {
    match error.kind() {
        std::num::IntErrorKind::Empty => IntErrorKind::Empty,
        std::num::IntErrorKind::PosOverflow => IntErrorKind::PosOverflow,
        _ => IntErrorKind::InvalidDigit,
    }
}

fn tcp4(source: [u8; 4], destination: [u8; 4], source_port: u16, destination_port: u16) -> Addresses {
    Addresses::new_tcp4(source, destination, source_port, destination_port)
}

fn tcp6(source: [u8; 16], destination: [u8; 16], source_port: u16, destination_port: u16) -> Addresses {
    Addresses::new_tcp6(source, destination, source_port, destination_port)
}

fn ipv6(groups: [u16; 8]) -> [u8; 16] {
    let mut bytes = [0u8; 16];
    for (k, group) in groups.iter().enumerate() {
        bytes[2 * k] = (group >> 8) as u8;
        bytes[2 * k + 1] = (group & 0xFF) as u8;
    }
    bytes
}

fn both(text: &str) -> (Result<Header<'_>, ParseError>, Result<Header<'_>, BinaryParseError>) {
    (Header::try_from_str(text), Header::try_from(text.as_bytes()))
}

fn check_error(text: &str, expected: ParseError) {
    let (from_str, from_bytes) = both(text);
    assert_eq!(from_str, Err(expected));
    assert_eq!(from_bytes, Err(BinaryParseError::Parse(expected)));
}

#[test]
fn bytes_invalid_utf8() {
    let text = b"Hello \xF0\x90\x80World\r\n";

    assert_eq!(Header::try_from(&text[..]).unwrap_err(), BinaryParseError::InvalidUtf8);
    assert!(std::str::from_utf8(text).is_err());
}

#[test]
fn mod_exact_tcp4() {
    let ip = [255u8, 255, 255, 255];
    let port = 65535;
    let text = "PROXY TCP4 255.255.255.255 255.255.255.255 65535 65535\r\n";
    let expected = Header::new(text, tcp4(ip, ip, port, port));

    assert_eq!(Header::try_from_str(text), Ok(expected));
    assert_eq!(Header::try_from(text.as_bytes()), Ok(expected));
}

#[test]
fn mod_valid_tcp4() {
    let ip = [255u8, 255, 255, 255];
    let port = 65535;
    let text = "PROXY TCP4 255.255.255.255 255.255.255.255 65535 65535\r\nFoobar";
    let expected = Header::new(
        "PROXY TCP4 255.255.255.255 255.255.255.255 65535 65535\r\n",
        tcp4(ip, ip, port, port),
    );

    assert_eq!(Header::try_from_str(text), Ok(expected));
    assert_eq!(Header::try_from(text.as_bytes()), Ok(expected));
    let header = Header::try_from(text.as_bytes()).unwrap();
    assert_eq!(header.header.len(), 56);
    assert_eq!(&text.as_bytes()[header.header.len()..], b"Foobar");
    assert_eq!(header.header.as_ptr(), text.as_ptr());
}

#[test]
fn mod_parse_partial() {
    let text = "PROXY TCP4 255.255.255.255 255.255.255.255 65535 65535";

    check_error(text, ParseError::MissingNewLine);
    assert!(Header::try_from(text.as_bytes()).is_incomplete());
    assert!(ParseError::MissingNewLine.is_incomplete());
}

#[test]
fn mod_parse_invalid() {
    check_error("PROXY \r\n", ParseError::MissingProtocol);
}

#[test]
fn mod_parse_tcp4_invalid() {
    let text = "PROXY TCP4 255.255.255.255 256.255.255.255 65535 65535\r\n";

    check_error(text, ParseError::InvalidDestinationAddress);
}

#[test]
fn mod_parse_tcp4_leading_zeroes() {
    let text = "PROXY TCP4 255.0255.255.255 255.255.255.255 65535 65535\r\n";

    check_error(text, ParseError::InvalidSourceAddress);
}

#[test]
fn mod_parse_unknown_connection() {
    let text = "PROXY UNKNOWN\r\nTwo";

    assert_eq!(
        Header::try_from_str(text),
        Ok(Header::new("PROXY UNKNOWN\r\n", Addresses::default()))
    );
    assert_eq!(
        Header::try_from(text.as_bytes()),
        Ok(Header::new("PROXY UNKNOWN\r\n", Addresses::default()))
    );
    assert_eq!(Header::try_from(text.as_bytes()).unwrap().header.len(), 15);
}

#[test]
fn mod_valid_tcp6() {
    let ip = ipv6([0xFFFF; 8]);
    let port = 65535;
    let text = "PROXY TCP6 ffff:ffff:ffff:ffff:ffff:ffff:ffff:ffff ffff:ffff:ffff:ffff:ffff:ffff:ffff:ffff 65535 65535\r\nHi!";
    let expected = Header::new("PROXY TCP6 ffff:ffff:ffff:ffff:ffff:ffff:ffff:ffff ffff:ffff:ffff:ffff:ffff:ffff:ffff:ffff 65535 65535\r\n", tcp6(ip, ip, port, port));

    assert_eq!(Header::try_from_str(text), Ok(expected));
    assert_eq!(Header::try_from(text.as_bytes()), Ok(expected));
}

#[test]
fn valid_tcp6_short() {
    let ip = ipv6([0xFFFF; 8]);
    let port = 65535;
    let short_ip = ipv6([0, 0, 0, 0, 0, 0, 0, 1]);
    let text = "PROXY TCP6 ::1 ffff:ffff:ffff:ffff:ffff:ffff:ffff:ffff 65535 65535\r\nHi!";
    let expected = Header::new(
        "PROXY TCP6 ::1 ffff:ffff:ffff:ffff:ffff:ffff:ffff:ffff 65535 65535\r\n",
        tcp6(short_ip, ip, port, port),
    );

    assert_eq!(Header::try_from_str(text), Ok(expected));
    assert_eq!(Header::try_from(text.as_bytes()), Ok(expected));
}

#[test]
fn mod_parse_tcp6_invalid() {
    let text = "PROXY TCP6 ffff:gggg:ffff:ffff:ffff:ffff:ffff:ffff ffff:ffff:ffff:ffff:ffff:ffff:ffff:ffff 65535 65535\r\n";

    check_error(text, ParseError::InvalidSourceAddress);
}

#[test]
fn mod_parse_tcp6_leading_zeroes() {
    let text = "PROXY TCP6 ffff:ffff:ffff:ffff:ffff:ffff:ffff:ffff ffff:ffff:0ffff:ffff:ffff:ffff:ffff:ffff 65535 65535\r\n";

    check_error(text, ParseError::InvalidDestinationAddress);
}

#[test]
fn mod_parse_tcp6_shortened_connection() {
    let ip = ipv6([0xFFFF; 8]);
    let short_ip = ipv6([0xFFFF, 0, 0, 0, 0, 0, 0, 0xFFFF]);
    let port = 65535;
    let text = "PROXY TCP6 ffff::ffff ffff:ffff:ffff:ffff:ffff:ffff:ffff:ffff 65535 65535\r\n";
    let expected = Header::new(text, tcp6(short_ip, ip, port, port));

    assert_eq!(Header::try_from_str(text), Ok(expected));
    assert_eq!(Header::try_from(text.as_bytes()), Ok(expected));
}

#[test]
fn mod_parse_tcp6_single_zero() {
    let ip = ipv6([0xFFFF; 8]);
    let short_ip = ipv6([0xFFFF, 0xFFFF, 0xFFFF, 0xFFFF, 0, 0xFFFF, 0xFFFF, 0xFFFF]);
    let port = 65535;
    let text = "PROXY TCP6 ffff:ffff:ffff:ffff::ffff:ffff:ffff ffff:ffff:ffff:ffff:ffff:ffff:ffff:ffff 65535 65535\r\n";
    let expected = Header::new(text, tcp6(short_ip, ip, port, port));

    assert_eq!(Header::try_from_str(text), Ok(expected));
    assert_eq!(Header::try_from(text.as_bytes()), Ok(expected));
}

#[test]
fn mod_parse_tcp6_wildcard() {
    let ip = ipv6([0xFFFF; 8]);
    let short_ip = ipv6([0; 8]);
    let port = 65535;
    let text = "PROXY TCP6 :: ffff:ffff:ffff:ffff:ffff:ffff:ffff:ffff 65535 65535\r\n";
    let expected = Header::new(text, tcp6(short_ip, ip, port, port));

    assert_eq!(Header::try_from_str(text), Ok(expected));
    assert_eq!(Header::try_from(text.as_bytes()), Ok(expected));
}

#[test]
fn mod_parse_tcp6_implied() {
    let ip = ipv6([0xFFFF; 8]);
    let short_ip = ipv6([0xFFFF, 0, 0, 0, 0, 0, 0, 0]);
    let port = 65535;
    let text = "PROXY TCP6 ffff:: ffff:ffff:ffff:ffff:ffff:ffff:ffff:ffff 65535 65535\r\n";
    let expected = Header::new(text, tcp6(short_ip, ip, port, port));

    assert_eq!(Header::try_from_str(text), Ok(expected));
    assert_eq!(Header::try_from(text.as_bytes()), Ok(expected));
}

#[test]
fn mod_parse_tcp6_over_shortened() {
    let text = "PROXY TCP6 ffff::ffff:ffff:ffff:ffff::ffff ffff:ffff:ffff:ffff:ffff:ffff:ffff:ffff 65535 65535\r\n";

    check_error(text, ParseError::InvalidSourceAddress);
}

#[test]
fn mod_parse_worst_case() {
    let text = "PROXY UNKNOWN ffff:ffff:ffff:ffff:ffff:ffff:ffff:ffff ffff:ffff:ffff:ffff:ffff:ffff:ffff:ffff 65535 65535\r\n";
    let expected = Header::new(text, Addresses::Unknown);

    assert_eq!(Header::try_from_str(text), Ok(expected));
    assert_eq!(Header::try_from(text.as_bytes()), Ok(expected));
}

#[test]
fn mod_parse_leading_zeroes_in_source_port() {
    let text = "PROXY TCP4 255.255.255.255 255.255.255.255 05535 65535\r\n";

    check_error(text, ParseError::InvalidSourcePort(None));
    assert!(!Header::try_from(text.as_bytes()).is_incomplete());
}

#[test]
fn mod_parse_leading_zeroes_in_destination_port() {
    let text = "PROXY TCP4 255.255.255.255 255.255.255.255 65535 05535\r\n";

    check_error(text, ParseError::InvalidDestinationPort(None));
}

#[test]
fn mod_parse_source_port_too_large() {
    let text = "PROXY TCP6 ffff:ffff:ffff:ffff:ffff:ffff:ffff:ffff ffff:ffff:ffff:ffff:ffff:ffff:ffff:ffff 65536 65535\r\n";

    check_error(
        text,
        ParseError::InvalidSourcePort(Some(kind_of("65536".parse::<u16>().unwrap_err()))),
    );
}

#[test]
fn mod_parse_destination_port_too_large() {
    let text = "PROXY TCP6 ffff:ffff:ffff:ffff:ffff:ffff:ffff:ffff ffff:ffff:ffff:ffff:ffff:ffff:ffff:ffff 65535 65536\r\n";

    check_error(
        text,
        ParseError::InvalidDestinationPort(Some(kind_of("65536".parse::<u16>().unwrap_err()))),
    );
}

#[test]
fn mod_parse_lowercase_proxy() {
    check_error("proxy UNKNOWN\r\n", ParseError::InvalidPrefix);
}

#[test]
fn mod_parse_lowercase_protocol_family() {
    check_error("PROXY tcp4\r\n", ParseError::InvalidProtocol);
}

#[test]
fn mod_parse_too_long() {
    let text = "PROXY UNKNOWN ffff:ffff:ffff:ffff:ffff:ffff:ffff:ffff ffff:ffff:ffff:ffff:ffff:ffff:ffff:ffff 65535 65535  \r\n";

    check_error(text, ParseError::HeaderTooLong);
}

#[test]
fn mod_parse_more_than_one_space() {
    check_error(
        "PROXY  TCP4 255.255.255.255 255.255.255.255 65535 65535\r\n",
        ParseError::MissingProtocol,
    );
}

#[test]
fn mod_parse_more_than_one_space_source_address() {
    check_error(
        "PROXY TCP4  255.255.255.255 255.255.255.255 65535 65535\r\n",
        ParseError::InvalidSourceAddress,
    );
}

#[test]
fn mod_parse_more_than_one_space_destination_address() {
    check_error(
        "PROXY TCP4 255.255.255.255  255.255.255.255 65535 65535\r\n",
        ParseError::InvalidDestinationAddress,
    );
}

#[test]
fn mod_parse_more_than_one_space_source_port() {
    check_error(
        "PROXY TCP4 255.255.255.255 255.255.255.255  65535 65535\r\n",
        ParseError::InvalidSourcePort(Some(kind_of("".parse::<u16>().unwrap_err()))),
    );
}

#[test]
fn mod_parse_more_than_one_space_destination_port() {
    check_error(
        "PROXY TCP4 255.255.255.255 255.255.255.255 65535  65535\r\n",
        ParseError::InvalidDestinationPort(Some(kind_of(" 65535".parse::<u16>().unwrap_err()))),
    );
}

#[test]
fn mod_parse_more_than_one_space_end() {
    check_error(
        "PROXY TCP4 255.255.255.255 255.255.255.255 65535 65535 \r\n",
        ParseError::InvalidDestinationPort(Some(kind_of("65535 ".parse::<u16>().unwrap_err()))),
    );
}

#[test]
fn parse_partial_prefix() {
    check_error("PROX\r\n", ParseError::InvalidPrefix);
}

#[test]
fn missing_fields_are_named() {
    check_error("PROXY TCP4\r\n", ParseError::MissingSourceAddress);
    check_error("PROXY TCP4 1.2.3.4\r\n", ParseError::MissingDestinationAddress);
    check_error("PROXY TCP4 1.2.3.4 5.6.7.8\r\n", ParseError::MissingSourcePort);
    check_error("PROXY TCP4 1.2.3.4 5.6.7.8 1\r\n", ParseError::MissingDestinationPort);
    check_error("PROXY TCP4 1.2.3.4 5.6.7.8 1 -2\r\n", ParseError::InvalidDestinationPort(Some(IntErrorKind::InvalidDigit)));
}

#[test]
fn zero_and_signed_ports() {
    let header = Header::try_from(b"PROXY TCP6 ::1 ::2 0 +80\r\n").unwrap();
    let mut source = [0u8; 16];
    source[15] = 1;
    let mut destination = [0u8; 16];
    destination[15] = 2;

    assert_eq!(header.addresses, Addresses::new_tcp6(source, destination, 0, 80));
    assert_eq!(header.addresses.protocol(), "TCP6");
    assert_eq!(header.addresses_str(), b"::1 ::2 0 +80");
}

#[test]
fn long_input_without_newline_is_fatal() {
    let text = [b'A'; 107];

    assert_eq!(
        Header::try_from(&text[..]),
        Err(BinaryParseError::Parse(ParseError::HeaderTooLong))
    );
    assert!(!Header::try_from(&text[..]).is_incomplete());
    assert_eq!(
        Header::try_from(&text[..106]),
        Err(BinaryParseError::Parse(ParseError::MissingNewLine))
    );
}

#[test]
fn unknown_keeps_any_utf8() {
    let text = "PROXY UNKNOWN \u{e9}t\u{e9}\r\n";
    let header = Header::try_from_str(text).unwrap();

    assert_eq!(header.addresses, Addresses::Unknown);
    assert_eq!(header.addresses.protocol(), "UNKNOWN");
}

#[test]
fn render_tcp4() {
    let addresses = Addresses::new_tcp4([127, 0, 1, 2], [192, 168, 1, 101], 80, 443);

    assert_eq!(addresses.to_string(), "PROXY TCP4 127.0.1.2 192.168.1.101 80 443\r\n");
    assert_eq!(addresses.to_wire(), b"PROXY TCP4 127.0.1.2 192.168.1.101 80 443\r\n".to_vec());
}

#[test]
fn render_tcp6() {
    let source = ipv6([0x1234, 0x5678, 0x90AB, 0xCDEF, 0xFEDC, 0xBA09, 0x8765, 0x4321]);
    let destination = ipv6([0x4321, 0x8765, 0xBA09, 0xFEDC, 0xCDEF, 0x90AB, 0x5678, 0x1234]);
    let addresses = tcp6(source, destination, 443, 65535);

    assert_eq!(
        addresses.to_string(),
        "PROXY TCP6 1234:5678:90ab:cdef:fedc:ba09:8765:4321 4321:8765:ba09:fedc:cdef:90ab:5678:1234 443 65535\r\n"
    );
}

#[test]
fn render_unknown() {
    assert_eq!(Addresses::Unknown.to_string(), "PROXY UNKNOWN\r\n");
}

#[test]
fn render_then_parse_gives_the_addresses_back() {
    let zero = ipv6([0; 8]);
    let cases = [
        Addresses::Unknown,
        Addresses::new_tcp4([0, 0, 0, 0], [255, 255, 255, 255], 0, 65535),
        tcp6(zero, ipv6([0xFFFF, 0, 0, 0, 0, 0, 0, 1]), 1, 10),
    ];
    for addresses in cases {
        let text = addresses.to_wire();
        let header = Header::try_from(text.as_slice()).unwrap();
        assert_eq!(header.addresses, addresses);
        assert_eq!(header.header.len(), text.len());
    }
}

#[test]
fn tcp6_with_embedded_ipv4() {
    let header = Header::try_from(b"PROXY TCP6 ::ffff:1.2.3.4 1:2:3:4:5:6:7.8.9.10 80 443\r\n").unwrap();

    assert_eq!(
        header.addresses,
        tcp6(
            [0, 0, 0, 0, 0, 0, 0, 0, 0, 0, 0xFF, 0xFF, 1, 2, 3, 4],
            [0, 1, 0, 2, 0, 3, 0, 4, 0, 5, 0, 6, 7, 8, 9, 10],
            80,
            443
        )
    );
    check_error("PROXY TCP6 1.2.3.4:: ::1 80 443\r\n", ParseError::InvalidSourceAddress);
    check_error("PROXY TCP6 ::1 1:2:3:4:5:6:7:1.2.3.4 80 443\r\n", ParseError::InvalidDestinationAddress);
    check_error("PROXY TCP6 ::1.2.3.4:5 ::1 80 443\r\n", ParseError::InvalidSourceAddress);
}

#[test]
fn addresses_from_text() {
    assert_eq!(
        Addresses::from_str("PROXY TCP4 127.0.1.2 192.168.1.101 80 443\r\n"),
        Ok(Addresses::new_tcp4([127, 0, 1, 2], [192, 168, 1, 101], 80, 443))
    );
    assert_eq!(Addresses::from_str("PROXY tcp4\r\n"), Err(ParseError::InvalidProtocol));
}

fn tcp6_text(source: [u16; 8], destination: [u16; 8]) -> String {
    tcp6(ipv6(source), ipv6(destination), 1, 2).to_string()
}

#[test]
fn render_tcp6_compressed_forms() {
    assert_eq!(tcp6(ipv6([0; 8]), ipv6([0; 8]), 0, 0).to_string(), "PROXY TCP6 :: :: 0 0\r\n");
    assert_eq!(
        tcp6_text([0xFFFF, 0, 0, 0, 0, 0, 0, 1], [0xFFFF, 0, 0, 0, 0, 0, 0, 0]),
        "PROXY TCP6 ffff::1 ffff:: 1 2\r\n"
    );
    assert_eq!(
        tcp6_text([1, 0, 2, 3, 4, 5, 6, 7], [0, 0, 0, 0, 0, 0, 0, 1]),
        "PROXY TCP6 1:0:2:3:4:5:6:7 ::1 1 2\r\n"
    );
    assert_eq!(
        tcp6_text([1, 0, 0, 2, 0, 0, 3, 4], [1, 0, 0, 2, 0, 0, 0, 3]),
        "PROXY TCP6 1::2:0:0:3:4 1:0:0:2::3 1 2\r\n"
    );
    assert_eq!(
        tcp6_text([0, 0, 0, 0, 0, 0xFFFF, 0x0102, 0x0304], [0x2001, 0xDB8, 0, 0, 0, 0, 0, 0xA]),
        "PROXY TCP6 ::ffff:1.2.3.4 2001:db8::a 1 2\r\n"
    );
}

#[test]
fn compressed_forms_parse_back() {
    let cases = [
        [0u16; 8],
        [0, 0, 0, 0, 0, 0xFFFF, 0x7F00, 1],
        [1, 0, 0, 2, 0, 0, 3, 4],
        [1, 0, 2, 3, 4, 5, 6, 0],
        [0, 0, 1, 0, 0, 0, 2, 0],
    ];
    for groups in cases {
        let addresses = tcp6(ipv6(groups), ipv6(groups), 7, 8);
        let text = addresses.to_wire();
        assert_eq!(Header::try_from(text.as_slice()).unwrap().addresses, addresses);
    }
}
