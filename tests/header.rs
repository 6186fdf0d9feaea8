use ppp::v1;
use ppp::v2;
use ppp::v2::PROTOCOL_PREFIX;
use ppp::{HeaderResult, PartialResult, Version};

#[test]
fn unified_picks_v2_for_signature() {
    let mut input = Vec::from(PROTOCOL_PREFIX);
    input.extend([0x21, 0x11, 0, 12, 127, 0, 0, 1, 127, 0, 0, 2, 0, 80, 1, 187]);
    let result = HeaderResult::parse(input.as_slice());

    assert_eq!(result.version(), Version::Two);
    assert!(result.is_complete());
    match result {
        HeaderResult::V2(Ok(header)) => assert_eq!(header.len(), 28),
        other => panic!("unexpected {:?}", other),
    }
}

#[test]
fn unified_picks_v2_for_short_signature_prefix() {
    let result = HeaderResult::parse(&PROTOCOL_PREFIX[..5]);

    assert_eq!(result, HeaderResult::V2(Err(v2::ParseError::Incomplete(5))));
    assert!(result.is_incomplete());
}

#[test]
fn unified_picks_v1_otherwise() {
    let result = HeaderResult::parse(b"PROXY UNKNOWN\r\nTwo");

    assert_eq!(result.version(), Version::One);
    assert_eq!(
        result,
        HeaderResult::V1(Ok(v1::Header::new("PROXY UNKNOWN\r\n", v1::Addresses::Unknown)))
    );
    assert!(result.is_complete());
}

#[test]
fn unified_v1_incomplete_then_complete() {
    let full = b"PROXY TCP4 1.2.3.4 5.6.7.8 80 443\r\nrest";
    let partial = HeaderResult::parse(&full[..20]);

    assert!(partial.is_incomplete());
    assert_eq!(
        partial,
        HeaderResult::V1(Err(v1::BinaryParseError::Parse(v1::ParseError::MissingNewLine)))
    );
    let complete = HeaderResult::parse(&full[..]);
    assert!(complete.is_complete());
    match complete {
        HeaderResult::V1(Ok(header)) => {
            assert_eq!(header.addresses, v1::Addresses::new_tcp4([1, 2, 3, 4], [5, 6, 7, 8], 80, 443));
            assert_eq!(header.protocol(), "TCP4");
            assert_eq!(header.addresses_str(), b"1.2.3.4 5.6.7.8 80 443");
        }
        other => panic!("unexpected {:?}", other),
    }
}

#[test]
fn complete_results_do_not_change_with_more_input() {
    let mut input = Vec::from(PROTOCOL_PREFIX);
    input.extend([0x31, 0x11, 0, 0, 1, 2, 3]);
    let short = HeaderResult::parse(&input[..16]);
    let long = HeaderResult::parse(input.as_slice());

    assert!(short.is_complete());
    assert_eq!(short, long);
    assert_eq!(short, HeaderResult::V2(Err(v2::ParseError::Version(0x30))));
}

#[test]
fn incomplete_v2_can_become_fatal() {
    let mut input = Vec::from(PROTOCOL_PREFIX);
    input.extend([0x31, 0x11, 0, 0]);
    let short = HeaderResult::parse(&input[..13]);
    let long = HeaderResult::parse(input.as_slice());

    assert!(short.is_incomplete());
    assert!(long.is_complete());
}

#[test]
fn partial_result_on_results() {
    let ok: Result<u8, v2::ParseError> = Ok(1);
    let partial: Result<u8, v2::ParseError> = Err(v2::ParseError::Partial(10, 2));
    let fatal: Result<u8, v1::ParseError> = Err(v1::ParseError::InvalidPrefix);

    assert!(!ok.is_incomplete());
    assert!(ok.is_complete());
    assert!(partial.is_incomplete());
    assert!(!fatal.is_incomplete());
    assert!(v1::ParseError::Partial.is_incomplete());
    assert!(!v1::BinaryParseError::InvalidUtf8.is_incomplete());
}

#[test]
fn partial_payload_then_success() {
    let mut input = Vec::from(PROTOCOL_PREFIX);
    input.extend([0x21, 0x11, 0, 12, 127, 0, 0, 1, 127, 0, 0, 2, 0, 80, 1, 187]);
    for end in 16..input.len() {
        let result = HeaderResult::parse(&input[..end]);
        assert!(result.is_incomplete());
        assert_eq!(
            result,
            HeaderResult::V2(Err(v2::ParseError::Partial(12, end - 16)))
        );
    }
    assert!(HeaderResult::parse(input.as_slice()).is_complete());
}
