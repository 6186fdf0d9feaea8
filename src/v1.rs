//! Version 1 of the PROXY protocol: the text header.
//!
//! A header is one line, `PROXY <protocol> [<source> <destination> <source port>
//! <destination port>]`, ended by CRLF and at most 107 bytes long.
use vstd::prelude::*;

use crate::ip::{
    ipv4_of, ipv4_text, ipv6_of, ipv6_text, lemma_ipv4_text, lemma_ipv6_text, parse_ipv4,
    parse_ipv6, write_ipv4, write_ipv6,
};
pub use crate::ip::{IPv4, IPv6};
use crate::text::{
    ascii, dec_text, eq_bytes, find_pair, free_of, index_of_pair, join, join_into, lemma_dec_text,
    lemma_join_free, lemma_parts_of_join, parse_u16, push_decimal, range_of, split, split_parts,
    u16_of, views, IntErrorKind,
};
use vstd::string::StringSliceAdditionalSpecFns;
use vstd::utf8::{
    encode_utf8, encode_utf8_valid_utf8, is_char_boundary_iff_not_is_continuation_byte,
    partial_valid_utf8_extend_ascii_block, valid_utf8, valid_utf8_concat, valid_utf8_split,
};

verus! {

/// The most bytes a text header may take, CRLF included.
pub const MAX_LENGTH: usize = 107;

/// `PROXY`
pub open spec fn proxy_word() -> Seq<u8> {
    seq![80u8, 82u8, 79u8, 88u8, 89u8]
}

/// `TCP4`
pub open spec fn tcp4_word() -> Seq<u8> {
    seq![84u8, 67u8, 80u8, 52u8]
}

/// `TCP6`
pub open spec fn tcp6_word() -> Seq<u8> {
    seq![84u8, 67u8, 80u8, 54u8]
}

/// `UNKNOWN`
pub open spec fn unknown_word() -> Seq<u8> {
    seq![85u8, 78u8, 75u8, 78u8, 79u8, 87u8, 78u8]
}

/// An error in parsing a text header.
#[derive(Clone, Copy, Debug, PartialEq, Eq, Structural)]
pub enum ParseError {
    /// The line does not start with `PROXY`.
    InvalidPrefix,
    /// The input holds no CRLF yet.
    MissingNewLine,
    /// The line, or the input without a CRLF, exceeds 107 bytes.
    HeaderTooLong,
    /// The protocol is absent or empty.
    MissingProtocol,
    /// The protocol is none of `TCP4`, `TCP6`, `UNKNOWN`.
    InvalidProtocol,
    MissingSourceAddress,
    MissingDestinationAddress,
    MissingSourcePort,
    MissingDestinationPort,
    InvalidSourceAddress,
    InvalidDestinationAddress,
    /// The source port has a leading zero (`None`) or is no 16-bit number.
    InvalidSourcePort(Option<IntErrorKind>),
    /// The destination port has a leading zero (`None`) or is no 16-bit number.
    InvalidDestinationPort(Option<IntErrorKind>),
    /// Characters follow a complete address section. The six-part split leaves any such
    /// characters in the destination port field, so that field's error is reported instead.
    UnexpectedCharacters,
    /// Too few bytes to classify the input.
    Partial,
}

impl ParseError {
    /// Whether more input could turn this error into a success.
    pub open spec fn spec_is_incomplete(self) -> bool {
        self is MissingNewLine || self is Partial
    }

    /// Whether more input could turn this error into a success.
    pub fn is_incomplete(&self) -> (r: bool)
        ensures
            r == self.spec_is_incomplete(),
    {
        match self {
            ParseError::MissingNewLine | ParseError::Partial => true,
            _ => false,
        }
    }
}

/// An error in parsing a text header from bytes.
#[derive(Clone, Copy, Debug, PartialEq, Eq, Structural)]
pub enum BinaryParseError {
    /// The line does not follow the grammar.
    Parse(ParseError),
    /// The line is not valid UTF-8.
    InvalidUtf8,
}

impl BinaryParseError {
    /// Whether more input could turn this error into a success.
    pub open spec fn spec_is_incomplete(self) -> bool {
        match self {
            BinaryParseError::Parse(e) => e.spec_is_incomplete(),
            BinaryParseError::InvalidUtf8 => false,
        }
    }

    /// Whether more input could turn this error into a success.
    pub fn is_incomplete(&self) -> (r: bool)
        ensures
            r == self.spec_is_incomplete(),
    {
        match self {
            BinaryParseError::Parse(e) => e.is_incomplete(),
            BinaryParseError::InvalidUtf8 => false,
        }
    }
}

/// The addresses of a text header, as plain values.
pub enum AddressesModel {
    Unknown,
    Tcp4 { source: Seq<u8>, destination: Seq<u8>, source_port: u16, destination_port: u16 },
    Tcp6 { source: Seq<u8>, destination: Seq<u8>, source_port: u16, destination_port: u16 },
}

/// The source and destination of a text header.
#[derive(Clone, Copy, Debug, PartialEq, Eq)]
pub enum Addresses {
    Unknown,
    Tcp4(IPv4),
    Tcp6(IPv6),
}

impl View for Addresses {
    type V = AddressesModel;

    open spec fn view(&self) -> AddressesModel {
        match *self {
            Addresses::Unknown => AddressesModel::Unknown,
            Addresses::Tcp4(a) => AddressesModel::Tcp4 {
                source: a.source_address@,
                destination: a.destination_address@,
                source_port: a.source_port,
                destination_port: a.destination_port,
            },
            Addresses::Tcp6(a) => AddressesModel::Tcp6 {
                source: a.source_address@,
                destination: a.destination_address@,
                source_port: a.source_port,
                destination_port: a.destination_port,
            },
        }
    }
}

impl Addresses {
    /// Addresses of a TCP connection over IPv4.
    pub fn new_tcp4(
        source_address: [u8; 4],
        destination_address: [u8; 4],
        source_port: u16,
        destination_port: u16,
    ) -> (r: Self)
        ensures
            r == Addresses::Tcp4(
                IPv4 { source_address, destination_address, source_port, destination_port },
            ),
    {
        Addresses::Tcp4(IPv4 { source_address, destination_address, source_port, destination_port })
    }

    /// Addresses of a TCP connection over IPv6.
    pub fn new_tcp6(
        source_address: [u8; 16],
        destination_address: [u8; 16],
        source_port: u16,
        destination_port: u16,
    ) -> (r: Self)
        ensures
            r == Addresses::Tcp6(
                IPv6 { source_address, destination_address, source_port, destination_port },
            ),
    {
        Addresses::Tcp6(IPv6 { source_address, destination_address, source_port, destination_port })
    }

    /// Unknown addresses.
    pub fn default() -> (r: Self)
        ensures
            r == Addresses::Unknown,
    {
        Addresses::Unknown
    }

    /// Parses the addresses of the text header at the front of `s`.
    pub fn from_str(s: &str) -> (r: Result<Addresses, ParseError>)
        ensures
            match r {
                Ok(a) => v1_outcome(s.spec_bytes()) matches Ok((_, m)) && m == a@,
                Err(e) => v1_outcome(s.spec_bytes()) == Err::<(int, AddressesModel), BinaryParseError>(
                    BinaryParseError::Parse(e),
                ),
            },
    {
        match Header::try_from_str(s) {
            Ok(h) => Ok(h.addresses),
            Err(e) => Err(e),
        }
    }

    /// The protocol word of these addresses.
    pub fn protocol(&self) -> (r: &'static str)
        ensures
            *self is Unknown ==> r@ == "UNKNOWN"@,
            *self is Tcp4 ==> r@ == "TCP4"@,
            *self is Tcp6 ==> r@ == "TCP6"@,
    {
        match self {
            Addresses::Tcp4(..) => "TCP4",
            Addresses::Tcp6(..) => "TCP6",
            Addresses::Unknown => "UNKNOWN",
        }
    }
}

/// What a port field gives: no leading zero (but for `0` itself), then a 16-bit number.
pub open spec fn port_of(p: Seq<u8>) -> Result<u16, Option<IntErrorKind>> {
    if p.len() > 1 && p[0] == 48 {
        Err(None)
    } else {
        match u16_of(p) {
            Ok(v) => Ok(v),
            Err(e) => Err(Some(e)),
        }
    }
}

/// What the address fields `parts[2..6]` of a TCP line give, for IPv6 or IPv4 addresses.
pub open spec fn tcp_addresses(parts: Seq<Seq<u8>>, six: bool) -> Result<AddressesModel, ParseError> {
    if parts.len() < 3 {
        Err(ParseError::MissingSourceAddress)
    } else if parts.len() < 4 {
        Err(ParseError::MissingDestinationAddress)
    } else if parts.len() < 5 {
        Err(ParseError::MissingSourcePort)
    } else if parts.len() < 6 {
        Err(ParseError::MissingDestinationPort)
    } else {
        let source = if six {
            ipv6_of(parts[2])
        } else {
            ipv4_of(parts[2])
        };
        let destination = if six {
            ipv6_of(parts[3])
        } else {
            ipv4_of(parts[3])
        };
        if source is None {
            Err(ParseError::InvalidSourceAddress)
        } else if destination is None {
            Err(ParseError::InvalidDestinationAddress)
        } else if port_of(parts[4]) is Err {
            Err(ParseError::InvalidSourcePort(port_of(parts[4])->Err_0))
        } else if port_of(parts[5]) is Err {
            Err(ParseError::InvalidDestinationPort(port_of(parts[5])->Err_0))
        } else if six {
            Ok(
                AddressesModel::Tcp6 {
                    source: source.unwrap(),
                    destination: destination.unwrap(),
                    source_port: port_of(parts[4]).unwrap(),
                    destination_port: port_of(parts[5]).unwrap(),
                },
            )
        } else {
            Ok(
                AddressesModel::Tcp4 {
                    source: source.unwrap(),
                    destination: destination.unwrap(),
                    source_port: port_of(parts[4]).unwrap(),
                    destination_port: port_of(parts[5]).unwrap(),
                },
            )
        }
    }
}

/// What a line (without its CRLF) gives: it is split at single spaces into at most six
/// parts, the first `PROXY`, the second the protocol.
pub open spec fn v1_line(line: Seq<u8>) -> Result<AddressesModel, ParseError> {
    let parts = split_parts(line, 32, 6);
    if parts[0] != proxy_word() {
        Err(ParseError::InvalidPrefix)
    } else if parts.len() < 2 || parts[1].len() == 0 {
        Err(ParseError::MissingProtocol)
    } else if parts[1] == tcp4_word() {
        tcp_addresses(parts, false)
    } else if parts[1] == tcp6_word() {
        tcp_addresses(parts, true)
    } else if parts[1] == unknown_word() {
        Ok(AddressesModel::Unknown)
    } else {
        Err(ParseError::InvalidProtocol)
    }
}

/// What parsing `input` as a text header gives: the length of the header (its line and
/// CRLF) and its addresses, or the error.
pub open spec fn v1_outcome(input: Seq<u8>) -> Result<(int, AddressesModel), BinaryParseError> {
    match index_of_pair(input, 13, 10, 0) {
        None => if input.len() >= 107 {
            Err(BinaryParseError::Parse(ParseError::HeaderTooLong))
        } else {
            Err(BinaryParseError::Parse(ParseError::MissingNewLine))
        },
        Some(end) => if end + 2 > 107 {
            Err(BinaryParseError::Parse(ParseError::HeaderTooLong))
        } else if !valid_utf8(input.subrange(0, end + 2)) {
            Err(BinaryParseError::InvalidUtf8)
        } else {
            match v1_line(input.subrange(0, end)) {
                Ok(m) => Ok((end + 2, m)),
                Err(e) => Err(BinaryParseError::Parse(e)),
            }
        },
    }
}

/// `r` is what parsing `input` as a text header gives: a header that borrows the first
/// bytes of the input and holds the addresses they encode, or the error.
pub open spec fn v1_result(input: Seq<u8>, r: Result<Header, BinaryParseError>) -> bool {
    match r {
        Ok(h) => {
            &&& v1_outcome(input) == Ok::<(int, AddressesModel), BinaryParseError>(
                (h.header.spec_bytes().len() as int, h.addresses@),
            )
            &&& h.header.spec_bytes() == input.subrange(0, h.header.spec_bytes().len() as int)
            &&& h.header.spec_bytes().len() >= 6 + h.protocol_len() + 2
        },
        Err(e) => v1_outcome(input) == Err::<(int, AddressesModel), BinaryParseError>(e),
    }
}

/// A line that parses holds `PROXY`, a space and the protocol word.
proof fn lemma_parsed_line_len(line: Seq<u8>)
    requires
        v1_line(line) is Ok,
    ensures
        line.len() >= 6 + match v1_line(line).unwrap() {
            AddressesModel::Unknown => 7int,
            _ => 4int,
        },
{
    crate::text::lemma_first_two_parts(line, 32, 6);
}

/// Relies on `std::str::from_utf8`: it succeeds exactly on valid UTF-8, and the string
/// then holds the same bytes.
#[verifier::external_body]
fn utf8_str(bytes: &[u8]) -> (r: Option<&str>)
    ensures
        r is Some <==> valid_utf8(bytes@),
        r matches Some(s) ==> s.spec_bytes() == bytes@,
{
    std::str::from_utf8(bytes).ok()
}

/// Reads a port field.
fn parse_port(p: &[u8]) -> (r: Result<u16, Option<IntErrorKind>>)
    ensures
        r == port_of(p@),
{
    if p.len() > 1 && p[0] == 48 {
        return Err(None);
    }
    match parse_u16(p) {
        Ok(v) => Ok(v),
        Err(e) => Err(Some(e)),
    }
}

/// Reads the address fields of a TCP line.
fn parse_tcp(line: &[u8], parts: &Vec<(usize, usize)>, six: bool) -> (r: Result<Addresses, ParseError>)
    requires
        parts@.len() == split_parts(line@, 32, 6).len(),
        forall|k: int|
            0 <= k < parts@.len() ==> (#[trigger] parts@[k]).0 <= parts@[k].1 <= line@.len()
                && range_of(line@, parts@[k]) == split_parts(line@, 32, 6)[k],
    ensures
        match r {
            Ok(a) => tcp_addresses(split_parts(line@, 32, 6), six) == Ok::<
                AddressesModel,
                ParseError,
            >(a@),
            Err(e) => tcp_addresses(split_parts(line@, 32, 6), six) == Err::<
                AddressesModel,
                ParseError,
            >(e),
        },
{
    let ghost ps = split_parts(line@, 32, 6);
    if parts.len() < 3 {
        return Err(ParseError::MissingSourceAddress);
    }
    if parts.len() < 4 {
        return Err(ParseError::MissingDestinationAddress);
    }
    if parts.len() < 5 {
        return Err(ParseError::MissingSourcePort);
    }
    if parts.len() < 6 {
        return Err(ParseError::MissingDestinationPort);
    }
    assert(range_of(line@, parts@[2]) == ps[2]);
    assert(range_of(line@, parts@[3]) == ps[3]);
    assert(range_of(line@, parts@[4]) == ps[4]);
    assert(range_of(line@, parts@[5]) == ps[5]);
    let source_text = &line[parts[2].0..parts[2].1];
    let destination_text = &line[parts[3].0..parts[3].1];
    if six {
        let source = parse_ipv6(source_text);
        let destination = parse_ipv6(destination_text);
        let source_address = match source {
            Some(a) => a,
            None => return Err(ParseError::InvalidSourceAddress),
        };
        let destination_address = match destination {
            Some(a) => a,
            None => return Err(ParseError::InvalidDestinationAddress),
        };
        let source_port = match parse_port(&line[parts[4].0..parts[4].1]) {
            Ok(p) => p,
            Err(e) => return Err(ParseError::InvalidSourcePort(e)),
        };
        let destination_port = match parse_port(&line[parts[5].0..parts[5].1]) {
            Ok(p) => p,
            Err(e) => return Err(ParseError::InvalidDestinationPort(e)),
        };
        Ok(Addresses::Tcp6(IPv6 { source_address, destination_address, source_port, destination_port }))
    } else {
        let source = parse_ipv4(source_text);
        let destination = parse_ipv4(destination_text);
        let source_address = match source {
            Some(a) => a,
            None => return Err(ParseError::InvalidSourceAddress),
        };
        let destination_address = match destination {
            Some(a) => a,
            None => return Err(ParseError::InvalidDestinationAddress),
        };
        let source_port = match parse_port(&line[parts[4].0..parts[4].1]) {
            Ok(p) => p,
            Err(e) => return Err(ParseError::InvalidSourcePort(e)),
        };
        let destination_port = match parse_port(&line[parts[5].0..parts[5].1]) {
            Ok(p) => p,
            Err(e) => return Err(ParseError::InvalidDestinationPort(e)),
        };
        Ok(Addresses::Tcp4(IPv4 { source_address, destination_address, source_port, destination_port }))
    }
}

/// Parses a line without its CRLF.
fn parse_line(line: &[u8]) -> (r: Result<Addresses, ParseError>)
    ensures
        match r {
            Ok(a) => v1_line(line@) == Ok::<AddressesModel, ParseError>(a@),
            Err(e) => v1_line(line@) == Err::<AddressesModel, ParseError>(e),
        },
{
    let parts = split(line, 32, 6);
    let ghost ps = split_parts(line@, 32, 6);
    assert(ps.len() >= 1) by {
        reveal_with_fuel(crate::text::parts_from, 2);
    }
    assert(range_of(line@, parts@[0]) == ps[0]);
    let proxy: [u8; 5] = [80, 82, 79, 88, 89];
    assert(proxy@ =~= proxy_word());
    if !eq_bytes(&line[parts[0].0..parts[0].1], proxy.as_slice()) {
        return Err(ParseError::InvalidPrefix);
    }
    if parts.len() < 2 {
        return Err(ParseError::MissingProtocol);
    }
    assert(range_of(line@, parts@[1]) == ps[1]);
    let protocol = &line[parts[1].0..parts[1].1];
    if protocol.len() == 0 {
        return Err(ParseError::MissingProtocol);
    }
    let tcp4: [u8; 4] = [84, 67, 80, 52];
    let tcp6: [u8; 4] = [84, 67, 80, 54];
    let unknown: [u8; 7] = [85, 78, 75, 78, 79, 87, 78];
    assert(tcp4@ =~= tcp4_word());
    assert(tcp6@ =~= tcp6_word());
    assert(unknown@ =~= unknown_word());
    if eq_bytes(protocol, tcp4.as_slice()) {
        parse_tcp(line, &parts, false)
    } else if eq_bytes(protocol, tcp6.as_slice()) {
        parse_tcp(line, &parts, true)
    } else if eq_bytes(protocol, unknown.as_slice()) {
        Ok(Addresses::Unknown)
    } else {
        Err(ParseError::InvalidProtocol)
    }
}

/// A text header that borrows its line, CRLF included, from the input.
#[derive(Clone, Copy, Debug, PartialEq, Eq)]
pub struct Header<'a> {
    pub header: &'a str,
    pub addresses: Addresses,
}

impl<'a> Header<'a> {
    /// A header over the line `header` with the given addresses.
    pub fn new(header: &'a str, addresses: Addresses) -> (r: Self)
        ensures
            r.header == header,
            r.addresses == addresses,
    {
        Header { header, addresses }
    }

    /// The protocol word of this header.
    pub fn protocol(&self) -> (r: &'static str)
        ensures
            self.addresses is Unknown ==> r@ == "UNKNOWN"@,
            self.addresses is Tcp4 ==> r@ == "TCP4"@,
            self.addresses is Tcp6 ==> r@ == "TCP6"@,
    {
        self.addresses.protocol()
    }

    /// The length of the protocol word of these addresses.
    pub open spec fn protocol_len(self) -> nat {
        match self.addresses {
            Addresses::Unknown => 7,
            _ => 4,
        }
    }

    /// The bytes between the protocol word and the CRLF, without the space that leads
    /// them.
    pub fn addresses_str(&self) -> (r: &'a [u8])
        requires
            self.header.spec_bytes().len() >= 6 + self.protocol_len() + 2,
        ensures
            ({
                let b = self.header.spec_bytes();
                let rest = b.subrange(6 + self.protocol_len() as int, b.len() - 2);
                r@ == if rest.len() > 0 && rest[0] == 32 {
                    rest.drop_first()
                } else {
                    rest
                }
            }),
    {
        let bytes = self.header.as_bytes();
        let start: usize = match self.addresses {
            Addresses::Unknown => 13,
            _ => 10,
        };
        let end = bytes.len() - 2;
        let rest = &bytes[start..end];
        if rest.len() > 0 && rest[0] == 32 {
            &bytes[start + 1..end]
        } else {
            rest
        }
    }

    /// Parses a text header from the front of `input`. The header borrows the line and its
    /// CRLF; whatever follows is left alone.
    pub fn try_from(input: &'a [u8]) -> (r: Result<Header<'a>, BinaryParseError>)
        ensures
            v1_result(input@, r),
    {
        let total = input.len();
        let end = match find_pair(input, 13, 10, 0) {
            Some(end) => end,
            None => {
                if input.len() >= MAX_LENGTH {
                    return Err(BinaryParseError::Parse(ParseError::HeaderTooLong));
                }
                return Err(BinaryParseError::Parse(ParseError::MissingNewLine));
            },
        };
        let length = end + 2;
        if length > MAX_LENGTH {
            return Err(BinaryParseError::Parse(ParseError::HeaderTooLong));
        }
        let frame = &input[0..length];
        let header = match utf8_str(frame) {
            Some(s) => s,
            None => return Err(BinaryParseError::InvalidUtf8),
        };
        let line = &input[0..end];
        match parse_line(line) {
            Ok(addresses) => {
                proof {
                    lemma_parsed_line_len(line@);
                }
                Ok(Header { header, addresses })
            },
            Err(e) => Err(BinaryParseError::Parse(e)),
        }
    }

    /// Parses a text header from the front of the string `input`, which is valid UTF-8 and
    /// so fails only on the grammar.
    pub fn try_from_str(input: &'a str) -> (r: Result<Header<'a>, ParseError>)
        ensures
            match r {
                Ok(h) => v1_result(input.spec_bytes(), Ok::<Header, BinaryParseError>(h)),
                Err(e) => v1_result(
                    input.spec_bytes(),
                    Err::<Header, BinaryParseError>(BinaryParseError::Parse(e)),
                ),
            },
    {
        let bytes = input.as_bytes();
        match Header::try_from(bytes) {
            Ok(h) => Ok(h),
            Err(BinaryParseError::Parse(e)) => Err(e),
            Err(BinaryParseError::InvalidUtf8) => {
                proof {
                    let b = input.spec_bytes();
                    encode_utf8_valid_utf8(input@);
                    let end = index_of_pair(b, 13, 10, 0).unwrap();
                    crate::lemmas::lemma_index_of_pair_at_least(b, 0);
                    is_char_boundary_iff_not_is_continuation_byte(b, end + 1);
                    valid_utf8_split(b, end + 1);
                    let tail = seq![10u8];
                    assert(valid_utf8(tail)) by {
                        lemma_ascii_utf8(tail);
                    }
                    valid_utf8_concat(b.subrange(0, end + 1), tail);
                    assert(b.subrange(0, end + 1) + tail =~= b.subrange(0, end + 2));
                }
                Err(ParseError::Partial)
            },
        }
    }
}

/// The parts of the line that stands for `m`.
pub open spec fn line_pieces(m: AddressesModel) -> Seq<Seq<u8>> {
    match m {
        AddressesModel::Unknown => seq![proxy_word(), unknown_word()],
        AddressesModel::Tcp4 { source, destination, source_port, destination_port } => seq![
            proxy_word(),
            tcp4_word(),
            ipv4_text(source),
            ipv4_text(destination),
            dec_text(source_port as nat),
            dec_text(destination_port as nat),
        ],
        AddressesModel::Tcp6 { source, destination, source_port, destination_port } => seq![
            proxy_word(),
            tcp6_word(),
            ipv6_text(source),
            ipv6_text(destination),
            dec_text(source_port as nat),
            dec_text(destination_port as nat),
        ],
    }
}

/// The text header that stands for `m`: its parts joined by single spaces, then CRLF.
pub open spec fn wire_text(m: AddressesModel) -> Seq<u8> {
    join(line_pieces(m), 32) + seq![13u8, 10u8]
}

/// Relies on `String::from_utf8`: on valid UTF-8 it succeeds, and the string holds the
/// same bytes.
#[verifier::external_body]
fn string_from_utf8(bytes: Vec<u8>) -> (r: String)
    requires
        valid_utf8(bytes@),
    ensures
        encode_utf8(r@) == bytes@,
{
    String::from_utf8(bytes).unwrap_or_default()
}

/// Appends the bytes of a short word.
fn push_word(out: &mut Vec<Vec<u8>>, word: &[u8])
    ensures
        views(final(out)@) == views(old(out)@).push(word@),
{
    let mut piece: Vec<u8> = Vec::new();
    piece.extend_from_slice(word);
    assert(piece@ =~= word@);
    let ghost before = out@;
    out.push(piece);
    assert(views(out@) =~= views(before).push(word@)) by {
        assert(forall|j: int| 0 <= j < before.len() ==> #[trigger] out@[j] == before[j]);
    }
}

/// Appends a finished piece.
fn push_piece(out: &mut Vec<Vec<u8>>, piece: Vec<u8>)
    ensures
        views(final(out)@) == views(old(out)@).push(piece@),
{
    let ghost before = out@;
    let ghost text = piece@;
    out.push(piece);
    assert(views(out@) =~= views(before).push(text)) by {
        assert(forall|j: int| 0 <= j < before.len() ==> #[trigger] out@[j] == before[j]);
    }
}

impl Addresses {
    /// The text header for these addresses: `PROXY UNKNOWN\r\n`, or `PROXY`, the protocol,
    /// both addresses and both ports, separated by single spaces and ended by CRLF.
    pub fn to_wire(&self) -> (r: Vec<u8>)
        ensures
            r@ == wire_text(self@),
    {
        let mut pieces: Vec<Vec<u8>> = Vec::new();
        let proxy: [u8; 5] = [80, 82, 79, 88, 89];
        push_word(&mut pieces, proxy.as_slice());
        assert(proxy@ =~= proxy_word());
        match self {
            Addresses::Unknown => {
                let unknown: [u8; 7] = [85, 78, 75, 78, 79, 87, 78];
                assert(unknown@ =~= unknown_word());
                push_word(&mut pieces, unknown.as_slice());
            },
            Addresses::Tcp4(a) => {
                let tcp4: [u8; 4] = [84, 67, 80, 52];
                assert(tcp4@ =~= tcp4_word());
                push_word(&mut pieces, tcp4.as_slice());
                let mut source: Vec<u8> = Vec::new();
                write_ipv4(&mut source, &a.source_address);
                push_piece(&mut pieces, source);
                let mut destination: Vec<u8> = Vec::new();
                write_ipv4(&mut destination, &a.destination_address);
                push_piece(&mut pieces, destination);
                let mut source_port: Vec<u8> = Vec::new();
                push_decimal(&mut source_port, a.source_port as u32);
                push_piece(&mut pieces, source_port);
                let mut destination_port: Vec<u8> = Vec::new();
                push_decimal(&mut destination_port, a.destination_port as u32);
                push_piece(&mut pieces, destination_port);
            },
            Addresses::Tcp6(a) => {
                let tcp6: [u8; 4] = [84, 67, 80, 54];
                assert(tcp6@ =~= tcp6_word());
                push_word(&mut pieces, tcp6.as_slice());
                let mut source: Vec<u8> = Vec::new();
                write_ipv6(&mut source, &a.source_address);
                push_piece(&mut pieces, source);
                let mut destination: Vec<u8> = Vec::new();
                write_ipv6(&mut destination, &a.destination_address);
                push_piece(&mut pieces, destination);
                let mut source_port: Vec<u8> = Vec::new();
                push_decimal(&mut source_port, a.source_port as u32);
                push_piece(&mut pieces, source_port);
                let mut destination_port: Vec<u8> = Vec::new();
                push_decimal(&mut destination_port, a.destination_port as u32);
                push_piece(&mut pieces, destination_port);
            },
        }
        assert(views(pieces@) =~= line_pieces(self@));
        let mut out: Vec<u8> = Vec::new();
        join_into(&mut out, &pieces, 32);
        out.push(13);
        out.push(10);
        assert(out@ =~= wire_text(self@));
        out
    }

    /// The text header for these addresses, as a string.
    pub fn to_string(&self) -> (r: String)
        ensures
            encode_utf8(r@) == wire_text(self@),
    {
        let bytes = self.to_wire();
        proof {
            lemma_wire_text(*self);
        }
        string_from_utf8(bytes)
    }
}

/// A port's decimal text reads back as the port.
pub proof fn lemma_port_text(p: u16)
    ensures
        port_of(dec_text(p as nat)) == Ok::<u16, Option<IntErrorKind>>(p),
        free_of(dec_text(p as nat), 32),
        free_of(dec_text(p as nat), 13),
        ascii(dec_text(p as nat)),
        dec_text(p as nat).len() <= 5,
{
    let t = dec_text(p as nat);
    lemma_dec_text(p as nat);
    assert(crate::text::unsigned_digits(t) == t) by {
        assert(crate::text::is_digit(t[0]));
    }
    assert forall|i: int| 0 <= i < t.len() implies #[trigger] t[i] < 128 && t[i] != 32 && t[i] != 13 by {
        assert(crate::text::is_digit(t[i]));
    }
}

/// Where `line` holds no CR, the first CRLF of `line` + CRLF is the one at its end.
proof fn lemma_crlf_at_end(line: Seq<u8>, from: int)
    requires
        free_of(line, 13),
        0 <= from <= line.len(),
    ensures
        index_of_pair(line + seq![13u8, 10u8], 13, 10, from) == Some(line.len() as int),
    decreases line.len() - from,
{
    let s = line + seq![13u8, 10u8];
    if from < line.len() {
        assert(s[from] == line[from]);
        lemma_crlf_at_end(line, from + 1);
    } else {
        assert(s[from] == 13 && s[from + 1] == 10);
    }
}

/// ASCII bytes are valid UTF-8.
proof fn lemma_ascii_utf8(s: Seq<u8>)
    requires
        ascii(s),
    ensures
        valid_utf8(s),
{
    assert(valid_utf8(s.subrange(0, 0))) by {
        assert(s.subrange(0, 0) =~= Seq::<u8>::empty());
    }
    partial_valid_utf8_extend_ascii_block(s, 0, s.len() as int);
    assert(s.subrange(0, s.len() as int) =~= s);
}

/// The addresses of `m` have the lengths of their kind.
pub open spec fn model_wf(m: AddressesModel) -> bool {
    match m {
        AddressesModel::Unknown => true,
        AddressesModel::Tcp4 { source, destination, .. } => source.len() == 4 && destination.len() == 4,
        AddressesModel::Tcp6 { source, destination, .. } => source.len() == 16 && destination.len() == 16,
    }
}

/// The pieces of a line are ASCII and hold no space or CR.
proof fn lemma_line_pieces(m: AddressesModel)
    requires
        model_wf(m),
    ensures
        forall|k: int| 0 <= k < line_pieces(m).len() ==> free_of(#[trigger] line_pieces(m)[k], 32),
        forall|k: int| 0 <= k < line_pieces(m).len() ==> free_of(#[trigger] line_pieces(m)[k], 13),
        forall|k: int| 0 <= k < line_pieces(m).len() ==> ascii(#[trigger] line_pieces(m)[k]),
        join(line_pieces(m), 32).len() <= 105,
        match m {
            AddressesModel::Unknown => true,
            AddressesModel::Tcp4 { source, destination, source_port, destination_port } => {
                &&& ipv4_of(ipv4_text(source)) == Some(source)
                &&& ipv4_of(ipv4_text(destination)) == Some(destination)
                &&& port_of(dec_text(source_port as nat)) == Ok::<u16, Option<IntErrorKind>>(source_port)
                &&& port_of(dec_text(destination_port as nat)) == Ok::<u16, Option<IntErrorKind>>(destination_port)
            },
            AddressesModel::Tcp6 { source, destination, source_port, destination_port } => {
                &&& ipv6_of(ipv6_text(source)) == Some(source)
                &&& ipv6_of(ipv6_text(destination)) == Some(destination)
                &&& port_of(dec_text(source_port as nat)) == Ok::<u16, Option<IntErrorKind>>(source_port)
                &&& port_of(dec_text(destination_port as nat)) == Ok::<u16, Option<IntErrorKind>>(destination_port)
            },
        },
{
    assert forall|i: int| 0 <= i < proxy_word().len() implies #[trigger] proxy_word()[i] < 128 && proxy_word()[i] != 32 && proxy_word()[i] != 13 by {}
    assert forall|i: int| 0 <= i < tcp4_word().len() implies #[trigger] tcp4_word()[i] < 128 && tcp4_word()[i] != 32 && tcp4_word()[i] != 13 by {}
    assert forall|i: int| 0 <= i < tcp6_word().len() implies #[trigger] tcp6_word()[i] < 128 && tcp6_word()[i] != 32 && tcp6_word()[i] != 13 by {}
    assert forall|i: int| 0 <= i < unknown_word().len() implies #[trigger] unknown_word()[i] < 128 && unknown_word()[i] != 32 && unknown_word()[i] != 13 by {}
    match m {
        AddressesModel::Unknown => {},
        AddressesModel::Tcp4 { source, destination, source_port, destination_port } => {
            lemma_ipv4_text(source);
            lemma_ipv4_text(destination);
            lemma_port_text(source_port);
            lemma_port_text(destination_port);
        },
        AddressesModel::Tcp6 { source, destination, source_port, destination_port } => {
            lemma_ipv6_text(source);
            lemma_ipv6_text(destination);
            lemma_port_text(source_port);
            lemma_port_text(destination_port);
        },
    }
    lemma_line_len(m);
}

/// A line parses back to the addresses it was written from.
proof fn lemma_line_parses(m: AddressesModel)
    requires
        model_wf(m),
    ensures
        v1_line(join(line_pieces(m), 32)) == Ok::<AddressesModel, ParseError>(m),
{
    let pieces = line_pieces(m);
    let line = join(pieces, 32);
    lemma_line_pieces(m);
    assert(line.subrange(0, line.len() as int) =~= line);
    lemma_parts_of_join(line, 32, 0, pieces, 6);
    assert(split_parts(line, 32, 6) == pieces);
    lemma_line_of_parts(m, line);
}

/// The verdict on a line whose parts are those written for `m`.
#[verifier::rlimit(30)]
proof fn lemma_line_of_parts(m: AddressesModel, line: Seq<u8>)
    requires
        model_wf(m),
        split_parts(line, 32, 6) == line_pieces(m),
        match m {
            AddressesModel::Unknown => true,
            AddressesModel::Tcp4 { source, destination, source_port, destination_port } => {
                &&& ipv4_of(ipv4_text(source)) == Some(source)
                &&& ipv4_of(ipv4_text(destination)) == Some(destination)
                &&& port_of(dec_text(source_port as nat)) == Ok::<u16, Option<IntErrorKind>>(source_port)
                &&& port_of(dec_text(destination_port as nat)) == Ok::<u16, Option<IntErrorKind>>(destination_port)
            },
            AddressesModel::Tcp6 { source, destination, source_port, destination_port } => {
                &&& ipv6_of(ipv6_text(source)) == Some(source)
                &&& ipv6_of(ipv6_text(destination)) == Some(destination)
                &&& port_of(dec_text(source_port as nat)) == Ok::<u16, Option<IntErrorKind>>(source_port)
                &&& port_of(dec_text(destination_port as nat)) == Ok::<u16, Option<IntErrorKind>>(destination_port)
            },
        },
    ensures
        v1_line(line) == Ok::<AddressesModel, ParseError>(m),
{
    let parts = split_parts(line, 32, 6);
    assert(parts[0] == proxy_word());
    assert(tcp4_word()[3] != tcp6_word()[3]);
    assert(tcp4_word().len() != unknown_word().len());
    assert(tcp6_word().len() != unknown_word().len());
    match m {
        AddressesModel::Unknown => {
            assert(parts[1] == unknown_word());
            assert(parts[1] != tcp4_word());
            assert(parts[1] != tcp6_word());
        },
        AddressesModel::Tcp4 { .. } => {
            assert(parts[1] == tcp4_word());
            assert(tcp_addresses(parts, false) == Ok::<AddressesModel, ParseError>(m));
        },
        AddressesModel::Tcp6 { .. } => {
            assert(parts[1] == tcp6_word());
            assert(parts[1] != tcp4_word());
            assert(tcp_addresses(parts, true) == Ok::<AddressesModel, ParseError>(m));
        },
    }
}

/// The text header written for `a` is ASCII, and it parses back, whole, to `a`.
pub proof fn lemma_wire_text(a: Addresses)
    ensures
        ascii(wire_text(a@)),
        valid_utf8(wire_text(a@)),
        v1_outcome(wire_text(a@)) == Ok::<(int, AddressesModel), BinaryParseError>(
            (wire_text(a@).len() as int, a@),
        ),
{
    let m = a@;
    let pieces = line_pieces(m);
    let line = join(pieces, 32);
    let w = wire_text(m);
    lemma_line_pieces(m);
    lemma_line_parses(m);
    lemma_join_free(pieces, 32, 13);
    lemma_crlf_at_end(line, 0);
    assert(ascii(w));
    lemma_ascii_utf8(w);
    assert(w.subrange(0, line.len() + 2 as int) =~= w);
    assert(w.subrange(0, line.len() as int) =~= line);
}

/// A line takes at most 105 bytes.
proof fn lemma_line_len(m: AddressesModel)
    requires
        match m {
            AddressesModel::Unknown => true,
            AddressesModel::Tcp4 { source, destination, source_port, destination_port } => {
                &&& ipv4_text(source).len() <= 15
                &&& ipv4_text(destination).len() <= 15
                &&& dec_text(source_port as nat).len() <= 5
                &&& dec_text(destination_port as nat).len() <= 5
            },
            AddressesModel::Tcp6 { source, destination, source_port, destination_port } => {
                &&& ipv6_text(source).len() <= 39
                &&& ipv6_text(destination).len() <= 39
                &&& dec_text(source_port as nat).len() <= 5
                &&& dec_text(destination_port as nat).len() <= 5
            },
        },
    ensures
        join(line_pieces(m), 32).len() <= 105,
{
    let p = line_pieces(m);
    reveal_with_fuel(join, 7);
    if p.len() == 2 {
        assert(p.drop_first() =~= seq![p[1]]);
    } else {
        assert(p.drop_first() =~= seq![p[1], p[2], p[3], p[4], p[5]]);
        assert(p.drop_first().drop_first() =~= seq![p[2], p[3], p[4], p[5]]);
        assert(p.drop_first().drop_first().drop_first() =~= seq![p[3], p[4], p[5]]);
        assert(p.drop_first().drop_first().drop_first().drop_first() =~= seq![p[4], p[5]]);
        assert(p.drop_first().drop_first().drop_first().drop_first().drop_first() =~= seq![p[5]]);
    }
}

/// Rendering addresses as a text header and parsing that header gives the same addresses
/// back, and the header takes all of the text.
pub proof fn lemma_v1_round_trip(a: Addresses)
    ensures
        v1_outcome(wire_text(a@)) == Ok::<(int, AddressesModel), BinaryParseError>(
            (wire_text(a@).len() as int, a@),
        ),
        forall|h: Header|
            v1_result(wire_text(a@), Ok::<Header, BinaryParseError>(h)) ==> h.addresses == a
                && h.header.spec_bytes() == wire_text(a@),
{
    lemma_wire_text(a);
    assert forall|h: Header| v1_result(wire_text(a@), Ok::<Header, BinaryParseError>(h)) implies h.addresses == a
        && h.header.spec_bytes() == wire_text(a@) by {
        let w = wire_text(a@);
        assert(h.header.spec_bytes().len() == w.len());
        assert(w.subrange(0, w.len() as int) =~= w);
        assert(h.addresses@ == a@);
        match (h.addresses, a) {
            (Addresses::Tcp4(x), Addresses::Tcp4(y)) => {
                assert(x.source_address =~= y.source_address);
                assert(x.destination_address =~= y.destination_address);
            },
            (Addresses::Tcp6(x), Addresses::Tcp6(y)) => {
                assert(x.source_address =~= y.source_address);
                assert(x.destination_address =~= y.destination_address);
            },
            _ => {},
        }
    }
}

} // verus!
