//! Version 2 of the PROXY protocol: the binary header.
//!
//! A header is a 16-byte prolog (signature, version and command, address family and
//! protocol, payload length) followed by the payload: an address block whose size the
//! address family fixes, then a stream of Type-Length-Value records.
use vstd::prelude::*;

pub use crate::builder::{Builder, WriteToHeader, Writer};
pub use crate::ip::{IPv4, IPv6, SocketAddress};

verus! {

/// The 12 bytes that every binary header starts with.
pub const PROTOCOL_PREFIX: [u8; 12] = [13, 10, 13, 10, 0, 13, 10, 81, 85, 73, 84, 10];

/// The length in bytes of the fixed part of a binary header.
pub const MINIMUM_LENGTH: usize = 16;

/// The length in bytes of the type and length fields of a Type-Length-Value record.
pub const MINIMUM_TLV_LENGTH: usize = 3;

/// The signature, as a sequence.
pub open spec fn signature() -> Seq<u8> {
    seq![13u8, 10u8, 13u8, 10u8, 0u8, 13u8, 10u8, 81u8, 85u8, 73u8, 84u8, 10u8]
}

/// The big-endian encoding of a 16-bit integer.
pub open spec fn be16(x: u16) -> Seq<u8> {
    seq![(x / 256) as u8, (x % 256) as u8]
}

/// The integer that two bytes encode in big-endian order.
pub open spec fn be16_value(hi: u8, lo: u8) -> nat {
    hi as nat * 256 + lo as nat
}

/// The supported versions of the binary header.
#[derive(Clone, Copy, Debug, PartialEq, Eq, Structural)]
pub enum Version {
    Two,
}

/// The supported commands of a binary header.
#[derive(Clone, Copy, Debug, PartialEq, Eq, Structural)]
pub enum Command {
    Local,
    Proxy,
}

/// The supported address families of a binary header.
#[derive(Clone, Copy, Debug, PartialEq, Eq, Structural)]
pub enum AddressFamily {
    Unspecified,
    IPv4,
    IPv6,
    Unix,
}

/// The supported transport protocols of a binary header.
#[derive(Clone, Copy, Debug, PartialEq, Eq, Structural)]
pub enum Protocol {
    Unspecified,
    Stream,
    Datagram,
}

impl Version {
    /// The high nibble of the version and command byte, in place.
    pub open spec fn spec_bits(self) -> u8 {
        0x20
    }

    /// The high nibble of the version and command byte, in place.
    pub fn bits(self) -> (r: u8)
        ensures
            r == self.spec_bits(),
    {
        0x20
    }

    /// The version and command byte for this version and `command`.
    pub fn with_command(self, command: Command) -> (r: u8)
        ensures
            r == self.spec_bits() + command.spec_bits(),
    {
        self.bits() + command.bits()
    }
}

impl Command {
    /// The command that the low nibble `bits` names; `Err` for an unknown one.
    pub fn new(bits: u8) -> (r: Result<Command, ()>)
        ensures
            r is Ok <==> (bits < 16 && command_of(bits) is Some),
            r matches Ok(x) ==> command_of(bits) == Some(x),
    {
        match bits {
            0 => Ok(Command::Local),
            1 => Ok(Command::Proxy),
            _ => Err(()),
        }
    }

    /// The low nibble of the version and command byte.
    pub open spec fn spec_bits(self) -> u8 {
        match self {
            Command::Local => 0,
            Command::Proxy => 1,
        }
    }

    /// The low nibble of the version and command byte.
    pub fn bits(self) -> (r: u8)
        ensures
            r == self.spec_bits(),
    {
        match self {
            Command::Local => 0,
            Command::Proxy => 1,
        }
    }
}

impl AddressFamily {
    /// The high nibble of the address family and protocol byte, in place.
    pub open spec fn spec_bits(self) -> u8 {
        match self {
            AddressFamily::Unspecified => 0x00,
            AddressFamily::IPv4 => 0x10,
            AddressFamily::IPv6 => 0x20,
            AddressFamily::Unix => 0x30,
        }
    }

    /// The high nibble of the address family and protocol byte, in place.
    pub fn bits(self) -> (r: u8)
        ensures
            r == self.spec_bits(),
    {
        match self {
            AddressFamily::Unspecified => 0x00,
            AddressFamily::IPv4 => 0x10,
            AddressFamily::IPv6 => 0x20,
            AddressFamily::Unix => 0x30,
        }
    }

    /// The address family and protocol byte for this family and `protocol`.
    pub fn with_protocol(self, protocol: Protocol) -> (r: u8)
        ensures
            r == self.spec_bits() + protocol.spec_bits(),
    {
        self.bits() + protocol.bits()
    }

    /// The size in bytes of the address block of this family (none for `Unspecified`).
    pub open spec fn spec_size(self) -> nat {
        match self {
            AddressFamily::Unspecified => 0,
            AddressFamily::IPv4 => 12,
            AddressFamily::IPv6 => 36,
            AddressFamily::Unix => 216,
        }
    }

    /// The length in bytes of the address block of this family.
    /// `Unspecified` requires no bytes and is represented as `None`.
    pub fn byte_length(&self) -> (r: Option<usize>)
        ensures
            *self == AddressFamily::Unspecified ==> r is None,
            *self != AddressFamily::Unspecified ==> r == Some(self.spec_size() as usize),
    {
        match self {
            AddressFamily::Unspecified => None,
            AddressFamily::IPv4 => Some(12),
            AddressFamily::IPv6 => Some(36),
            AddressFamily::Unix => Some(216),
        }
    }
}

impl Protocol {
    /// The protocol that the low nibble `bits` names; `Err` for an unknown one.
    pub fn new(bits: u8) -> (r: Result<Protocol, ()>)
        ensures
            r is Ok <==> (bits < 16 && protocol_of(bits) is Some),
            r matches Ok(x) ==> protocol_of(bits) == Some(x),
    {
        match bits {
            0 => Ok(Protocol::Unspecified),
            1 => Ok(Protocol::Stream),
            2 => Ok(Protocol::Datagram),
            _ => Err(()),
        }
    }

    /// The low nibble of the address family and protocol byte.
    pub open spec fn spec_bits(self) -> u8 {
        match self {
            Protocol::Unspecified => 0,
            Protocol::Stream => 1,
            Protocol::Datagram => 2,
        }
    }

    /// The low nibble of the address family and protocol byte.
    pub fn bits(self) -> (r: u8)
        ensures
            r == self.spec_bits(),
    {
        match self {
            Protocol::Unspecified => 0,
            Protocol::Stream => 1,
            Protocol::Datagram => 2,
        }
    }
}

impl core::ops::BitOr<Command> for Version {
    type Output = u8;

    fn bitor(self, rhs: Command) -> (r: u8) {
        self.with_command(rhs)
    }
}

impl vstd::std_specs::ops::BitOrSpecImpl<Command> for Version {
    open spec fn obeys_bitor_spec() -> bool {
        true
    }

    open spec fn bitor_req(self, rhs: Command) -> bool {
        true
    }

    open spec fn bitor_spec(self, rhs: Command) -> u8 {
        (self.spec_bits() + rhs.spec_bits()) as u8
    }
}

impl core::ops::BitOr<Version> for Command {
    type Output = u8;

    fn bitor(self, rhs: Version) -> (r: u8) {
        rhs.with_command(self)
    }
}

impl vstd::std_specs::ops::BitOrSpecImpl<Version> for Command {
    open spec fn obeys_bitor_spec() -> bool {
        true
    }

    open spec fn bitor_req(self, rhs: Version) -> bool {
        true
    }

    open spec fn bitor_spec(self, rhs: Version) -> u8 {
        (rhs.spec_bits() + self.spec_bits()) as u8
    }
}

impl core::ops::BitOr<Protocol> for AddressFamily {
    type Output = u8;

    fn bitor(self, rhs: Protocol) -> (r: u8) {
        self.with_protocol(rhs)
    }
}

impl vstd::std_specs::ops::BitOrSpecImpl<Protocol> for AddressFamily {
    open spec fn obeys_bitor_spec() -> bool {
        true
    }

    open spec fn bitor_req(self, rhs: Protocol) -> bool {
        true
    }

    open spec fn bitor_spec(self, rhs: Protocol) -> u8 {
        (self.spec_bits() + rhs.spec_bits()) as u8
    }
}

impl core::ops::BitOr<AddressFamily> for Protocol {
    type Output = u8;

    fn bitor(self, rhs: AddressFamily) -> (r: u8) {
        rhs.with_protocol(self)
    }
}

impl vstd::std_specs::ops::BitOrSpecImpl<AddressFamily> for Protocol {
    open spec fn obeys_bitor_spec() -> bool {
        true
    }

    open spec fn bitor_req(self, rhs: AddressFamily) -> bool {
        true
    }

    open spec fn bitor_spec(self, rhs: AddressFamily) -> u8 {
        (rhs.spec_bits() + self.spec_bits()) as u8
    }
}

/// The version that a version and command byte names, if any.
pub open spec fn version_of(b: u8) -> Option<Version> {
    if b / 16 == 2 {
        Some(Version::Two)
    } else {
        None
    }
}

/// The command that a version and command byte names, if any.
pub open spec fn command_of(b: u8) -> Option<Command> {
    if b % 16 == 0 {
        Some(Command::Local)
    } else if b % 16 == 1 {
        Some(Command::Proxy)
    } else {
        None
    }
}

/// The address family that an address family and protocol byte names, if any.
pub open spec fn family_of(b: u8) -> Option<AddressFamily> {
    if b / 16 == 0 {
        Some(AddressFamily::Unspecified)
    } else if b / 16 == 1 {
        Some(AddressFamily::IPv4)
    } else if b / 16 == 2 {
        Some(AddressFamily::IPv6)
    } else if b / 16 == 3 {
        Some(AddressFamily::Unix)
    } else {
        None
    }
}

/// The protocol that an address family and protocol byte names, if any.
pub open spec fn protocol_of(b: u8) -> Option<Protocol> {
    if b % 16 == 0 {
        Some(Protocol::Unspecified)
    } else if b % 16 == 1 {
        Some(Protocol::Stream)
    } else if b % 16 == 2 {
        Some(Protocol::Datagram)
    } else {
        None
    }
}

/// The source and destination paths of UNIX sockets.
#[derive(Clone, Copy, Debug, PartialEq, Eq)]
pub struct Unix {
    pub source: [u8; 108],
    pub destination: [u8; 108],
}

impl Unix {
    /// Creates a pair of UNIX socket paths.
    pub fn new(source: [u8; 108], destination: [u8; 108]) -> (r: Self)
        ensures
            r.source == source,
            r.destination == destination,
    {
        Unix { source, destination }
    }
}

/// The source and destination of a connection, for a given address family.
#[derive(Clone, Copy, Debug, PartialEq, Eq)]
pub enum Addresses {
    Unspecified,
    IPv4(IPv4),
    IPv6(IPv6),
    Unix(Unix),
}

impl Addresses {
    /// The address family of these addresses.
    pub open spec fn family(self) -> AddressFamily {
        match self {
            Addresses::Unspecified => AddressFamily::Unspecified,
            Addresses::IPv4(..) => AddressFamily::IPv4,
            Addresses::IPv6(..) => AddressFamily::IPv6,
            Addresses::Unix(..) => AddressFamily::Unix,
        }
    }

    /// The address family of these addresses.
    pub fn address_family(&self) -> (r: AddressFamily)
        ensures
            r == self.family(),
    {
        match self {
            Addresses::Unspecified => AddressFamily::Unspecified,
            Addresses::IPv4(..) => AddressFamily::IPv4,
            Addresses::IPv6(..) => AddressFamily::IPv6,
            Addresses::Unix(..) => AddressFamily::Unix,
        }
    }

    /// The addresses of a connection between two sockets: IPv4 or IPv6 where both sockets
    /// are of that family, else `Unspecified`.
    pub fn from_sockets(source: SocketAddress, destination: SocketAddress) -> (r: Addresses)
        ensures
            match (source, destination) {
                (SocketAddress::V4(sa, sp), SocketAddress::V4(da, dp)) => r == Addresses::IPv4(
                    IPv4 {
                        source_address: sa,
                        destination_address: da,
                        source_port: sp,
                        destination_port: dp,
                    },
                ),
                (SocketAddress::V6(sa, sp), SocketAddress::V6(da, dp)) => r == Addresses::IPv6(
                    IPv6 {
                        source_address: sa,
                        destination_address: da,
                        source_port: sp,
                        destination_port: dp,
                    },
                ),
                _ => r == Addresses::Unspecified,
            },
    {
        match (source, destination) {
            (SocketAddress::V4(sa, sp), SocketAddress::V4(da, dp)) => Addresses::IPv4(
                IPv4::new(sa, da, sp, dp),
            ),
            (SocketAddress::V6(sa, sp), SocketAddress::V6(da, dp)) => Addresses::IPv6(
                IPv6::new(sa, da, sp, dp),
            ),
            _ => Addresses::Unspecified,
        }
    }

    /// The length in bytes of these addresses in a header's payload.
    pub fn len(&self) -> (r: usize)
        ensures
            r == self.family().spec_size(),
    {
        match self {
            Addresses::Unspecified => 0,
            Addresses::IPv4(..) => 12,
            Addresses::IPv6(..) => 36,
            Addresses::Unix(..) => 216,
        }
    }

    /// Whether these addresses take no space in a header's payload.
    pub fn is_empty(&self) -> (r: bool)
        ensures
            r == (self.family() == AddressFamily::Unspecified),
    {
        match self {
            Addresses::Unspecified => true,
            _ => false,
        }
    }
}

impl From<IPv4> for Addresses {
    fn from(addresses: IPv4) -> (r: Addresses) {
        Addresses::IPv4(addresses)
    }
}

impl vstd::std_specs::convert::FromSpecImpl<IPv4> for Addresses {
    open spec fn obeys_from_spec() -> bool {
        true
    }

    open spec fn from_spec(addresses: IPv4) -> Addresses {
        Addresses::IPv4(addresses)
    }
}

impl From<IPv6> for Addresses {
    fn from(addresses: IPv6) -> (r: Addresses) {
        Addresses::IPv6(addresses)
    }
}

impl vstd::std_specs::convert::FromSpecImpl<IPv6> for Addresses {
    open spec fn obeys_from_spec() -> bool {
        true
    }

    open spec fn from_spec(addresses: IPv6) -> Addresses {
        Addresses::IPv6(addresses)
    }
}

impl From<Unix> for Addresses {
    fn from(addresses: Unix) -> (r: Addresses) {
        Addresses::Unix(addresses)
    }
}

impl vstd::std_specs::convert::FromSpecImpl<Unix> for Addresses {
    open spec fn obeys_from_spec() -> bool {
        true
    }

    open spec fn from_spec(addresses: Unix) -> Addresses {
        Addresses::Unix(addresses)
    }
}

/// The bytes that stand for `a` in the address block of a header.
pub open spec fn addresses_wire(a: Addresses) -> Seq<u8> {
    match a {
        Addresses::Unspecified => seq![],
        Addresses::IPv4(x) => x.source_address@ + x.destination_address@ + be16(x.source_port)
            + be16(x.destination_port),
        Addresses::IPv6(x) => x.source_address@ + x.destination_address@ + be16(x.source_port)
            + be16(x.destination_port),
        Addresses::Unix(x) => x.source@ + x.destination@,
    }
}

/// An error in parsing a binary header.
#[derive(Clone, Copy, Debug, PartialEq, Eq, Structural)]
pub enum ParseError {
    /// Fewer than the 16 bytes of the fixed part are present (holds how many are).
    Incomplete(usize),
    /// The payload is not all present (holds the declared length and the bytes present).
    Partial(usize, usize),
    /// The input does not start with the signature.
    Prefix,
    /// The version nibble, in place, is not 2.
    Version(u8),
    /// The command nibble is neither local nor proxy.
    Command(u8),
    /// The address family nibble, in place, is unknown.
    AddressFamily(u8),
    /// The protocol nibble is unknown.
    Protocol(u8),
    /// The declared length is less than the address family requires (declared, required).
    InvalidAddresses(usize, usize),
    /// A record's declared value runs past the end of the records (type, length).
    InvalidTLV(u8, u16),
    /// The records end in 1 or 2 bytes that cannot hold a record (holds the records' length).
    Leftovers(usize),
}

impl ParseError {
    /// Whether more input could turn this error into a success.
    pub open spec fn spec_is_incomplete(self) -> bool {
        self is Incomplete || self is Partial
    }

    /// Whether more input could turn this error into a success.
    pub fn is_incomplete(&self) -> (r: bool)
        ensures
            r == self.spec_is_incomplete(),
    {
        match self {
            ParseError::Incomplete(..) | ParseError::Partial(..) => true,
            _ => false,
        }
    }
}

/// The payload length that the fixed part of `input` declares.
pub open spec fn declared_length(input: Seq<u8>) -> nat {
    be16_value(input[14], input[15])
}

/// The error that parsing `input` as a binary header gives, or `None` where it succeeds.
pub open spec fn v2_error(input: Seq<u8>) -> Option<ParseError> {
    if input.len() < 16 {
        Some(ParseError::Incomplete(input.len() as usize))
    } else if input.subrange(0, 12) != signature() {
        Some(ParseError::Prefix)
    } else if version_of(input[12]) is None {
        Some(ParseError::Version(((input[12] / 16) * 16) as u8))
    } else if command_of(input[12]) is None {
        Some(ParseError::Command(input[12] % 16))
    } else if family_of(input[13]) is None {
        Some(ParseError::AddressFamily(((input[13] / 16) * 16) as u8))
    } else if protocol_of(input[13]) is None {
        Some(ParseError::Protocol(input[13] % 16))
    } else if declared_length(input) < family_of(input[13]).unwrap().spec_size() {
        Some(
            ParseError::InvalidAddresses(
                declared_length(input) as usize,
                family_of(input[13]).unwrap().spec_size() as usize,
            ),
        )
    } else if input.len() < 16 + declared_length(input) {
        Some(ParseError::Partial(declared_length(input) as usize, (input.len() - 16) as usize))
    } else {
        None
    }
}

/// A binary header that borrows the bytes it was parsed from.
#[derive(Clone, Copy, Debug, PartialEq, Eq)]
pub struct Header<'a> {
    pub header: &'a [u8],
    pub version: Version,
    pub command: Command,
    pub protocol: Protocol,
    pub addresses: Addresses,
}

/// `h` is what parsing `input` gives when `v2_error(input)` is `None`: it borrows the
/// first 16 + declared-length bytes, and its fields are those that the fixed part and
/// the address block encode.
pub open spec fn parsed_from(h: Header, input: Seq<u8>) -> bool {
    let family = family_of(input[13]).unwrap();
    &&& h.header@ == input.subrange(0, 16 + declared_length(input) as int)
    &&& h.version == Version::Two
    &&& command_of(input[12]) == Some(h.command)
    &&& protocol_of(input[13]) == Some(h.protocol)
    &&& h.addresses.family() == family
    &&& addresses_wire(h.addresses) == input.subrange(16, 16 + family.spec_size() as int)
}

/// `r` is what parsing `input` as a binary header gives.
pub open spec fn v2_result(input: Seq<u8>, r: Result<Header, ParseError>) -> bool {
    match r {
        Ok(h) => v2_error(input) is None && parsed_from(h, input),
        Err(e) => v2_error(input) == Some(e),
    }
}

/// Reads a big-endian port from two bytes.
fn read_port(hi: u8, lo: u8) -> (r: u16)
    ensures
        be16(r) == seq![hi, lo],
        r as nat == be16_value(hi, lo),
{
    let r = (hi as u16) * 256 + (lo as u16);
    assert(be16(r) =~= seq![hi, lo]);
    r
}

/// Copies 4 bytes from `bytes` starting at `start`.
fn read_array4(bytes: &[u8], start: usize) -> (r: [u8; 4])
    requires
        start + 4 <= bytes@.len(),
    ensures
        r@ == bytes@.subrange(start as int, start + 4),
{
    let r = [bytes[start], bytes[start + 1], bytes[start + 2], bytes[start + 3]];
    assert(r@ =~= bytes@.subrange(start as int, start + 4));
    r
}

/// Copies 16 bytes from `bytes` starting at `start`.
fn read_array16(bytes: &[u8], start: usize) -> (r: [u8; 16])
    requires
        start + 16 <= bytes@.len(),
    ensures
        r@ == bytes@.subrange(start as int, start + 16),
{
    let mut r = [0u8; 16];
    let n = bytes.len();
    let mut i: usize = 0;
    while i < 16
        invariant
            n == bytes@.len(),
            start + 16 <= bytes@.len(),
            0 <= i <= 16,
            r@.len() == 16,
            forall|j: int| 0 <= j < i ==> r@[j] == bytes@[start + j],
        decreases 16 - i,
    {
        r[i] = bytes[start + i];
        i = i + 1;
    }
    assert(r@ =~= bytes@.subrange(start as int, start + 16));
    r
}

/// Copies 108 bytes from `bytes` starting at `start`.
fn read_array108(bytes: &[u8], start: usize) -> (r: [u8; 108])
    requires
        start + 108 <= bytes@.len(),
    ensures
        r@ == bytes@.subrange(start as int, start + 108),
{
    let mut r = [0u8; 108];
    let n = bytes.len();
    let mut i: usize = 0;
    while i < 108
        invariant
            n == bytes@.len(),
            start + 108 <= bytes@.len(),
            0 <= i <= 108,
            r@.len() == 108,
            forall|j: int| 0 <= j < i ==> r@[j] == bytes@[start + j],
        decreases 108 - i,
    {
        r[i] = bytes[start + i];
        i = i + 1;
    }
    assert(r@ =~= bytes@.subrange(start as int, start + 108));
    r
}

/// Reads the address block of `family` from the start of `bytes`.
fn parse_addresses(family: AddressFamily, bytes: &[u8]) -> (r: Addresses)
    requires
        family.spec_size() <= bytes@.len(),
    ensures
        r.family() == family,
        addresses_wire(r) == bytes@.subrange(0, family.spec_size() as int),
{
    match family {
        AddressFamily::Unspecified => {
            assert(bytes@.subrange(0, 0) =~= Seq::<u8>::empty());
            Addresses::Unspecified
        },
        AddressFamily::IPv4 => {
            let source_address = read_array4(bytes, 0);
            let destination_address = read_array4(bytes, 4);
            let source_port = read_port(bytes[8], bytes[9]);
            let destination_port = read_port(bytes[10], bytes[11]);
            let r = Addresses::IPv4(
                IPv4 { source_address, destination_address, source_port, destination_port },
            );
            assert(addresses_wire(r) =~= bytes@.subrange(0, 12));
            r
        },
        AddressFamily::IPv6 => {
            let source_address = read_array16(bytes, 0);
            let destination_address = read_array16(bytes, 16);
            let source_port = read_port(bytes[32], bytes[33]);
            let destination_port = read_port(bytes[34], bytes[35]);
            let r = Addresses::IPv6(
                IPv6 { source_address, destination_address, source_port, destination_port },
            );
            assert(addresses_wire(r) =~= bytes@.subrange(0, 36));
            r
        },
        AddressFamily::Unix => {
            let source = read_array108(bytes, 0);
            let destination = read_array108(bytes, 108);
            let r = Addresses::Unix(Unix { source, destination });
            assert(addresses_wire(r) =~= bytes@.subrange(0, 216));
            r
        },
    }
}

/// Whether `input` starts with the signature.
fn has_signature(input: &[u8]) -> (r: bool)
    requires
        input@.len() >= 12,
    ensures
        r == (input@.subrange(0, 12) == signature()),
{
    let r = input[0] == 13 && input[1] == 10 && input[2] == 13 && input[3] == 10 && input[4] == 0
        && input[5] == 13 && input[6] == 10 && input[7] == 81 && input[8] == 85 && input[9] == 73
        && input[10] == 84 && input[11] == 10;
    if r {
        assert(input@.subrange(0, 12) =~= signature());
    } else {
        assert(input@.subrange(0, 12) != signature()) by {
            if input@.subrange(0, 12) == signature() {
                assert(input@.subrange(0, 12)[0] == input@[0]);
                assert(input@.subrange(0, 12)[1] == input@[1]);
                assert(input@.subrange(0, 12)[2] == input@[2]);
                assert(input@.subrange(0, 12)[3] == input@[3]);
                assert(input@.subrange(0, 12)[4] == input@[4]);
                assert(input@.subrange(0, 12)[5] == input@[5]);
                assert(input@.subrange(0, 12)[6] == input@[6]);
                assert(input@.subrange(0, 12)[7] == input@[7]);
                assert(input@.subrange(0, 12)[8] == input@[8]);
                assert(input@.subrange(0, 12)[9] == input@[9]);
                assert(input@.subrange(0, 12)[10] == input@[10]);
                assert(input@.subrange(0, 12)[11] == input@[11]);
            }
        }
    }
    r
}

impl<'a> Header<'a> {
    /// Parses a binary header from the front of `input`.
    /// Bytes after the header's declared length are left alone and not borrowed.
    pub fn try_from(input: &'a [u8]) -> (r: Result<Header<'a>, ParseError>)
        ensures
            v2_result(input@, r),
    {
        if input.len() < MINIMUM_LENGTH {
            return Err(ParseError::Incomplete(input.len()));
        }
        if !has_signature(input) {
            return Err(ParseError::Prefix);
        }
        let vc = input[12];
        let af = input[13];
        let version = if vc / 16 == 2 {
            Version::Two
        } else {
            return Err(ParseError::Version((vc / 16) * 16));
        };
        let command = if vc % 16 == 0 {
            Command::Local
        } else if vc % 16 == 1 {
            Command::Proxy
        } else {
            return Err(ParseError::Command(vc % 16));
        };
        let family = if af / 16 == 0 {
            AddressFamily::Unspecified
        } else if af / 16 == 1 {
            AddressFamily::IPv4
        } else if af / 16 == 2 {
            AddressFamily::IPv6
        } else if af / 16 == 3 {
            AddressFamily::Unix
        } else {
            return Err(ParseError::AddressFamily((af / 16) * 16));
        };
        let protocol = if af % 16 == 0 {
            Protocol::Unspecified
        } else if af % 16 == 1 {
            Protocol::Stream
        } else if af % 16 == 2 {
            Protocol::Datagram
        } else {
            return Err(ParseError::Protocol(af % 16));
        };
        let length: usize = (input[14] as usize) * 256 + (input[15] as usize);
        let required: usize = match family.byte_length() {
            Some(n) => n,
            None => 0,
        };
        if length < required {
            return Err(ParseError::InvalidAddresses(length, required));
        }
        if input.len() - MINIMUM_LENGTH < length {
            return Err(ParseError::Partial(length, input.len() - MINIMUM_LENGTH));
        }
        let full_length = MINIMUM_LENGTH + length;
        let header = &input[0..full_length];
        let payload = &input[MINIMUM_LENGTH..full_length];
        let addresses = parse_addresses(family, payload);
        assert(payload@.subrange(0, family.spec_size() as int) =~= input@.subrange(
            16,
            16 + family.spec_size() as int,
        ));
        Ok(Header { header, version, command, protocol, addresses })
    }
}

impl<'a> Header<'a> {
    /// Where the address block ends and the records begin, as an offset into the header.
    /// The address block of an `Unspecified` family is empty: its payload is all records.
    pub open spec fn spec_address_end(self) -> int {
        let total = self.header@.len();
        let size = self.addresses.family().spec_size();
        if total < 16 + size {
            total as int
        } else {
            16 + size as int
        }
    }

    /// The bytes of the address block.
    pub open spec fn spec_address_bytes(self) -> Seq<u8> {
        self.header@.subrange(16, self.spec_address_end())
    }

    /// The bytes of the Type-Length-Value records.
    pub open spec fn spec_tlv_bytes(self) -> Seq<u8> {
        self.header@.subrange(self.spec_address_end(), self.header@.len() as int)
    }

    /// The length of this header's payload in bytes.
    pub fn length(&self) -> (r: usize)
        requires
            self.header@.len() >= 16,
        ensures
            r == self.header@.len() - 16,
    {
        self.header.len() - MINIMUM_LENGTH
    }

    /// The total length of this header in bytes.
    pub fn len(&self) -> (r: usize)
        ensures
            r == self.header@.len(),
    {
        self.header.len()
    }

    /// Whether the underlying bytes are empty.
    pub fn is_empty(&self) -> (r: bool)
        ensures
            r == (self.header@.len() == 0),
    {
        self.header.len() == 0
    }

    /// The address family of this header.
    pub fn address_family(&self) -> (r: AddressFamily)
        ensures
            r == self.addresses.family(),
    {
        self.addresses.address_family()
    }

    /// The offset at which the address block ends.
    fn address_bytes_end(&self) -> (r: usize)
        requires
            self.header@.len() >= 16,
        ensures
            r == self.spec_address_end(),
    {
        let length = self.length();
        let size = match self.address_family().byte_length() {
            Some(n) => n,
            None => 0,
        };
        if size <= length {
            MINIMUM_LENGTH + size
        } else {
            self.header.len()
        }
    }

    /// The bytes of the address block of the payload.
    pub fn address_bytes(&self) -> (r: &'a [u8])
        requires
            self.header@.len() >= 16,
        ensures
            r@ == self.spec_address_bytes(),
    {
        let end = self.address_bytes_end();
        &self.header[MINIMUM_LENGTH..end]
    }

    /// The bytes of the Type-Length-Value records of the payload.
    pub fn tlv_bytes(&self) -> (r: &'a [u8])
        requires
            self.header@.len() >= 16,
        ensures
            r@ == self.spec_tlv_bytes(),
    {
        let end = self.address_bytes_end();
        &self.header[end..self.header.len()]
    }

    /// A fresh cursor over the Type-Length-Value records of the payload.
    pub fn tlvs(&self) -> (r: TypeLengthValues<'a>)
        requires
            self.header@.len() >= 16,
        ensures
            r.spec_bytes() == self.spec_tlv_bytes(),
            r.spec_offset() == 0,
    {
        TypeLengthValues { bytes: self.tlv_bytes(), offset: 0 }
    }

    /// The bytes this header borrows.
    pub fn as_bytes(&self) -> (r: &'a [u8])
        ensures
            r@ == self.header@,
    {
        self.header
    }
}

/// The known kinds of Type-Length-Value records.
#[derive(Clone, Copy, Debug, PartialEq, Eq, Structural)]
pub enum Type {
    ALPN,
    Authority,
    CRC32C,
    NoOp,
    UniqueId,
    SSL,
    SSLVersion,
    SSLCommonName,
    SSLCipher,
    SSLSignatureAlgorithm,
    SSLKeyAlgorithm,
    NetworkNamespace,
}

impl Type {
    /// The type byte of this kind.
    pub open spec fn spec_code(self) -> u8 {
        match self {
            Type::ALPN => 0x01,
            Type::Authority => 0x02,
            Type::CRC32C => 0x03,
            Type::NoOp => 0x04,
            Type::UniqueId => 0x05,
            Type::SSL => 20,
            Type::SSLVersion => 21,
            Type::SSLCommonName => 22,
            Type::SSLCipher => 23,
            Type::SSLSignatureAlgorithm => 24,
            Type::SSLKeyAlgorithm => 25,
            Type::NetworkNamespace => 30,
        }
    }

    /// The type byte of this kind.
    pub fn code(self) -> (r: u8)
        ensures
            r == self.spec_code(),
    {
        match self {
            Type::ALPN => 0x01,
            Type::Authority => 0x02,
            Type::CRC32C => 0x03,
            Type::NoOp => 0x04,
            Type::UniqueId => 0x05,
            Type::SSL => 20,
            Type::SSLVersion => 21,
            Type::SSLCommonName => 22,
            Type::SSLCipher => 23,
            Type::SSLSignatureAlgorithm => 24,
            Type::SSLKeyAlgorithm => 25,
            Type::NetworkNamespace => 30,
        }
    }
}

impl From<Type> for u8 {
    fn from(kind: Type) -> (r: u8) {
        kind.code()
    }
}

impl vstd::std_specs::convert::FromSpecImpl<Type> for u8 {
    open spec fn obeys_from_spec() -> bool {
        true
    }

    open spec fn from_spec(kind: Type) -> u8 {
        kind.spec_code()
    }
}

/// The client flags of an SSL record.
#[derive(Clone, Copy, Debug, PartialEq, Eq, Structural)]
pub enum ClientType {
    SSL,
    CertificateConnection,
    CertificateSession,
}

impl ClientType {
    /// The byte value of this client type.
    pub open spec fn spec_code(self) -> u8 {
        match self {
            ClientType::SSL => 0x01,
            ClientType::CertificateConnection => 0x02,
            ClientType::CertificateSession => 0x03,
        }
    }

    /// The byte value of this client type.
    pub fn code(self) -> (r: u8)
        ensures
            r == self.spec_code(),
    {
        match self {
            ClientType::SSL => 0x01,
            ClientType::CertificateConnection => 0x02,
            ClientType::CertificateSession => 0x03,
        }
    }
}

impl From<ClientType> for u8 {
    fn from(kind: ClientType) -> (r: u8) {
        kind.code()
    }
}

impl vstd::std_specs::convert::FromSpecImpl<ClientType> for u8 {
    open spec fn obeys_from_spec() -> bool {
        true
    }

    open spec fn from_spec(kind: ClientType) -> u8 {
        kind.spec_code()
    }
}

/// A value that names the kind of a Type-Length-Value record: a type byte, a `Type` or
/// a `ClientType`.
pub trait RecordKind {
    /// The type byte this value names.
    spec fn spec_kind_byte(&self) -> u8;

    /// The type byte this value names.
    fn kind_byte(self) -> (r: u8)
        ensures
            r == self.spec_kind_byte(),
    ;
}

impl RecordKind for u8 {
    open spec fn spec_kind_byte(&self) -> u8 {
        *self
    }

    fn kind_byte(self) -> (r: u8) {
        self
    }
}

impl RecordKind for Type {
    open spec fn spec_kind_byte(&self) -> u8 {
        self.spec_code()
    }

    fn kind_byte(self) -> (r: u8) {
        self.code()
    }
}

impl RecordKind for ClientType {
    open spec fn spec_kind_byte(&self) -> u8 {
        self.spec_code()
    }

    fn kind_byte(self) -> (r: u8) {
        self.code()
    }
}

/// A Type-Length-Value record that borrows its value.
#[derive(Clone, Copy, Debug, PartialEq, Eq)]
pub struct TypeLengthValue<'a> {
    pub kind: u8,
    pub value: &'a [u8],
}

impl<'a> View for TypeLengthValue<'a> {
    type V = (u8, Seq<u8>);

    open spec fn view(&self) -> (u8, Seq<u8>) {
        (self.kind, self.value@)
    }
}

impl<'a> TypeLengthValue<'a> {
    /// Creates a record of the given kind; its length is that of `value`.
    /// No check is made that the length fits in 16 bits.
    pub fn new<T: RecordKind>(kind: T, value: &'a [u8]) -> (r: Self)
        ensures
            r.kind == kind.spec_kind_byte(),
            r.value@ == value@,
    {
        TypeLengthValue { kind: kind.kind_byte(), value }
    }

    /// The length in bytes of the value.
    pub fn len(&self) -> (r: usize)
        ensures
            r == self.value@.len(),
    {
        self.value.len()
    }

    /// A copy of this record that owns its value.
    pub fn to_tlv(&self) -> (r: Tlv)
        ensures
            r@ == self@,
    {
        let mut value: Vec<u8> = Vec::new();
        value.extend_from_slice(self.value);
        Tlv::new(self.kind, value)
    }

    /// Whether the value is empty.
    pub fn is_empty(&self) -> (r: bool)
        ensures
            r == (self.value@.len() == 0),
    {
        self.value.len() == 0
    }
}

/// A Type-Length-Value record that owns its value.
#[derive(Clone, Debug, PartialEq, Eq)]
pub struct Tlv {
    value_type: u8,
    value: Vec<u8>,
}

impl View for Tlv {
    type V = (u8, Seq<u8>);

    closed spec fn view(&self) -> (u8, Seq<u8>) {
        (self.value_type, self.value@)
    }
}

impl Tlv {
    /// A record of kind `value_type` holding `value`.
    pub fn new(value_type: u8, value: Vec<u8>) -> (r: Tlv)
        ensures
            r@ == (value_type, value@),
    {
        Tlv { value_type, value }
    }

    /// The kind of the record, which tells how to read its value.
    pub fn value_type(&self) -> (r: u8)
        ensures
            r == self@.0,
    {
        self.value_type
    }

    /// The value.
    pub fn value(&self) -> (r: &[u8])
        ensures
            r@ == self@.1,
    {
        self.value.as_slice()
    }

    /// The length of the value.
    pub fn len(&self) -> (r: usize)
        ensures
            r == self@.1.len(),
    {
        self.value.len()
    }
}

/// What one step over the records yields, with the record as plain values.
pub open spec fn item_view(item: Result<TypeLengthValue, ParseError>) -> Result<(u8, Seq<u8>), ParseError> {
    match item {
        Ok(t) => Ok(t@),
        Err(e) => Err(e),
    }
}

/// What a cursor at `offset` into the records `bytes` yields, in order: each complete
/// record, then, where the bytes do not end on a record boundary, one error.
pub open spec fn tlv_items(bytes: Seq<u8>, offset: int) -> Seq<Result<(u8, Seq<u8>), ParseError>>
    decreases bytes.len() - offset,
{
    if offset < 0 || offset >= bytes.len() {
        seq![]
    } else if bytes.len() - offset < 3 {
        seq![Err(ParseError::Leftovers(bytes.len() as usize))]
    } else {
        let kind = bytes[offset];
        let length = be16_value(bytes[offset + 1], bytes[offset + 2]);
        if bytes.len() - offset < 3 + length {
            seq![Err(ParseError::InvalidTLV(kind, length as u16))]
        } else {
            seq![Ok((kind, bytes.subrange(offset + 3, offset + 3 + length)))] + tlv_items(
                bytes,
                offset + 3 + length,
            )
        }
    }
}

/// A cursor over Type-Length-Value records, which borrows their bytes.
#[derive(Clone, Copy, Debug, PartialEq, Eq)]
pub struct TypeLengthValues<'a> {
    bytes: &'a [u8],
    offset: usize,
}

impl<'a> TypeLengthValues<'a> {
    /// The bytes of the records.
    pub closed spec fn spec_bytes(self) -> Seq<u8> {
        self.bytes@
    }

    /// How far the cursor has gone into the bytes.
    pub closed spec fn spec_offset(self) -> int {
        self.offset as int
    }

    /// What the cursor has left to yield.
    pub open spec fn remaining(self) -> Seq<Result<(u8, Seq<u8>), ParseError>> {
        tlv_items(self.spec_bytes(), self.spec_offset())
    }

    /// A cursor at the start of `bytes`.
    pub fn from(bytes: &'a [u8]) -> (r: Self)
        ensures
            r.spec_bytes() == bytes@,
            r.spec_offset() == 0,
    {
        TypeLengthValues { bytes, offset: 0 }
    }

    /// The bytes of the records.
    pub fn as_bytes(&self) -> (r: &'a [u8])
        ensures
            r@ == self.spec_bytes(),
    {
        self.bytes
    }

    /// The number of bytes of the records, truncated to 16 bits.
    pub fn len(&self) -> (r: u16)
        ensures
            r == self.spec_bytes().len() as u16,
    {
        self.bytes.len() as u16
    }

    /// Whether there are no bytes to read records from.
    pub fn is_empty(&self) -> (r: bool)
        ensures
            r == (self.spec_bytes().len() == 0),
    {
        self.bytes.len() == 0
    }

    /// Yields the next record, or the error that ends the records, or `None` at the end.
    pub fn next(&mut self) -> (r: Option<Result<TypeLengthValue<'a>, ParseError>>)
        ensures
            final(self).spec_bytes() == old(self).spec_bytes(),
            match r {
                None => old(self).remaining().len() == 0 && final(self).remaining().len() == 0,
                Some(item) => {
                    &&& old(self).remaining() == seq![item_view(item)] + final(self).remaining()
                    &&& final(self).spec_offset() > old(self).spec_offset()
                    &&& final(self).spec_offset() <= final(self).spec_bytes().len()
                },
            },
    {
        let total = self.bytes.len();
        if self.offset >= total {
            return None;
        }
        let offset = self.offset;
        if total - offset < MINIMUM_TLV_LENGTH {
            self.offset = total;
            return Some(Err(ParseError::Leftovers(total)));
        }
        let kind = self.bytes[offset];
        let length = read_port(self.bytes[offset + 1], self.bytes[offset + 2]);
        if total - offset - MINIMUM_TLV_LENGTH < length as usize {
            self.offset = total;
            return Some(Err(ParseError::InvalidTLV(kind, length)));
        }
        let end = offset + MINIMUM_TLV_LENGTH + length as usize;
        let value = &self.bytes[offset + MINIMUM_TLV_LENGTH..end];
        self.offset = end;
        Some(Ok(TypeLengthValue { kind, value }))
    }

    /// Everything the cursor has left to yield, in order.
    pub fn to_vec(&self) -> (r: Vec<Result<TypeLengthValue<'a>, ParseError>>)
        ensures
            r@.map_values(|item| item_view(item)) == self.remaining(),
    {
        let mut cursor = *self;
        let mut r: Vec<Result<TypeLengthValue<'a>, ParseError>> = Vec::new();
        loop
            invariant
                cursor.spec_bytes() == self.spec_bytes(),
                self.remaining() == r@.map_values(|item| item_view(item)) + cursor.remaining(),
            decreases cursor.spec_bytes().len() - cursor.spec_offset(),
        {
            let ghost before = cursor;
            match cursor.next() {
                None => {
                    assert(cursor.remaining() =~= seq![]);
                    assert(self.remaining() =~= r@.map_values(|item| item_view(item)));
                    return r;
                },
                Some(item) => {
                    let ghost prior = r@;
                    r.push(item);
                    assert(r@.map_values(|item| item_view(item)) =~= prior.map_values(
                        |item| item_view(item),
                    ).push(item_view(item)));
                    assert(self.remaining() =~= r@.map_values(|item| item_view(item))
                        + cursor.remaining());
                    assert(before.spec_offset() <= before.spec_bytes().len());
                },
            }
        }
    }
}

} // verus!
