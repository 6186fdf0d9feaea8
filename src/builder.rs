//! Building binary headers: a growable byte writer, the values that can be written to
//! it, and a builder that emits the fixed part and back-patches the payload length.
use vstd::prelude::*;

use crate::v2::{
    addresses_wire, be16, signature, Addresses, RecordKind, Type, TypeLengthValue, TypeLengthValues,
    MINIMUM_LENGTH,
};

verus! {

/// `std::io::Error`, the error that writes and builds report; it is carried through and
/// never looked into.
#[verifier::external_type_specification]
#[verifier::external_body]
pub struct ExIoError(std::io::Error);

/// Relies on `From<std::io::ErrorKind> for std::io::Error`: an error of kind `WriteZero`,
/// the kind that a writer reports when it takes no more bytes.
#[verifier::external_body]
fn write_zero() -> std::io::Error {
    std::io::ErrorKind::WriteZero.into()
}

/// The most bytes a writer holds before it refuses further writes: the fixed part and a
/// payload of the largest length that 16 bits declare.
pub open spec fn writer_limit() -> nat {
    65535 + 16
}

/// A growable buffer of header bytes.
#[derive(Debug, Default)]
pub struct Writer {
    bytes: Vec<u8>,
}

impl View for Writer {
    type V = Seq<u8>;

    closed spec fn view(&self) -> Seq<u8> {
        self.bytes@
    }
}

impl Writer {
    /// An empty writer.
    pub fn new() -> (r: Self)
        ensures
            r@ == Seq::<u8>::empty(),
    {
        Writer { bytes: Vec::new() }
    }

    /// A writer that continues after `bytes`.
    pub fn from(bytes: Vec<u8>) -> (r: Self)
        ensures
            r@ == bytes@,
    {
        Writer { bytes }
    }

    /// The bytes written so far.
    pub fn finish(self) -> (r: Vec<u8>)
        ensures
            r@ == self@,
    {
        self.bytes
    }

    /// Appends `buf`, unless the writer already holds more than a full header.
    pub fn write(&mut self, buf: &[u8]) -> (r: Result<usize, std::io::Error>)
        ensures
            old(self)@.len() <= writer_limit() ==> r == Ok::<usize, std::io::Error>(buf@.len() as usize)
                && final(self)@ == old(self)@ + buf@,
            old(self)@.len() > writer_limit() ==> r is Err && final(self)@ == old(self)@,
    {
        if self.bytes.len() > 65535 + MINIMUM_LENGTH {
            Err(write_zero())
        } else {
            self.bytes.extend_from_slice(buf);
            Ok(buf.len())
        }
    }
}

/// The big-endian encoding of `v` in `n` bytes (the low `n` bytes of `v`).
pub open spec fn be_bytes(v: nat, n: nat) -> Seq<u8>
    decreases n,
{
    if n == 0 {
        seq![]
    } else {
        be_bytes(v / 256, (n - 1) as nat).push((v % 256) as u8)
    }
}

/// Two big-endian bytes of a 16-bit value are its `be16` encoding.
proof fn lemma_be_bytes_two(v: nat)
    requires
        v < 65536,
    ensures
        be_bytes(v, 2) == be16(v as u16),
{
    reveal_with_fuel(be_bytes, 3);
    assert((v / 256) / 256 == 0);
    assert((v / 256) % 256 == v / 256);
    assert(be_bytes(v, 2) =~= be16(v as u16));
}

/// Appends the big-endian encoding of `v` in `n` bytes.
fn push_be(out: &mut Vec<u8>, v: u128, n: usize)
    ensures
        final(out)@ == old(out)@ + be_bytes(v as nat, n as nat),
    decreases n,
{
    if n == 0 {
        assert(old(out)@ + be_bytes(v as nat, 0) =~= old(out)@);
        return;
    }
    push_be(out, v / 256, n - 1);
    out.push((v % 256) as u8);
    assert(final(out)@ =~= old(out)@ + be_bytes(v as nat, n as nat));
}

/// A value that knows the bytes it stands for in a header.
pub trait WriteToHeader {
    /// The bytes this value writes.
    spec fn wire(&self) -> Seq<u8>;

    /// Whether this value can be written at all (a value or record of more than 65535
    /// bytes cannot).
    spec fn writable(&self) -> bool;

    /// Writes this value's bytes to `writer`, in one piece or not at all.
    fn write_to(&self, writer: &mut Writer) -> (r: Result<usize, std::io::Error>)
        ensures
            (self.writable() && old(writer)@.len() <= writer_limit()) ==> {
                &&& r == Ok::<usize, std::io::Error>(self.wire().len() as usize)
                &&& final(writer)@ == old(writer)@ + self.wire()
            },
            !(self.writable() && old(writer)@.len() <= writer_limit()) ==> {
                &&& r is Err
                &&& final(writer)@ == old(writer)@
            },
    ;
}

/// Writes `value` to a fresh writer and returns the bytes.
pub fn to_bytes<T: WriteToHeader + ?Sized>(value: &T) -> (r: Result<Vec<u8>, std::io::Error>)
    ensures
        value.writable() ==> r is Ok && r.unwrap()@ == value.wire(),
        !value.writable() ==> r is Err,
{
    let mut writer = Writer::new();
    match value.write_to(&mut writer) {
        Ok(_) => Ok(writer.finish()),
        Err(e) => Err(e),
    }
}

/// Writes the bytes of `out` in one piece.
fn write_vec(writer: &mut Writer, out: Vec<u8>) -> (r: Result<usize, std::io::Error>)
    ensures
        old(writer)@.len() <= writer_limit() ==> r == Ok::<usize, std::io::Error>(out@.len() as usize)
            && final(writer)@ == old(writer)@ + out@,
        old(writer)@.len() > writer_limit() ==> r is Err && final(writer)@ == old(writer)@,
{
    writer.write(out.as_slice())
}

impl WriteToHeader for Addresses {
    open spec fn wire(&self) -> Seq<u8> {
        addresses_wire(*self)
    }

    open spec fn writable(&self) -> bool {
        true
    }

    fn write_to(&self, writer: &mut Writer) -> (r: Result<usize, std::io::Error>) {
        let mut out: Vec<u8> = Vec::new();
        match self {
            Addresses::Unspecified => {},
            Addresses::IPv4(a) => {
                out.extend_from_slice(a.source_address.as_slice());
                out.extend_from_slice(a.destination_address.as_slice());
                push_be(&mut out, a.source_port as u128, 2);
                push_be(&mut out, a.destination_port as u128, 2);
                proof {
                    lemma_be_bytes_two(a.source_port as nat);
                    lemma_be_bytes_two(a.destination_port as nat);
                }
            },
            Addresses::IPv6(a) => {
                out.extend_from_slice(a.source_address.as_slice());
                out.extend_from_slice(a.destination_address.as_slice());
                push_be(&mut out, a.source_port as u128, 2);
                push_be(&mut out, a.destination_port as u128, 2);
                proof {
                    lemma_be_bytes_two(a.source_port as nat);
                    lemma_be_bytes_two(a.destination_port as nat);
                }
            },
            Addresses::Unix(a) => {
                out.extend_from_slice(a.source.as_slice());
                out.extend_from_slice(a.destination.as_slice());
            },
        }
        assert(out@ =~= addresses_wire(*self));
        write_vec(writer, out)
    }
}

/// The bytes of a record of kind `kind` with value `value`.
pub open spec fn tlv_wire(kind: u8, value: Seq<u8>) -> Seq<u8> {
    seq![kind] + be16(value.len() as u16) + value
}

impl<'a> WriteToHeader for TypeLengthValue<'a> {
    open spec fn wire(&self) -> Seq<u8> {
        tlv_wire(self.kind, self.value@)
    }

    open spec fn writable(&self) -> bool {
        self.value@.len() <= 65535
    }

    fn write_to(&self, writer: &mut Writer) -> (r: Result<usize, std::io::Error>) {
        if self.value.len() > 65535 {
            return Err(write_zero());
        }
        let mut out: Vec<u8> = Vec::new();
        out.push(self.kind);
        push_be(&mut out, self.value.len() as u128, 2);
        out.extend_from_slice(self.value);
        proof {
            lemma_be_bytes_two(self.value@.len());
        }
        assert(out@ =~= tlv_wire(self.kind, self.value@));
        write_vec(writer, out)
    }
}

impl<'a> WriteToHeader for TypeLengthValues<'a> {
    open spec fn wire(&self) -> Seq<u8> {
        self.spec_bytes()
    }

    open spec fn writable(&self) -> bool {
        true
    }

    fn write_to(&self, writer: &mut Writer) -> (r: Result<usize, std::io::Error>) {
        writer.write(self.as_bytes())
    }
}

impl WriteToHeader for [u8] {
    open spec fn wire(&self) -> Seq<u8> {
        self@
    }

    open spec fn writable(&self) -> bool {
        self@.len() <= 65535
    }

    fn write_to(&self, writer: &mut Writer) -> (r: Result<usize, std::io::Error>) {
        if self.len() > 65535 {
            return Err(write_zero());
        }
        writer.write(self)
    }
}

impl<'a, T: WriteToHeader + ?Sized> WriteToHeader for &'a T {
    open spec fn wire(&self) -> Seq<u8> {
        (**self).wire()
    }

    open spec fn writable(&self) -> bool {
        (**self).writable()
    }

    fn write_to(&self, writer: &mut Writer) -> (r: Result<usize, std::io::Error>) {
        (**self).write_to(writer)
    }
}

impl WriteToHeader for usize {
    open spec fn wire(&self) -> Seq<u8> {
        be_bytes(*self as nat, vstd::layout::size_of::<usize>())
    }

    open spec fn writable(&self) -> bool {
        true
    }

    fn write_to(&self, writer: &mut Writer) -> (r: Result<usize, std::io::Error>) {
        let mut out: Vec<u8> = Vec::new();
        push_be(&mut out, *self as u128, core::mem::size_of::<usize>());
        assert(out@ =~= be_bytes(*self as nat, vstd::layout::size_of::<usize>()));
        write_vec(writer, out)
    }
}

impl WriteToHeader for isize {
    open spec fn wire(&self) -> Seq<u8> {
        be_bytes((*self as usize) as nat, vstd::layout::size_of::<isize>())
    }

    open spec fn writable(&self) -> bool {
        true
    }

    fn write_to(&self, writer: &mut Writer) -> (r: Result<usize, std::io::Error>) {
        let mut out: Vec<u8> = Vec::new();
        push_be(&mut out, (*self as usize) as u128, core::mem::size_of::<isize>());
        assert(out@ =~= be_bytes((*self as usize) as nat, vstd::layout::size_of::<isize>()));
        write_vec(writer, out)
    }
}

impl WriteToHeader for Type {
    open spec fn wire(&self) -> Seq<u8> {
        seq![self.spec_code()]
    }

    open spec fn writable(&self) -> bool {
        true
    }

    fn write_to(&self, writer: &mut Writer) -> (r: Result<usize, std::io::Error>) {
        let mut out: Vec<u8> = Vec::new();
        out.push(self.code());
        assert(out@ =~= seq![self.spec_code()]);
        write_vec(writer, out)
    }
}

impl WriteToHeader for u8 {
    open spec fn wire(&self) -> Seq<u8> {
        be_bytes(*self as nat, 1)
    }

    open spec fn writable(&self) -> bool {
        true
    }

    fn write_to(&self, writer: &mut Writer) -> (r: Result<usize, std::io::Error>) {
        let mut out: Vec<u8> = Vec::new();
        push_be(&mut out, *self as u128, 1);
        assert(out@ =~= be_bytes(*self as nat, 1));
        write_vec(writer, out)
    }
}

impl WriteToHeader for u16 {
    open spec fn wire(&self) -> Seq<u8> {
        be_bytes(*self as nat, 2)
    }

    open spec fn writable(&self) -> bool {
        true
    }

    fn write_to(&self, writer: &mut Writer) -> (r: Result<usize, std::io::Error>) {
        let mut out: Vec<u8> = Vec::new();
        push_be(&mut out, *self as u128, 2);
        assert(out@ =~= be_bytes(*self as nat, 2));
        write_vec(writer, out)
    }
}

impl WriteToHeader for u32 {
    open spec fn wire(&self) -> Seq<u8> {
        be_bytes(*self as nat, 4)
    }

    open spec fn writable(&self) -> bool {
        true
    }

    fn write_to(&self, writer: &mut Writer) -> (r: Result<usize, std::io::Error>) {
        let mut out: Vec<u8> = Vec::new();
        push_be(&mut out, *self as u128, 4);
        assert(out@ =~= be_bytes(*self as nat, 4));
        write_vec(writer, out)
    }
}

impl WriteToHeader for u64 {
    open spec fn wire(&self) -> Seq<u8> {
        be_bytes(*self as nat, 8)
    }

    open spec fn writable(&self) -> bool {
        true
    }

    fn write_to(&self, writer: &mut Writer) -> (r: Result<usize, std::io::Error>) {
        let mut out: Vec<u8> = Vec::new();
        push_be(&mut out, *self as u128, 8);
        assert(out@ =~= be_bytes(*self as nat, 8));
        write_vec(writer, out)
    }
}

impl WriteToHeader for u128 {
    open spec fn wire(&self) -> Seq<u8> {
        be_bytes(*self as nat, 16)
    }

    open spec fn writable(&self) -> bool {
        true
    }

    fn write_to(&self, writer: &mut Writer) -> (r: Result<usize, std::io::Error>) {
        let mut out: Vec<u8> = Vec::new();
        push_be(&mut out, *self as u128, 16);
        assert(out@ =~= be_bytes(*self as nat, 16));
        write_vec(writer, out)
    }
}

impl WriteToHeader for i8 {
    open spec fn wire(&self) -> Seq<u8> {
        be_bytes((*self as u8) as nat, 1)
    }

    open spec fn writable(&self) -> bool {
        true
    }

    fn write_to(&self, writer: &mut Writer) -> (r: Result<usize, std::io::Error>) {
        let mut out: Vec<u8> = Vec::new();
        push_be(&mut out, (*self as u8) as u128, 1);
        assert(out@ =~= be_bytes((*self as u8) as nat, 1));
        write_vec(writer, out)
    }
}

impl WriteToHeader for i16 {
    open spec fn wire(&self) -> Seq<u8> {
        be_bytes((*self as u16) as nat, 2)
    }

    open spec fn writable(&self) -> bool {
        true
    }

    fn write_to(&self, writer: &mut Writer) -> (r: Result<usize, std::io::Error>) {
        let mut out: Vec<u8> = Vec::new();
        push_be(&mut out, (*self as u16) as u128, 2);
        assert(out@ =~= be_bytes((*self as u16) as nat, 2));
        write_vec(writer, out)
    }
}

impl WriteToHeader for i32 {
    open spec fn wire(&self) -> Seq<u8> {
        be_bytes((*self as u32) as nat, 4)
    }

    open spec fn writable(&self) -> bool {
        true
    }

    fn write_to(&self, writer: &mut Writer) -> (r: Result<usize, std::io::Error>) {
        let mut out: Vec<u8> = Vec::new();
        push_be(&mut out, (*self as u32) as u128, 4);
        assert(out@ =~= be_bytes((*self as u32) as nat, 4));
        write_vec(writer, out)
    }
}

impl WriteToHeader for i64 {
    open spec fn wire(&self) -> Seq<u8> {
        be_bytes((*self as u64) as nat, 8)
    }

    open spec fn writable(&self) -> bool {
        true
    }

    fn write_to(&self, writer: &mut Writer) -> (r: Result<usize, std::io::Error>) {
        let mut out: Vec<u8> = Vec::new();
        push_be(&mut out, (*self as u64) as u128, 8);
        assert(out@ =~= be_bytes((*self as u64) as nat, 8));
        write_vec(writer, out)
    }
}

impl WriteToHeader for i128 {
    open spec fn wire(&self) -> Seq<u8> {
        be_bytes((*self as u128) as nat, 16)
    }

    open spec fn writable(&self) -> bool {
        true
    }

    fn write_to(&self, writer: &mut Writer) -> (r: Result<usize, std::io::Error>) {
        let mut out: Vec<u8> = Vec::new();
        push_be(&mut out, (*self as u128) as u128, 16);
        assert(out@ =~= be_bytes((*self as u128) as nat, 16));
        write_vec(writer, out)
    }
}

/// The fixed part of a binary header: signature, the two nibble bytes, and a length.
pub open spec fn prolog(version_command: u8, address_family_protocol: u8, length: u16) -> Seq<u8> {
    signature() + seq![version_command, address_family_protocol] + be16(length)
}

/// `bytes` with the length field (offsets 14 and 15) set to the length of the payload.
pub open spec fn patch_length(bytes: Seq<u8>) -> Seq<u8> {
    bytes.subrange(0, 14) + be16((bytes.len() - 16) as u16) + bytes.subrange(16, bytes.len() as int)
}

/// Builds a binary header: the fixed part, optionally an address block, then any payload.
#[derive(Debug)]
pub struct Builder {
    header: Option<Vec<u8>>,
    version_command: u8,
    address_family_protocol: u8,
    addresses: Option<Addresses>,
    length: Option<u16>,
    additional_capacity: usize,
}

impl Builder {
    /// The bytes the builder holds, or would hold once its fixed part is written.
    pub closed spec fn pending(self) -> Seq<u8> {
        match self.header {
            Some(h) => h@,
            None => prolog(
                self.version_command,
                self.address_family_protocol,
                match self.length {
                    Some(n) => n,
                    None => 0,
                },
            ) + match self.addresses {
                Some(a) => addresses_wire(a),
                None => Seq::<u8>::empty(),
            },
        }
    }

    /// The room asked for beyond the fixed part and the addresses, before the fixed part is
    /// written out.
    pub closed spec fn reserved(self) -> nat {
        self.additional_capacity as nat
    }

    /// The length that was set to be written verbatim, if any.
    pub closed spec fn fixed_length(self) -> Option<u16> {
        self.length
    }

    /// The builder holds at least the fixed part.
    pub closed spec fn wf(self) -> bool {
        self.pending().len() >= 16
    }

    /// What `build` returns: the pending bytes, with the length field back-patched unless a
    /// length was set; `None` where the payload does not fit in 16 bits and must be patched.
    pub open spec fn spec_build(self) -> Option<Seq<u8>> {
        if self.fixed_length() is Some {
            Some(self.pending())
        } else if self.pending().len() - 16 <= 65535 {
            Some(patch_length(self.pending()))
        } else {
            None
        }
    }

    /// A builder with the given version and command byte and address family and protocol
    /// byte, and no payload yet.
    pub fn new(version_command: u8, address_family_protocol: u8) -> (r: Self)
        ensures
            r.wf(),
            r.pending() == prolog(version_command, address_family_protocol, 0),
            r.fixed_length() is None,
            !r.header_written(),
            r.reserved() == 0,
    {
        let r = Builder {
            header: None,
            version_command,
            address_family_protocol,
            addresses: None,
            length: None,
            additional_capacity: 0,
        };
        assert(r.pending() =~= prolog(version_command, address_family_protocol, 0));
        r
    }

    /// A builder whose payload starts with `addresses`; the address family is taken from
    /// them.
    pub fn with_addresses(
        version_command: u8,
        protocol: crate::v2::Protocol,
        addresses: Addresses,
    ) -> (r: Self)
        ensures
            r.wf(),
            r.fixed_length() is None,
            !r.header_written(),
            r.reserved() == 0,
            r.pending() == prolog(
                version_command,
                (addresses.family().spec_bits() + protocol.spec_bits()) as u8,
                0,
            ) + addresses_wire(addresses),
    {
        let r = Builder {
            header: None,
            version_command,
            address_family_protocol: addresses.address_family().with_protocol(protocol),
            addresses: Some(addresses),
            length: None,
            additional_capacity: 0,
        };
        r
    }

    /// Asks for room for `capacity` more bytes; the bytes themselves do not change.
    pub fn reserve_capacity(self, capacity: usize) -> (r: Self)
        requires
            self.wf(),
        ensures
            r.wf(),
            r.pending() == self.pending(),
            r.fixed_length() == self.fixed_length(),
            r.header_written() == self.header_written(),
            !self.header_written() ==> r.reserved() == if self.reserved() + capacity
                <= usize::MAX {
                self.reserved() + capacity
            } else {
                usize::MAX as int
            },
    {
        let mut b = self;
        match b.header {
            Some(ref mut header) => {
                header.reserve(capacity);
            },
            None => {
                b.additional_capacity = if capacity <= usize::MAX - b.additional_capacity {
                    b.additional_capacity + capacity
                } else {
                    usize::MAX
                };
            },
        }
        b
    }

    /// Sets the length to write verbatim (no back-patching), or, with `None`, asks `build`
    /// to back-patch it from the payload.
    pub fn set_length(self, length: Option<u16>) -> (r: Self)
        requires
            self.wf(),
        ensures
            r.wf(),
            r.fixed_length() == length,
            self.header_written() ==> r.pending() == self.pending(),
            !self.header_written() ==> r.pending() == self.pending().subrange(0, 14) + be16(
                match length {
                    Some(n) => n,
                    None => 0u16,
                },
            ) + self.pending().subrange(16, self.pending().len() as int),
            r.header_written() == self.header_written(),
    {
        let mut b = self;
        b.length = length;
        proof {
            if !b.header_written() {
                assert(b.pending() =~= self.pending().subrange(0, 14) + be16(
                    match b.length {
                        Some(n) => n,
                        None => 0u16,
                    },
                ) + self.pending().subrange(16, self.pending().len() as int));
            }
        }
        b
    }

    /// Whether the fixed part has been written out (which fixes its length field).
    pub closed spec fn header_written(self) -> bool {
        self.header is Some
    }

    /// Writes the fixed part, and the addresses if any, unless already written.
    fn write_header(&mut self)
        requires
            old(self).wf(),
        ensures
            final(self).wf(),
            final(self).header_written(),
            final(self).pending() == old(self).pending(),
            final(self).fixed_length() == old(self).fixed_length(),
    {
        if self.header.is_some() {
            return;
        }
        let addresses_length: usize = match &self.addresses {
            Some(a) => a.len(),
            None => 0,
        };
        let capacity: usize = if self.additional_capacity <= usize::MAX - 16 - addresses_length {
            16 + addresses_length + self.additional_capacity
        } else {
            usize::MAX
        };
        let mut header: Vec<u8> = Vec::with_capacity(capacity);
        let length: u16 = match self.length {
            Some(n) => n,
            None => 0,
        };
        let prefix: [u8; 12] = [13, 10, 13, 10, 0, 13, 10, 81, 85, 73, 84, 10];
        header.extend_from_slice(prefix.as_slice());
        header.push(self.version_command);
        header.push(self.address_family_protocol);
        push_be(&mut header, length as u128, 2);
        proof {
            lemma_be_bytes_two(length as nat);
            assert(header@ =~= prolog(self.version_command, self.address_family_protocol, length));
        }
        match self.addresses {
            Some(a) => {
                let mut writer = Writer::from(header);
                let _ = a.write_to(&mut writer);
                self.header = Some(writer.finish());
            },
            None => {
                self.header = Some(header);
                assert(self.pending() =~= old(self).pending());
            },
        }
    }

    /// Appends `payload`, after the fixed part (written first if it is not yet).
    /// Fails where the payload cannot be written at all, or the header already holds more
    /// than a full header's bytes.
    pub fn write_payload<T: WriteToHeader>(self, payload: T) -> (r: Result<Self, std::io::Error>)
        requires
            self.wf(),
        ensures
            r is Ok <==> (payload.writable() && self.pending().len() <= writer_limit()),
            r matches Ok(b) ==> {
                &&& b.wf()
                &&& b.pending() == self.pending() + payload.wire()
                &&& b.fixed_length() == self.fixed_length()
                &&& b.header_written()
            },
    {
        let mut b = self;
        b.write_header();
        let header = match b.header.take() {
            Some(h) => h,
            None => Vec::new(),
        };
        let mut writer = Writer::from(header);
        match payload.write_to(&mut writer) {
            Ok(_) => {
                b.header = Some(writer.finish());
                Ok(b)
            },
            Err(e) => Err(e),
        }
    }

    /// Appends a Type-Length-Value record of kind `kind` with value `value`.
    pub fn write_tlv<K: RecordKind>(self, kind: K, value: &[u8]) -> (r: Result<Self, std::io::Error>)
        requires
            self.wf(),
        ensures
            r is Ok <==> (value@.len() <= 65535 && self.pending().len() <= writer_limit()),
            r matches Ok(b) ==> {
                &&& b.wf()
                &&& b.pending() == self.pending() + tlv_wire(kind.spec_kind_byte(), value@)
                &&& b.fixed_length() == self.fixed_length()
                &&& b.header_written()
            },
    {
        self.write_payload(TypeLengthValue::new(kind, value))
    }

    /// The header bytes: as written where a length was set, else with the payload length
    /// back-patched into offsets 14 and 15. Fails where that length does not fit in 16 bits.
    pub fn build(self) -> (r: Result<Vec<u8>, std::io::Error>)
        requires
            self.wf(),
        ensures
            match self.spec_build() {
                Some(bytes) => r is Ok && r.unwrap()@ == bytes,
                None => r is Err,
            },
            self.fixed_length() is None ==> (r matches Ok(v) ==> {
                &&& v@.len() >= 16
                &&& v@.len() - 16 <= 65535
                &&& v@.subrange(14, 16) == be16((v@.len() - 16) as u16)
            }),
    {
        let mut b = self;
        b.write_header();
        let mut header = match b.header.take() {
            Some(h) => h,
            None => Vec::new(),
        };
        if b.length.is_some() {
            return Ok(header);
        }
        let payload_length = header.len() - MINIMUM_LENGTH;
        if payload_length <= 65535 {
            let n = payload_length as u16;
            header[14] = (n / 256) as u8;
            header[15] = (n % 256) as u8;
            assert(header@ =~= patch_length(self.pending()));
            assert(header@.subrange(14, 16) =~= be16((header@.len() - 16) as u16));
            Ok(header)
        } else {
            Err(write_zero())
        }
    }
}

} // verus!
