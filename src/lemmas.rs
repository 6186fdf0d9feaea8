//! Laws that relate the parsers and the builder to each other and to longer inputs.
use vstd::prelude::*;

use crate::builder::{patch_length, prolog, tlv_wire};
use crate::header::selects_v2;
use crate::text::index_of_pair;
use crate::v1::v1_outcome;
use crate::v2::{
    addresses_wire, be16, be16_value, command_of, declared_length, family_of, parsed_from,
    protocol_of, signature, tlv_items, v2_error, AddressFamily, Addresses, Command, Header,
    ParseError, Protocol, Version,
};

verus! {

/// A binary header's total length is 16 plus its payload length; the payload is the
/// address block followed by the records; and the address block has the size that the
/// family requires (none for `Unspecified`) and holds the addresses' bytes.
pub proof fn lemma_v2_length_consistency(input: Seq<u8>, h: Header)
    requires
        v2_error(input) is None,
        parsed_from(h, input),
    ensures
        h.header@.len() >= 16,
        h.header@.len() == 16 + declared_length(input),
        h.header@.len() - 16 == h.spec_address_bytes().len() + h.spec_tlv_bytes().len(),
        h.spec_address_bytes().len() == h.addresses.family().spec_size(),
        h.spec_address_bytes() == addresses_wire(h.addresses),
{
    let family = family_of(input[13]).unwrap();
    assert(h.header@.len() == 16 + declared_length(input));
    assert(h.spec_address_bytes() =~= input.subrange(16, 16 + family.spec_size() as int));
}

/// The bytes of records, one after the other.
pub open spec fn tlvs_wire(tlvs: Seq<(u8, Seq<u8>)>) -> Seq<u8>
    decreases tlvs.len(),
{
    if tlvs.len() == 0 {
        seq![]
    } else {
        tlv_wire(tlvs[0].0, tlvs[0].1) + tlvs_wire(tlvs.drop_first())
    }
}

/// Writing one more record appends its bytes: what a builder holds after records written
/// one by one with `write_tlv` is the bytes of those records in order.
pub proof fn lemma_tlvs_wire_push(tlvs: Seq<(u8, Seq<u8>)>, t: (u8, Seq<u8>))
    ensures
        tlvs_wire(tlvs.push(t)) == tlvs_wire(tlvs) + tlv_wire(t.0, t.1),
    decreases tlvs.len(),
{
    if tlvs.len() == 0 {
        assert(tlvs.push(t).drop_first() =~= Seq::<(u8, Seq<u8>)>::empty());
        assert(tlvs.push(t)[0] == t);
        assert(tlvs_wire(Seq::<(u8, Seq<u8>)>::empty()) == Seq::<u8>::empty());
        assert(tlvs_wire(tlvs) == Seq::<u8>::empty());
        assert(tlvs_wire(tlvs.push(t)) == tlv_wire(t.0, t.1) + tlvs_wire(
            Seq::<(u8, Seq<u8>)>::empty(),
        ));
        assert(tlvs_wire(tlvs.push(t)) =~= tlvs_wire(tlvs) + tlv_wire(t.0, t.1));
    } else {
        assert(tlvs.push(t).drop_first() =~= tlvs.drop_first().push(t));
        lemma_tlvs_wire_push(tlvs.drop_first(), t);
        assert(tlvs.push(t)[0] == tlvs[0]);
        assert(tlvs_wire(tlvs.push(t)) == tlv_wire(tlvs[0].0, tlvs[0].1) + tlvs_wire(
            tlvs.drop_first().push(t),
        ));
        assert(tlvs_wire(tlvs) == tlv_wire(tlvs[0].0, tlvs[0].1) + tlvs_wire(tlvs.drop_first()));
        assert(tlvs_wire(tlvs.push(t)) =~= tlvs_wire(tlvs) + tlv_wire(t.0, t.1));
    }
}

/// Every record value fits in 16 bits of length.
pub open spec fn tlvs_fit(tlvs: Seq<(u8, Seq<u8>)>) -> bool {
    forall|i: int| 0 <= i < tlvs.len() ==> (#[trigger] tlvs[i]).1.len() <= 65535
}

/// A cursor over bytes that hold the records `tlvs` from `offset` on yields those
/// records, in order, and nothing else.
pub proof fn lemma_tlv_items_of_wire(bytes: Seq<u8>, offset: int, tlvs: Seq<(u8, Seq<u8>)>)
    requires
        0 <= offset <= bytes.len(),
        bytes.subrange(offset, bytes.len() as int) == tlvs_wire(tlvs),
        tlvs_fit(tlvs),
    ensures
        tlv_items(bytes, offset) == tlvs.map_values(|t: (u8, Seq<u8>)| Ok::<(u8, Seq<u8>), ParseError>(t)),
    decreases tlvs.len(),
{
    if tlvs.len() == 0 {
        assert(tlvs.map_values(|t: (u8, Seq<u8>)| Ok::<(u8, Seq<u8>), ParseError>(t)) =~= seq![]);
    } else {
        let (kind, value) = tlvs[0];
        let rest = tlvs.drop_first();
        let w = tlv_wire(kind, value);
        assert(value.len() <= 65535);
        let n = value.len() as u16;
        assert(be16_value((n / 256) as u8, (n % 256) as u8) == n);
        assert(w.len() == 3 + value.len());
        let tail = bytes.subrange(offset, bytes.len() as int);
        assert(w =~= seq![kind, (n / 256) as u8, (n % 256) as u8] + value);
        assert(tlvs_wire(tlvs) == w + tlvs_wire(rest));
        assert(tail == w + tlvs_wire(rest));
        assert(tail.len() == w.len() + tlvs_wire(rest).len());
        assert(tail.len() >= 3);
        assert(tail[0] == bytes[offset + 0]);
        assert(w[0] == kind);
        assert(tail.subrange(0, w.len() as int) =~= w);
        assert(tail[0] == w[0] && tail[1] == w[1] && tail[2] == w[2]);
        assert(bytes[offset] == kind);
        assert(bytes[offset + 1] == (n / 256) as u8);
        assert(bytes[offset + 2] == (n % 256) as u8);
        assert(w.subrange(3, 3 + value.len() as int) =~= value);
        assert(bytes.subrange(offset + 3, offset + 3 + value.len()) =~= tail.subrange(3, 3 + value.len() as int));
        assert(bytes.subrange(offset + 3, offset + 3 + value.len()) =~= value);
        assert(tail.subrange(w.len() as int, tail.len() as int) =~= tlvs_wire(rest));
        assert(bytes.subrange(offset + w.len(), bytes.len() as int) =~= tail.subrange(
            w.len() as int,
            tail.len() as int,
        ));
        assert(tlvs_fit(rest)) by {
            assert forall|i: int| 0 <= i < rest.len() implies (#[trigger] rest[i]).1.len()
                <= 65535 by {
                assert(rest[i] == tlvs[i + 1]);
            }
        }
        lemma_tlv_items_of_wire(bytes, offset + w.len(), rest);
        assert(tlvs.map_values(|t: (u8, Seq<u8>)| Ok::<(u8, Seq<u8>), ParseError>(t)) =~= seq![
            Ok::<(u8, Seq<u8>), ParseError>((kind, value)),
        ] + rest.map_values(|t: (u8, Seq<u8>)| Ok::<(u8, Seq<u8>), ParseError>(t)));
    }
}

/// Two address values with the same family and the same bytes are equal.
pub proof fn lemma_addresses_wire_injective(a: Addresses, b: Addresses)
    requires
        a.family() == b.family(),
        addresses_wire(a) == addresses_wire(b),
    ensures
        a == b,
{
    let w = addresses_wire(a);
    match (a, b) {
        (Addresses::IPv4(x), Addresses::IPv4(y)) => {
            assert(x.source_address@ =~= w.subrange(0, 4));
            assert(y.source_address@ =~= w.subrange(0, 4));
            assert(x.destination_address@ =~= w.subrange(4, 8));
            assert(y.destination_address@ =~= w.subrange(4, 8));
            assert(x.source_address =~= y.source_address);
            assert(x.destination_address =~= y.destination_address);
            assert(be16(x.source_port) =~= w.subrange(8, 10));
            assert(be16(y.source_port) =~= w.subrange(8, 10));
            assert(be16(x.destination_port) =~= w.subrange(10, 12));
            assert(be16(y.destination_port) =~= w.subrange(10, 12));
        },
        (Addresses::IPv6(x), Addresses::IPv6(y)) => {
            assert(x.source_address@ =~= w.subrange(0, 16));
            assert(y.source_address@ =~= w.subrange(0, 16));
            assert(x.destination_address@ =~= w.subrange(16, 32));
            assert(y.destination_address@ =~= w.subrange(16, 32));
            assert(x.source_address =~= y.source_address);
            assert(x.destination_address =~= y.destination_address);
            assert(be16(x.source_port) =~= w.subrange(32, 34));
            assert(be16(y.source_port) =~= w.subrange(32, 34));
            assert(be16(x.destination_port) =~= w.subrange(34, 36));
            assert(be16(y.destination_port) =~= w.subrange(34, 36));
        },
        (Addresses::Unix(x), Addresses::Unix(y)) => {
            assert(x.source@ =~= w.subrange(0, 108));
            assert(y.source@ =~= w.subrange(0, 108));
            assert(x.destination@ =~= w.subrange(108, 216));
            assert(y.destination@ =~= w.subrange(108, 216));
            assert(x.source =~= y.source);
            assert(x.destination =~= y.destination);
        },
        _ => {},
    }
}

/// The size of an address value's bytes is that of its family.
pub proof fn lemma_addresses_wire_len(a: Addresses)
    ensures
        addresses_wire(a).len() == a.family().spec_size(),
{
}

/// What the builder emits for a command, protocol, addresses and records, with the
/// length back-patched: a header that parses back to the same version, command,
/// protocol, addresses and records, in order.
pub proof fn lemma_v2_round_trip(
    command: Command,
    protocol: Protocol,
    addresses: Addresses,
    tlvs: Seq<(u8, Seq<u8>)>,
)
    requires
        tlvs_fit(tlvs),
        addresses_wire(addresses).len() + tlvs_wire(tlvs).len() <= 65535,
    ensures
        ({
            let bytes = patch_length(
                prolog(
                    (Version::Two.spec_bits() + command.spec_bits()) as u8,
                    (addresses.family().spec_bits() + protocol.spec_bits()) as u8,
                    0,
                ) + addresses_wire(addresses) + tlvs_wire(tlvs),
            );
            &&& v2_error(bytes) is None
            &&& forall|h: Header|
                parsed_from(h, bytes) ==> {
                    &&& h.version == Version::Two
                    &&& h.command == command
                    &&& h.protocol == protocol
                    &&& h.addresses == addresses
                    &&& tlv_items(h.spec_tlv_bytes(), 0) == tlvs.map_values(
                        |t: (u8, Seq<u8>)| Ok::<(u8, Seq<u8>), ParseError>(t),
                    )
                }
        }),
{
    let vc = (Version::Two.spec_bits() + command.spec_bits()) as u8;
    let afp = (addresses.family().spec_bits() + protocol.spec_bits()) as u8;
    let aw = addresses_wire(addresses);
    let tw = tlvs_wire(tlvs);
    let pending = prolog(vc, afp, 0) + aw + tw;
    let bytes = patch_length(pending);
    let payload = (aw.len() + tw.len()) as u16;
    assert(pending.len() == 16 + aw.len() + tw.len());
    assert(bytes.len() == pending.len());
    assert(bytes.subrange(0, 12) =~= signature());
    assert(bytes[12] == vc);
    assert(bytes[13] == afp);
    assert(bytes[14] == (payload / 256) as u8);
    assert(bytes[15] == (payload % 256) as u8);
    assert(declared_length(bytes) == aw.len() + tw.len());
    assert(version_of_ok(vc)) by {
        assert(vc / 16 == 2);
    }
    assert(command_of(vc) == Some(command));
    assert(family_of(afp) == Some(addresses.family()));
    assert(protocol_of(afp) == Some(protocol));
    lemma_addresses_wire_len(addresses);
    assert(v2_error(bytes) is None);
    assert forall|h: Header| parsed_from(h, bytes) implies {
        &&& h.version == Version::Two
        &&& h.command == command
        &&& h.protocol == protocol
        &&& h.addresses == addresses
        &&& tlv_items(h.spec_tlv_bytes(), 0) == tlvs.map_values(
            |t: (u8, Seq<u8>)| Ok::<(u8, Seq<u8>), ParseError>(t),
        )
    } by {
        let size = addresses.family().spec_size();
        assert(bytes.subrange(16, 16 + size as int) =~= aw);
        lemma_addresses_wire_injective(h.addresses, addresses);
        assert(h.header@ =~= bytes);
        assert(h.spec_tlv_bytes() =~= tw);
        assert(h.spec_tlv_bytes().subrange(0, tw.len() as int) =~= tw);
        lemma_tlv_items_of_wire(h.spec_tlv_bytes(), 0, tlvs);
    }
}

/// The version nibble of `b` is 2.
pub open spec fn version_of_ok(b: u8) -> bool {
    b / 16 == 2
}

/// Retrying with more input never changes a complete result: where `p` is a prefix of `b`
/// and parsing `p` succeeds or fails for good, parsing `b` reads it as the same version
/// and gives the same verdict (and, on success, the same header).
pub proof fn lemma_complete_results_are_final(p: Seq<u8>, b: Seq<u8>)
    requires
        p.len() <= b.len(),
        p == b.subrange(0, p.len() as int),
    ensures
        selects_v2(p) && !(v2_error(p) matches Some(e) && e.spec_is_incomplete()) ==> {
            &&& selects_v2(b)
            &&& v2_error(b) == v2_error(p)
            &&& v2_error(p) is None ==> forall|h: Header| parsed_from(h, p) <==> parsed_from(h, b)
        },
        !selects_v2(p) && !(v1_outcome(p) matches Err(e) && e.spec_is_incomplete()) ==> {
            &&& !selects_v2(b)
            &&& v1_outcome(b) == v1_outcome(p)
        },
{
    if selects_v2(p) {
        if !(v2_error(p) matches Some(e) && e.spec_is_incomplete()) {
            assert(p.len() >= 16);
            assert(b.subrange(0, 12) =~= p.subrange(0, 12));
            assert(b[12] == p[12] && b[13] == p[13] && b[14] == p[14] && b[15] == p[15]);
            if v2_error(p) is None {
                let n = 16 + declared_length(p);
                assert(b.subrange(0, n as int) =~= p.subrange(0, n as int));
                let size = family_of(p[13]).unwrap().spec_size();
                assert(b.subrange(16, 16 + size as int) =~= p.subrange(16, 16 + size as int));
            }
        }
    } else {
        if p.len() >= 12 {
            assert(b.subrange(0, 12) =~= p.subrange(0, 12));
        } else {
            if selects_v2(b) {
                if b.len() >= 12 {
                    assert(p =~= b.subrange(0, 12).subrange(0, p.len() as int));
                    assert(p =~= signature().subrange(0, p.len() as int));
                } else {
                    assert(p =~= signature().subrange(0, p.len() as int));
                }
            }
        }
        if !(v1_outcome(p) matches Err(e) && e.spec_is_incomplete()) {
            lemma_index_of_pair_extend(p, b, 0);
            lemma_index_of_pair_at_least(p, 0);
            match index_of_pair(p, 13, 10, 0) {
                Some(end) => {
                    assert(b.subrange(0, end + 2) =~= p.subrange(0, end + 2));
                    assert(b.subrange(0, end) =~= p.subrange(0, end));
                },
                None => {
                    assert(p.len() >= 107);
                    lemma_index_of_pair_late(p, b, 0);
                },
            }
        }
    }
}

/// A binary header whose fixed part is whole and valid but whose payload is still short
/// stays short or succeeds as more input arrives: it never turns into a failure.
pub proof fn lemma_partial_payload_never_fails(p: Seq<u8>, b: Seq<u8>)
    requires
        p.len() <= b.len(),
        p == b.subrange(0, p.len() as int),
        selects_v2(p),
        v2_error(p) matches Some(ParseError::Partial(..)),
    ensures
        selects_v2(b),
        v2_error(b) is None || v2_error(b) matches Some(ParseError::Partial(..)),
{
    assert(b.subrange(0, 12) =~= p.subrange(0, 12));
    assert(b[12] == p[12] && b[13] == p[13] && b[14] == p[14] && b[15] == p[15]);
}

/// A pair found in a prefix is found at the same place in the whole.
pub proof fn lemma_index_of_pair_extend(p: Seq<u8>, b: Seq<u8>, from: int)
    requires
        p.len() <= b.len(),
        p == b.subrange(0, p.len() as int),
        0 <= from,
    ensures
        index_of_pair(p, 13, 10, from) matches Some(i) ==> index_of_pair(b, 13, 10, from) == Some(i),
    decreases p.len() - from,
{
    if from + 1 < p.len() {
        assert(p[from] == b[from] && p[from + 1] == b[from + 1]);
        lemma_index_of_pair_extend(p, b, from + 1);
    }
}

/// Where a prefix holds no pair, the whole holds none before the prefix's last byte.
pub proof fn lemma_index_of_pair_late(p: Seq<u8>, b: Seq<u8>, from: int)
    requires
        p.len() <= b.len(),
        p == b.subrange(0, p.len() as int),
        0 <= from,
        index_of_pair(p, 13, 10, from) is None,
    ensures
        index_of_pair(b, 13, 10, from) matches Some(i) ==> i + 1 >= p.len(),
    decreases p.len() - from,
{
    if from + 1 < p.len() {
        assert(p[from] == b[from] && p[from + 1] == b[from + 1]);
        lemma_index_of_pair_late(p, b, from + 1);
    } else {
        lemma_index_of_pair_at_least(b, from);
    }
}

/// A pair found from `from` on starts at `from` or later, and lies within the bytes.
pub proof fn lemma_index_of_pair_at_least(s: Seq<u8>, from: int)
    ensures
        index_of_pair(s, 13, 10, from) matches Some(i) ==> i >= from && i + 1 < s.len() && s[i]
            == 13 && s[i + 1] == 10,
    decreases s.len() - from,
{
    if from >= 0 && from + 1 < s.len() {
        lemma_index_of_pair_at_least(s, from + 1);
    }
}

} // verus!
