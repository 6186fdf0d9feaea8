//! Source and destination addresses with ports, as carried by both header versions.
use vstd::prelude::*;

use crate::text::{
    all_digits, all_hex, ascii, hex_digit, lemma_index_of_pair_skip, lemma_join_first, lemma_join_last, dec_text, decimal, find_pair, free_of, hex_text, hexadecimal,
    index_of_pair, join, join_into, lemma_dec_text, lemma_hex_text, lemma_join_free,
    lemma_join_len, lemma_join_no_double, lemma_no_pair, lemma_parts_of_join, push_decimal,
    push_hex, range_of, read_decimal, read_hex_group, split, split_parts, views,
};

verus! {

/// The source and destination IPv4 addresses and ports of a connection.
#[derive(Copy, Clone, Debug, PartialEq, Eq)]
pub struct IPv4 {
    pub source_address: [u8; 4],
    pub destination_address: [u8; 4],
    pub source_port: u16,
    pub destination_port: u16,
}

/// The source and destination IPv6 addresses and ports of a connection.
#[derive(Copy, Clone, Debug, PartialEq, Eq)]
pub struct IPv6 {
    pub source_address: [u8; 16],
    pub destination_address: [u8; 16],
    pub source_port: u16,
    pub destination_port: u16,
}

/// A socket address: an IPv4 or IPv6 address with a port.
#[derive(Copy, Clone, Debug, PartialEq, Eq)]
pub enum SocketAddress {
    V4([u8; 4], u16),
    V6([u8; 16], u16),
}

impl IPv4 {
    /// Creates a new pair of IPv4 addresses and ports.
    pub fn new(source_address: [u8; 4], destination_address: [u8; 4], source_port: u16, destination_port: u16) -> (r: Self)
        ensures
            r.source_address == source_address,
            r.destination_address == destination_address,
            r.source_port == source_port,
            r.destination_port == destination_port,
    {
        IPv4 { source_address, destination_address, source_port, destination_port }
    }
}

impl IPv6 {
    /// Creates a new pair of IPv6 addresses and ports.
    pub fn new(source_address: [u8; 16], destination_address: [u8; 16], source_port: u16, destination_port: u16) -> (r: Self)
        ensures
            r.source_address == source_address,
            r.destination_address == destination_address,
            r.source_port == source_port,
            r.destination_port == destination_port,
    {
        IPv6 { source_address, destination_address, source_port, destination_port }
    }
}

/// The value of one dotted-decimal octet: one to three digits, no leading zero (but for
/// `0` itself), at most 255.
pub open spec fn octet_of(p: Seq<u8>) -> Option<u8> {
    if 1 <= p.len() <= 3 && all_digits(p) && (p.len() == 1 || p[0] != 48) && decimal(p) <= 255 {
        Some(decimal(p) as u8)
    } else {
        None
    }
}

/// The four bytes of an IPv4 address in dotted-decimal text, if `s` is one.
pub open spec fn ipv4_of(s: Seq<u8>) -> Option<Seq<u8>> {
    let parts = split_parts(s, 46, 5);
    if parts.len() == 4 && octet_of(parts[0]) is Some && octet_of(parts[1]) is Some && octet_of(
        parts[2],
    ) is Some && octet_of(parts[3]) is Some {
        Some(
            seq![
                octet_of(parts[0]).unwrap(),
                octet_of(parts[1]).unwrap(),
                octet_of(parts[2]).unwrap(),
                octet_of(parts[3]).unwrap(),
            ],
        )
    } else {
        None
    }
}

/// Reads one octet of dotted-decimal text.
fn parse_octet(p: &[u8]) -> (r: Option<u8>)
    ensures
        r == octet_of(p@),
{
    if p.len() == 0 || p.len() > 3 {
        return None;
    }
    if p.len() > 1 && p[0] == 48 {
        return None;
    }
    match read_decimal(p) {
        None => None,
        Some(v) => {
            if v > 255 {
                None
            } else {
                Some(v as u8)
            }
        },
    }
}

/// Reads an IPv4 address in dotted-decimal text.
pub fn parse_ipv4(s: &[u8]) -> (r: Option<[u8; 4]>)
    ensures
        match r {
            None => ipv4_of(s@) is None,
            Some(a) => ipv4_of(s@) == Some(a@),
        },
{
    let parts = split(s, 46, 5);
    if parts.len() != 4 {
        return None;
    }
    let ghost spec_parts = split_parts(s@, 46, 5);
    assert(range_of(s@, parts@[0]) == spec_parts[0]);
    assert(range_of(s@, parts@[1]) == spec_parts[1]);
    assert(range_of(s@, parts@[2]) == spec_parts[2]);
    assert(range_of(s@, parts@[3]) == spec_parts[3]);
    let a = match parse_octet(&s[parts[0].0..parts[0].1]) {
        Some(v) => v,
        None => return None,
    };
    let b = match parse_octet(&s[parts[1].0..parts[1].1]) {
        Some(v) => v,
        None => return None,
    };
    let c = match parse_octet(&s[parts[2].0..parts[2].1]) {
        Some(v) => v,
        None => return None,
    };
    let d = match parse_octet(&s[parts[3].0..parts[3].1]) {
        Some(v) => v,
        None => return None,
    };
    let r = [a, b, c, d];
    assert(r@ =~= ipv4_of(s@).unwrap());
    Some(r)
}

/// Whether `p` is one group of IPv6 text: one to four hexadecimal digits.
pub open spec fn group_ok(p: Seq<u8>) -> bool {
    1 <= p.len() <= 4 && all_hex(p)
}

/// The two groups that an IPv4 address in dotted-decimal text stands for, if `p` is one.
pub open spec fn embedded_groups(p: Seq<u8>) -> Option<Seq<u16>> {
    match ipv4_of(p) {
        Some(a) => Some(
            seq![(a[0] as nat * 256 + a[1] as nat) as u16, (a[2] as nat * 256 + a[3] as nat) as u16],
        ),
        None => None,
    }
}

/// The groups of `s`, separated by single colons: none for empty text; else at most 8
/// parts, each one to four hexadecimal digits, but for the last, which may also be an
/// IPv4 address standing for two groups where `embedded` allows it.
pub open spec fn colon_groups(s: Seq<u8>, embedded: bool) -> Option<Seq<u16>> {
    let parts = split_parts(s, 58, 9);
    let n = parts.len();
    let last = parts[n - 1];
    let head = parts.take(n - 1).map_values(|p: Seq<u8>| hexadecimal(p) as u16);
    if s.len() == 0 {
        Some(seq![])
    } else if n <= 8 && forall|k: int| 0 <= k < n - 1 ==> group_ok(#[trigger] parts[k]) {
        if group_ok(last) {
            Some(head.push(hexadecimal(last) as u16))
        } else if embedded && embedded_groups(last) is Some {
            Some(head + embedded_groups(last).unwrap())
        } else {
            None
        }
    } else {
        None
    }
}

/// The eight groups of an IPv6 address in text: eight groups, or fewer around one `::`
/// that stands for one or more zero groups. An IPv4 address may end the text (after the
/// `::`, if there is one) and stands for the last two groups.
pub open spec fn ipv6_groups(s: Seq<u8>) -> Option<Seq<u16>> {
    match index_of_pair(s, 58, 58, 0) {
        None => match colon_groups(s, true) {
            Some(g) => if g.len() == 8 {
                Some(g)
            } else {
                None
            },
            None => None,
        },
        Some(i) => match (
            colon_groups(s.subrange(0, i), false),
            colon_groups(s.subrange(i + 2, s.len() as int), true),
        ) {
            (Some(h), Some(t)) => if h.len() + t.len() <= 7 {
                Some(h + Seq::new((8 - h.len() - t.len()) as nat, |k: int| 0u16) + t)
            } else {
                None
            },
            _ => None,
        },
    }
}

/// The bytes of 16-bit groups, each in big-endian order.
pub open spec fn groups_bytes(g: Seq<u16>) -> Seq<u8> {
    Seq::new(
        2 * g.len(),
        |i: int|
            if i % 2 == 0 {
                (g[i / 2] / 256) as u8
            } else {
                (g[i / 2] % 256) as u8
            },
    )
}

/// The sixteen bytes of an IPv6 address in text, if `s` is one.
pub open spec fn ipv6_of(s: Seq<u8>) -> Option<Seq<u8>> {
    match ipv6_groups(s) {
        Some(g) => Some(groups_bytes(g)),
        None => None,
    }
}

/// Reads colon-separated groups of IPv6 text, the last of which may be an IPv4 address
/// where `embedded` allows it.
fn parse_colon_groups(s: &[u8], embedded: bool) -> (r: Option<Vec<u16>>)
    ensures
        match r {
            None => colon_groups(s@, embedded) is None,
            Some(g) => colon_groups(s@, embedded) == Some(g@),
        },
{
    if s.len() == 0 {
        let r: Vec<u16> = Vec::new();
        assert(r@ =~= seq![]);
        return Some(r);
    }
    let parts = split(s, 58, 9);
    let ghost spec_parts = split_parts(s@, 58, 9);
    assert(spec_parts.len() >= 1) by {
        reveal_with_fuel(crate::text::parts_from, 2);
    }
    if parts.len() > 8 {
        return None;
    }
    let n = parts.len();
    let mut groups: Vec<u16> = Vec::new();
    let mut k: usize = 0;
    while k < n - 1
        invariant
            s@.len() > 0,
            1 <= n <= 8,
            n == parts@.len(),
            parts@.len() == spec_parts.len(),
            spec_parts == split_parts(s@, 58, 9),
            forall|j: int|
                0 <= j < parts@.len() ==> (#[trigger] parts@[j]).0 <= parts@[j].1 <= s@.len()
                    && range_of(s@, parts@[j]) == spec_parts[j],
            k <= n - 1,
            groups@.len() == k,
            forall|j: int| 0 <= j < k ==> group_ok(#[trigger] spec_parts[j]),
            forall|j: int| 0 <= j < k ==> #[trigger] groups@[j] == hexadecimal(spec_parts[j]) as u16,
        decreases n - 1 - k,
    {
        assert(range_of(s@, parts@[k as int]) == spec_parts[k as int]);
        match read_hex_group(&s[parts[k].0..parts[k].1]) {
            None => {
                assert(!group_ok(spec_parts[k as int]));
                return None;
            },
            Some(v) => {
                groups.push(v);
            },
        }
        k = k + 1;
    }
    let ghost head = spec_parts.take(n - 1).map_values(|p: Seq<u8>| hexadecimal(p) as u16);
    assert(groups@ =~= head);
    let last_range = parts[n - 1];
    assert(range_of(s@, parts@[n - 1]) == spec_parts[n - 1]);
    let last = &s[last_range.0..last_range.1];
    match read_hex_group(last) {
        Some(v) => {
            groups.push(v);
            return Some(groups);
        },
        None => {},
    }
    if !embedded {
        return None;
    }
    match parse_ipv4(last) {
        Some(a) => {
            groups.push((a[0] as u16) * 256 + (a[1] as u16));
            groups.push((a[2] as u16) * 256 + (a[3] as u16));
            assert(groups@ =~= head + embedded_groups(spec_parts[n - 1]).unwrap());
            Some(groups)
        },
        None => None,
    }
}

/// The bytes of eight 16-bit groups.
fn groups_to_bytes(g: &Vec<u16>) -> (r: [u8; 16])
    requires
        g@.len() == 8,
    ensures
        r@ == groups_bytes(g@),
{
    let mut r = [0u8; 16];
    let mut k: usize = 0;
    while k < 8
        invariant
            g@.len() == 8,
            k <= 8,
            forall|i: int| 0 <= i < 2 * k ==> r@[i] == groups_bytes(g@)[i],
        decreases 8 - k,
    {
        r[2 * k] = (g[k] / 256) as u8;
        r[2 * k + 1] = (g[k] % 256) as u8;
        k = k + 1;
    }
    assert(r@ =~= groups_bytes(g@));
    r
}

/// Reads an IPv6 address in colon-separated hexadecimal text.
pub fn parse_ipv6(s: &[u8]) -> (r: Option<[u8; 16]>)
    ensures
        match r {
            None => ipv6_of(s@) is None,
            Some(a) => ipv6_of(s@) == Some(a@),
        },
{
    match find_pair(s, 58, 58, 0) {
        None => {
            match parse_colon_groups(s, true) {
                Some(g) => {
                    if g.len() == 8 {
                        Some(groups_to_bytes(&g))
                    } else {
                        None
                    }
                },
                None => None,
            }
        },
        Some(i) => {
            let n = s.len();
            let head = &s[0..i];
            let tail = &s[i + 2..n];
            let h = match parse_colon_groups(head, false) {
                Some(h) => h,
                None => return None,
            };
            let t = match parse_colon_groups(tail, true) {
                Some(t) => t,
                None => return None,
            };
            if h.len() + t.len() > 7 {
                return None;
            }
            let mut groups: Vec<u16> = Vec::new();
            let mut k: usize = 0;
            while k < h.len()
                invariant
                    k <= h@.len(),
                    groups@ == h@.subrange(0, k as int),
                decreases h@.len() - k,
            {
                groups.push(h[k]);
                k = k + 1;
                assert(groups@ =~= h@.subrange(0, k as int));
            }
            let zeros = 8 - h.len() - t.len();
            let mut z: usize = 0;
            while z < zeros
                invariant
                    z <= zeros,
                    groups@ == h@ + Seq::new(z as nat, |j: int| 0u16),
                decreases zeros - z,
            {
                groups.push(0);
                z = z + 1;
                assert(groups@ =~= h@ + Seq::new(z as nat, |j: int| 0u16));
            }
            let ghost middle = groups@;
            k = 0;
            while k < t.len()
                invariant
                    k <= t@.len(),
                    groups@ == middle + t@.subrange(0, k as int),
                decreases t@.len() - k,
            {
                groups.push(t[k]);
                k = k + 1;
                assert(groups@ =~= middle + t@.subrange(0, k as int));
            }
            assert(groups@ =~= h@ + Seq::new((8 - h@.len() - t@.len()) as nat, |j: int| 0u16) + t@);
            Some(groups_to_bytes(&groups))
        },
    }
}

/// The dotted-decimal pieces of four address bytes.
pub open spec fn ipv4_pieces(a: Seq<u8>) -> Seq<Seq<u8>> {
    Seq::new(4, |k: int| dec_text(a[k] as nat))
}

/// Four address bytes in dotted-decimal text.
pub open spec fn ipv4_text(a: Seq<u8>) -> Seq<u8> {
    join(ipv4_pieces(a), 46)
}

/// The `k`-th 16-bit group of sixteen address bytes.
pub open spec fn group_at(a: Seq<u8>, k: int) -> nat {
    a[2 * k] as nat * 256 + a[2 * k + 1] as nat
}

/// The eight 16-bit groups of sixteen address bytes.
pub open spec fn groups_of(a: Seq<u8>) -> Seq<u16> {
    Seq::new(8, |k: int| group_at(a, k) as u16)
}

/// Groups as lowercase hexadecimal without leading zeros, joined by colons.
pub open spec fn hex_join(g: Seq<u16>) -> Seq<u8> {
    join(g.map_values(|x: u16| hex_text(x as nat)), 58)
}

/// The number of zero groups in a row from `i` on.
pub open spec fn zero_run(g: Seq<u16>, i: int) -> nat
    decreases g.len() - i,
{
    if i < 0 || i >= g.len() || g[i] != 0 {
        0
    } else {
        1 + zero_run(g, i + 1)
    }
}

/// The leftmost index at or after `i` from which the run of zero groups is longest.
pub open spec fn longest_zero_run(g: Seq<u16>, i: int) -> int
    decreases g.len() - i,
{
    if i < 0 || i + 1 >= g.len() {
        i
    } else {
        let b = longest_zero_run(g, i + 1);
        if zero_run(g, i) >= zero_run(g, b) {
            i
        } else {
            b
        }
    }
}

/// Whether eight groups are an IPv4 address mapped into IPv6 (`::ffff:a.b.c.d`).
pub open spec fn is_ipv4_mapped(g: Seq<u16>) -> bool {
    g[0] == 0 && g[1] == 0 && g[2] == 0 && g[3] == 0 && g[4] == 0 && g[5] == 0xffff
}

/// `::ffff:`
pub open spec fn mapped_prefix() -> Seq<u8> {
    seq![58u8, 58u8, 102u8, 102u8, 102u8, 102u8, 58u8]
}

/// Sixteen address bytes as IPv6 text in the recommended form: lowercase hexadecimal
/// groups without leading zeros, the longest run of two or more zero groups (the leftmost
/// on a tie) written as `::`, and an IPv4-mapped address as `::ffff:` and dotted decimal.
pub open spec fn ipv6_text(a: Seq<u8>) -> Seq<u8> {
    let g = groups_of(a);
    let b = longest_zero_run(g, 0);
    let l = zero_run(g, b);
    if is_ipv4_mapped(g) {
        mapped_prefix() + ipv4_text(a.subrange(12, 16))
    } else if l >= 2 {
        hex_join(g.subrange(0, b)) + seq![58u8, 58u8] + hex_join(g.subrange(b + l, 8))
    } else {
        hex_join(g)
    }
}

/// Appends the dotted-decimal text of an IPv4 address.
pub fn write_ipv4(out: &mut Vec<u8>, a: &[u8; 4])
    ensures
        final(out)@ == old(out)@ + ipv4_text(a@),
{
    let mut pieces: Vec<Vec<u8>> = Vec::new();
    let mut k: usize = 0;
    while k < 4
        invariant
            k <= 4,
            views(pieces@) == ipv4_pieces(a@).take(k as int),
        decreases 4 - k,
    {
        let mut piece: Vec<u8> = Vec::new();
        push_decimal(&mut piece, a[k] as u32);
        assert(piece@ =~= dec_text(a@[k as int] as nat));
        let ghost before = pieces@;
        let ghost text = piece@;
        pieces.push(piece);
        assert(pieces@ == before.push(piece));
        assert(views(pieces@) =~= views(before).push(text)) by {
            assert(forall|j: int| 0 <= j < before.len() ==> #[trigger] pieces@[j] == before[j]);
        }
        k = k + 1;
        assert(views(pieces@) =~= ipv4_pieces(a@).take(k as int));
    }
    assert(views(pieces@) =~= ipv4_pieces(a@));
    join_into(out, &pieces, 46);
}

/// The eight groups of an IPv6 address.
fn groups_vec(a: &[u8; 16]) -> (g: Vec<u16>)
    ensures
        g@ == groups_of(a@),
{
    let mut g: Vec<u16> = Vec::new();
    let mut k: usize = 0;
    while k < 8
        invariant
            k <= 8,
            g@ == groups_of(a@).take(k as int),
        decreases 8 - k,
    {
        g.push((a[2 * k] as u16) * 256 + (a[2 * k + 1] as u16));
        k = k + 1;
        assert(g@ =~= groups_of(a@).take(k as int));
    }
    assert(g@ =~= groups_of(a@));
    g
}

/// The number of zero groups in a row from `i` on.
fn zero_run_at(g: &Vec<u16>, i: usize) -> (r: usize)
    requires
        g@.len() == 8,
        i <= 8,
    ensures
        r == zero_run(g@, i as int),
        i + r <= 8,
{
    let mut c: usize = 0;
    while i + c < 8 && g[i + c] == 0
        invariant
            i + c <= 8,
            g@.len() == 8,
            zero_run(g@, i as int) == c + zero_run(g@, (i + c) as int),
        decreases 8 - i - c,
    {
        c = c + 1;
    }
    c
}

/// The leftmost index from which the run of zero groups is longest.
fn longest_run_start(g: &Vec<u16>) -> (r: usize)
    requires
        g@.len() == 8,
    ensures
        r == longest_zero_run(g@, 0),
        r < 8,
{
    let mut best: usize = 7;
    let mut i: usize = 7;
    while i > 0
        invariant
            g@.len() == 8,
            i <= 7,
            i <= best < 8,
            best == longest_zero_run(g@, i as int),
        decreases i,
    {
        i = i - 1;
        if zero_run_at(g, i) >= zero_run_at(g, best) {
            best = i;
        }
    }
    best
}

/// Appends the groups `g[from..to]` as hexadecimal joined by colons.
fn write_hex_join(out: &mut Vec<u8>, g: &Vec<u16>, from: usize, to: usize)
    requires
        from <= to <= g@.len(),
    ensures
        final(out)@ == old(out)@ + hex_join(g@.subrange(from as int, to as int)),
{
    let ghost gs = g@.subrange(from as int, to as int);
    let ghost want = gs.map_values(|x: u16| hex_text(x as nat));
    if from == to {
        assert(want =~= Seq::<Seq<u8>>::empty());
        assert(old(out)@ + hex_join(gs) =~= old(out)@);
        return;
    }
    let mut pieces: Vec<Vec<u8>> = Vec::new();
    let mut k: usize = from;
    while k < to
        invariant
            from <= k <= to <= g@.len(),
            gs == g@.subrange(from as int, to as int),
            want == gs.map_values(|x: u16| hex_text(x as nat)),
            views(pieces@) == want.take(k - from),
        decreases to - k,
    {
        let mut piece: Vec<u8> = Vec::new();
        push_hex(&mut piece, g[k] as u32);
        let ghost before = pieces@;
        let ghost text = piece@;
        pieces.push(piece);
        assert(views(pieces@) =~= views(before).push(text)) by {
            assert(forall|j: int| 0 <= j < before.len() ==> #[trigger] pieces@[j] == before[j]);
        }
        k = k + 1;
        assert(views(pieces@) =~= want.take(k - from));
    }
    assert(views(pieces@) =~= want);
    join_into(out, &pieces, 58);
}

/// Appends the text of an IPv6 address in the recommended form.
pub fn write_ipv6(out: &mut Vec<u8>, a: &[u8; 16])
    ensures
        final(out)@ == old(out)@ + ipv6_text(a@),
{
    let g = groups_vec(a);
    if g[0] == 0 && g[1] == 0 && g[2] == 0 && g[3] == 0 && g[4] == 0 && g[5] == 0xffff {
        out.push(58);
        out.push(58);
        out.push(102);
        out.push(102);
        out.push(102);
        out.push(102);
        out.push(58);
        let v4 = [a[12], a[13], a[14], a[15]];
        assert(v4@ =~= a@.subrange(12, 16));
        write_ipv4(out, &v4);
        assert(final(out)@ =~= old(out)@ + ipv6_text(a@));
        return;
    }
    let b = longest_run_start(&g);
    let l = zero_run_at(&g, b);
    if l >= 2 {
        write_hex_join(out, &g, 0, b);
        out.push(58);
        out.push(58);
        write_hex_join(out, &g, b + l, 8);
        assert(final(out)@ =~= old(out)@ + ipv6_text(a@));
    } else {
        write_hex_join(out, &g, 0, 8);
        assert(g@.subrange(0, 8) =~= g@);
    }
}

/// Dotted-decimal text reads back as the address it was written from; it is ASCII, holds no
/// space or CR, and takes at most 15 bytes.
pub proof fn lemma_ipv4_text(a: Seq<u8>)
    requires
        a.len() == 4,
    ensures
        ipv4_of(ipv4_text(a)) == Some(a),
        free_of(ipv4_text(a), 32),
        free_of(ipv4_text(a), 13),
        free_of(ipv4_text(a), 58),
        !all_hex(ipv4_text(a)),
        ascii(ipv4_text(a)),
        ipv4_text(a).len() <= 15,
{
    let pieces = ipv4_pieces(a);
    let t = ipv4_text(a);
    assert(t == pieces[0] + seq![46u8] + join(pieces.drop_first(), 46));
    assert(t[pieces[0].len() as int] == 46);
    assert(hex_digit(t[pieces[0].len() as int]) is None);
    assert forall|k: int| 0 <= k < 4 implies octet_of(#[trigger] pieces[k]) == Some(a[k]) && free_of(
        pieces[k],
        46,
    ) && free_of(pieces[k], 32) && free_of(pieces[k], 13) && ascii(pieces[k]) && pieces[k].len() <= 3 by {
        lemma_dec_text(a[k] as nat);
        let p = pieces[k];
        assert(p == dec_text(a[k] as nat));
        assert forall|i: int| 0 <= i < p.len() implies 48 <= #[trigger] p[i] <= 57 by {
            assert(crate::text::is_digit(p[i]));
        }
    }
    assert forall|k: int| 0 <= k < 4 implies free_of(#[trigger] pieces[k], 58) by {
        let p = pieces[k];
        lemma_dec_text(a[k] as nat);
        assert forall|i: int| 0 <= i < p.len() implies #[trigger] p[i] != 58 by {
            assert(crate::text::is_digit(p[i]));
        }
    }
    lemma_join_free(pieces, 46, 32);
    lemma_join_free(pieces, 46, 13);
    lemma_join_free(pieces, 46, 58);
    lemma_join_len(pieces, 46, 3);
    assert(t.subrange(0, t.len() as int) =~= t);
    lemma_parts_of_join(t, 46, 0, pieces, 5);
    assert(split_parts(t, 46, 5) == pieces);
    assert(ipv4_of(t).unwrap() =~= a);
}

/// The run of zero groups from `i` lies within the groups and holds only zeros.
pub proof fn lemma_zero_run(g: Seq<u16>, i: int)
    requires
        0 <= i <= g.len(),
    ensures
        i + zero_run(g, i) <= g.len(),
        forall|k: int| i <= k < i + zero_run(g, i) ==> #[trigger] g[k] == 0,
    decreases g.len() - i,
{
    if i < g.len() && g[i] == 0 {
        lemma_zero_run(g, i + 1);
    }
}

/// The start of the longest run lies at `i` or later, within the groups.
pub proof fn lemma_longest_bounds(g: Seq<u16>, i: int)
    requires
        0 <= i < g.len(),
    ensures
        i <= longest_zero_run(g, i) < g.len(),
    decreases g.len() - i,
{
    if i + 1 < g.len() {
        lemma_longest_bounds(g, i + 1);
    }
}

/// Groups joined as hexadecimal read back as the same groups; the text is ASCII, holds no
/// space, CR or doubled colon, and neither starts nor ends with a colon.
pub proof fn lemma_hex_join(gs: Seq<u16>, embedded: bool)
    requires
        gs.len() <= 8,
    ensures
        colon_groups(hex_join(gs), embedded) == Some(gs),
        free_of(hex_join(gs), 32),
        free_of(hex_join(gs), 13),
        ascii(hex_join(gs)),
        hex_join(gs).len() <= 5 * gs.len(),
        gs.len() > 0 ==> hex_join(gs).len() <= 5 * gs.len() - 1,
        forall|i: int| 0 <= i && i + 1 < hex_join(gs).len() ==> !(#[trigger] hex_join(gs)[i] == 58
            && hex_join(gs)[i + 1] == 58),
        gs.len() > 0 ==> hex_join(gs).len() > 0 && hex_join(gs)[0] != 58 && hex_join(gs).last()
            != 58,
{
    let pieces = gs.map_values(|x: u16| hex_text(x as nat));
    let t = hex_join(gs);
    if gs.len() == 0 {
        assert(pieces =~= Seq::<Seq<u8>>::empty());
        assert(t =~= Seq::<u8>::empty());
        assert(gs =~= seq![]);
        return;
    }
    assert forall|k: int| 0 <= k < pieces.len() implies group_ok(#[trigger] pieces[k])
        && hexadecimal(pieces[k]) == gs[k] as nat && free_of(pieces[k], 58) && free_of(pieces[k], 32)
        && free_of(pieces[k], 13) && ascii(pieces[k]) && pieces[k].len() >= 1 && pieces[k].len() <= 4
        && pieces[k][0] != 58 && pieces[k].last() != 58 by {
        lemma_hex_text(gs[k] as nat);
        let p = pieces[k];
        assert forall|i: int| 0 <= i < p.len() implies #[trigger] p[i] < 128 && p[i] != 58 && p[i]
            != 32 && p[i] != 13 by {
            assert(hex_digit(p[i]) is Some);
        }
        assert(p[p.len() - 1] != 58);
    }
    lemma_join_free(pieces, 58, 32);
    lemma_join_free(pieces, 58, 13);
    lemma_join_len(pieces, 58, 4);
    assert(pieces.len() == gs.len());
    assert(pieces.len() * (4 + 1) == 5 * gs.len()) by (nonlinear_arith)
        requires
            pieces.len() == gs.len(),
    ;
    assert forall|i: int| 0 <= i && i + 1 < t.len() implies !(#[trigger] t[i] == 58 && t[i + 1] == 58) by {
        lemma_join_no_double(pieces, 58, i);
    }
    lemma_join_first(pieces, 58);
    lemma_join_last(pieces, 58);
    assert(t.subrange(0, t.len() as int) =~= t);
    lemma_parts_of_join(t, 58, 0, pieces, 9);
    let n = pieces.len();
    assert(group_ok(pieces[n - 1]));
    assert(pieces.take(n - 1).map_values(|p: Seq<u8>| hexadecimal(p) as u16).push(
        hexadecimal(pieces[n - 1]) as u16,
    ) =~= gs);
}

/// The groups of sixteen bytes give the bytes back.
pub proof fn lemma_groups_bytes(a: Seq<u8>)
    requires
        a.len() == 16,
    ensures
        groups_bytes(groups_of(a)) == a,
{
    let g = groups_of(a);
    assert forall|i: int| 0 <= i < 16 implies #[trigger] groups_bytes(g)[i] == a[i] by {
        let k = i / 2;
        let hi = a[2 * k] as nat;
        let lo = a[2 * k + 1] as nat;
        assert(g[k] as nat == hi * 256 + lo);
        assert((hi * 256 + lo) / 256 == hi && (hi * 256 + lo) % 256 == lo) by (nonlinear_arith)
            requires
                lo < 256,
        ;
    }
    assert(groups_bytes(g) =~= a);
}

/// `ffff` reads as one group of value 65535.
proof fn lemma_ffff()
    ensures
        group_ok(seq![102u8, 102u8, 102u8, 102u8]),
        hexadecimal(seq![102u8, 102u8, 102u8, 102u8]) == 65535,
        free_of(seq![102u8, 102u8, 102u8, 102u8], 58),
{
    let f1 = seq![102u8];
    let f2 = seq![102u8, 102u8];
    let f3 = seq![102u8, 102u8, 102u8];
    let f4 = seq![102u8, 102u8, 102u8, 102u8];
    assert(f1.drop_last() =~= Seq::<u8>::empty());
    assert(f2.drop_last() =~= f1);
    assert(f3.drop_last() =~= f2);
    assert(f4.drop_last() =~= f3);
    assert(hexadecimal(Seq::<u8>::empty()) == 0);
    assert(hexadecimal(f1) == 15);
    assert(hexadecimal(f2) == 255);
    assert(hexadecimal(f3) == 4095);
    assert(hexadecimal(f4) == 65535);
}

/// The text of an IPv4-mapped address reads back as the address.
proof fn lemma_mapped_text(a: Seq<u8>)
    requires
        a.len() == 16,
        is_ipv4_mapped(groups_of(a)),
    ensures
        ipv6_of(ipv6_text(a)) == Some(a),
        free_of(ipv6_text(a), 32),
        free_of(ipv6_text(a), 13),
        ascii(ipv6_text(a)),
        ipv6_text(a).len() <= 39,
{
    let g = groups_of(a);
    let v = a.subrange(12, 16);
    let v4 = ipv4_text(v);
    lemma_ipv4_text(v);
    lemma_ffff();
    let ffff = seq![102u8, 102u8, 102u8, 102u8];
    let t = mapped_prefix() + v4;
    assert(t == ipv6_text(a));
    assert(t[0] == 58 && t[1] == 58);
    assert(index_of_pair(t, 58, 58, 0) == Some(0int));
    assert(t.subrange(0, 0) =~= Seq::<u8>::empty());
    let tail = t.subrange(2, t.len() as int);
    let parts = seq![ffff, v4];
    assert(parts.drop_first() =~= seq![v4]);
    assert(join(parts, 58) == ffff + seq![58u8] + join(seq![v4], 58));
    assert(tail =~= join(parts, 58));
    assert(tail.subrange(0, tail.len() as int) =~= tail);
    lemma_parts_of_join(tail, 58, 0, parts, 9);
    assert(!group_ok(v4));
    assert(embedded_groups(v4) == Some(seq![g[6], g[7]]));
    assert(parts.take(1).map_values(|p: Seq<u8>| hexadecimal(p) as u16) =~= seq![0xffffu16]);
    assert(colon_groups(tail, true) == Some(seq![0xffffu16] + seq![g[6], g[7]]));
    assert(colon_groups(Seq::<u8>::empty(), false) == Some(Seq::<u16>::empty()));
    assert(Seq::<u16>::empty() + Seq::new(5, |k: int| 0u16) + (seq![0xffffu16] + seq![g[6], g[7]])
        =~= g);
    lemma_groups_bytes(a);
    assert forall|i: int| 0 <= i < t.len() implies #[trigger] t[i] < 128 && t[i] != 32 && t[i] != 13 by {
        if i >= 7 {
            assert(t[i] == v4[i - 7]);
        }
    }
}

/// The text of an address with a run of two or more zero groups reads back as the address.
proof fn lemma_compressed_text(a: Seq<u8>)
    requires
        a.len() == 16,
        !is_ipv4_mapped(groups_of(a)),
        zero_run(groups_of(a), longest_zero_run(groups_of(a), 0)) >= 2,
    ensures
        ipv6_of(ipv6_text(a)) == Some(a),
        free_of(ipv6_text(a), 32),
        free_of(ipv6_text(a), 13),
        ascii(ipv6_text(a)),
        ipv6_text(a).len() <= 39,
{
    let g = groups_of(a);
    let b = longest_zero_run(g, 0);
    lemma_longest_bounds(g, 0);
    let l = zero_run(g, b);
    lemma_zero_run(g, b);
    let hs = g.subrange(0, b);
    let ts = g.subrange(b + l, 8);
    let h = hex_join(hs);
    let tt = hex_join(ts);
    lemma_hex_join(hs, false);
    lemma_hex_join(ts, true);
    let t = h + seq![58u8, 58u8] + tt;
    assert(t == ipv6_text(a));
    let hl = h.len() as int;
    assert forall|i: int| 0 <= i < hl && i + 1 < t.len() implies !(#[trigger] t[i] == 58 && t[i + 1]
        == 58) by {
        assert(t[i] == h[i]);
        if i + 1 < hl {
            assert(t[i + 1] == h[i + 1]);
        } else {
            assert(h[i] == h.last());
        }
    }
    lemma_index_of_pair_skip(t, 58, 58, 0, hl);
    assert(t[hl] == 58 && t[hl + 1] == 58);
    assert(index_of_pair(t, 58, 58, hl) == Some(hl));
    assert(t.subrange(0, hl) =~= h);
    assert(t.subrange(hl + 2, t.len() as int) =~= tt);
    assert(hs + Seq::new((8 - hs.len() - ts.len()) as nat, |k: int| 0u16) + ts =~= g);
    lemma_groups_bytes(a);
    assert forall|i: int| 0 <= i < t.len() implies #[trigger] t[i] < 128 && t[i] != 32 && t[i] != 13 by {
        if i < hl {
            assert(t[i] == h[i]);
        } else if i >= hl + 2 {
            assert(t[i] == tt[i - hl - 2]);
        }
    }
}

/// IPv6 text in the recommended form reads back as the address it was written from; it is
/// ASCII, holds no space or CR, and takes at most 39 bytes.
pub proof fn lemma_ipv6_text(a: Seq<u8>)
    requires
        a.len() == 16,
    ensures
        ipv6_of(ipv6_text(a)) == Some(a),
        free_of(ipv6_text(a), 32),
        free_of(ipv6_text(a), 13),
        ascii(ipv6_text(a)),
        ipv6_text(a).len() <= 39,
{
    let g = groups_of(a);
    if is_ipv4_mapped(g) {
        lemma_mapped_text(a);
    } else if zero_run(g, longest_zero_run(g, 0)) >= 2 {
        lemma_compressed_text(a);
    } else {
        let t = hex_join(g);
        assert(t == ipv6_text(a));
        lemma_hex_join(g, true);
        lemma_no_pair(t, 58, 0);
        lemma_groups_bytes(a);
    }
}

} // verus!
