//! Byte-level building blocks of the text header grammar: searching, splitting on a
//! separator, and reading decimal and hexadecimal numbers, each against its statement.
use vstd::prelude::*;

verus! {

/// The first index at or after `from` at which `s` holds `b`.
pub open spec fn index_of(s: Seq<u8>, b: u8, from: int) -> Option<int>
    decreases s.len() - from,
{
    if from < 0 || from >= s.len() {
        None
    } else if s[from] == b {
        Some(from)
    } else {
        index_of(s, b, from + 1)
    }
}

/// The first index at or after `from` at which `s` holds `a` followed by `b`.
pub open spec fn index_of_pair(s: Seq<u8>, a: u8, b: u8, from: int) -> Option<int>
    decreases s.len() - from,
{
    if from < 0 || from + 1 >= s.len() {
        None
    } else if s[from] == a && s[from + 1] == b {
        Some(from)
    } else {
        index_of_pair(s, a, b, from + 1)
    }
}

/// The parts of `s` from `start` on, split at each `sep`, into at most `n` parts; the last
/// part keeps whatever separators remain.
pub open spec fn parts_from(s: Seq<u8>, sep: u8, start: int, n: nat) -> Seq<Seq<u8>>
    decreases n,
{
    if n <= 1 {
        seq![s.subrange(start, s.len() as int)]
    } else {
        match index_of(s, sep, start) {
            None => seq![s.subrange(start, s.len() as int)],
            Some(i) => seq![s.subrange(start, i)] + parts_from(s, sep, i + 1, (n - 1) as nat),
        }
    }
}

/// A `b` found from `from` on lies at `from` or later, within `s`.
pub proof fn lemma_index_of_bounds(s: Seq<u8>, b: u8, from: int)
    ensures
        index_of(s, b, from) matches Some(i) ==> from <= i < s.len() && s[i] == b,
    decreases s.len() - from,
{
    if from >= 0 && from < s.len() && s[from] != b {
        lemma_index_of_bounds(s, b, from + 1);
    }
}

/// The first part from `start` on is no longer than what is left of `s`.
pub proof fn lemma_first_part_len(s: Seq<u8>, sep: u8, start: int, n: nat)
    requires
        0 <= start <= s.len(),
    ensures
        parts_from(s, sep, start, n).len() >= 1,
        parts_from(s, sep, start, n)[0].len() <= s.len() - start,
{
    lemma_index_of_bounds(s, sep, start);
}

/// Where `s` splits into two parts or more, the first two and the separator between them
/// fit in `s`.
pub proof fn lemma_first_two_parts(s: Seq<u8>, sep: u8, n: nat)
    requires
        split_parts(s, sep, n).len() >= 2,
    ensures
        split_parts(s, sep, n)[0].len() + 1 + split_parts(s, sep, n)[1].len() <= s.len(),
{
    lemma_index_of_bounds(s, sep, 0);
    let i = index_of(s, sep, 0).unwrap();
    lemma_first_part_len(s, sep, i + 1, (n - 1) as nat);
}

/// `s` split at each `sep` into at most `n` parts (there is always at least one).
pub open spec fn split_parts(s: Seq<u8>, sep: u8, n: nat) -> Seq<Seq<u8>> {
    parts_from(s, sep, 0, n)
}

/// Whether `c` is an ASCII decimal digit.
pub open spec fn is_digit(c: u8) -> bool {
    48 <= c <= 57
}

/// The value of a hexadecimal digit of either case, if `c` is one.
pub open spec fn hex_digit(c: u8) -> Option<nat> {
    if 48 <= c <= 57 {
        Some((c - 48) as nat)
    } else if 97 <= c <= 102 {
        Some((c - 87) as nat)
    } else if 65 <= c <= 70 {
        Some((c - 55) as nat)
    } else {
        None
    }
}

/// Whether every byte of `s` is a decimal digit.
pub open spec fn all_digits(s: Seq<u8>) -> bool {
    forall|i: int| 0 <= i < s.len() ==> is_digit(#[trigger] s[i])
}

/// Whether every byte of `s` is a hexadecimal digit.
pub open spec fn all_hex(s: Seq<u8>) -> bool {
    forall|i: int| 0 <= i < s.len() ==> #[trigger] hex_digit(s[i]) is Some
}

/// The number that the decimal digits `s` spell.
pub open spec fn decimal(s: Seq<u8>) -> nat
    decreases s.len(),
{
    if s.len() == 0 {
        0
    } else {
        decimal(s.drop_last()) * 10 + (s.last() - 48) as nat
    }
}

/// The number that the hexadecimal digits `s` spell.
pub open spec fn hexadecimal(s: Seq<u8>) -> nat
    decreases s.len(),
{
    if s.len() == 0 {
        0
    } else {
        hexadecimal(s.drop_last()) * 16 + hex_digit(s.last()).unwrap()
    }
}

/// Finds the first `b` in `s` at or after `from`.
pub fn find_byte(s: &[u8], b: u8, from: usize) -> (r: Option<usize>)
    ensures
        match r {
            None => index_of(s@, b, from as int) is None,
            Some(i) => index_of(s@, b, from as int) == Some(i as int) && from <= i < s@.len()
                && s@[i as int] == b,
        },
{
    let mut i = from;
    while i < s.len()
        invariant
            from <= i,
            index_of(s@, b, from as int) == index_of(s@, b, i as int),
        decreases s@.len() - i,
    {
        if s[i] == b {
            return Some(i);
        }
        i = i + 1;
    }
    None
}

/// Finds the first `a` followed by `b` in `s` at or after `from`.
pub fn find_pair(s: &[u8], a: u8, b: u8, from: usize) -> (r: Option<usize>)
    ensures
        match r {
            None => index_of_pair(s@, a, b, from as int) is None,
            Some(i) => index_of_pair(s@, a, b, from as int) == Some(i as int) && from <= i
                && i + 1 < s@.len() && s@[i as int] == a && s@[i + 1] == b,
        },
{
    let mut i = from;
    while i < s.len() && s.len() - i >= 2
        invariant
            from <= i,
            index_of_pair(s@, a, b, from as int) == index_of_pair(s@, a, b, i as int),
        decreases s@.len() - i,
    {
        if s[i] == a && s[i + 1] == b {
            return Some(i);
        }
        i = i + 1;
    }
    None
}

/// The part of `s` between `range.0` and `range.1`.
pub open spec fn range_of(s: Seq<u8>, range: (usize, usize)) -> Seq<u8> {
    s.subrange(range.0 as int, range.1 as int)
}

/// Splits `s` at each `sep` into at most `n` parts, given as ranges into `s`.
pub fn split(s: &[u8], sep: u8, n: usize) -> (r: Vec<(usize, usize)>)
    requires
        n >= 1,
    ensures
        r@.len() == split_parts(s@, sep, n as nat).len(),
        forall|k: int|
            0 <= k < r@.len() ==> r@[k].0 <= r@[k].1 <= s@.len() && range_of(s@, #[trigger] r@[k])
                == split_parts(s@, sep, n as nat)[k],
{
    let mut r: Vec<(usize, usize)> = Vec::new();
    let mut start: usize = 0;
    let mut count: usize = 0;
    let len = s.len();
    loop
        invariant
            len == s@.len(),
            count < n,
            start <= s@.len(),
            r@.len() == count,
            forall|k: int| 0 <= k < r@.len() ==> (#[trigger] r@[k]).0 <= r@[k].1 <= s@.len(),
            split_parts(s@, sep, n as nat) == r@.map_values(|p: (usize, usize)| range_of(s@, p))
                + parts_from(s@, sep, start as int, (n - count) as nat),
        decreases n - count,
    {
        let ghost before = r@;
        if n - count <= 1 {
            r.push((start, s.len()));
            assert(r@.map_values(|p: (usize, usize)| range_of(s@, p)) =~= before.map_values(
                |p: (usize, usize)| range_of(s@, p),
            ) + parts_from(s@, sep, start as int, (n - count) as nat));
            proof {
                assert forall|k: int| 0 <= k < r@.len() implies r@[k].0 <= r@[k].1 <= s@.len()
                    && range_of(s@, #[trigger] r@[k]) == split_parts(s@, sep, n as nat)[k] by {
                    assert(r@.map_values(|p: (usize, usize)| range_of(s@, p))[k] == range_of(
                        s@,
                        r@[k],
                    ));
                }
            }
            return r;
        }
        match find_byte(s, sep, start) {
            None => {
                r.push((start, s.len()));
                assert(r@.map_values(|p: (usize, usize)| range_of(s@, p)) =~= before.map_values(
                    |p: (usize, usize)| range_of(s@, p),
                ) + parts_from(s@, sep, start as int, (n - count) as nat));
                proof {
                    assert forall|k: int| 0 <= k < r@.len() implies r@[k].0 <= r@[k].1
                        <= s@.len() && range_of(s@, #[trigger] r@[k]) == split_parts(
                        s@,
                        sep,
                        n as nat,
                    )[k] by {
                        assert(r@.map_values(|p: (usize, usize)| range_of(s@, p))[k] == range_of(
                            s@,
                            r@[k],
                        ));
                    }
                }
                return r;
            },
            Some(i) => {
                r.push((start, i));
                assert(r@.map_values(|p: (usize, usize)| range_of(s@, p)) + parts_from(
                    s@,
                    sep,
                    i + 1,
                    (n - count - 1) as nat,
                ) =~= before.map_values(|p: (usize, usize)| range_of(s@, p)) + parts_from(
                    s@,
                    sep,
                    start as int,
                    (n - count) as nat,
                ));
                start = i + 1;
                count = count + 1;
            },
        }
    }
}

/// Whether `a` and `b` hold the same bytes.
pub fn eq_bytes(a: &[u8], b: &[u8]) -> (r: bool)
    ensures
        r == (a@ == b@),
{
    if a.len() != b.len() {
        return false;
    }
    let mut i: usize = 0;
    while i < a.len()
        invariant
            a@.len() == b@.len(),
            forall|j: int| 0 <= j < i ==> a@[j] == b@[j],
        decreases a@.len() - i,
    {
        if a[i] != b[i] {
            return false;
        }
        i = i + 1;
    }
    assert(a@ =~= b@);
    true
}

/// `decimal(s)`, or 65536 where it is larger.
pub open spec fn decimal_capped(s: Seq<u8>) -> nat {
    if decimal(s) > 65536 {
        65536
    } else {
        decimal(s)
    }
}

/// Reads the decimal digits `s`, or `None` where one byte is no digit. The value is
/// capped at 65536, which is enough to tell whether it fits in 16 bits.
pub fn read_decimal(s: &[u8]) -> (r: Option<u32>)
    ensures
        match r {
            None => !all_digits(s@),
            Some(v) => all_digits(s@) && v == decimal_capped(s@),
        },
{
    let mut acc: u32 = 0;
    let mut i: usize = 0;
    while i < s.len()
        invariant
            i <= s@.len(),
            all_digits(s@.subrange(0, i as int)),
            acc == decimal_capped(s@.subrange(0, i as int)),
        decreases s@.len() - i,
    {
        let c = s[i];
        if c < 48 || c > 57 {
            return None;
        }
        let ghost prefix = s@.subrange(0, i as int);
        let ghost next = s@.subrange(0, i + 1);
        assert(next.drop_last() =~= prefix);
        assert(decimal(next) == decimal(prefix) * 10 + (c - 48) as nat);
        acc = if acc >= 65536 {
            65536
        } else {
            let v = acc * 10 + (c - 48) as u32;
            if v > 65536 {
                65536
            } else {
                v
            }
        };
        i = i + 1;
        assert(all_digits(s@.subrange(0, i as int))) by {
            assert forall|j: int| 0 <= j < next.len() implies is_digit(#[trigger] next[j]) by {
                if j < prefix.len() {
                    assert(next[j] == prefix[j]);
                }
            }
        }
    }
    assert(s@.subrange(0, s@.len() as int) =~= s@);
    Some(acc)
}

/// The errors of reading a 16-bit unsigned number, as the standard library names them.
#[derive(Clone, Copy, Debug, PartialEq, Eq, Structural)]
pub enum IntErrorKind {
    /// The text is empty.
    Empty,
    /// A byte is not a digit (or the text is a lone sign).
    InvalidDigit,
    /// The number is too large for 16 bits.
    PosOverflow,
}

/// The digits of a number's text: the text without a leading `+`.
pub open spec fn unsigned_digits(s: Seq<u8>) -> Seq<u8> {
    if s.len() > 0 && s[0] == 43 {
        s.drop_first()
    } else {
        s
    }
}

/// What reading `s` as a 16-bit unsigned decimal number gives: an optional `+`, then
/// digits whose value fits in 16 bits.
pub open spec fn u16_of(s: Seq<u8>) -> Result<u16, IntErrorKind> {
    let digits = unsigned_digits(s);
    if s.len() == 0 {
        Err(IntErrorKind::Empty)
    } else if digits.len() == 0 || !all_digits(digits) {
        Err(IntErrorKind::InvalidDigit)
    } else if decimal(digits) > 65535 {
        Err(IntErrorKind::PosOverflow)
    } else {
        Ok(decimal(digits) as u16)
    }
}

/// Reads `s` as a 16-bit unsigned decimal number.
pub fn parse_u16(s: &[u8]) -> (r: Result<u16, IntErrorKind>)
    ensures
        r == u16_of(s@),
{
    if s.len() == 0 {
        return Err(IntErrorKind::Empty);
    }
    let digits = if s[0] == 43 {
        &s[1..s.len()]
    } else {
        &s[0..s.len()]
    };
    assert(digits@ =~= unsigned_digits(s@));
    if digits.len() == 0 {
        return Err(IntErrorKind::InvalidDigit);
    }
    match read_decimal(digits) {
        None => Err(IntErrorKind::InvalidDigit),
        Some(v) => {
            if v > 65535 {
                Err(IntErrorKind::PosOverflow)
            } else {
                Ok(v as u16)
            }
        },
    }
}

/// 16 to the power `n`.
pub open spec fn pow16(n: nat) -> nat
    decreases n,
{
    if n == 0 {
        1
    } else {
        pow16((n - 1) as nat) * 16
    }
}

/// Reads `s` as one to four hexadecimal digits.
pub fn read_hex_group(s: &[u8]) -> (r: Option<u16>)
    ensures
        match r {
            None => !(1 <= s@.len() <= 4 && all_hex(s@)),
            Some(v) => 1 <= s@.len() <= 4 && all_hex(s@) && v as nat == hexadecimal(s@),
        },
{
    if s.len() == 0 || s.len() > 4 {
        return None;
    }
    let mut acc: u32 = 0;
    let mut i: usize = 0;
    while i < s.len()
        invariant
            s@.len() <= 4,
            i <= s@.len(),
            all_hex(s@.subrange(0, i as int)),
            acc == hexadecimal(s@.subrange(0, i as int)),
            acc < pow16(i as nat),
        decreases s@.len() - i,
    {
        let c = s[i];
        let d: u32 = if 48 <= c && c <= 57 {
            (c - 48) as u32
        } else if 97 <= c && c <= 102 {
            (c - 87) as u32
        } else if 65 <= c && c <= 70 {
            (c - 55) as u32
        } else {
            assert(!all_hex(s@)) by {
                assert(hex_digit(s@[i as int]) is None);
            }
            return None;
        };
        let ghost prefix = s@.subrange(0, i as int);
        let ghost next = s@.subrange(0, i + 1);
        assert(next.drop_last() =~= prefix);
        assert(pow16((i + 1) as nat) == pow16(i as nat) * 16);
        assert(pow16(i as nat) <= 4096) by {
            reveal_with_fuel(pow16, 5);
        }
        acc = acc * 16 + d;
        i = i + 1;
        assert(all_hex(s@.subrange(0, i as int))) by {
            assert forall|j: int| 0 <= j < next.len() implies #[trigger] hex_digit(next[j]) is Some by {
                if j < prefix.len() {
                    assert(next[j] == prefix[j]);
                }
            }
        }
    }
    assert(s@.subrange(0, s@.len() as int) =~= s@);
    assert(pow16(s@.len()) <= 65536) by {
        reveal_with_fuel(pow16, 5);
    }
    Some(acc as u16)
}

/// `pieces` joined with `sep` between each two.
pub open spec fn join(pieces: Seq<Seq<u8>>, sep: u8) -> Seq<u8>
    decreases pieces.len(),
{
    if pieces.len() == 0 {
        seq![]
    } else if pieces.len() == 1 {
        pieces[0]
    } else {
        pieces[0] + seq![sep] + join(pieces.drop_first(), sep)
    }
}

/// Whether `s` holds no `b`.
pub open spec fn free_of(s: Seq<u8>, b: u8) -> bool {
    forall|i: int| 0 <= i < s.len() ==> #[trigger] s[i] != b
}

/// Searching from `from` finds the same as from `to` where no `b` lies in between.
pub proof fn lemma_index_of_skip(s: Seq<u8>, b: u8, from: int, to: int)
    requires
        0 <= from <= to <= s.len(),
        forall|i: int| from <= i < to ==> #[trigger] s[i] != b,
    ensures
        index_of(s, b, from) == index_of(s, b, to),
    decreases to - from,
{
    if from < to {
        lemma_index_of_skip(s, b, from + 1, to);
    }
}

/// Splitting the join of separator-free pieces gives the pieces back, where there are at
/// most as many as the split allows.
pub proof fn lemma_parts_of_join(s: Seq<u8>, sep: u8, start: int, pieces: Seq<Seq<u8>>, n: nat)
    requires
        0 <= start <= s.len(),
        s.subrange(start, s.len() as int) == join(pieces, sep),
        1 <= pieces.len() <= n,
        forall|k: int| 0 <= k < pieces.len() ==> free_of(#[trigger] pieces[k], sep),
    ensures
        parts_from(s, sep, start, n) == pieces,
    decreases pieces.len(),
{
    let tail = s.subrange(start, s.len() as int);
    if pieces.len() == 1 {
        assert(free_of(pieces[0], sep));
        if n > 1 {
            assert forall|i: int| start <= i < s.len() implies #[trigger] s[i] != sep by {
                assert(s[i] == tail[i - start]);
            }
            lemma_index_of_skip(s, sep, start, s.len() as int);
        }
        assert(parts_from(s, sep, start, n) =~= pieces);
    } else {
        let p0 = pieces[0];
        let rest = pieces.drop_first();
        let i = start + p0.len();
        assert(free_of(p0, sep));
        assert(tail == p0 + seq![sep] + join(rest, sep));
        assert(tail[p0.len() as int] == sep);
        assert(s[i] == sep);
        assert forall|j: int| start <= j < i implies #[trigger] s[j] != sep by {
            assert(s[j] == tail[j - start]);
            assert(tail[j - start] == p0[j - start]);
        }
        lemma_index_of_skip(s, sep, start, i);
        assert(index_of(s, sep, i) == Some(i));
        assert(s.subrange(start, i) =~= p0);
        assert(s.subrange(i + 1, s.len() as int) =~= join(rest, sep)) by {
            assert(s.subrange(i + 1, s.len() as int) =~= tail.subrange(p0.len() + 1 as int, tail.len() as int));
        }
        assert forall|k: int| 0 <= k < rest.len() implies free_of(#[trigger] rest[k], sep) by {
            assert(rest[k] == pieces[k + 1]);
        }
        lemma_parts_of_join(s, sep, i + 1, rest, (n - 1) as nat);
        assert(parts_from(s, sep, start, n) =~= seq![p0] + rest);
    }
}

/// Joining one more piece appends a separator and the piece.
pub proof fn lemma_join_push(pieces: Seq<Seq<u8>>, x: Seq<u8>, sep: u8)
    requires
        pieces.len() >= 1,
    ensures
        join(pieces.push(x), sep) == join(pieces, sep) + seq![sep] + x,
    decreases pieces.len(),
{
    if pieces.len() == 1 {
        assert(pieces.push(x).drop_first() =~= seq![x]);
        assert(pieces.push(x)[0] == pieces[0]);
        assert(join(seq![x], sep) == x);
        assert(join(pieces.push(x), sep) =~= join(pieces, sep) + seq![sep] + x);
    } else {
        let rest = pieces.drop_first();
        assert(pieces.push(x).drop_first() =~= rest.push(x));
        assert(pieces.push(x)[0] == pieces[0]);
        lemma_join_push(rest, x, sep);
        assert(join(pieces.push(x), sep) == pieces[0] + seq![sep] + join(rest.push(x), sep));
        assert(join(pieces, sep) == pieces[0] + seq![sep] + join(rest, sep));
        assert(join(pieces.push(x), sep) =~= join(pieces, sep) + seq![sep] + x);
    }
}

/// The bytes of each vector.
pub open spec fn views(pieces: Seq<Vec<u8>>) -> Seq<Seq<u8>> {
    pieces.map_values(|v: Vec<u8>| v@)
}

/// Appends the pieces joined with `sep`.
pub fn join_into(out: &mut Vec<u8>, pieces: &Vec<Vec<u8>>, sep: u8)
    requires
        pieces@.len() >= 1,
    ensures
        final(out)@ == old(out)@ + join(views(pieces@), sep),
{
    out.extend_from_slice(pieces[0].as_slice());
    assert(views(pieces@).take(1) =~= seq![pieces@[0]@]);
    let mut k: usize = 1;
    while k < pieces.len()
        invariant
            1 <= k <= pieces@.len(),
            out@ == old(out)@ + join(views(pieces@).take(k as int), sep),
        decreases pieces@.len() - k,
    {
        out.push(sep);
        out.extend_from_slice(pieces[k].as_slice());
        proof {
            lemma_join_push(views(pieces@).take(k as int), pieces@[k as int]@, sep);
            assert(views(pieces@).take(k + 1) =~= views(pieces@).take(k as int).push(
                pieces@[k as int]@,
            ));
        }
        k = k + 1;
    }
    assert(views(pieces@).take(pieces@.len() as int) =~= views(pieces@));
}

/// The decimal digits of `n`, without leading zeros.
pub open spec fn dec_text(n: nat) -> Seq<u8>
    decreases n,
{
    if n < 10 {
        seq![(48 + n) as u8]
    } else {
        dec_text(n / 10).push((48 + n % 10) as u8)
    }
}

/// The lowercase hexadecimal digit for `d` (below 16).
pub open spec fn hex_char(d: nat) -> u8 {
    if d < 10 {
        (48 + d) as u8
    } else {
        (87 + d) as u8
    }
}

/// The lowercase hexadecimal digits of `n`, without leading zeros.
pub open spec fn hex_text(n: nat) -> Seq<u8>
    decreases n,
{
    if n < 16 {
        seq![hex_char(n)]
    } else {
        hex_text(n / 16).push(hex_char(n % 16))
    }
}

/// Appends the decimal digits of `n`.
pub fn push_decimal(out: &mut Vec<u8>, n: u32)
    ensures
        final(out)@ == old(out)@ + dec_text(n as nat),
    decreases n,
{
    if n >= 10 {
        push_decimal(out, n / 10);
    }
    out.push((48 + n % 10) as u8);
    assert(final(out)@ =~= old(out)@ + dec_text(n as nat));
}

/// Appends the hexadecimal digits of `n`.
pub fn push_hex(out: &mut Vec<u8>, n: u32)
    ensures
        final(out)@ == old(out)@ + hex_text(n as nat),
    decreases n,
{
    if n >= 16 {
        push_hex(out, n / 16);
    }
    let d = n % 16;
    let c: u8 = if d < 10 {
        (48 + d) as u8
    } else {
        (87 + d) as u8
    };
    out.push(c);
    assert(final(out)@ =~= old(out)@ + hex_text(n as nat));
}

/// The decimal text of `n` reads back as `n`: digits only, the first no zero unless `n`
/// is, and at most as many as `n` needs.
pub proof fn lemma_dec_text(n: nat)
    ensures
        all_digits(dec_text(n)),
        decimal(dec_text(n)) == n,
        dec_text(n).len() >= 1,
        dec_text(n)[0] == 48 ==> n == 0,
        n < 10 ==> dec_text(n).len() == 1,
        n < 100 ==> dec_text(n).len() <= 2,
        n < 1000 ==> dec_text(n).len() <= 3,
        n < 10000 ==> dec_text(n).len() <= 4,
        n < 100000 ==> dec_text(n).len() <= 5,
    decreases n,
{
    if n < 10 {
        assert(dec_text(n).drop_last() =~= Seq::<u8>::empty());
        assert(decimal(Seq::<u8>::empty()) == 0);
        assert(dec_text(n).last() == (48 + n) as u8);
    } else {
        lemma_dec_text(n / 10);
        let t = dec_text(n);
        assert(t.drop_last() =~= dec_text(n / 10));
        assert(t.last() == (48 + n % 10) as u8);
        assert(n == (n / 10) * 10 + n % 10);
        assert(decimal(t) == decimal(dec_text(n / 10)) * 10 + (t.last() - 48) as nat);
        assert(t[0] == dec_text(n / 10)[0]);
        assert forall|i: int| 0 <= i < t.len() implies is_digit(#[trigger] t[i]) by {
            if i < t.len() - 1 {
                assert(t[i] == dec_text(n / 10)[i]);
            }
        }
    }
}

/// The hexadecimal text of `n` reads back as `n`, in at most four digits below 65536.
pub proof fn lemma_hex_text(n: nat)
    ensures
        all_hex(hex_text(n)),
        hexadecimal(hex_text(n)) == n,
        hex_text(n).len() >= 1,
        n < 16 ==> hex_text(n).len() == 1,
        n < 256 ==> hex_text(n).len() <= 2,
        n < 4096 ==> hex_text(n).len() <= 3,
        n < 65536 ==> hex_text(n).len() <= 4,
    decreases n,
{
    if n < 16 {
        assert(hex_digit(hex_char(n)) == Some(n));
        assert(hex_text(n).drop_last() =~= Seq::<u8>::empty());
        assert(hexadecimal(Seq::<u8>::empty()) == 0);
        assert(hex_text(n).last() == hex_char(n));
    } else {
        lemma_hex_text(n / 16);
        let t = hex_text(n);
        assert(t.drop_last() =~= hex_text(n / 16));
        assert(t.last() == hex_char(n % 16));
        assert(n == (n / 16) * 16 + n % 16);
        assert(hex_digit(hex_char(n % 16)) == Some(n % 16));
        assert(hexadecimal(t) == hexadecimal(hex_text(n / 16)) * 16 + hex_digit(t.last()).unwrap());
        assert forall|i: int| 0 <= i < t.len() implies #[trigger] hex_digit(t[i]) is Some by {
            if i < t.len() - 1 {
                assert(t[i] == hex_text(n / 16)[i]);
            }
        }
    }
}

/// Whether every byte of `s` is ASCII.
pub open spec fn ascii(s: Seq<u8>) -> bool {
    forall|i: int| 0 <= i < s.len() ==> #[trigger] s[i] < 128
}

/// A join of pieces that are free of `b` (and ASCII) with a separator other than `b` (and
/// ASCII) is free of `b` (and ASCII).
pub proof fn lemma_join_free(pieces: Seq<Seq<u8>>, sep: u8, b: u8)
    requires
        sep != b,
        forall|k: int| 0 <= k < pieces.len() ==> free_of(#[trigger] pieces[k], b),
    ensures
        free_of(join(pieces, sep), b),
        sep < 128 && (forall|k: int| 0 <= k < pieces.len() ==> ascii(#[trigger] pieces[k]))
            ==> ascii(join(pieces, sep)),
    decreases pieces.len(),
{
    if pieces.len() == 1 {
        assert(free_of(pieces[0], b));
    } else if pieces.len() > 1 {
        let rest = pieces.drop_first();
        assert forall|k: int| 0 <= k < rest.len() implies free_of(#[trigger] rest[k], b) by {
            assert(rest[k] == pieces[k + 1]);
        }
        lemma_join_free(rest, sep, b);
        assert(free_of(pieces[0], b));
        let j = join(pieces, sep);
        assert(j == pieces[0] + seq![sep] + join(rest, sep));
        if sep < 128 && (forall|k: int| 0 <= k < pieces.len() ==> ascii(#[trigger] pieces[k])) {
            assert forall|k: int| 0 <= k < rest.len() implies ascii(#[trigger] rest[k]) by {
                assert(rest[k] == pieces[k + 1]);
            }
            assert(ascii(pieces[0]));
        }
    }
}

/// A join of `n` pieces of at most `m` bytes each has at most `n * (m + 1) - 1` bytes.
pub proof fn lemma_join_len(pieces: Seq<Seq<u8>>, sep: u8, m: nat)
    requires
        pieces.len() >= 1,
        forall|k: int| 0 <= k < pieces.len() ==> (#[trigger] pieces[k]).len() <= m,
    ensures
        join(pieces, sep).len() <= pieces.len() * (m + 1) - 1,
    decreases pieces.len(),
{
    if pieces.len() > 1 {
        let rest = pieces.drop_first();
        assert forall|k: int| 0 <= k < rest.len() implies (#[trigger] rest[k]).len() <= m by {
            assert(rest[k] == pieces[k + 1]);
        }
        lemma_join_len(rest, sep, m);
        assert(pieces[0].len() <= m);
        assert(pieces.len() * (m + 1) == rest.len() * (m + 1) + (m + 1)) by (nonlinear_arith)
            requires
                pieces.len() == rest.len() + 1,
        ;
    } else {
        assert(pieces[0].len() <= m);
        assert(pieces.len() * (m + 1) == m + 1) by (nonlinear_arith)
            requires
                pieces.len() == 1,
        ;
    }
}

/// In a join of non-empty pieces free of `sep`, no separator follows another.
pub proof fn lemma_join_no_double(pieces: Seq<Seq<u8>>, sep: u8, i: int)
    requires
        forall|k: int| 0 <= k < pieces.len() ==> free_of(#[trigger] pieces[k], sep),
        forall|k: int| 0 <= k < pieces.len() ==> (#[trigger] pieces[k]).len() >= 1,
        0 <= i,
        i + 1 < join(pieces, sep).len(),
    ensures
        !(join(pieces, sep)[i] == sep && join(pieces, sep)[i + 1] == sep),
    decreases pieces.len(),
{
    if pieces.len() == 1 {
        assert(free_of(pieces[0], sep));
    } else if pieces.len() > 1 {
        let p0 = pieces[0];
        let rest = pieces.drop_first();
        let j = join(pieces, sep);
        assert(j == p0 + seq![sep] + join(rest, sep));
        assert(free_of(p0, sep));
        assert forall|k: int| 0 <= k < rest.len() implies free_of(#[trigger] rest[k], sep)
            && rest[k].len() >= 1 by {
            assert(rest[k] == pieces[k + 1]);
        }
        if i == p0.len() {
            lemma_join_first(rest, sep);
            assert(rest[0] == pieces[1]);
            assert(free_of(rest[0], sep));
        } else if i > p0.len() {
            lemma_join_no_double(rest, sep, i - p0.len() - 1);
        }
    }
}

/// A join of pieces, the first non-empty, starts with the first byte of the first piece.
pub proof fn lemma_join_first(pieces: Seq<Seq<u8>>, sep: u8)
    requires
        pieces.len() >= 1,
        pieces[0].len() >= 1,
    ensures
        join(pieces, sep).len() >= 1,
        join(pieces, sep)[0] == pieces[0][0],
{
}

/// A join of pieces, the last non-empty, ends with the last byte of the last piece.
pub proof fn lemma_join_last(pieces: Seq<Seq<u8>>, sep: u8)
    requires
        pieces.len() >= 1,
        pieces.last().len() >= 1,
    ensures
        join(pieces, sep).len() >= 1,
        join(pieces, sep).last() == pieces.last().last(),
    decreases pieces.len(),
{
    if pieces.len() > 1 {
        let rest = pieces.drop_first();
        assert(rest.last() == pieces.last());
        lemma_join_last(rest, sep);
        assert(join(pieces, sep) == pieces[0] + seq![sep] + join(rest, sep));
    }
}

/// Searching for a pair from `from` finds the same as from `to` where no pair starts in
/// between.
pub proof fn lemma_index_of_pair_skip(s: Seq<u8>, a: u8, b: u8, from: int, to: int)
    requires
        0 <= from <= to,
        forall|i: int| from <= i < to && i + 1 < s.len() ==> !(#[trigger] s[i] == a && s[i + 1] == b),
    ensures
        index_of_pair(s, a, b, from) == index_of_pair(s, a, b, to),
    decreases to - from,
{
    if from < to && from + 1 < s.len() {
        lemma_index_of_pair_skip(s, a, b, from + 1, to);
    } else if from < to {
        lemma_pair_none_past_end(s, a, b, to);
    }
}

/// No pair starts at or past the last byte.
pub proof fn lemma_pair_none_past_end(s: Seq<u8>, a: u8, b: u8, from: int)
    requires
        from + 1 >= s.len(),
    ensures
        index_of_pair(s, a, b, from) is None,
{
}

/// Where no separator follows another, no pair of separators is found.
pub proof fn lemma_no_pair(s: Seq<u8>, a: u8, from: int)
    requires
        0 <= from,
        forall|i: int| 0 <= i && i + 1 < s.len() ==> !(#[trigger] s[i] == a && s[i + 1] == a),
    ensures
        index_of_pair(s, a, a, from) is None,
    decreases s.len() - from,
{
    if from + 1 < s.len() {
        lemma_no_pair(s, a, from + 1);
    }
}

} // verus!
