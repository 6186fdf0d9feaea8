//! One entry point for both header versions, and the test that tells a streaming caller
//! whether to read more bytes.
use vstd::prelude::*;

use crate::v1;
use crate::v2;

verus! {

/// Tells apart results that more input could change from those it cannot.
pub trait PartialResult {
    /// More input could turn this into a success.
    spec fn incomplete(&self) -> bool;

    /// Whether more input could turn this into a success. Retrying with the same input
    /// gives the same result.
    fn is_incomplete(&self) -> (r: bool)
        ensures
            r == self.incomplete(),
    ;

    /// Whether this is a success or an error that no further input can change.
    fn is_complete(&self) -> (r: bool)
        ensures
            r == !self.incomplete(),
    {
        !self.is_incomplete()
    }
}

impl<T, E: PartialResult> PartialResult for Result<T, E> {
    open spec fn incomplete(&self) -> bool {
        match self {
            Ok(_) => false,
            Err(e) => e.incomplete(),
        }
    }

    fn is_incomplete(&self) -> (r: bool) {
        match self {
            Ok(_) => false,
            Err(e) => e.is_incomplete(),
        }
    }
}

impl PartialResult for v1::ParseError {
    open spec fn incomplete(&self) -> bool {
        self.spec_is_incomplete()
    }

    fn is_incomplete(&self) -> (r: bool) {
        v1::ParseError::is_incomplete(self)
    }
}

impl PartialResult for v1::BinaryParseError {
    open spec fn incomplete(&self) -> bool {
        self.spec_is_incomplete()
    }

    fn is_incomplete(&self) -> (r: bool) {
        v1::BinaryParseError::is_incomplete(self)
    }
}

impl PartialResult for v2::ParseError {
    open spec fn incomplete(&self) -> bool {
        self.spec_is_incomplete()
    }

    fn is_incomplete(&self) -> (r: bool) {
        v2::ParseError::is_incomplete(self)
    }
}

/// The version of the PROXY protocol that a header follows.
#[derive(Clone, Copy, Debug, PartialEq, Eq, PartialOrd, Ord, Structural)]
pub enum Version {
    One,
    Two,
}

impl Version {
    /// The version with number `version`; `Err` for an unsupported one.
    pub fn new(version: u8) -> (r: Result<Version, ()>)
        ensures
            version == 1 ==> r == Ok::<Version, ()>(Version::One),
            version == 2 ==> r == Ok::<Version, ()>(Version::Two),
            version != 1 && version != 2 ==> r is Err,
    {
        match version {
            1 => Ok(Version::One),
            2 => Ok(Version::Two),
            _ => Err(()),
        }
    }
}

/// Whether `input` is to be read as a binary header: it starts with the signature, or is
/// shorter than it and a prefix of it.
pub open spec fn selects_v2(input: Seq<u8>) -> bool {
    if input.len() >= 12 {
        input.subrange(0, 12) == v2::signature()
    } else {
        input == v2::signature().subrange(0, input.len() as int)
    }
}

/// The result of parsing a header of either version.
#[derive(Debug, PartialEq, Eq)]
pub enum HeaderResult<'a> {
    V1(Result<v1::Header<'a>, v1::BinaryParseError>),
    V2(Result<v2::Header<'a>, v2::ParseError>),
}

/// Whether `input` starts with, or is a prefix of, the signature.
fn v2_candidate(input: &[u8]) -> (r: bool)
    ensures
        r == selects_v2(input@),
{
    let prefix: [u8; 12] = [13, 10, 13, 10, 0, 13, 10, 81, 85, 73, 84, 10];
    let n: usize = if input.len() < 12 {
        input.len()
    } else {
        12
    };
    let mut i: usize = 0;
    while i < n
        invariant
            n <= 12,
            n <= input@.len(),
            n == 12 || n == input@.len(),
            prefix@ == v2::signature(),
            forall|j: int| 0 <= j < i ==> input@[j] == prefix@[j],
        decreases n - i,
    {
        if input[i] != prefix[i] {
            assert(input@.subrange(0, n as int)[i as int] != v2::signature()[i as int]);
            return false;
        }
        i = i + 1;
    }
    assert(input@.subrange(0, n as int) =~= v2::signature().subrange(0, n as int));
    if n < 12 {
        assert(input@ =~= input@.subrange(0, n as int));
    } else {
        assert(v2::signature().subrange(0, 12) =~= v2::signature());
    }
    true
}

impl<'a> HeaderResult<'a> {
    /// Parses a header of either version from the front of `input`: as a binary header
    /// where `input` starts with (or is a prefix of) the signature, else as a text header.
    pub fn parse(input: &'a [u8]) -> (r: Self)
        ensures
            selects_v2(input@) ==> (r matches HeaderResult::V2(x) && v2::v2_result(input@, x)),
            !selects_v2(input@) ==> (r matches HeaderResult::V1(x) && v1::v1_result(input@, x)),
    {
        if v2_candidate(input) {
            HeaderResult::V2(v2::Header::try_from(input))
        } else {
            HeaderResult::V1(v1::Header::try_from(input))
        }
    }
}

impl<'a> HeaderResult<'a> {
    /// The version of the protocol that the input was read as.
    pub fn version(&self) -> (r: Version)
        ensures
            (r == Version::One) == (*self is V1),
    {
        match self {
            HeaderResult::V1(..) => Version::One,
            HeaderResult::V2(..) => Version::Two,
        }
    }
}

impl<'a> PartialResult for HeaderResult<'a> {
    open spec fn incomplete(&self) -> bool {
        match self {
            HeaderResult::V1(x) => x.incomplete(),
            HeaderResult::V2(x) => x.incomplete(),
        }
    }

    fn is_incomplete(&self) -> (r: bool) {
        match self {
            HeaderResult::V1(x) => x.is_incomplete(),
            HeaderResult::V2(x) => x.is_incomplete(),
        }
    }
}

} // verus!
