//! A finite stream of bytes, read one at a time or into a buffer.
use vstd::prelude::*;

use std::slice::Iter;

verus! {

/// Relies on `Iterator::next` of `std::slice::Iter`, which hands out the next element of
/// the slice; nothing is stated of which one, so no contract below depends on it.
pub assume_specification<'a, T>[ <Iter<'a, T> as Iterator>::next ](
    iter: &mut Iter<'a, T>,
) -> Option<&'a T>;

/// A finite stream of bytes. Once it returns `None`, the stream has ended.
pub trait Stream {
    /// Reads a single byte, or `None` at the end.
    fn read(&mut self) -> (r: Option<u8>);

    /// Reads at most `buffer.len()` bytes into the front of `buffer`; returns how many, or
    /// `None` where the stream had ended.
    fn read_buffered(&mut self, buffer: &mut [u8]) -> (r: Option<usize>)
        requires
            old(buffer)@.len() > 0,
        ensures
            final(buffer)@.len() == old(buffer)@.len(),
            r matches Some(n) ==> 0 < n <= old(buffer)@.len(),
    ;
}

impl<'a> Stream for Iter<'a, u8> {
    fn read(&mut self) -> (r: Option<u8>) {
        match self.next() {
            Some(b) => Some(*b),
            None => None,
        }
    }

    fn read_buffered(&mut self, buffer: &mut [u8]) -> (r: Option<usize>) {
        let n = buffer.len();
        let mut read: usize = 0;
        while read < n
            invariant
                n == old(buffer)@.len(),
                buffer@.len() == n,
                read <= n,
            decreases n - read,
        {
            match self.next() {
                Some(b) => {
                    buffer[read] = *b;
                    read = read + 1;
                },
                None => {
                    break;
                },
            }
        }
        if read == 0 {
            None
        } else {
            Some(read)
        }
    }
}

} // verus!
