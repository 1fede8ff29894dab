//! Addresses: built from bytes, and moved by signed offsets.

use vstd::prelude::*;

use crate::error::Error;
use crate::word::{POINTER_WIDTH, word_of, pack_le, lemma_word_of_bytes_of};

verus! {

/// A value that can be read back from the little-endian bytes of a word.
pub trait Address: Sized {
    /// The value that `bytes` encode.
    spec fn spec_from_bytes(bytes: Seq<u8>) -> Self;

    /// Decodes the little-endian `bytes` of a word.
    fn from_bytes(bytes: [u8; POINTER_WIDTH]) -> (r: Self)
        ensures
            r == Self::spec_from_bytes(bytes@),
    ;
}

impl Address for usize {
    /// The word that `bytes` encode, as an address.
    open spec fn spec_from_bytes(bytes: Seq<u8>) -> usize {
        word_of(bytes) as usize
    }

    fn from_bytes(bytes: [u8; POINTER_WIDTH]) -> (r: usize) {
        let w = pack_le(bytes.as_slice(), 0, POINTER_WIDTH);
        proof {
            assert(bytes@.subrange(0, 8) + crate::word::zeros(0) =~= bytes@);
            lemma_word_of_bytes_of(w);
        }
        w as usize
    }
}

/// Where `offset` leads from `start`: a negative offset moves down by its
/// magnitude and a positive one up, and leaving the address space is an error
/// rather than a wrap.
pub open spec fn offset_target(start: int, offset: int) -> Result<usize, Error> {
    if start + offset < 0 {
        Err(Error::AddressUnderflow)
    } else if start + offset > usize::MAX {
        Err(Error::AddressOverflow)
    } else {
        Ok((start + offset) as usize)
    }
}

/// Applies a signed `offset` to `start` without wrapping.
pub fn apply_offset(start: u64, offset: isize) -> (r: Result<usize, Error>)
    ensures
        r == offset_target(start as int, offset as int),
{
    let target: i128 = start as i128 + offset as i128;
    if target < 0 {
        Err(Error::AddressUnderflow)
    } else if target > usize::MAX as i128 {
        Err(Error::AddressOverflow)
    } else {
        Ok(target as usize)
    }
}

} // verus!
