//! A byte-granular read cursor over a target's memory.

use vstd::prelude::*;

use crate::address::{apply_offset, offset_target};
use crate::error::Error;
use crate::word::{POINTER_WIDTH, byte_of, byte_at};
use crate::writer::words_for;

verus! {

/// The first `n` bytes of `words` taken as memory, each word least
/// significant byte first.
pub open spec fn unpacked(words: Seq<u64>, n: nat) -> Seq<u8> {
    Seq::new(n, |i: int| byte_of(words[i / 8], (i % 8) as u64))
}

/// How many bytes one read into `capacity` bytes produces.
pub open spec fn read_len(capacity: nat, length: usize) -> nat {
    if capacity < length {
        capacity
    } else {
        length as nat
    }
}

/// The addresses of the words that a read of `n` bytes at `address` fetches.
pub open spec fn word_addresses(address: usize, n: nat) -> Seq<usize> {
    Seq::new(words_for(n), |k: int| (address + 8 * k) as usize)
}

/// What a reader holds.
pub struct ReaderState {
    /// Where the next read starts.
    pub address: usize,
    /// The most bytes one read produces.
    pub length: usize,
    /// Whether a read moves `address` past the bytes it produced.
    pub advance: bool,
}

/// A read cursor: a window of `length` bytes that word reads fill.
pub struct ProcessReader {
    address: usize,
    length: usize,
    advance: bool,
}

impl View for ProcessReader {
    type V = ReaderState;

    closed spec fn view(&self) -> ReaderState {
        ReaderState { address: self.address, length: self.length, advance: self.advance }
    }
}

impl ProcessReader {
    /// Whether a read into `capacity` bytes stays inside the address space.
    pub open spec fn fits(&self, capacity: nat) -> bool {
        self@.address + read_len(capacity, self@.length) <= usize::MAX
    }

    /// A reader of `length` bytes at a time from `address`; it advances.
    pub fn new(address: usize, length: usize) -> (r: ProcessReader)
        ensures
            r@ == (ReaderState { address, length, advance: true }),
    {
        ProcessReader { address, length, advance: true }
    }

    /// A reader of `length` bytes at a time from `offset` past `base`; it advances.
    pub fn offset(base: usize, offset: isize, length: usize) -> (r: Result<ProcessReader, Error>)
        ensures
            match offset_target(base as int, offset as int) {
                Ok(a) => r is Ok && r->Ok_0@ == (ReaderState { address: a, length, advance: true }),
                Err(e) => r == Err::<ProcessReader, Error>(e),
            },
    {
        match apply_offset(base as u64, offset) {
            Ok(address) => Ok(ProcessReader::new(address, length)),
            Err(e) => Err(e),
        }
    }

    /// The same reader, reading the same window again and again.
    pub fn no_advance(self) -> (r: ProcessReader)
        ensures
            r@ == (ReaderState { advance: false, ..self@ }),
    {
        let mut r = self;
        r.advance = false;
        r
    }

    /// The same reader, moving forward after each read.
    pub fn advance(self) -> (r: ProcessReader)
        ensures
            r@ == (ReaderState { advance: true, ..self@ }),
    {
        let mut r = self;
        r.advance = true;
        r
    }

    /// Where the next read starts.
    pub fn address(&self) -> (a: usize)
        ensures
            a == self@.address,
    {
        self.address
    }

    /// Moves the cursor to `address`.
    pub fn goto(&mut self, address: usize)
        ensures
            final(self)@ == (ReaderState { address, ..old(self)@ }),
    {
        self.address = address;
    }

    /// Moves the cursor to `offset` from `base`; outside the address space it
    /// stays where it was.
    pub fn goto_offset(&mut self, base: usize, offset: isize) -> (r: Result<(), Error>)
        ensures
            match offset_target(base as int, offset as int) {
                Ok(a) => r is Ok && final(self)@ == (ReaderState { address: a, ..old(self)@ }),
                Err(e) => r == Err::<(), Error>(e) && final(self)@ == old(self)@,
            },
    {
        match apply_offset(base as u64, offset) {
            Ok(address) => {
                self.address = address;
                Ok(())
            },
            Err(e) => Err(e),
        }
    }

    /// The addresses of the words to fetch for a read into `capacity` bytes,
    /// in order.
    pub fn read_addresses(&self, capacity: usize) -> (r: Result<Vec<usize>, Error>)
        ensures
            !self.fits(capacity as nat) ==> r == Err::<Vec<usize>, Error>(Error::AddressOverflow),
            self.fits(capacity as nat) ==> r is Ok && r->Ok_0@ == word_addresses(
                self@.address,
                read_len(capacity as nat, self@.length),
            ),
    {
        let n = if capacity < self.length {
            capacity
        } else {
            self.length
        };
        if n > usize::MAX - self.address {
            return Err(Error::AddressOverflow);
        }
        let mut out: Vec<usize> = Vec::new();
        if n == 0 {
            proof {
                assert(out@ =~= word_addresses(self@.address, n as nat));
            }
            return Ok(out);
        }
        let mut off: usize = 0;
        loop
            invariant
                self.address + n <= usize::MAX,
                n == read_len(capacity as nat, self@.length),
                off < n,
                off % 8 == 0,
                out@.len() == off / 8,
                forall|k: int|
                    0 <= k < out@.len() ==> #[trigger] out@[k] == (self.address + 8 * k) as usize,
            decreases n - off,
        {
            out.push(self.address + off);
            if n - off <= POINTER_WIDTH {
                proof {
                    assert(out@ =~= word_addresses(self@.address, n as nat));
                }
                return Ok(out);
            }
            off = off + POINTER_WIDTH;
        }
    }

    /// Fills `buf` from `words`, the words fetched at `read_addresses`, and
    /// returns how many bytes it produced: as many as the window holds, or as
    /// `buf` holds if that is fewer. A last word that the window ends inside
    /// gives only its leading bytes. The bytes of `buf` past those produced are
    /// left alone.
    pub fn read(&mut self, buf: &mut [u8], words: &[u64]) -> (r: Result<usize, Error>)
        requires
            words@.len() == words_for(read_len(old(buf)@.len(), old(self)@.length)),
        ensures
            !old(self).fits(old(buf)@.len()) ==> r == Err::<usize, Error>(Error::AddressOverflow)
                && final(self)@ == old(self)@ && final(buf)@ == old(buf)@,
            old(self).fits(old(buf)@.len()) ==> {
                let n = read_len(old(buf)@.len(), old(self)@.length);
                &&& r == Ok::<usize, Error>(n as usize)
                &&& final(buf)@ == unpacked(words@, n) + old(buf)@.subrange(
                    n as int,
                    old(buf)@.len() as int,
                )
                &&& final(self)@ == (ReaderState {
                    address: if old(self)@.advance {
                        (old(self)@.address + n) as usize
                    } else {
                        old(self)@.address
                    },
                    ..old(self)@
                })
            },
    {
        let n = if buf.len() < self.length {
            buf.len()
        } else {
            self.length
        };
        if n > usize::MAX - self.address {
            return Err(Error::AddressOverflow);
        }
        let mut i: usize = 0;
        while i < n
            invariant
                i <= n,
                n == read_len(old(buf)@.len(), old(self)@.length),
                buf@.len() == old(buf)@.len(),
                words@.len() == words_for(n as nat),
                forall|j: int| 0 <= j < i ==> #[trigger] buf@[j] == unpacked(words@, n as nat)[j],
                forall|j: int| n <= j < buf@.len() ==> #[trigger] buf@[j] == old(buf)@[j],
            decreases n - i,
        {
            let b = byte_at(words[i / POINTER_WIDTH], i % POINTER_WIDTH);
            buf[i] = b;
            i = i + 1;
        }
        proof {
            assert(buf@ =~= unpacked(words@, n as nat) + old(buf)@.subrange(
                n as int,
                old(buf)@.len() as int,
            ));
        }
        if self.advance {
            self.address = self.address + n;
        }
        Ok(n)
    }
}

} // verus!
