//! A buffered, byte-granular write cursor over a target's memory.

use vstd::prelude::*;

use crate::address::{apply_offset, offset_target};
use crate::error::Error;
use crate::word::{
    POINTER_WIDTH,
    bytes_of,
    word_of,
    zeros,
    pack_le,
    merge_tail,
    lemma_word_of_bytes_of,
};

verus! {

/// One word to store into the target's memory.
#[derive(Debug, Clone, Copy, PartialEq, Eq, Structural)]
pub struct WordWrite {
    pub address: usize,
    pub value: u64,
}

/// Number of words that `n` bytes, laid from a word's start, touch.
pub open spec fn words_for(n: nat) -> nat {
    ((n + 7) / 8) as nat
}

/// Word `k` of a flush of `pending`: the pending bytes that fall into it,
/// followed, past the last pending byte, by the bytes of `existing`, the word
/// that memory holds there before the flush.
pub open spec fn flushed_word(pending: Seq<u8>, k: int, existing: u64) -> u64 {
    let lo = 8 * k;
    let hi = if lo + 8 <= pending.len() {
        lo + 8
    } else {
        pending.len() as int
    };
    word_of(pending.subrange(lo, hi) + bytes_of(existing).subrange(hi - lo, 8))
}

/// The writes that flush `pending` at `address`, given the word `existing`
/// that memory holds where a partial last word lands.
pub open spec fn flush_writes(address: usize, pending: Seq<u8>, existing: u64) -> Seq<WordWrite> {
    Seq::new(
        words_for(pending.len()),
        |k: int| WordWrite { address: (address + 8 * k) as usize, value: flushed_word(pending, k, existing) },
    )
}

/// What a writer holds.
pub struct WriterState {
    /// Where the next flush starts.
    pub address: usize,
    /// Bytes written and not yet flushed.
    pub pending: Seq<u8>,
    /// Whether a flush moves `address` past the flushed bytes.
    pub advance: bool,
}

/// A write cursor: collects bytes and turns them into word writes on flush.
///
/// A flush stores whole words. Where the bytes end inside a word, the bytes of
/// that word beyond them keep what memory held: the flush reads that word
/// first and merges.
pub struct ProcessWriter {
    address: usize,
    data: Vec<u8>,
    advance: bool,
}

impl View for ProcessWriter {
    type V = WriterState;

    closed spec fn view(&self) -> WriterState {
        WriterState { address: self.address, pending: self.data@, advance: self.advance }
    }
}

impl ProcessWriter {
    /// Whether the pending bytes, from the cursor on, stay inside the address space.
    pub open spec fn fits(&self) -> bool {
        self@.address + self@.pending.len() <= usize::MAX
    }

    /// A writer at `address` with nothing pending; it advances.
    pub fn new(address: usize) -> (w: ProcessWriter)
        ensures
            w@ == (WriterState { address, pending: Seq::empty(), advance: true }),
    {
        ProcessWriter { address, data: Vec::new(), advance: true }
    }

    /// A writer at `offset` from `base` with nothing pending; it advances.
    pub fn offset(base: usize, offset: isize) -> (r: Result<ProcessWriter, Error>)
        ensures
            match offset_target(base as int, offset as int) {
                Ok(a) => r is Ok && r->Ok_0@ == (WriterState {
                    address: a,
                    pending: Seq::empty(),
                    advance: true,
                }),
                Err(e) => r == Err::<ProcessWriter, Error>(e),
            },
    {
        match apply_offset(base as u64, offset) {
            Ok(address) => Ok(ProcessWriter::new(address)),
            Err(e) => Err(e),
        }
    }

    /// The same writer, no longer moving forward on flush.
    pub fn no_advance(self) -> (w: ProcessWriter)
        ensures
            w@ == (WriterState { advance: false, ..self@ }),
    {
        let mut w = self;
        w.advance = false;
        w
    }

    /// The same writer, moving forward on flush.
    pub fn advance(self) -> (w: ProcessWriter)
        ensures
            w@ == (WriterState { advance: true, ..self@ }),
    {
        let mut w = self;
        w.advance = true;
        w
    }

    /// Where the next flush starts.
    pub fn address(&self) -> (a: usize)
        ensures
            a == self@.address,
    {
        self.address
    }

    /// The bytes written and not yet flushed.
    pub fn pending(&self) -> (p: &[u8])
        ensures
            p@ == self@.pending,
    {
        self.data.as_slice()
    }

    /// Moves the cursor to `address`.
    pub fn goto(&mut self, address: usize)
        ensures
            final(self)@ == (WriterState { address, ..old(self)@ }),
    {
        self.address = address;
    }

    /// Moves the cursor to `offset` from `base`; outside the address space it
    /// stays where it was.
    pub fn goto_offset(&mut self, base: usize, offset: isize) -> (r: Result<(), Error>)
        ensures
            match offset_target(base as int, offset as int) {
                Ok(a) => r is Ok && final(self)@ == (WriterState { address: a, ..old(self)@ }),
                Err(e) => r == Err::<(), Error>(e) && final(self)@ == old(self)@,
            },
    {
        match apply_offset(base as u64, offset) {
            Ok(address) => {
                self.address = address;
                Ok(())
            },
            Err(e) => Err(e),
        }
    }

    /// Appends `buf` to the pending bytes; memory is not touched until a flush.
    pub fn write(&mut self, buf: &[u8]) -> (n: usize)
        ensures
            n == buf@.len(),
            final(self)@ == (WriterState { pending: old(self)@.pending + buf@, ..old(self)@ }),
    {
        let mut i: usize = 0;
        while i < buf.len()
            invariant
                i <= buf@.len(),
                self.address == old(self).address,
                self.advance == old(self).advance,
                self.data@ == old(self).data@ + buf@.subrange(0, i as int),
            decreases buf@.len() - i,
        {
            self.data.push(buf[i]);
            proof {
                assert(buf@.subrange(0, i + 1) =~= buf@.subrange(0, i as int).push(buf@[i as int]));
            }
            i = i + 1;
        }
        proof {
            assert(buf@.subrange(0, buf@.len() as int) =~= buf@);
        }
        buf.len()
    }

    /// The address of the word that a flush must read before it writes: the
    /// word in which the pending bytes end, when they end inside one.
    pub fn tail_address(&self) -> (r: Result<Option<usize>, Error>)
        ensures
            !self.fits() ==> r == Err::<Option<usize>, Error>(Error::AddressOverflow),
            self.fits() && self@.pending.len() % 8 == 0 ==> r == Ok::<Option<usize>, Error>(None),
            self.fits() && self@.pending.len() % 8 != 0 ==> r == Ok::<Option<usize>, Error>(
                Some((self@.address + 8 * (self@.pending.len() / 8)) as usize),
            ),
    {
        let n = self.data.len();
        if n > usize::MAX - self.address {
            return Err(Error::AddressOverflow);
        }
        if n % POINTER_WIDTH == 0 {
            Ok(None)
        } else {
            Ok(Some(self.address + (n - n % POINTER_WIDTH)))
        }
    }

    /// The word writes that store the pending bytes, given `existing`, the word
    /// that memory holds at `tail_address` (ignored when there is none).
    ///
    /// Nothing changes here: once the writes have been carried out,
    /// `complete_flush` records it.
    pub fn flush_words(&self, existing: u64) -> (r: Result<Vec<WordWrite>, Error>)
        ensures
            !self.fits() ==> r == Err::<Vec<WordWrite>, Error>(Error::AddressOverflow),
            self.fits() ==> r is Ok && r->Ok_0@ == flush_writes(
                self@.address,
                self@.pending,
                existing,
            ),
    {
        let n = self.data.len();
        if n > usize::MAX - self.address {
            return Err(Error::AddressOverflow);
        }
        let data = self.data.as_slice();
        let mut out: Vec<WordWrite> = Vec::new();
        let mut off: usize = 0;
        if n == 0 {
            proof {
                assert(out@ =~= flush_writes(self@.address, self@.pending, existing));
            }
            return Ok(out);
        }
        loop
            invariant
                data@ == self.data@,
                n == data@.len(),
                self.address + n <= usize::MAX,
                off < n,
                off % 8 == 0,
                out@.len() == off / 8,
                forall|k: int|
                    0 <= k < out@.len() ==> #[trigger] out@[k] == flush_writes(
                        self@.address,
                        self@.pending,
                        existing,
                    )[k],
            decreases n - off,
        {
            let remaining = n - off;
            let value = if remaining >= POINTER_WIDTH {
                let v = pack_le(data, off, POINTER_WIDTH);
                proof {
                    let s = data@.subrange(off as int, off + 8);
                    assert(s + zeros(0) =~= s + bytes_of(existing).subrange(8, 8));
                    lemma_word_of_bytes_of(v);
                }
                v
            } else {
                let partial = pack_le(data, off, remaining);
                let v = merge_tail(existing, partial, remaining);
                proof {
                    let s = data@.subrange(off as int, n as int);
                    assert(bytes_of(partial).subrange(0, remaining as int) =~= s);
                    lemma_word_of_bytes_of(v);
                }
                v
            };
            let ghost k = out@.len() as int;
            out.push(WordWrite { address: self.address + off, value });
            proof {
                assert(out@[k] == flush_writes(self@.address, self@.pending, existing)[k]);
            }
            if remaining <= POINTER_WIDTH {
                proof {
                    assert(out@ =~= flush_writes(self@.address, self@.pending, existing));
                }
                return Ok(out);
            }
            off = off + POINTER_WIDTH;
        }
    }

    /// Records that the writes of `flush_words` were carried out: the pending
    /// bytes are gone and, if the writer advances, the cursor has moved past
    /// them.
    pub fn complete_flush(&mut self) -> (r: Result<(), Error>)
        ensures
            !old(self).fits() ==> r == Err::<(), Error>(Error::AddressOverflow) && final(self)@
                == old(self)@,
            old(self).fits() ==> r is Ok && final(self)@ == (WriterState {
                address: if old(self)@.advance {
                    (old(self)@.address + old(self)@.pending.len()) as usize
                } else {
                    old(self)@.address
                },
                pending: Seq::empty(),
                advance: old(self)@.advance,
            }),
    {
        let n = self.data.len();
        if n > usize::MAX - self.address {
            return Err(Error::AddressOverflow);
        }
        if self.advance {
            self.address = self.address + n;
        }
        self.data.clear();
        Ok(())
    }
}

} // verus!
