//! Resolving pointer chains: read a word, treat it as an address, add an
//! offset, and again.

use vstd::prelude::*;

use crate::address::{apply_offset, offset_target};
use crate::error::Error;
use crate::model::load_word;

verus! {

/// Where a chain stands.
pub struct ChainState {
    /// The address reached so far.
    pub address: usize,
    /// Every offset of the chain.
    pub offsets: Seq<isize>,
    /// How many offsets have been applied.
    pub next: nat,
}

/// Where the chain `c` ends in `mem`: while offsets remain, the word at the
/// current address plus the next offset is the next address.
pub open spec fn chain_from(mem: spec_fn(int) -> u8, c: ChainState) -> Result<usize, Error>
    decreases c.offsets.len() - c.next,
{
    if c.next >= c.offsets.len() {
        Ok(c.address)
    } else {
        match offset_target(load_word(mem, c.address as int) as int, c.offsets[c.next as int] as int) {
            Ok(a) => chain_from(mem, ChainState { address: a, next: c.next + 1, ..c }),
            Err(e) => Err(e),
        }
    }
}

/// Where the chain from `address` through `offsets` ends in `mem`.
pub open spec fn resolve(mem: spec_fn(int) -> u8, address: usize, offsets: Seq<isize>) -> Result<
    usize,
    Error,
> {
    chain_from(mem, ChainState { address, offsets, next: 0 })
}

/// A pointer chain being followed, one word read at a time.
///
/// While `next_read` names an address, the caller reads the word there and
/// hands it to `advance`; once it names none, `address` is where the chain
/// ends.
pub struct PointerChain {
    address: usize,
    offsets: Vec<isize>,
    next: usize,
}

impl View for PointerChain {
    type V = ChainState;

    closed spec fn view(&self) -> ChainState {
        ChainState { address: self.address, offsets: self.offsets@, next: self.next as nat }
    }
}

impl PointerChain {
    /// A chain from `address` through `offsets`, none applied yet.
    pub fn new(address: usize, offsets: Vec<isize>) -> (c: PointerChain)
        ensures
            c@ == (ChainState { address, offsets: offsets@, next: 0 }),
    {
        PointerChain { address, offsets, next: 0 }
    }

    /// The address whose word is needed next, or none once every offset is
    /// applied.
    pub fn next_read(&self) -> (r: Option<usize>)
        ensures
            r == if self@.next < self@.offsets.len() {
                Some(self@.address)
            } else {
                None::<usize>
            },
    {
        if self.next < self.offsets.len() {
            Some(self.address)
        } else {
            None
        }
    }

    /// Applies the next offset to `word`, the word read at `next_read`. Where
    /// that leaves the address space, the chain stays where it was.
    pub fn advance(&mut self, word: u64) -> (r: Result<(), Error>)
        requires
            old(self)@.next < old(self)@.offsets.len(),
        ensures
            match offset_target(word as int, old(self)@.offsets[old(self)@.next as int] as int) {
                Ok(a) => r is Ok && final(self)@ == (ChainState {
                    address: a,
                    next: old(self)@.next + 1,
                    ..old(self)@
                }),
                Err(e) => r == Err::<(), Error>(e) && final(self)@ == old(self)@,
            },
    {
        let count = self.offsets.len();
        assert(self.next < count);
        let offset = self.offsets[self.next];
        match apply_offset(word, offset) {
            Ok(a) => {
                self.address = a;
                self.next = self.next + 1;
                Ok(())
            },
            Err(e) => Err(e),
        }
    }

    /// The address reached so far; where the chain ends once `next_read` is
    /// none.
    pub fn address(&self) -> (a: usize)
        ensures
            a == self@.address,
    {
        self.address
    }
}

/// Following a chain one step, with the word that memory holds at its
/// address, keeps where it ends; a step that fails ends the chain with that
/// failure.
pub proof fn lemma_chain_step(mem: spec_fn(int) -> u8, c: ChainState)
    requires
        c.next < c.offsets.len(),
    ensures
        match offset_target(load_word(mem, c.address as int) as int, c.offsets[c.next as int] as int) {
            Ok(a) => chain_from(mem, c) == chain_from(
                mem,
                ChainState { address: a, next: c.next + 1, ..c },
            ),
            Err(e) => chain_from(mem, c) == Err::<usize, Error>(e),
        },
{
}

/// A chain with no offsets ends where it starts; one with the single offset
/// zero ends at the word stored where it starts.
pub proof fn lemma_short_chains(mem: spec_fn(int) -> u8, address: usize)
    ensures
        resolve(mem, address, Seq::empty()) == Ok::<usize, Error>(address),
        load_word(mem, address as int) <= usize::MAX ==> resolve(mem, address, seq![0isize])
            == Ok::<usize, Error>(load_word(mem, address as int) as usize),
{
    let c = ChainState { address, offsets: seq![0isize], next: 0 };
    if load_word(mem, address as int) <= usize::MAX {
        let a = load_word(mem, address as int) as usize;
        assert(chain_from(mem, ChainState { address: a, next: 1, ..c }) == Ok::<usize, Error>(a));
    }
}

/// A negative offset larger than the word it is applied to fails the chain
/// with an underflow; it never wraps around.
pub proof fn lemma_chain_underflow(mem: spec_fn(int) -> u8, c: ChainState)
    requires
        c.next < c.offsets.len(),
        load_word(mem, c.address as int) + c.offsets[c.next as int] < 0,
    ensures
        chain_from(mem, c) == Err::<usize, Error>(Error::AddressUnderflow),
{
}

} // verus!
