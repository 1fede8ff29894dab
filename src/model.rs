//! A model of a target's memory, byte by byte, and of what word reads and
//! word writes do to it.

use vstd::prelude::*;

use crate::reader::{unpacked, word_addresses};
use crate::word::{byte_of, bytes_of, word_of, lemma_bytes_of_word_of, lemma_word_of_bytes_of};
use crate::writer::{WordWrite, flush_writes, flushed_word, words_for};

verus! {

/// The `n` bytes that `mem` holds from `address` on.
pub open spec fn load_bytes(mem: spec_fn(int) -> u8, address: int, n: nat) -> Seq<u8> {
    Seq::new(n, |i: int| mem(address + i))
}

/// The word that a read at `address` returns from `mem`.
pub open spec fn load_word(mem: spec_fn(int) -> u8, address: int) -> u64 {
    word_of(load_bytes(mem, address, 8))
}

/// `mem` after `w` is written at `address`.
pub open spec fn store_word(mem: spec_fn(int) -> u8, address: int, w: u64) -> spec_fn(int) -> u8 {
    |x: int|
        if address <= x < address + 8 {
            byte_of(w, (x - address) as u64)
        } else {
            mem(x)
        }
}

/// `mem` after the writes `ws`, in order.
pub open spec fn apply_writes(mem: spec_fn(int) -> u8, ws: Seq<WordWrite>) -> spec_fn(int) -> u8
    decreases ws.len(),
{
    if ws.len() == 0 {
        mem
    } else {
        store_word(apply_writes(mem, ws.drop_last()), ws.last().address as int, ws.last().value)
    }
}

/// A word written at an address is what a read there returns.
pub proof fn lemma_write_then_read(mem: spec_fn(int) -> u8, address: usize, data: u64)
    ensures
        ({
            let w = WordWrite { address, value: data };
            load_word(store_word(mem, w.address as int, w.value), address as int) == data
        }),
{
    let after = store_word(mem, address as int, data);
    assert(load_bytes(after, address as int, 8) =~= bytes_of(data));
    lemma_word_of_bytes_of(data);
}

proof fn lemma_byte_of_word_of(s: Seq<u8>, j: int)
    requires
        s.len() == 8,
        0 <= j < 8,
    ensures
        byte_of(word_of(s), j as u64) == s[j],
{
    lemma_bytes_of_word_of(s);
    assert(bytes_of(word_of(s))[j] == byte_of(word_of(s), j as u64));
}

proof fn lemma_flushed_byte(pending: Seq<u8>, k: int, existing: u64, j: int)
    requires
        0 <= k < words_for(pending.len()),
        0 <= j < 8,
    ensures
        byte_of(flushed_word(pending, k, existing), j as u64) == if 8 * k + j < pending.len() {
            pending[8 * k + j]
        } else {
            byte_of(existing, j as u64)
        },
{
    let lo = 8 * k;
    let hi = if lo + 8 <= pending.len() {
        lo + 8
    } else {
        pending.len() as int
    };
    let s = pending.subrange(lo, hi) + bytes_of(existing).subrange(hi - lo, 8);
    lemma_byte_of_word_of(s, j);
}

proof fn lemma_flush_prefix(
    mem: spec_fn(int) -> u8,
    address: usize,
    pending: Seq<u8>,
    existing: u64,
    m: int,
    x: int,
)
    requires
        address + pending.len() <= usize::MAX,
        0 <= m <= words_for(pending.len()),
    ensures
        apply_writes(mem, flush_writes(address, pending, existing).subrange(0, m))(x) == if address
            <= x < address + 8 * m {
            byte_of(flushed_word(pending, (x - address) / 8, existing), ((x - address) % 8) as u64)
        } else {
            mem(x)
        },
    decreases m,
{
    let ws = flush_writes(address, pending, existing);
    if m > 0 {
        let prev = ws.subrange(0, m - 1);
        assert(ws.subrange(0, m).drop_last() =~= prev);
        lemma_flush_prefix(mem, address, pending, existing, m - 1, x);
        let w = ws[m - 1];
        assert(w.address == address + 8 * (m - 1));
        if address + 8 * (m - 1) <= x < address + 8 * m {
            assert((x - address) / 8 == m - 1);
        }
    }
}

/// Flushing bytes at an address and reading as many back from there gives
/// the same bytes, and memory outside them keeps what it held: in the last
/// word written, the bytes past the flushed ones survive.
pub proof fn lemma_flush_then_read(mem: spec_fn(int) -> u8, address: usize, pending: Seq<u8>)
    requires
        address + pending.len() <= usize::MAX,
    ensures
        ({
            let n = pending.len();
            let existing = load_word(mem, address + 8 * (n / 8));
            let after = apply_writes(mem, flush_writes(address, pending, existing));
            let words = Seq::new(
                words_for(n),
                |k: int| load_word(after, word_addresses(address, n)[k] as int),
            );
            &&& unpacked(words, n) == pending
            &&& forall|x: int|
                !(address <= x < address + n) ==> #[trigger] after(x) == mem(x)
        }),
{
    let n = pending.len();
    let existing = load_word(mem, address + 8 * (n / 8));
    let ws = flush_writes(address, pending, existing);
    let after = apply_writes(mem, ws);
    let nw = words_for(n) as int;
    assert(ws.subrange(0, nw) =~= ws);
    assert forall|x: int| #![trigger after(x)] address <= x < address + 8 * nw implies after(x)
        == if x < address + n {
        pending[x - address]
    } else {
        mem(x)
    } by {
        lemma_flush_prefix(mem, address, pending, existing, nw, x);
        let k = (x - address) / 8;
        let j = (x - address) % 8;
        lemma_flushed_byte(pending, k, existing, j);
        if x >= address + n {
            let tail = address + 8 * (n / 8);
            assert(k == n / 8);
            lemma_byte_of_word_of(load_bytes(mem, tail, 8), j);
        }
    }
    assert forall|x: int| !(address <= x < address + n) implies #[trigger] after(x) == mem(x) by {
        lemma_flush_prefix(mem, address, pending, existing, nw, x);
    }
    let words = Seq::new(nw as nat, |k: int| load_word(after, word_addresses(address, n)[k] as int));
    assert forall|i: int| 0 <= i < n implies #[trigger] unpacked(words, n)[i] == pending[i] by {
        let k = i / 8;
        let base = address + 8 * k;
        assert(word_addresses(address, n)[k] == base);
        lemma_byte_of_word_of(load_bytes(after, base, 8), i % 8);
        assert(after(base + i % 8) == pending[i]);
    }
    assert(unpacked(words, n) =~= pending);
}

} // verus!
