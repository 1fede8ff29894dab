//! Native words and their little-endian bytes.

use vstd::prelude::*;

verus! {

/// Size in bytes of the word that is the unit of every memory access.
pub const POINTER_WIDTH: usize = 8;

/// Byte `i` of `w`, counting from the least significant one.
pub open spec fn byte_of(w: u64, i: u64) -> u8 {
    ((w >> (i * 8) as u64) & 0xff) as u8
}

/// The bytes of `w` in memory order, least significant first.
pub open spec fn bytes_of(w: u64) -> Seq<u8> {
    Seq::new(8, |i: int| byte_of(w, i as u64))
}

/// The word whose bytes in memory order are the first eight of `s`.
pub open spec fn word_of(s: Seq<u8>) -> u64 {
    (s[0] as u64) | ((s[1] as u64) << 8u64) | ((s[2] as u64) << 16u64) | ((s[3] as u64) << 24u64)
        | ((s[4] as u64) << 32u64) | ((s[5] as u64) << 40u64) | ((s[6] as u64) << 48u64) | ((
    s[7] as u64) << 56u64)
}

/// `n` zero bytes.
pub open spec fn zeros(n: nat) -> Seq<u8> {
    Seq::new(n, |i: int| 0u8)
}

proof fn lemma_word_of_bytes_of_bv(w: u64)
    by (bit_vector)
    ensures
        (byte_of(w, 0) as u64) | ((byte_of(w, 1) as u64) << 8u64) | ((byte_of(w, 2) as u64)
            << 16u64) | ((byte_of(w, 3) as u64) << 24u64) | ((byte_of(w, 4) as u64) << 32u64) | ((
        byte_of(w, 5) as u64) << 40u64) | ((byte_of(w, 6) as u64) << 48u64) | ((byte_of(w, 7)
            as u64) << 56u64) == w,
{
}

/// Reading back the bytes of a word gives the word.
pub proof fn lemma_word_of_bytes_of(w: u64)
    ensures
        word_of(bytes_of(w)) == w,
{
    lemma_word_of_bytes_of_bv(w);
}

proof fn lemma_bytes_of_word_of_bv(b0: u8, b1: u8, b2: u8, b3: u8, b4: u8, b5: u8, b6: u8, b7: u8)
    by (bit_vector)
    ensures
        ({
            let w = (b0 as u64) | ((b1 as u64) << 8u64) | ((b2 as u64) << 16u64) | ((b3 as u64)
                << 24u64) | ((b4 as u64) << 32u64) | ((b5 as u64) << 40u64) | ((b6 as u64) << 48u64)
                | ((b7 as u64) << 56u64);
            &&& byte_of(w, 0) == b0
            &&& byte_of(w, 1) == b1
            &&& byte_of(w, 2) == b2
            &&& byte_of(w, 3) == b3
            &&& byte_of(w, 4) == b4
            &&& byte_of(w, 5) == b5
            &&& byte_of(w, 6) == b6
            &&& byte_of(w, 7) == b7
        }),
{
}

/// The word built from eight bytes has exactly those bytes.
pub proof fn lemma_bytes_of_word_of(s: Seq<u8>)
    requires
        s.len() == 8,
    ensures
        bytes_of(word_of(s)) == s,
{
    lemma_bytes_of_word_of_bv(s[0], s[1], s[2], s[3], s[4], s[5], s[6], s[7]);
    assert(bytes_of(word_of(s)) =~= s);
}

/// Two words with the same bytes are the same word.
pub proof fn lemma_bytes_of_injective(v: u64, w: u64)
    requires
        bytes_of(v) == bytes_of(w),
    ensures
        v == w,
{
    lemma_word_of_bytes_of(v);
    lemma_word_of_bytes_of(w);
}

proof fn lemma_or_byte(acc: u64, b: u64, i: u64, j: u64)
    by (bit_vector)
    requires
        b < 256,
        i < 8,
        j < 8,
        byte_of(acc, i) == 0,
    ensures
        byte_of(acc | (b << (i * 8) as u64), j) == if j == i {
            b as u8
        } else {
            byte_of(acc, j)
        },
{
}

/// Packs `count` bytes of `bytes`, from index `start` on, into a word, least
/// significant byte first; the bytes past `count` are zero.
pub fn pack_le(bytes: &[u8], start: usize, count: usize) -> (w: u64)
    requires
        start + count <= bytes@.len(),
        count <= POINTER_WIDTH,
    ensures
        bytes_of(w) == bytes@.subrange(start as int, start + count) + zeros(
            (8 - count) as nat,
        ),
{
    let len = bytes.len();
    let mut acc: u64 = 0;
    let mut i: usize = 0;
    assert forall|j: u64| j < 8 implies byte_of(0, j) == 0 by {
        assert(byte_of(0, j) == 0) by (bit_vector);
    }
    while i < count
        invariant
            i <= count,
            count <= 8,
            start + count <= bytes@.len(),
            bytes@.len() == len,
            forall|j: u64|
                j < 8 ==> byte_of(acc, j) == if j < i {
                    bytes@[start + j]
                } else {
                    0u8
                },
        decreases count - i,
    {
        let b = bytes[start + i];
        let next = acc | ((b as u64) << ((i as u64) * 8));
        proof {
            assert forall|j: u64| j < 8 implies byte_of(next, j) == if j < i + 1 {
                bytes@[start + j]
            } else {
                0u8
            } by {
                lemma_or_byte(acc, b as u64, i as u64, j);
            }
        }
        acc = next;
        i = i + 1;
    }
    assert(bytes_of(acc) =~= bytes@.subrange(start as int, start + count) + zeros(
        (8 - count) as nat,
    )) by {
        assert forall|k: int| 0 <= k < 8 implies #[trigger] bytes_of(acc)[k] == (bytes@.subrange(
            start as int,
            start + count,
        ) + zeros((8 - count) as nat))[k] by {
            assert(byte_of(acc, k as u64) == if (k as u64) < i {
                bytes@[start + k]
            } else {
                0u8
            });
        }
    }
    acc
}

proof fn lemma_merge_byte(existing: u64, partial: u64, count: u64, j: u64)
    by (bit_vector)
    requires
        count < 8,
        j < 8,
    ensures
        ({
            let mask = 0xffff_ffff_ffff_ffffu64 << (count * 8) as u64;
            byte_of((existing & mask) | (partial & !mask), j) == if j < count {
                byte_of(partial, j)
            } else {
                byte_of(existing, j)
            }
        }),
{
}

/// The word that has the low `count` bytes of `partial` and the remaining high
/// bytes of `existing`: what memory holds after `count` bytes are written over
/// `existing`.
pub fn merge_tail(existing: u64, partial: u64, count: usize) -> (w: u64)
    requires
        count < POINTER_WIDTH,
    ensures
        bytes_of(w) == bytes_of(partial).subrange(0, count as int) + bytes_of(existing).subrange(
            count as int,
            8,
        ),
{
    let mask: u64 = 0xffff_ffff_ffff_ffffu64 << ((count as u64) * 8);
    let w = (existing & mask) | (partial & !mask);
    assert(bytes_of(w) =~= bytes_of(partial).subrange(0, count as int) + bytes_of(
        existing,
    ).subrange(count as int, 8)) by {
        assert forall|k: int| 0 <= k < 8 implies #[trigger] bytes_of(w)[k] == (bytes_of(
            partial,
        ).subrange(0, count as int) + bytes_of(existing).subrange(count as int, 8))[k] by {
            lemma_merge_byte(existing, partial, count as u64, k as u64);
        }
    }
    w
}

/// Byte `i` of `w`, counting from the least significant one.
pub fn byte_at(w: u64, i: usize) -> (b: u8)
    requires
        i < POINTER_WIDTH,
    ensures
        b == byte_of(w, i as u64),
{
    ((w >> ((i as u64) * 8)) & 0xff) as u8
}

} // verus!
