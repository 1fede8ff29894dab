use std::collections::HashMap;

use procmem::address::{apply_offset, Address};
use procmem::error::Error;
use procmem::reader::ProcessReader;
use procmem::word::{byte_at, merge_tail, pack_le};
use procmem::writer::{ProcessWriter, WordWrite};

/// A byte-addressed stand-in for a target's memory.
struct Memory {
    bytes: HashMap<usize, u8>,
}

impl Memory {
    fn new() -> Self {
        Memory { bytes: HashMap::new() }
    }

    fn read_word(&self, address: usize) -> u64 {
        let mut w = 0u64;
        for i in 0..8 {
            let b = *self.bytes.get(&(address + i)).unwrap_or(&0);
            w |= (b as u64) << (8 * i);
        }
        w
    }

    fn write_word(&mut self, address: usize, value: u64) {
        for i in 0..8 {
            self.bytes.insert(address + i, (value >> (8 * i)) as u8);
        }
    }

    fn flush(&mut self, w: &mut ProcessWriter) {
        let existing = match w.tail_address().unwrap() {
            Some(a) => self.read_word(a),
            None => 0,
        };
        for ww in w.flush_words(existing).unwrap() {
            self.write_word(ww.address, ww.value);
        }
        w.complete_flush().unwrap();
    }

    fn read(&self, r: &mut ProcessReader, buf: &mut [u8]) -> usize {
        let words: Vec<u64> = r
            .read_addresses(buf.len())
            .unwrap()
            .iter()
            .map(|a| self.read_word(*a))
            .collect();
        r.read(buf, &words).unwrap()
    }
}

#[test]
fn pack_le_packs_least_significant_first() {
    let bytes = [0x88, 0x77, 0x66, 0x55, 0x44, 0x33, 0x22, 0x11, 0x99];
    assert_eq!(pack_le(&bytes, 0, 8), 0x1122334455667788);
    assert_eq!(pack_le(&bytes, 6, 3), 0x991122);
    assert_eq!(pack_le(&bytes, 2, 0), 0);
}

#[test]
fn byte_at_unpacks_each_byte() {
    let w = 0x1122334455667788u64;
    assert_eq!(byte_at(w, 0), 0x88);
    assert_eq!(byte_at(w, 3), 0x55);
    assert_eq!(byte_at(w, 7), 0x11);
}

#[test]
fn merge_tail_keeps_high_bytes() {
    assert_eq!(merge_tail(0, 0xCCBBAA, 3), 0x0000000000CCBBAA);
    assert_eq!(merge_tail(0x1122334455667788, 0xCCBBAA, 3), 0x1122334455CCBBAA);
    assert_eq!(merge_tail(0x1122334455667788, 0xFFFF_FFFF_FFFF_FFFF, 1), 0x11223344556677FF);
    assert_eq!(merge_tail(0x1122334455667788, 0xAB, 0), 0x1122334455667788);
}

#[test]
fn address_from_bytes_is_little_endian() {
    let a = usize::from_bytes([0x10, 0x32, 0x54, 0x76, 0, 0, 0, 0]);
    assert_eq!(a, 0x76543210);
}

#[test]
fn apply_offset_moves_both_ways() {
    assert_eq!(apply_offset(0x1000, 0x10), Ok(0x1010));
    assert_eq!(apply_offset(0x1000, -0x10), Ok(0xff0));
    assert_eq!(apply_offset(0x10, -0x10), Ok(0));
    assert_eq!(apply_offset(0x10, -0x11), Err(Error::AddressUnderflow));
    assert_eq!(apply_offset(usize::MAX as u64, 1), Err(Error::AddressOverflow));
    assert_eq!(apply_offset(0, isize::MIN), Err(Error::AddressUnderflow));
}

#[test]
fn writer_merges_three_bytes_into_zero_word() {
    let mut w = ProcessWriter::new(0x2000);
    assert_eq!(w.write(&[0xAA, 0xBB, 0xCC]), 3);
    assert_eq!(w.tail_address(), Ok(Some(0x2000)));
    let writes = w.flush_words(0).unwrap();
    assert_eq!(writes, vec![WordWrite { address: 0x2000, value: 0x0000000000CCBBAA }]);
}

#[test]
fn writer_merges_three_bytes_into_nonzero_word() {
    let mut w = ProcessWriter::new(0x2000);
    w.write(&[0xAA, 0xBB, 0xCC]);
    let writes = w.flush_words(0x1122334455667788).unwrap();
    assert_eq!(writes, vec![WordWrite { address: 0x2000, value: 0x1122334455CCBBAA }]);
}

#[test]
fn writer_splits_full_and_partial_words() {
    let mut w = ProcessWriter::new(0x100);
    w.write(&[1, 2, 3, 4, 5]);
    w.write(&[6, 7, 8, 9, 10]);
    assert_eq!(w.pending(), &[1, 2, 3, 4, 5, 6, 7, 8, 9, 10]);
    assert_eq!(w.tail_address(), Ok(Some(0x108)));
    let writes = w.flush_words(0xFFFF_FFFF_FFFF_FFFF).unwrap();
    assert_eq!(
        writes,
        vec![
            WordWrite { address: 0x100, value: 0x0807060504030201 },
            WordWrite { address: 0x108, value: 0xFFFF_FFFF_FFFF_0A09 },
        ]
    );
}

#[test]
fn writer_of_whole_words_needs_no_read() {
    let mut w = ProcessWriter::new(0x100);
    w.write(&[0x88, 0x77, 0x66, 0x55, 0x44, 0x33, 0x22, 0x11]);
    assert_eq!(w.tail_address(), Ok(None));
    let writes = w.flush_words(0xDEAD).unwrap();
    assert_eq!(writes, vec![WordWrite { address: 0x100, value: 0x1122334455667788 }]);
}

#[test]
fn empty_flush_writes_nothing() {
    let mut w = ProcessWriter::new(0x100);
    assert_eq!(w.tail_address(), Ok(None));
    assert_eq!(w.flush_words(7).unwrap(), vec![]);
    assert_eq!(w.complete_flush(), Ok(()));
    assert_eq!(w.address(), 0x100);
}

#[test]
fn complete_flush_advances_and_clears() {
    let mut w = ProcessWriter::new(0x100);
    w.write(&[1, 2, 3]);
    assert_eq!(w.complete_flush(), Ok(()));
    assert_eq!(w.address(), 0x103);
    assert!(w.pending().is_empty());

    let mut w = ProcessWriter::new(0x100).no_advance();
    w.write(&[1, 2, 3]);
    assert_eq!(w.complete_flush(), Ok(()));
    assert_eq!(w.address(), 0x100);
    assert!(w.pending().is_empty());

    let w = ProcessWriter::new(0x100).no_advance().advance();
    let mut w = w;
    w.write(&[1]);
    w.complete_flush().unwrap();
    assert_eq!(w.address(), 0x101);
}

#[test]
fn writer_past_the_address_space_fails() {
    let mut w = ProcessWriter::new(usize::MAX - 1);
    w.write(&[1, 2, 3]);
    assert_eq!(w.tail_address(), Err(Error::AddressOverflow));
    assert_eq!(w.flush_words(0), Err(Error::AddressOverflow));
    assert_eq!(w.complete_flush(), Err(Error::AddressOverflow));
    assert_eq!(w.pending(), &[1, 2, 3]);
    assert_eq!(w.address(), usize::MAX - 1);
}

#[test]
fn writer_offset_and_goto() {
    let mut w = ProcessWriter::offset(0x1000, -0x10).unwrap();
    assert_eq!(w.address(), 0xff0);
    assert_eq!(w.goto_offset(0x1000, 0x20), Ok(()));
    assert_eq!(w.address(), 0x1020);
    assert_eq!(w.goto_offset(0x10, -0x20), Err(Error::AddressUnderflow));
    assert_eq!(w.address(), 0x1020);
    w.goto(0x5);
    assert_eq!(w.address(), 0x5);
    assert!(matches!(ProcessWriter::offset(0x10, -0x11), Err(Error::AddressUnderflow)));
}

#[test]
fn reader_fetches_word_strides() {
    let r = ProcessReader::new(0x3000, 12);
    assert_eq!(r.read_addresses(64), Ok(vec![0x3000, 0x3008]));
    assert_eq!(r.read_addresses(8), Ok(vec![0x3000]));
    assert_eq!(r.read_addresses(0), Ok(vec![]));
    assert_eq!(r.read_addresses(9), Ok(vec![0x3000, 0x3008]));
}

#[test]
fn reader_unpacks_words_and_advances() {
    let mut r = ProcessReader::new(0x3000, 12);
    let mut buf = [0xEEu8; 16];
    let n = r
        .read(&mut buf, &[0x0807060504030201, 0x100F0E0D0C0B0A09])
        .unwrap();
    assert_eq!(n, 12);
    assert_eq!(&buf[..12], &[1, 2, 3, 4, 5, 6, 7, 8, 9, 10, 11, 12]);
    assert_eq!(&buf[12..], &[0xEE; 4]);
    assert_eq!(r.address(), 0x300C);
}

#[test]
fn reader_limited_by_buffer_and_no_advance() {
    let mut r = ProcessReader::new(0x3000, 12).no_advance();
    let mut buf = [0u8; 3];
    assert_eq!(r.read(&mut buf, &[0x1122334455667788]), Ok(3));
    assert_eq!(buf, [0x88, 0x77, 0x66]);
    assert_eq!(r.address(), 0x3000);
    let mut r = r.advance();
    assert_eq!(r.read(&mut buf, &[0x1122334455667788]), Ok(3));
    assert_eq!(r.address(), 0x3003);
}

#[test]
fn reader_past_the_address_space_fails() {
    let mut r = ProcessReader::new(usize::MAX - 2, 8);
    assert_eq!(r.read_addresses(8), Err(Error::AddressOverflow));
    let mut buf = [9u8; 8];
    assert_eq!(r.read(&mut buf, &[0]), Err(Error::AddressOverflow));
    assert_eq!(buf, [9u8; 8]);
    assert_eq!(r.address(), usize::MAX - 2);
}

#[test]
fn reader_offset_and_goto() {
    let mut r = ProcessReader::offset(0x1000, 0x40, 8).unwrap();
    assert_eq!(r.address(), 0x1040);
    assert_eq!(r.goto_offset(0x1000, -0x1000), Ok(()));
    assert_eq!(r.address(), 0);
    r.goto(0x77);
    assert_eq!(r.address(), 0x77);
    assert!(matches!(ProcessReader::offset(usize::MAX, 1, 8), Err(Error::AddressOverflow)));
}

#[test]
fn flushed_bytes_read_back_and_tail_survives() {
    let mut mem = Memory::new();
    mem.write_word(0x4000, 0x1122334455667788);
    mem.write_word(0x4008, 0x99AABBCCDDEEFF00);
    let data = [0xA1, 0xA2, 0xA3, 0xA4, 0xA5, 0xA6, 0xA7, 0xA8, 0xA9, 0xAA, 0xAB];
    let mut w = ProcessWriter::new(0x4000);
    w.write(&data);
    mem.flush(&mut w);
    assert_eq!(w.address(), 0x4000 + data.len());

    let mut r = ProcessReader::new(0x4000, data.len());
    let mut buf = [0u8; 11];
    assert_eq!(mem.read(&mut r, &mut buf), 11);
    assert_eq!(buf, data);
    assert_eq!(mem.read_word(0x4008), 0x99AABBCCDDABAAA9);
}

#[test]
fn three_bytes_over_nonzero_word_keep_the_other_five() {
    let mut mem = Memory::new();
    mem.write_word(0x5000, 0x1122334455667788);
    let mut w = ProcessWriter::new(0x5000);
    w.write(&[0xAA, 0xBB, 0xCC]);
    mem.flush(&mut w);
    assert_eq!(mem.read_word(0x5000), 0x1122334455CCBBAA);
}
