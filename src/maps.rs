//! The base address of a process, read from its memory map.

use vstd::prelude::*;

use crate::error::Error;
use crate::text::{first_index, first_line, is_digits, digits_value, find_char, line_of, parse_digits};

verus! {

/// The base address that a memory map `s` gives: the start of the first
/// mapping, written in hexadecimal before the first `-` of the first line.
/// A first line without `-` names no mapping; a start that is not a
/// hexadecimal address cannot be read.
pub open spec fn base_of_maps(s: Seq<char>) -> Result<usize, Error> {
    let line = first_line(s);
    let k = first_index(line, '-', 0);
    let field = line.subrange(0, k);
    if k >= line.len() {
        Err(Error::NotFound)
    } else if is_digits(field, 16) && digits_value(field, 16) <= usize::MAX {
        Ok(digits_value(field, 16) as usize)
    } else {
        Err(Error::InvalidData)
    }
}

/// The base address of a process, read from the text of its memory map: the
/// start of its first mapping.
pub fn get_base(maps: &str) -> (r: Result<usize, Error>)
    ensures
        r == base_of_maps(maps@),
{
    let line = line_of(maps);
    let k = find_char(line, '-', 0);
    if k >= line.unicode_len() {
        return Err(Error::NotFound);
    }
    match parse_digits(line.substring_char(0, k), 16, usize::MAX as u64) {
        Some(v) => Ok(v as usize),
        None => Err(Error::InvalidData),
    }
}

} // verus!
