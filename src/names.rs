//! Process names: reading them out of a status record, and matching them.

use vstd::prelude::*;

use crate::error::Error;
use crate::text::{contains, first_line, parsed, line_of, str_contains, str_equal, parse_digits};

verus! {

/// What starts the first line of a status record, before the name.
pub open spec fn name_field() -> Seq<char> {
    seq!['N', 'a', 'm', 'e', ':', '\t']
}

/// The name that a status record `s` gives: the rest of its first line after
/// `Name:` and a tab. An empty record cannot be read; a first line that does
/// not start that way holds no name.
pub open spec fn status_name(s: Seq<char>) -> Result<Seq<char>, Error> {
    let line = first_line(s);
    if s.len() == 0 {
        Err(Error::InvalidData)
    } else if line.len() >= 6 && line.subrange(0, 6) == name_field() {
        Ok(line.subrange(6, line.len() as int))
    } else {
        Err(Error::NotFound)
    }
}

/// The name of a process, read from the text of its status record.
pub fn get_process_name(status: &str) -> (r: Result<String, Error>)
    ensures
        match status_name(status@) {
            Ok(name) => r is Ok && r->Ok_0@ == name,
            Err(e) => r == Err::<String, Error>(e),
        },
{
    if status.unicode_len() == 0 {
        return Err(Error::InvalidData);
    }
    let line = line_of(status);
    let n = line.unicode_len();
    if n < 6 {
        return Err(Error::NotFound);
    }
    let head = line.substring_char(0, 6);
    proof {
        reveal_strlit("Name:\t");
    }
    if !str_equal(head, "Name:\t") {
        proof {
            assert("Name:\t"@ =~= name_field());
        }
        return Err(Error::NotFound);
    }
    proof {
        assert("Name:\t"@ =~= name_field());
    }
    Ok(String::from_str(line.substring_char(6, n)))
}

/// Whether `name` holds `target` anywhere in it.
pub fn check_process_name(name: &str, target: &str) -> (r: bool)
    ensures
        r == contains(name@, target@),
{
    str_contains(name, target)
}

/// Whether `name` is exactly `target`.
pub fn check_process_name_strict(name: &str, target: &str) -> (r: bool)
    ensures
        r == (name@ == target@),
{
    str_equal(name, target)
}

/// Whether the process whose status record is `status` has a name that holds
/// `target`.
pub fn check_process_status_file(status: &str, target: &str) -> (r: Result<bool, Error>)
    ensures
        match status_name(status@) {
            Ok(name) => r == Ok::<bool, Error>(contains(name, target@)),
            Err(e) => r == Err::<bool, Error>(e),
        },
{
    let name = get_process_name(status)?;
    Ok(check_process_name(name.as_str(), target))
}

/// Whether the process whose status record is `status` is named exactly
/// `target`.
pub fn check_process_status_file_strict(status: &str, target: &str) -> (r: Result<bool, Error>)
    ensures
        match status_name(status@) {
            Ok(name) => r == Ok::<bool, Error>(name == target@),
            Err(e) => r == Err::<bool, Error>(e),
        },
{
    let name = get_process_name(status)?;
    Ok(check_process_name_strict(name.as_str(), target))
}

/// The process id that an entry of the process table is named by: decimal
/// digits only, at most `i32::MAX`.
pub fn parse_pid(entry: &str) -> (r: Option<i32>)
    ensures
        match parsed(entry@, 10, i32::MAX as nat) {
            Some(v) => r == Some(v as i32),
            None => r is None,
        },
{
    match parse_digits(entry, 10, i32::MAX as u64) {
        Some(v) => Some(v as i32),
        None => None,
    }
}

} // verus!
