//! The controller of one attached process.

use vstd::prelude::*;

use crate::address::offset_target;
use crate::chain::PointerChain;
use crate::error::Error;
use crate::maps::{base_of_maps, get_base};
use crate::names::{check_process_name, check_process_name_strict};
use crate::reader::ProcessReader;
use crate::text::contains;
use crate::writer::{ProcessWriter, WordWrite};

verus! {

/// A signal the controller needs delivered to its target.
#[derive(Debug, Clone, Copy, PartialEq, Eq, Structural)]
pub enum Signal {
    /// Pause the target; delivery includes waiting until it has paused.
    Pause,
    /// Let the target run again.
    Resume,
}

/// A process of the system, as its table lists it.
pub struct ProcessEntry {
    pub pid: i32,
    pub name: String,
}

/// What the controller knows of its target.
pub struct ProcessState {
    pub pid: i32,
    /// Whether a pause was delivered with no resume since.
    pub stopped: bool,
    /// The name read when attaching.
    pub name: Seq<char>,
    /// The base address, once resolved; it is never resolved again.
    pub base: Option<usize>,
}

/// The signal that stopping sends: a pause, unless the target is stopped.
pub open spec fn stop_signal(s: ProcessState) -> Option<Signal> {
    if s.stopped {
        None
    } else {
        Some(Signal::Pause)
    }
}

/// The signal that continuing sends: a resume, if the target is stopped.
pub open spec fn cont_signal(s: ProcessState) -> Option<Signal> {
    if s.stopped {
        Some(Signal::Resume)
    } else {
        None
    }
}

/// What the controller knows once `signal` has been delivered.
pub open spec fn acknowledged(s: ProcessState, signal: Signal) -> ProcessState {
    ProcessState { stopped: signal == Signal::Pause, ..s }
}

/// The base address: the cached one if there is one, else the one that the
/// memory map `maps` gives.
pub open spec fn resolved_base(s: ProcessState, maps: Seq<char>) -> Result<usize, Error> {
    match s.base {
        Some(b) => Ok(b),
        None => base_of_maps(maps),
    }
}

/// What the controller knows after resolving its base address from `maps`.
pub open spec fn with_base(s: ProcessState, maps: Seq<char>) -> ProcessState {
    match resolved_base(s, maps) {
        Ok(b) => ProcessState { base: Some(b), ..s },
        Err(_) => s,
    }
}

/// The address `offset` bytes past the base address that `maps` resolves.
pub open spec fn offset_address(s: ProcessState, maps: Seq<char>, offset: int) -> Result<
    usize,
    Error,
> {
    match resolved_base(s, maps) {
        Ok(b) => offset_target(b as int, offset),
        Err(e) => Err(e),
    }
}

/// Whether entry `i` of `entries` is named by something holding `target`,
/// or, when `strict`, by exactly `target`.
pub open spec fn entry_matches(entries: Seq<ProcessEntry>, i: int, target: Seq<char>, strict: bool) -> bool {
    if strict {
        entries[i].name@ == target
    } else {
        contains(entries[i].name@, target)
    }
}

/// What a search of `entries` for `target` returns: the lowest process id
/// among the matching entries, or `NotFound` if none matches.
pub open spec fn found(
    entries: Seq<ProcessEntry>,
    target: Seq<char>,
    strict: bool,
    r: Result<i32, Error>,
) -> bool {
    match r {
        Ok(pid) => exists|i: int|
            0 <= i < entries.len() && #[trigger] entry_matches(entries, i, target, strict)
                && entries[i].pid == pid && forall|j: int|
                0 <= j < entries.len() && #[trigger] entry_matches(entries, j, target, strict)
                    ==> pid <= entries[j].pid,
        Err(e) => e == Error::NotFound && forall|j: int|
            0 <= j < entries.len() ==> !#[trigger] entry_matches(entries, j, target, strict),
    }
}

fn find_lowest(entries: &[ProcessEntry], target: &str, strict: bool) -> (r: Result<i32, Error>)
    ensures
        found(entries@, target@, strict, r),
{
    let mut best: Option<i32> = None;
    let ghost mut at: int = 0;
    let mut i: usize = 0;
    while i < entries.len()
        invariant
            i <= entries@.len(),
            match best {
                Some(pid) => 0 <= at < i && entry_matches(entries@, at, target@, strict)
                    && entries@[at].pid == pid && forall|j: int|
                    0 <= j < i && #[trigger] entry_matches(entries@, j, target@, strict) ==> pid
                        <= entries@[j].pid,
                None => forall|j: int|
                    0 <= j < i ==> !#[trigger] entry_matches(entries@, j, target@, strict),
            },
        decreases entries@.len() - i,
    {
        let e = &entries[i];
        let hit = if strict {
            check_process_name_strict(e.name.as_str(), target)
        } else {
            check_process_name(e.name.as_str(), target)
        };
        assert(hit == entry_matches(entries@, i as int, target@, strict));
        if hit {
            match best {
                Some(pid) => {
                    if e.pid < pid {
                        best = Some(e.pid);
                        proof {
                            at = i as int;
                        }
                    }
                },
                None => {
                    best = Some(e.pid);
                    proof {
                        at = i as int;
                    }
                },
            }
        }
        i = i + 1;
    }
    match best {
        Some(pid) => Ok(pid),
        None => Err(Error::NotFound),
    }
}

/// Stopping twice sends one pause at most: once the first stop's signal is
/// delivered, the target is stopped and a second stop needs no signal.
pub proof fn lemma_stop_idempotent(s: ProcessState)
    ensures
        ({
            let first = stop_signal(s);
            let after = match first {
                Some(signal) => acknowledged(s, signal),
                None => s,
            };
            &&& after.stopped
            &&& stop_signal(after) is None
            &&& (first is Some <==> !s.stopped)
        }),
{
}

/// Continuing a target that is not stopped, as one never stopped is not,
/// needs no signal.
pub proof fn lemma_cont_when_running(s: ProcessState)
    requires
        !s.stopped,
    ensures
        cont_signal(s) is None,
{
}

/// Once resolved, the base address stays what it was, whatever a later
/// memory map says.
pub proof fn lemma_base_cached(s: ProcessState, first: Seq<char>, later: Seq<char>)
    requires
        resolved_base(s, first) is Ok,
    ensures
        resolved_base(with_base(s, first), later) == resolved_base(s, first),
        with_base(with_base(s, first), later) == with_base(s, first),
{
}

/// The controller of one attached process.
///
/// It performs no system call itself: each operation says what to deliver to
/// the target or to read from or write into its memory, and is told the
/// outcome. Reads never pause the target; writes always do first, and nothing
/// resumes it but `cont` or `detach`.
pub struct Process {
    pid: i32,
    stopped: bool,
    name: String,
    base: Option<usize>,
}

impl View for Process {
    type V = ProcessState;

    closed spec fn view(&self) -> ProcessState {
        ProcessState { pid: self.pid, stopped: self.stopped, name: self.name@, base: self.base }
    }
}

impl Process {
    /// The controller of process `pid`, named `name`, right after attaching:
    /// running, with no base address resolved.
    pub fn new(pid: i32, name: String) -> (p: Process)
        ensures
            p@ == (ProcessState { pid, stopped: false, name: name@, base: None }),
    {
        Process { pid, stopped: false, name, base: None }
    }

    /// The process to attach to for `target`: of the `entries` whose name
    /// holds `target`, the one with the lowest id.
    pub fn find(entries: &[ProcessEntry], target: &str) -> (r: Result<i32, Error>)
        ensures
            found(entries@, target@, false, r),
    {
        find_lowest(entries, target, false)
    }

    /// The process to attach to for `target`: of the `entries` named exactly
    /// `target`, the one with the lowest id.
    pub fn find_strict(entries: &[ProcessEntry], target: &str) -> (r: Result<i32, Error>)
        ensures
            found(entries@, target@, true, r),
    {
        find_lowest(entries, target, true)
    }

    /// The id of the target.
    pub fn pid(&self) -> (r: i32)
        ensures
            r == self@.pid,
    {
        self.pid
    }

    /// The name of the target, as read when attaching.
    pub fn name(&self) -> (r: String)
        ensures
            r@ == self@.name,
    {
        self.name.clone()
    }

    /// Whether the target is stopped.
    pub fn is_stopped(&self) -> (r: bool)
        ensures
            r == self@.stopped,
    {
        self.stopped
    }

    /// The base address, if it has been resolved.
    pub fn base(&self) -> (r: Option<usize>)
        ensures
            r == self@.base,
    {
        self.base
    }

    /// Resolves the base address from `maps`, the text of the target's memory
    /// map, unless it is already cached: then `maps` is not looked at.
    pub fn get_base(&mut self, maps: &str) -> (r: Result<(), Error>)
        ensures
            match resolved_base(old(self)@, maps@) {
                Ok(_) => r is Ok,
                Err(e) => r == Err::<(), Error>(e),
            },
            final(self)@ == with_base(old(self)@, maps@),
    {
        if self.base.is_some() {
            return Ok(());
        }
        let b = get_base(maps)?;
        self.base = Some(b);
        Ok(())
    }

    /// The signal that stopping the target takes: a pause if it runs, none if
    /// it is stopped already. Once delivered, `acknowledge` records it.
    pub fn stop(&self) -> (r: Option<Signal>)
        ensures
            r == stop_signal(self@),
    {
        if self.stopped {
            None
        } else {
            Some(Signal::Pause)
        }
    }

    /// The signal that letting the target run again takes: a resume if it is
    /// stopped, none if it runs. Once delivered, `acknowledge` records it.
    pub fn cont(&self) -> (r: Option<Signal>)
        ensures
            r == cont_signal(self@),
    {
        if self.stopped {
            Some(Signal::Resume)
        } else {
            None
        }
    }

    /// Records that `signal` was delivered to the target.
    pub fn acknowledge(&mut self, signal: Signal)
        ensures
            final(self)@ == acknowledged(old(self)@, signal),
    {
        self.stopped = match signal {
            Signal::Pause => true,
            Signal::Resume => false,
        };
    }

    /// Gives up the controller. The result is the signal to hand over with the
    /// release: a resume if the target is stopped, so it is never left paused.
    pub fn detach(self) -> (r: Option<Signal>)
        ensures
            r == cont_signal(self@),
    {
        self.cont()
    }

    /// What writing `data` at `address` takes: first the signal that stops
    /// the target, if any, then the write.
    pub fn write_word(&self, address: usize, data: u64) -> (r: (Option<Signal>, WordWrite))
        ensures
            r.0 == stop_signal(self@),
            r.1 == (WordWrite { address, value: data }),
    {
        (self.stop(), WordWrite { address, value: data })
    }

    /// The address of the word `offset` bytes past the base address, which
    /// is resolved from `maps` first if it is not cached.
    pub fn read_word_offset(&mut self, offset: usize, maps: &str) -> (r: Result<usize, Error>)
        ensures
            r == offset_address(old(self)@, maps@, offset as int),
            final(self)@ == with_base(old(self)@, maps@),
    {
        self.get_base(maps)?;
        let b = self.base.unwrap();
        if offset > usize::MAX - b {
            return Err(Error::AddressOverflow);
        }
        Ok(b + offset)
    }

    /// What writing `data` at `offset` bytes past the base address takes; the
    /// base is resolved from `maps` first if it is not cached.
    pub fn write_word_offset(&mut self, offset: usize, data: u64, maps: &str) -> (r: Result<
        (Option<Signal>, WordWrite),
        Error,
    >)
        ensures
            match offset_address(old(self)@, maps@, offset as int) {
                Ok(a) => r == Ok::<(Option<Signal>, WordWrite), Error>(
                    (stop_signal(old(self)@), WordWrite { address: a, value: data }),
                ),
                Err(e) => r == Err::<(Option<Signal>, WordWrite), Error>(e),
            },
            final(self)@ == with_base(old(self)@, maps@),
    {
        let address = self.read_word_offset(offset, maps)?;
        Ok(self.write_word(address, data))
    }

    /// A chain from `address` through `offsets`, to be followed with word
    /// reads.
    pub fn pointer_chain(&self, address: usize, offsets: Vec<isize>) -> (c: PointerChain)
        ensures
            c@ == (crate::chain::ChainState { address, offsets: offsets@, next: 0 }),
    {
        PointerChain::new(address, offsets)
    }

    /// A reader of `length` bytes at a time from `address`.
    pub fn reader(&self, address: usize, length: usize) -> (r: ProcessReader)
        ensures
            r@ == (crate::reader::ReaderState { address, length, advance: true }),
    {
        ProcessReader::new(address, length)
    }

    /// A writer from `address`.
    pub fn writer(&self, address: usize) -> (w: ProcessWriter)
        ensures
            w@ == (crate::writer::WriterState { address, pending: Seq::empty(), advance: true }),
    {
        ProcessWriter::new(address)
    }

    /// A reader of `length` bytes at a time from `offset` past the base
    /// address, which is resolved from `maps` first if it is not cached.
    pub fn reader_offset(&mut self, offset: isize, length: usize, maps: &str) -> (r: Result<
        ProcessReader,
        Error,
    >)
        ensures
            match offset_address(old(self)@, maps@, offset as int) {
                Ok(a) => r is Ok && r->Ok_0@ == (crate::reader::ReaderState {
                    address: a,
                    length,
                    advance: true,
                }),
                Err(e) => r == Err::<ProcessReader, Error>(e),
            },
            final(self)@ == with_base(old(self)@, maps@),
    {
        self.get_base(maps)?;
        ProcessReader::offset(self.base.unwrap(), offset, length)
    }

    /// A writer from `offset` past the base address, which is resolved from
    /// `maps` first if it is not cached.
    pub fn writer_offset(&mut self, offset: isize, maps: &str) -> (r: Result<ProcessWriter, Error>)
        ensures
            match offset_address(old(self)@, maps@, offset as int) {
                Ok(a) => r is Ok && r->Ok_0@ == (crate::writer::WriterState {
                    address: a,
                    pending: Seq::empty(),
                    advance: true,
                }),
                Err(e) => r == Err::<ProcessWriter, Error>(e),
            },
            final(self)@ == with_base(old(self)@, maps@),
    {
        self.get_base(maps)?;
        ProcessWriter::offset(self.base.unwrap(), offset)
    }
}

} // verus!
