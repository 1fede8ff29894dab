use vstd::prelude::*;

verus! {

/// The ways an operation on an attached process can fail.
#[derive(Debug, Clone, Copy, PartialEq, Eq, Structural)]
pub enum Error {
    /// No matching process, or no usable memory region.
    NotFound,
    /// The system refused to let the process be traced.
    PermissionDenied,
    /// An attach, stop or continue handshake did not complete as expected.
    ProtocolError,
    /// A read or write of the target's memory failed.
    MemoryError,
    /// A metadata source could not be parsed.
    InvalidData,
    /// The caller supplied less space than the read requires.
    BufferTooSmall,
    /// Subtracting an offset would go below address zero.
    AddressUnderflow,
    /// Adding an offset would go past the largest address.
    AddressOverflow,
}

} // verus!
