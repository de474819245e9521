use vstd::prelude::*;

verus! {

/// Errors of a copy, each carrying the plain value that identifies it.
#[derive(Debug, Clone, Copy, PartialEq, Eq, Structural)]
pub enum DcpError {
    /// A buffer size and alignment that do not form a valid memory layout.
    Layout,
    /// A failed call that reported an errno value.
    Errno(i32),
    /// A failed operating-system I/O call, with its raw OS error code.
    Io(i32),
    /// A path that holds a NUL byte, at the given position.
    Nul(usize),
    /// A submission queue with no room for another entry.
    Push,
}

} // verus!
