use vstd::prelude::*;

verus! {

/// Failure taxonomy of the input subsystem.
///
/// `InvalidCapacity` is the only error this crate's own logic produces (a
/// history ring cannot be built with capacity zero; the caller must fall back
/// to a default).  The remaining variants describe I/O failures raised by the
/// unverified shell around the library: a failed raw byte read or terminal
/// attribute change, and a history file that could not be read or written.
#[derive(Clone, Copy, Debug, PartialEq, Eq, Structural)]
pub enum ShellError {
    InvalidCapacity,
    IoFailure,
    HistoryLoadFailure,
    HistorySaveFailure,
}

} // verus!
