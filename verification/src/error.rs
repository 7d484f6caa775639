//! The failures that packet construction, transport and exchange report.

use vstd::prelude::*;

verus! {

/// Every failure is final: nothing in this crate retries.
#[derive(Clone, Copy, PartialEq, Eq, Structural, Debug)]
pub enum Error {
    /// No interface has the requested name, or no link-layer channel could be
    /// created on it.
    InterfaceUnavailable,
    /// Reading the next frame from the link failed.
    ReadError,
    /// Handing a frame to the link failed.
    WriteError,
    /// A header description names no known protocol or assigns a field that the
    /// protocol does not accept.
    MalformedStack,
    /// The stack holds no layer of the requested protocol.
    LayerNotFound,
    /// The header has no field of that name, or the value does not fit the field.
    InvalidField,
    /// The observed frame differs from the expected serialization.
    VerificationMismatch,
}

} // verus!
