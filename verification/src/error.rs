//! Failures surfaced by a call invocation.

use vstd::prelude::*;

verus! {

/// Why a call failed.  Every failure leaves the VM's persisted state
/// exactly as it was before the call.
#[derive(Clone, Copy, Debug, PartialEq, Eq, Structural)]
pub enum VmError {
    /// A wire-format value failed to parse.
    Decode,
    /// A required key (code or sub-store) was absent during dispatch.
    KeyNotFound,
    /// The guest faulted or the named export does not exist.
    GuestTrap,
    /// A host operation's guest-memory bounds check failed.
    BoundsViolation,
}

} // verus!
