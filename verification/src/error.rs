use vstd::prelude::*;

verus! {

/// The failures an override operation can surface.
///
/// Operating-system failures are never retried; a protocol violation is a
/// programming-contract error, not a condition to recover from.
#[derive(Clone, Copy, Debug, PartialEq, Eq, Structural)]
pub enum StreamError {
    /// A handle that is unknown to the stream table or already closed was
    /// used.  This is the model's counterpart of the platform's
    /// bad-descriptor error.
    BadHandle,
    /// A platform call failed; `code` carries the platform's last error
    /// code, as normalized from its sentinel convention.
    Os {
        /// The platform's last error code at the time of the failure.
        code: i64,
    },
    /// A guard was resolved while a more recently created guard of the
    /// same stream kind was still active.  Nested overrides must resolve
    /// in strict last-in-first-out order.
    OutOfOrderRestore,
}

} // verus!
