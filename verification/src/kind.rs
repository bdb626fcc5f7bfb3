use vstd::prelude::*;

verus! {

/// Which of the three standard process streams is subject to an override.
///
/// Fixed at three variants; the set of standard streams is not extensible.
#[derive(Clone, Copy, Debug, PartialEq, Eq, Structural)]
pub enum StreamKind {
    /// The standard input stream.
    Input,
    /// The standard output stream.
    Output,
    /// The standard error stream.
    Error,
}

} // verus!
