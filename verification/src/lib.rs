//! Scoped overriding of a process's standard input, output, and error
//! streams, with guaranteed restoration of the original stream.
//!
//! The heart of the crate is a verified model of the process's stream
//! table: open devices, handles onto them, the three standard-stream
//! slots, and one ordering registry per stream kind.  Override guards
//! duplicate the currently installed stream, install a new target, and
//! restore the saved duplicate when they resolve; nested overrides of
//! the same stream kind must resolve in strict last-in-first-out order.

pub mod error;
pub mod guard;
pub mod kind;
pub mod laws;
pub mod model;
pub mod platform;
pub mod streams;
pub mod table;

pub use error::StreamError;
pub use guard::OverrideGuard;
pub use kind::StreamKind;
pub use streams::StderrOverride;
pub use streams::StdinOverride;
pub use streams::StdoutOverride;
pub use table::KindReg;
pub use table::StreamTable;
