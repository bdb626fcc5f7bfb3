use vstd::prelude::*;

use crate::error::StreamError;
use crate::guard::OverrideGuard;
use crate::kind::StreamKind;
use crate::model::TableModel;
use crate::table::StreamTable;

verus! {

/// An overridden standard input.
///
/// While the guard is active, the standard input slot refers to the
/// supplied target; reading through the guard reads the saved original
/// standard input.  Resetting the guard re-installs the original.
pub struct StdinOverride {
    /// The underlying override guard, with kind fixed to standard
    /// input.
    pub guard: OverrideGuard,
}

impl StdinOverride {
    /// Validity against the stream state: the underlying guard is valid
    /// and indeed overrides standard input.
    pub open spec fn wf(self, t: TableModel) -> bool {
        &&& self.guard.wf(t)
        &&& self.guard.kind == StreamKind::Input
    }

    /// Read standard input from the device of the raw handle `raw`.  It
    /// must be open and readable.
    ///
    /// The handle is not owned: closing it later is the caller's job,
    /// and closing it does not disturb the override.
    pub fn from_raw(table: &mut StreamTable, raw: usize) -> (r: Result<StdinOverride, StreamError>)
        requires
            old(table)@.wf(),
            old(table)@.reg(StreamKind::Input).next < u64::MAX,
        ensures
            old(table)@.create_ok(raw as int) ==> (r == Ok::<StdinOverride, StreamError>(
                (StdinOverride {
                    guard: OverrideGuard {
                        kind: StreamKind::Input,
                        original: old(table).handles.len(),
                        index: old(table)@.new_token(StreamKind::Input) as u64,
                    },
                }),
            ) && final(table)@ == old(table)@.create_tr(StreamKind::Input, raw as int, false)),
            !old(table)@.create_ok(raw as int) ==> (r == Err::<StdinOverride, StreamError>(
                StreamError::BadHandle,
            ) && final(table)@ == old(table)@),
            (r matches Ok(g) ==> g.wf(final(table)@)),
            final(table)@.wf(),
    {
        match OverrideGuard::create(table, StreamKind::Input, raw, false) {
            Ok(g) => Ok(StdinOverride { guard: g }),
            Err(e) => Err(e),
        }
    }

    /// Read standard input from the device of the raw handle `raw`,
    /// taking the handle over.  It must be open and readable.
    ///
    /// The handle is closed as part of installation; the caller must
    /// not use it afterwards.
    pub fn from_raw_owned(table: &mut StreamTable, raw: usize) -> (r: Result<
        StdinOverride,
        StreamError,
    >)
        requires
            old(table)@.wf(),
            old(table)@.reg(StreamKind::Input).next < u64::MAX,
        ensures
            old(table)@.create_ok(raw as int) ==> (r == Ok::<StdinOverride, StreamError>(
                (StdinOverride {
                    guard: OverrideGuard {
                        kind: StreamKind::Input,
                        original: old(table).handles.len(),
                        index: old(table)@.new_token(StreamKind::Input) as u64,
                    },
                }),
            ) && final(table)@ == old(table)@.create_tr(StreamKind::Input, raw as int, true)),
            !old(table)@.create_ok(raw as int) ==> (r == Err::<StdinOverride, StreamError>(
                StreamError::BadHandle,
            ) && final(table)@ == old(table)@),
            (r matches Ok(g) ==> g.wf(final(table)@)),
            final(table)@.wf(),
    {
        match OverrideGuard::create(table, StreamKind::Input, raw, true) {
            Ok(g) => Ok(StdinOverride { guard: g }),
            Err(e) => Err(e),
        }
    }

    /// Read every not-yet-read byte of the saved original standard
    /// input through the guard.
    pub fn read(&self, table: &mut StreamTable) -> (r: Result<Vec<u8>, StreamError>)
        requires
            old(table)@.wf(),
        ensures
            old(table)@.handle_live(self.guard.original as int) ==> (r matches Ok(v) && v@ == old(
                table,
            )@.device_rest(old(table)@.device_of(self.guard.original as int)) && final(table)@
                == old(table)@.advance_tr(
                old(table)@.device_of(self.guard.original as int),
                old(table)@.devices[old(table)@.device_of(
                    self.guard.original as int,
                )].data.len() as int,
            )),
            !old(table)@.handle_live(self.guard.original as int) ==> (r == Err::<
                Vec<u8>,
                StreamError,
            >(StreamError::BadHandle) && final(table)@ == old(table)@),
            final(table)@.wf(),
    {
        table.read_all_via(self.guard.original)
    }

    /// Reset the standard input to its state before this guard was
    /// created, releasing the saved handle — unless a more recently
    /// created standard-input guard is still active, in which case the
    /// ordering violation is reported and the stream state is left
    /// untouched.
    pub fn reset(self, table: &mut StreamTable) -> (r: Result<(), StreamError>)
        requires
            old(table)@.wf(),
            self.wf(old(table)@),
        ensures
            old(table)@.resolve_ok(StreamKind::Input, self.guard.index as int) ==> (r == Ok::<
                (),
                StreamError,
            >(()) && final(table)@ == old(table)@.resolve_success_tr(
                StreamKind::Input,
                self.guard.original as int,
                self.guard.index as int,
            )),
            !old(table)@.resolve_ok(StreamKind::Input, self.guard.index as int) ==> (r == Err::<
                (),
                StreamError,
            >(StreamError::OutOfOrderRestore) && final(table)@ == old(
                table,
            )@.resolve_violation_tr(StreamKind::Input, self.guard.index as int)),
            final(table)@.wf(),
    {
        self.guard.reset(table)
    }
}

/// An overridden standard output.
///
/// While the guard is active, the standard output slot refers to the
/// supplied target; writing through the guard writes to the saved
/// original standard output.  Resetting the guard re-installs the
/// original.
pub struct StdoutOverride {
    /// The underlying override guard, with kind fixed to standard
    /// output.
    pub guard: OverrideGuard,
}

impl StdoutOverride {
    /// Validity against the stream state: the underlying guard is valid
    /// and indeed overrides standard output.
    pub open spec fn wf(self, t: TableModel) -> bool {
        &&& self.guard.wf(t)
        &&& self.guard.kind == StreamKind::Output
    }

    /// Redirect standard output to the device of the raw handle `raw`.
    /// It must be open and writable.
    ///
    /// The handle is not owned: closing it later is the caller's job,
    /// and closing it does not disturb the override.
    pub fn from_raw(table: &mut StreamTable, raw: usize) -> (r: Result<
        StdoutOverride,
        StreamError,
    >)
        requires
            old(table)@.wf(),
            old(table)@.reg(StreamKind::Output).next < u64::MAX,
        ensures
            old(table)@.create_ok(raw as int) ==> (r == Ok::<StdoutOverride, StreamError>(
                (StdoutOverride {
                    guard: OverrideGuard {
                        kind: StreamKind::Output,
                        original: old(table).handles.len(),
                        index: old(table)@.new_token(StreamKind::Output) as u64,
                    },
                }),
            ) && final(table)@ == old(table)@.create_tr(StreamKind::Output, raw as int, false)),
            !old(table)@.create_ok(raw as int) ==> (r == Err::<StdoutOverride, StreamError>(
                StreamError::BadHandle,
            ) && final(table)@ == old(table)@),
            (r matches Ok(g) ==> g.wf(final(table)@)),
            final(table)@.wf(),
    {
        match OverrideGuard::create(table, StreamKind::Output, raw, false) {
            Ok(g) => Ok(StdoutOverride { guard: g }),
            Err(e) => Err(e),
        }
    }

    /// Redirect standard output to the device of the raw handle `raw`,
    /// taking the handle over.  It must be open and writable.
    ///
    /// The handle is closed as part of installation; the caller must
    /// not use it afterwards.
    pub fn from_raw_owned(table: &mut StreamTable, raw: usize) -> (r: Result<
        StdoutOverride,
        StreamError,
    >)
        requires
            old(table)@.wf(),
            old(table)@.reg(StreamKind::Output).next < u64::MAX,
        ensures
            old(table)@.create_ok(raw as int) ==> (r == Ok::<StdoutOverride, StreamError>(
                (StdoutOverride {
                    guard: OverrideGuard {
                        kind: StreamKind::Output,
                        original: old(table).handles.len(),
                        index: old(table)@.new_token(StreamKind::Output) as u64,
                    },
                }),
            ) && final(table)@ == old(table)@.create_tr(StreamKind::Output, raw as int, true)),
            !old(table)@.create_ok(raw as int) ==> (r == Err::<StdoutOverride, StreamError>(
                StreamError::BadHandle,
            ) && final(table)@ == old(table)@),
            (r matches Ok(g) ==> g.wf(final(table)@)),
            final(table)@.wf(),
    {
        match OverrideGuard::create(table, StreamKind::Output, raw, true) {
            Ok(g) => Ok(StdoutOverride { guard: g }),
            Err(e) => Err(e),
        }
    }

    /// Write `buf` to the saved original standard output through the
    /// guard.
    pub fn write(&self, table: &mut StreamTable, buf: &Vec<u8>) -> (r: Result<usize, StreamError>)
        requires
            old(table)@.wf(),
            old(table)@.handle_live(self.guard.original as int) ==> old(table)@.devices[old(
                table,
            )@.device_of(self.guard.original as int)].data.len() + buf@.len() <= usize::MAX,
        ensures
            old(table)@.handle_live(self.guard.original as int) ==> (r == Ok::<
                usize,
                StreamError,
            >(buf.len()) && final(table)@ == old(table)@.write_device_tr(
                old(table)@.device_of(self.guard.original as int),
                buf@,
            )),
            !old(table)@.handle_live(self.guard.original as int) ==> (r == Err::<
                usize,
                StreamError,
            >(StreamError::BadHandle) && final(table)@ == old(table)@),
            final(table)@.wf(),
    {
        table.write_via(self.guard.original, buf)
    }

    /// Flush the guard.  Writes are unbuffered: this is a no-op that
    /// always succeeds.
    pub fn flush(&self) -> (r: Result<(), StreamError>)
        ensures
            r == Ok::<(), StreamError>(()),
    {
        Ok(())
    }

    /// Reset the standard output to its state before this guard was
    /// created, releasing the saved handle — unless a more recently
    /// created standard-output guard is still active, in which case the
    /// ordering violation is reported and the stream state is left
    /// untouched.
    pub fn reset(self, table: &mut StreamTable) -> (r: Result<(), StreamError>)
        requires
            old(table)@.wf(),
            self.wf(old(table)@),
        ensures
            old(table)@.resolve_ok(StreamKind::Output, self.guard.index as int) ==> (r == Ok::<
                (),
                StreamError,
            >(()) && final(table)@ == old(table)@.resolve_success_tr(
                StreamKind::Output,
                self.guard.original as int,
                self.guard.index as int,
            )),
            !old(table)@.resolve_ok(StreamKind::Output, self.guard.index as int) ==> (r == Err::<
                (),
                StreamError,
            >(StreamError::OutOfOrderRestore) && final(table)@ == old(
                table,
            )@.resolve_violation_tr(StreamKind::Output, self.guard.index as int)),
            final(table)@.wf(),
    {
        self.guard.reset(table)
    }
}

/// An overridden standard error.
///
/// While the guard is active, the standard error slot refers to the
/// supplied target; writing through the guard writes to the saved
/// original standard error.  Resetting the guard re-installs the
/// original.
pub struct StderrOverride {
    /// The underlying override guard, with kind fixed to standard
    /// error.
    pub guard: OverrideGuard,
}

impl StderrOverride {
    /// Validity against the stream state: the underlying guard is valid
    /// and indeed overrides standard error.
    pub open spec fn wf(self, t: TableModel) -> bool {
        &&& self.guard.wf(t)
        &&& self.guard.kind == StreamKind::Error
    }

    /// Redirect standard error to the device of the raw handle `raw`.
    /// It must be open and writable.
    ///
    /// The handle is not owned: closing it later is the caller's job,
    /// and closing it does not disturb the override.
    pub fn from_raw(table: &mut StreamTable, raw: usize) -> (r: Result<
        StderrOverride,
        StreamError,
    >)
        requires
            old(table)@.wf(),
            old(table)@.reg(StreamKind::Error).next < u64::MAX,
        ensures
            old(table)@.create_ok(raw as int) ==> (r == Ok::<StderrOverride, StreamError>(
                (StderrOverride {
                    guard: OverrideGuard {
                        kind: StreamKind::Error,
                        original: old(table).handles.len(),
                        index: old(table)@.new_token(StreamKind::Error) as u64,
                    },
                }),
            ) && final(table)@ == old(table)@.create_tr(StreamKind::Error, raw as int, false)),
            !old(table)@.create_ok(raw as int) ==> (r == Err::<StderrOverride, StreamError>(
                StreamError::BadHandle,
            ) && final(table)@ == old(table)@),
            (r matches Ok(g) ==> g.wf(final(table)@)),
            final(table)@.wf(),
    {
        match OverrideGuard::create(table, StreamKind::Error, raw, false) {
            Ok(g) => Ok(StderrOverride { guard: g }),
            Err(e) => Err(e),
        }
    }

    /// Redirect standard error to the device of the raw handle `raw`,
    /// taking the handle over.  It must be open and writable.
    ///
    /// The handle is closed as part of installation; the caller must
    /// not use it afterwards.
    pub fn from_raw_owned(table: &mut StreamTable, raw: usize) -> (r: Result<
        StderrOverride,
        StreamError,
    >)
        requires
            old(table)@.wf(),
            old(table)@.reg(StreamKind::Error).next < u64::MAX,
        ensures
            old(table)@.create_ok(raw as int) ==> (r == Ok::<StderrOverride, StreamError>(
                (StderrOverride {
                    guard: OverrideGuard {
                        kind: StreamKind::Error,
                        original: old(table).handles.len(),
                        index: old(table)@.new_token(StreamKind::Error) as u64,
                    },
                }),
            ) && final(table)@ == old(table)@.create_tr(StreamKind::Error, raw as int, true)),
            !old(table)@.create_ok(raw as int) ==> (r == Err::<StderrOverride, StreamError>(
                StreamError::BadHandle,
            ) && final(table)@ == old(table)@),
            (r matches Ok(g) ==> g.wf(final(table)@)),
            final(table)@.wf(),
    {
        match OverrideGuard::create(table, StreamKind::Error, raw, true) {
            Ok(g) => Ok(StderrOverride { guard: g }),
            Err(e) => Err(e),
        }
    }

    /// Write `buf` to the saved original standard error through the
    /// guard.
    pub fn write(&self, table: &mut StreamTable, buf: &Vec<u8>) -> (r: Result<usize, StreamError>)
        requires
            old(table)@.wf(),
            old(table)@.handle_live(self.guard.original as int) ==> old(table)@.devices[old(
                table,
            )@.device_of(self.guard.original as int)].data.len() + buf@.len() <= usize::MAX,
        ensures
            old(table)@.handle_live(self.guard.original as int) ==> (r == Ok::<
                usize,
                StreamError,
            >(buf.len()) && final(table)@ == old(table)@.write_device_tr(
                old(table)@.device_of(self.guard.original as int),
                buf@,
            )),
            !old(table)@.handle_live(self.guard.original as int) ==> (r == Err::<
                usize,
                StreamError,
            >(StreamError::BadHandle) && final(table)@ == old(table)@),
            final(table)@.wf(),
    {
        table.write_via(self.guard.original, buf)
    }

    /// Flush the guard.  Writes are unbuffered: this is a no-op that
    /// always succeeds.
    pub fn flush(&self) -> (r: Result<(), StreamError>)
        ensures
            r == Ok::<(), StreamError>(()),
    {
        Ok(())
    }

    /// Reset the standard error to its state before this guard was
    /// created, releasing the saved handle — unless a more recently
    /// created standard-error guard is still active, in which case the
    /// ordering violation is reported and the stream state is left
    /// untouched.
    pub fn reset(self, table: &mut StreamTable) -> (r: Result<(), StreamError>)
        requires
            old(table)@.wf(),
            self.wf(old(table)@),
        ensures
            old(table)@.resolve_ok(StreamKind::Error, self.guard.index as int) ==> (r == Ok::<
                (),
                StreamError,
            >(()) && final(table)@ == old(table)@.resolve_success_tr(
                StreamKind::Error,
                self.guard.original as int,
                self.guard.index as int,
            )),
            !old(table)@.resolve_ok(StreamKind::Error, self.guard.index as int) ==> (r == Err::<
                (),
                StreamError,
            >(StreamError::OutOfOrderRestore) && final(table)@ == old(
                table,
            )@.resolve_violation_tr(StreamKind::Error, self.guard.index as int)),
            final(table)@.wf(),
    {
        self.guard.reset(table)
    }
}

} // verus!
