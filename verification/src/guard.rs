use vstd::prelude::*;

use crate::error::StreamError;
use crate::kind::StreamKind;
use crate::model::{lemma_create, lemma_dup_install, lemma_resolve_success, TableModel};
use crate::table::StreamTable;

verus! {

/// One active override of one standard stream.
///
/// A guard is created in its active state — or not at all — and is
/// destroyed exactly once, by [`OverrideGuard::reset`], which consumes
/// it: the saved original stream is re-installed and released, unless a
/// more recently created guard of the same kind is still active, in
/// which case the ordering violation is reported and the stream state
/// is left untouched.
pub struct OverrideGuard {
    /// The stream kind this guard overrides.
    pub kind: StreamKind,
    /// The saved handle onto the device that was installed when this
    /// guard was created.  Exclusively owned by the guard; released
    /// when the guard resolves cleanly.
    pub original: usize,
    /// The guard's sequence token: its position in the creation order
    /// of overrides of this kind.
    pub index: u64,
}

impl OverrideGuard {
    /// Validity of an active guard against the stream state: its saved
    /// handle is still open and its token is still registered.
    pub open spec fn wf(self, t: TableModel) -> bool {
        &&& t.handle_live(self.original as int)
        &&& t.reg(self.kind).is_active(self.index as int)
    }

    /// Override the standard stream of `kind` with the device of the
    /// handle `target`: duplicate the currently installed device into a
    /// saved handle, install the target's device, close the target's
    /// handle exactly when it was handed over, and take the next
    /// sequence token of `kind`.
    pub fn create(
        table: &mut StreamTable,
        kind: StreamKind,
        target: usize,
        owns_target: bool,
    ) -> (r: Result<OverrideGuard, StreamError>)
        requires
            old(table)@.wf(),
            old(table)@.reg(kind).next < u64::MAX,
        ensures
            old(table)@.create_ok(target as int) ==> (r == Ok::<OverrideGuard, StreamError>(
                (OverrideGuard {
                    kind,
                    original: old(table).handles.len(),
                    index: old(table)@.new_token(kind) as u64,
                }),
            ) && final(table)@ == old(table)@.create_tr(kind, target as int, owns_target)),
            !old(table)@.create_ok(target as int) ==> (r == Err::<OverrideGuard, StreamError>(
                StreamError::BadHandle,
            ) && final(table)@ == old(table)@),
            (r matches Ok(g) ==> g.wf(final(table)@) && g.kind == kind),
            final(table)@.wf(),
    {
        let original = match table.duplicate_and_install(kind, target, owns_target) {
            Ok(h) => h,
            Err(e) => {
                return Err(e);
            },
        };
        proof {
            lemma_dup_install(old(table)@, kind, target as int, owns_target);
        }
        let token = table.issue_token(kind);
        proof {
            assert(table@ =~= old(table)@.create_tr(kind, target as int, owns_target));
            lemma_create(old(table)@, kind, target as int, owns_target);
        }
        Ok(OverrideGuard { kind, original, index: token })
    }

    /// Resolve the override: re-install and release the saved original
    /// stream, retiring this guard's token — unless a more recently
    /// created guard of the same kind is still active.  That is the
    /// ordering violation: it is reported, the guard is terminal, and
    /// the stream state is left exactly as it was, since restoring out
    /// of order would leave the standard stream pointing at the wrong
    /// target.
    pub fn reset(self, table: &mut StreamTable) -> (r: Result<(), StreamError>)
        requires
            old(table)@.wf(),
            self.wf(old(table)@),
        ensures
            old(table)@.resolve_ok(self.kind, self.index as int) ==> (r == Ok::<(), StreamError>(
                (),
            ) && final(table)@ == old(table)@.resolve_success_tr(
                self.kind,
                self.original as int,
                self.index as int,
            )),
            !old(table)@.resolve_ok(self.kind, self.index as int) ==> (r == Err::<
                (),
                StreamError,
            >(StreamError::OutOfOrderRestore) && final(table)@ == old(
                table,
            )@.resolve_violation_tr(self.kind, self.index as int)),
            final(table)@.wf(),
    {
        let ghost t0 = old(table)@;
        match table.retire_token(self.kind, self.index) {
            Ok(()) => {
                proof {
                    assert(table@.handles == t0.handles);
                    assert(table@.handle_live(self.original as int));
                }
                let rr = table.restore(self.kind, self.original);
                proof {
                    assert(rr == Ok::<(), StreamError>(()));
                    assert(table@.handles == t0.handles);
                    assert(table@.handle_live(self.original as int));
                }
                let rc = table.close_handle(self.original);
                proof {
                    assert(rc == Ok::<(), StreamError>(()));
                    assert(table@ =~= t0.resolve_success_tr(
                        self.kind,
                        self.original as int,
                        self.index as int,
                    ));
                    lemma_resolve_success(
                        t0,
                        self.kind,
                        self.original as int,
                        self.index as int,
                    );
                }
                Ok(())
            },
            Err(e) => {
                proof {
                    assert(e == StreamError::OutOfOrderRestore);
                    assert(table@ =~= t0.resolve_violation_tr(self.kind, self.index as int));
                }
                Err(e)
            },
        }
    }
}

} // verus!
