use vstd::prelude::*;

use crate::kind::StreamKind;

verus! {

// ---------------------------------------------------------------------------
// Ordering registries
// ---------------------------------------------------------------------------

/// Mathematical view of the override registry of one stream kind: the
/// next sequence token to hand out, and the tokens of the guards of this
/// kind that are still active, in creation order.
#[verifier::ext_equal]
pub ghost struct RegModel {
    /// The next sequence token to hand out.  Tokens increase
    /// monotonically and are never reused.
    pub next: int,
    /// The tokens of the still-active guards, in creation order, so
    /// strictly increasing.
    pub active: Seq<int>,
}

impl RegModel {
    /// The registry of a process that has never created an override.
    pub open spec fn empty() -> RegModel {
        RegModel { next: 0, active: Seq::empty() }
    }

    /// Well-formedness: tokens were handed out in increasing order and
    /// none from the future.
    pub open spec fn wf(self) -> bool {
        &&& 0 <= self.next
        &&& (forall|i: int, j: int|
            #![trigger self.active[i], self.active[j]]
            0 <= i < j < self.active.len() ==> self.active[i] < self.active[j])
        &&& (forall|i: int| 0 <= i < self.active.len() ==> 0 <= #[trigger] self.active[i] < self.next)
    }

    /// Whether a guard holding `token` is still active.
    pub open spec fn is_active(self, token: int) -> bool {
        self.active.contains(token)
    }

    /// Whether some guard with a token greater than `token` is still
    /// active.  Resolving a guard in that situation is the protocol
    /// violation.
    pub open spec fn has_newer(self, token: int) -> bool {
        exists|i: int| 0 <= i < self.active.len() && self.active[i] > token
    }

    /// Hand out the next token: the new guard becomes the most recent
    /// active one.
    pub open spec fn issue(self) -> RegModel {
        RegModel { next: self.next + 1, active: self.active.push(self.next) }
    }

    /// Retire `token`: the guard holding it is terminal, whether it
    /// resolved cleanly or detected a violation.
    pub open spec fn retire(self, token: int) -> RegModel {
        if self.active.contains(token) {
            let i = choose|i: int| 0 <= i < self.active.len() && self.active[i] == token;
            RegModel { next: self.next, active: self.active.remove(i) }
        } else {
            self
        }
    }
}

/// In a well-formed registry the active tokens are unique, so the
/// position of a token is determined: retiring it removes exactly the
/// occurrence that was found.
pub proof fn lemma_retire_at(r: RegModel, idx: int, token: int)
    requires
        r.wf(),
        0 <= idx < r.active.len(),
        r.active[idx] == token,
    ensures
        r.retire(token) == (RegModel { next: r.next, active: r.active.remove(idx) }),
{
    assert(r.active.contains(token));
    let i = choose|i: int| 0 <= i < r.active.len() && r.active[i] == token;
    if i < idx {
        assert(r.active[i] < r.active[idx]);
    } else if idx < i {
        assert(r.active[idx] < r.active[i]);
    }
    assert(i == idx);
}

/// A newer active token exists exactly when the last active token is
/// newer: the active tokens are sorted.
pub proof fn lemma_has_newer_iff_last(r: RegModel, token: int)
    requires
        r.wf(),
    ensures
        r.has_newer(token) <==> (r.active.len() > 0 && r.active.last() > token),
{
    if r.has_newer(token) {
        let i = choose|i: int| 0 <= i < r.active.len() && r.active[i] > token;
        if i < r.active.len() - 1 {
            assert(r.active[i] < r.active[r.active.len() - 1]);
        }
    }
}

/// An active token with no newer active token is the last one.
pub proof fn lemma_top_is_last(r: RegModel, token: int)
    requires
        r.wf(),
        r.is_active(token),
        !r.has_newer(token),
    ensures
        r.active.len() > 0,
        r.active.last() == token,
        r.retire(token) == (RegModel { next: r.next, active: r.active.drop_last() }),
{
    let i = choose|i: int| 0 <= i < r.active.len() && r.active[i] == token;
    assert(r.active[i] == token);
    if i < r.active.len() - 1 {
        assert(r.active[i] < r.active[r.active.len() - 1]);
        assert(r.active[r.active.len() - 1] > token);
    }
    assert(i == r.active.len() - 1);
    lemma_retire_at(r, i, token);
    assert(r.active.remove(i) =~= r.active.drop_last());
}

/// Issuing preserves well-formedness, the fresh token is newer than
/// every other active token, and nothing newer than it is active.
pub proof fn lemma_issue(r: RegModel)
    requires
        r.wf(),
    ensures
        r.issue().wf(),
        r.issue().is_active(r.next),
        !r.issue().has_newer(r.next),
        forall|t: int| r.is_active(t) ==> r.issue().is_active(t),
        forall|t: int| r.issue().is_active(t) ==> r.is_active(t) || t == r.next,
{
    let q = r.issue();
    assert forall|i: int, j: int|
        #![trigger q.active[i], q.active[j]]
        0 <= i < j < q.active.len() implies q.active[i] < q.active[j] by {
        if j < q.active.len() - 1 {
            assert(r.active[i] < r.active[j]);
        }
    }
    assert(q.active[q.active.len() - 1] == r.next);
    assert forall|t: int| r.is_active(t) implies q.is_active(t) by {
        let i = choose|i: int| 0 <= i < r.active.len() && r.active[i] == t;
        assert(q.active[i] == t);
    }
    assert forall|t: int| q.is_active(t) && t != r.next implies r.is_active(t) by {
        let i = choose|i: int| 0 <= i < q.active.len() && q.active[i] == t;
        assert(i < r.active.len());
        assert(r.active[i] == t);
    }
}

/// Every active token was handed out already.
pub proof fn lemma_active_bound(r: RegModel, token: int)
    requires
        r.wf(),
        r.is_active(token),
    ensures
        token < r.next,
{
    let i = choose|i: int| 0 <= i < r.active.len() && r.active[i] == token;
    assert(r.active[i] == token);
}

/// Retiring preserves well-formedness and removes exactly the retired
/// token from the active set.
pub proof fn lemma_retire(r: RegModel, token: int)
    requires
        r.wf(),
    ensures
        r.retire(token).wf(),
        !r.retire(token).is_active(token),
        forall|t: int| t != token && r.is_active(t) ==> r.retire(token).is_active(t),
        forall|t: int| r.retire(token).is_active(t) ==> r.is_active(t),
        r.retire(token).next == r.next,
{
    if r.active.contains(token) {
        let i = choose|i: int| 0 <= i < r.active.len() && r.active[i] == token;
        let q = r.retire(token);
        assert(q.active == r.active.remove(i));
        assert forall|a: int, b: int|
            #![trigger q.active[a], q.active[b]]
            0 <= a < b < q.active.len() implies q.active[a] < q.active[b] by {
            let a0 = if a < i { a } else { a + 1 };
            let b0 = if b < i { b } else { b + 1 };
            assert(q.active[a] == r.active[a0]);
            assert(q.active[b] == r.active[b0]);
            assert(r.active[a0] < r.active[b0]);
        }
        assert forall|j: int| 0 <= j < q.active.len() implies 0 <= #[trigger] q.active[j] < q.next by {
            let j0 = if j < i { j } else { j + 1 };
            assert(q.active[j] == r.active[j0]);
        }
        if q.is_active(token) {
            let j = choose|j: int| 0 <= j < q.active.len() && q.active[j] == token;
            let j0 = if j < i { j } else { j + 1 };
            assert(r.active[j0] == token);
            assert(j0 != i);
            if j0 < i {
                assert(r.active[j0] < r.active[i]);
            } else {
                assert(r.active[i] < r.active[j0]);
            }
        }
        assert forall|t: int| t != token && r.is_active(t) implies q.is_active(t) by {
            let j = choose|j: int| 0 <= j < r.active.len() && r.active[j] == t;
            assert(j != i);
            if j < i {
                assert(q.active[j] == t);
            } else {
                assert(q.active[j - 1] == t);
            }
        }
        assert forall|t: int| q.is_active(t) implies r.is_active(t) by {
            let j = choose|j: int| 0 <= j < q.active.len() && q.active[j] == t;
            let j0 = if j < i { j } else { j + 1 };
            assert(r.active[j0] == t);
        }
    }
}

// ---------------------------------------------------------------------------
// Devices, handles, and the stream table
// ---------------------------------------------------------------------------

/// Mathematical view of one open stream device: the bytes written to it
/// so far, and the position from which the next read proceeds.
#[verifier::ext_equal]
pub ghost struct DeviceModel {
    /// Every byte written to the device, in order.
    pub data: Seq<u8>,
    /// The position of the next read.
    pub read_pos: int,
}

/// Mathematical view of one raw stream handle: which device it refers
/// to, and whether it is still open.  A handle carries no ownership by
/// itself; ownership is tracked at the call site that produced it.
#[verifier::ext_equal]
pub ghost struct HandleModel {
    /// The device the handle refers to, as an index into the table's
    /// device sequence.
    pub device: int,
    /// Whether the handle is still open.  Closed handles are unusable.
    pub open: bool,
}

/// Mathematical view of the process's stream state: the open devices,
/// the handles onto them, the device installed in each standard-stream
/// slot, and the override registry of each stream kind.
#[verifier::ext_equal]
pub ghost struct TableModel {
    /// The devices, indexed by creation order.  Devices are never
    /// removed; a device with no open handle merely lingers unreachable.
    pub devices: Seq<DeviceModel>,
    /// The handles, indexed by creation order.
    pub handles: Seq<HandleModel>,
    /// The device installed as standard input.
    pub slot_in: int,
    /// The device installed as standard output.
    pub slot_out: int,
    /// The device installed as standard error.
    pub slot_err: int,
    /// The override registry for standard input.
    pub reg_in: RegModel,
    /// The override registry for standard output.
    pub reg_out: RegModel,
    /// The override registry for standard error.
    pub reg_err: RegModel,
}

impl TableModel {
    /// The state of a fresh process: one device per standard stream,
    /// installed in its slot, with no handles and no overrides yet.
    pub open spec fn init() -> TableModel {
        TableModel {
            devices: seq![
                DeviceModel { data: Seq::empty(), read_pos: 0 },
                DeviceModel { data: Seq::empty(), read_pos: 0 },
                DeviceModel { data: Seq::empty(), read_pos: 0 },
            ],
            handles: Seq::empty(),
            slot_in: 0,
            slot_out: 1,
            slot_err: 2,
            reg_in: RegModel::empty(),
            reg_out: RegModel::empty(),
            reg_err: RegModel::empty(),
        }
    }

    /// The device installed in the slot of `kind`.
    pub open spec fn slot(self, kind: StreamKind) -> int {
        match kind {
            StreamKind::Input => self.slot_in,
            StreamKind::Output => self.slot_out,
            StreamKind::Error => self.slot_err,
        }
    }

    /// The override registry of `kind`.
    pub open spec fn reg(self, kind: StreamKind) -> RegModel {
        match kind {
            StreamKind::Input => self.reg_in,
            StreamKind::Output => self.reg_out,
            StreamKind::Error => self.reg_err,
        }
    }

    /// The table with the slot of `kind` re-pointed at `device`.
    pub open spec fn with_slot(self, kind: StreamKind, device: int) -> TableModel {
        match kind {
            StreamKind::Input => TableModel { slot_in: device, ..self },
            StreamKind::Output => TableModel { slot_out: device, ..self },
            StreamKind::Error => TableModel { slot_err: device, ..self },
        }
    }

    /// The table with the registry of `kind` replaced by `r`.
    pub open spec fn with_reg(self, kind: StreamKind, r: RegModel) -> TableModel {
        match kind {
            StreamKind::Input => TableModel { reg_in: r, ..self },
            StreamKind::Output => TableModel { reg_out: r, ..self },
            StreamKind::Error => TableModel { reg_err: r, ..self },
        }
    }

    /// Whether `d` names a device of the table.
    pub open spec fn valid_device(self, d: int) -> bool {
        0 <= d < self.devices.len()
    }

    /// Whether `h` names a handle of the table, open or closed.
    pub open spec fn valid_handle(self, h: int) -> bool {
        0 <= h < self.handles.len()
    }

    /// Whether `h` names a handle that is still open.  Only live handles
    /// can be installed, duplicated, closed, read, or written.
    pub open spec fn handle_live(self, h: int) -> bool {
        self.valid_handle(h) && self.handles[h].open
    }

    /// The device that handle `h` refers to.
    pub open spec fn device_of(self, h: int) -> int {
        self.handles[h].device
    }

    /// The bytes of device `d` that have not been read yet.
    pub open spec fn device_rest(self, d: int) -> Seq<u8> {
        self.devices[d].data.subrange(self.devices[d].read_pos, self.devices[d].data.len() as int)
    }

    /// Well-formedness: every handle and every slot refers to a device
    /// of the table, read positions lie within the data, and every
    /// registry is well-formed.
    pub open spec fn wf(self) -> bool {
        &&& (forall|h: int|
            0 <= h < self.handles.len() ==> self.valid_device(#[trigger] self.handles[h].device))
        &&& (forall|d: int|
            0 <= d < self.devices.len() ==> 0 <= (#[trigger] self.devices[d]).read_pos
                <= self.devices[d].data.len())
        &&& self.valid_device(self.slot_in)
        &&& self.valid_device(self.slot_out)
        &&& self.valid_device(self.slot_err)
        &&& self.reg_in.wf()
        &&& self.reg_out.wf()
        &&& self.reg_err.wf()
    }

    // -- transitions ------------------------------------------------------

    /// The handle that the next handle-creating transition hands out.
    pub open spec fn new_handle_id(self) -> int {
        self.handles.len() as int
    }

    /// Open a fresh device already holding `content`, together with a
    /// fresh handle onto it.  This stands for whatever the host's I/O
    /// layer supplies: an opened file, one end of a pipe, a socket.
    pub open spec fn open_device_tr(self, content: Seq<u8>) -> TableModel {
        TableModel {
            devices: self.devices.push(DeviceModel { data: content, read_pos: 0 }),
            handles: self.handles.push(
                HandleModel { device: self.devices.len() as int, open: true },
            ),
            ..self
        }
    }

    /// A fresh handle onto the same device as handle `h`.
    pub open spec fn dup_tr(self, h: int) -> TableModel {
        TableModel {
            handles: self.handles.push(HandleModel { device: self.handles[h].device, open: true }),
            ..self
        }
    }

    /// Close handle `h`.  The device stays; only the handle becomes
    /// unusable.
    pub open spec fn close_tr(self, h: int) -> TableModel {
        TableModel {
            handles: self.handles.update(
                h,
                HandleModel { device: self.handles[h].device, open: false },
            ),
            ..self
        }
    }

    /// Append `bytes` to device `d`.
    pub open spec fn write_device_tr(self, d: int, bytes: Seq<u8>) -> TableModel {
        TableModel {
            devices: self.devices.update(
                d,
                DeviceModel {
                    data: self.devices[d].data + bytes,
                    read_pos: self.devices[d].read_pos,
                },
            ),
            ..self
        }
    }

    /// Move the read position of device `d` to `new_pos`.
    pub open spec fn advance_tr(self, d: int, new_pos: int) -> TableModel {
        TableModel {
            devices: self.devices.update(
                d,
                DeviceModel { data: self.devices[d].data, read_pos: new_pos },
            ),
            ..self
        }
    }

    /// Whether the duplicate-and-install primitive succeeds: the
    /// supplied target must be a live handle.
    pub open spec fn dup_install_ok(self, target: int) -> bool {
        self.handle_live(target)
    }

    /// The duplicate-and-install primitive: duplicate the device
    /// currently installed for `kind` into a fresh handle (the saved
    /// original), install the target's device, and, when the target was
    /// handed over, close the caller's handle to it — installation keeps
    /// its own reference.
    pub open spec fn dup_install_tr(self, kind: StreamKind, target: int, owns_target: bool)
        -> TableModel {
        let dup = TableModel {
            handles: self.handles.push(HandleModel { device: self.slot(kind), open: true }),
            ..self
        };
        let installed = dup.with_slot(kind, self.handles[target].device);
        if owns_target {
            installed.close_tr(target)
        } else {
            installed
        }
    }

    /// Whether creating a guard succeeds; creation fails exactly where
    /// the underlying duplicate-and-install fails.
    pub open spec fn create_ok(self, target: int) -> bool {
        self.dup_install_ok(target)
    }

    /// The token the next guard of `kind` receives.
    pub open spec fn new_token(self, kind: StreamKind) -> int {
        self.reg(kind).next
    }

    /// Guard creation: duplicate-and-install, then hand out the next
    /// sequence token of `kind`.
    pub open spec fn create_tr(self, kind: StreamKind, target: int, owns_target: bool)
        -> TableModel {
        self.dup_install_tr(kind, target, owns_target).with_reg(kind, self.reg(kind).issue())
    }

    /// Whether resolving a guard of `kind` holding `token` observes the
    /// ordering discipline: no more recently created guard of the same
    /// kind may still be active.
    pub open spec fn resolve_ok(self, kind: StreamKind, token: int) -> bool {
        !self.reg(kind).has_newer(token)
    }

    /// The restore primitive: re-install the device that the saved
    /// handle `original` refers to.
    pub open spec fn restore_tr(self, kind: StreamKind, original: int) -> TableModel {
        self.with_slot(kind, self.handles[original].device)
    }

    /// A clean resolve: restore the saved original, release the saved
    /// handle, and retire the guard's token.
    pub open spec fn resolve_success_tr(self, kind: StreamKind, original: int, token: int)
        -> TableModel {
        self.restore_tr(kind, original).close_tr(original).with_reg(
            kind,
            self.reg(kind).retire(token),
        )
    }

    /// A resolve that detected the ordering violation: the guard is
    /// terminal and its token retires, but the stream state is left
    /// untouched — restoring out of order would corrupt it — and the
    /// saved handle leaks rather than being released.
    pub open spec fn resolve_violation_tr(self, kind: StreamKind, token: int) -> TableModel {
        self.with_reg(kind, self.reg(kind).retire(token))
    }
}

// ---------------------------------------------------------------------------
// Transition properties
// ---------------------------------------------------------------------------

/// Opening a device preserves well-formedness and hands out a live
/// fresh handle onto a fresh device; nothing else changes.
pub proof fn lemma_open_device(t: TableModel, content: Seq<u8>)
    requires
        t.wf(),
    ensures
        t.open_device_tr(content).wf(),
        t.open_device_tr(content).handle_live(t.new_handle_id()),
        t.open_device_tr(content).device_of(t.new_handle_id()) == t.devices.len(),
        t.open_device_tr(content).devices[t.devices.len() as int]
            == (DeviceModel { data: content, read_pos: 0 }),
        forall|h: int| t.handle_live(h) ==> t.open_device_tr(content).handle_live(h),
        forall|h: int|
            0 <= h < t.handles.len() ==> t.open_device_tr(content).handles[h] == t.handles[h],
        forall|d: int| 0 <= d < t.devices.len() ==> t.open_device_tr(content).devices[d]
            == t.devices[d],
        forall|k: StreamKind| t.open_device_tr(content).slot(k) == t.slot(k),
        forall|k: StreamKind| t.open_device_tr(content).reg(k) == t.reg(k),
{
    let q = t.open_device_tr(content);
    assert forall|k: StreamKind| q.slot(k) == t.slot(k) by {}
    assert forall|k: StreamKind| q.reg(k) == t.reg(k) by {}
}

/// Guard creation preserves well-formedness; it saves a fresh handle
/// onto the previously installed device, installs the target's device,
/// hands out a fresh top token, and touches nothing else.
pub proof fn lemma_create(t: TableModel, kind: StreamKind, target: int, owns_target: bool)
    requires
        t.wf(),
        t.create_ok(target),
    ensures
        ({
            let q = t.create_tr(kind, target, owns_target);
            &&& q.wf()
            &&& q.handles.len() == t.handles.len() + 1
            &&& q.handle_live(t.new_handle_id())
            &&& q.device_of(t.new_handle_id()) == t.slot(kind)
            &&& q.slot(kind) == t.device_of(target)
            &&& q.devices == t.devices
            &&& q.reg(kind) == t.reg(kind).issue()
            &&& q.reg(kind).is_active(t.new_token(kind))
            &&& q.resolve_ok(kind, t.new_token(kind))
            &&& (forall|t2: int| t.reg(kind).is_active(t2) ==> q.reg(kind).is_active(t2))
            &&& (forall|t2: int|
                q.reg(kind).is_active(t2) ==> t.reg(kind).is_active(t2) || t2 == t.new_token(
                    kind,
                ))
            &&& (forall|k: StreamKind| k != kind ==> q.slot(k) == t.slot(k))
            &&& (forall|k: StreamKind| k != kind ==> q.reg(k) == t.reg(k))
            &&& (forall|h: int|
                0 <= h < t.handles.len() && h != target ==> q.handles[h] == t.handles[h])
            &&& (!owns_target ==> forall|h: int|
                0 <= h < t.handles.len() ==> q.handles[h] == t.handles[h])
            &&& q.device_of(target) == t.device_of(target)
            &&& (owns_target ==> !q.handle_live(target))
            &&& (!owns_target ==> q.handle_live(target))
        }),
{
    let q = t.create_tr(kind, target, owns_target);
    lemma_issue(t.reg(kind));
    lemma_has_newer_iff_last(q.reg(kind), t.new_token(kind));
    assert(q.reg(kind).active.last() == t.reg(kind).next);
    assert forall|h: int|
        0 <= h < q.handles.len() implies q.valid_device(#[trigger] q.handles[h].device) by {
        if h < t.handles.len() {
            assert(t.valid_device(t.handles[h].device));
        }
    }
}

/// A clean resolve preserves well-formedness; it re-installs the saved
/// device, releases the saved handle, retires the token, and touches
/// nothing else.
pub proof fn lemma_resolve_success(t: TableModel, kind: StreamKind, original: int, token: int)
    requires
        t.wf(),
        t.handle_live(original),
        t.reg(kind).is_active(token),
        t.resolve_ok(kind, token),
    ensures
        ({
            let q = t.resolve_success_tr(kind, original, token);
            &&& q.wf()
            &&& q.slot(kind) == t.device_of(original)
            &&& q.devices == t.devices
            &&& q.handles.len() == t.handles.len()
            &&& !q.handle_live(original)
            &&& (forall|h: int|
                0 <= h < t.handles.len() && h != original ==> q.handles[h] == t.handles[h])
            &&& q.reg(kind) == t.reg(kind).retire(token)
            &&& !q.reg(kind).is_active(token)
            &&& (forall|t2: int| t2 != token && t.reg(kind).is_active(t2)
                ==> q.reg(kind).is_active(t2))
            &&& (forall|t2: int| q.reg(kind).is_active(t2) ==> t.reg(kind).is_active(t2))
            &&& (forall|k: StreamKind| k != kind ==> q.slot(k) == t.slot(k))
            &&& (forall|k: StreamKind| k != kind ==> q.reg(k) == t.reg(k))
        }),
{
    let q = t.resolve_success_tr(kind, original, token);
    lemma_retire(t.reg(kind), token);
    assert forall|h: int|
        0 <= h < q.handles.len() implies q.valid_device(#[trigger] q.handles[h].device) by {
        assert(t.valid_device(t.handles[h].device));
    }
}

/// A violating resolve preserves well-formedness; it only retires the
/// token: slots, devices, and handles are left exactly as they were.
pub proof fn lemma_resolve_violation(t: TableModel, kind: StreamKind, token: int)
    requires
        t.wf(),
    ensures
        ({
            let q = t.resolve_violation_tr(kind, token);
            &&& q.wf()
            &&& q.devices == t.devices
            &&& q.handles == t.handles
            &&& (forall|k: StreamKind| q.slot(k) == t.slot(k))
            &&& q.reg(kind) == t.reg(kind).retire(token)
            &&& !q.reg(kind).is_active(token)
            &&& (forall|t2: int| t2 != token && t.reg(kind).is_active(t2)
                ==> q.reg(kind).is_active(t2))
            &&& (forall|t2: int| q.reg(kind).is_active(t2) ==> t.reg(kind).is_active(t2))
            &&& (forall|k: StreamKind| k != kind ==> q.reg(k) == t.reg(k))
        }),
{
    let q = t.resolve_violation_tr(kind, token);
    lemma_retire(t.reg(kind), token);
    assert forall|k: StreamKind| q.slot(k) == t.slot(k) by {}
}

/// Writing to a device preserves well-formedness and only appends to
/// that device's data.
pub proof fn lemma_write_device(t: TableModel, d: int, bytes: Seq<u8>)
    requires
        t.wf(),
        t.valid_device(d),
    ensures
        ({
            let q = t.write_device_tr(d, bytes);
            &&& q.wf()
            &&& q.devices[d].data == t.devices[d].data + bytes
            &&& q.devices[d].read_pos == t.devices[d].read_pos
            &&& q.devices.len() == t.devices.len()
            &&& (forall|d2: int|
                0 <= d2 < t.devices.len() && d2 != d ==> q.devices[d2] == t.devices[d2])
            &&& q.handles == t.handles
            &&& (forall|k: StreamKind| q.slot(k) == t.slot(k))
            &&& (forall|k: StreamKind| q.reg(k) == t.reg(k))
        }),
{
    let q = t.write_device_tr(d, bytes);
    assert forall|d2: int|
        0 <= d2 < q.devices.len() implies 0 <= (#[trigger] q.devices[d2]).read_pos
        <= q.devices[d2].data.len() by {
        assert(0 <= t.devices[d2].read_pos <= t.devices[d2].data.len());
    }
    assert forall|k: StreamKind| q.slot(k) == t.slot(k) by {}
}

/// Moving a read position within the data preserves well-formedness and
/// changes nothing but that position.
pub proof fn lemma_advance_device(t: TableModel, d: int, new_pos: int)
    requires
        t.wf(),
        t.valid_device(d),
        0 <= new_pos <= t.devices[d].data.len(),
    ensures
        ({
            let q = t.advance_tr(d, new_pos);
            &&& q.wf()
            &&& q.devices[d].data == t.devices[d].data
            &&& q.devices[d].read_pos == new_pos
            &&& q.devices.len() == t.devices.len()
            &&& (forall|d2: int|
                0 <= d2 < t.devices.len() && d2 != d ==> q.devices[d2] == t.devices[d2])
            &&& q.handles == t.handles
            &&& (forall|k: StreamKind| q.slot(k) == t.slot(k))
            &&& (forall|k: StreamKind| q.reg(k) == t.reg(k))
        }),
{
    let q = t.advance_tr(d, new_pos);
    assert forall|d2: int|
        0 <= d2 < q.devices.len() implies 0 <= (#[trigger] q.devices[d2]).read_pos
        <= q.devices[d2].data.len() by {
        assert(0 <= t.devices[d2].read_pos <= t.devices[d2].data.len());
    }
    assert forall|k: StreamKind| q.slot(k) == t.slot(k) by {}
}

/// The duplicate-and-install primitive preserves well-formedness; it
/// hands out a fresh handle onto the previously installed device,
/// installs the target's device, closes the target's handle exactly
/// when it was handed over, and touches nothing else.
pub proof fn lemma_dup_install(t: TableModel, kind: StreamKind, target: int, owns_target: bool)
    requires
        t.wf(),
        t.dup_install_ok(target),
    ensures
        ({
            let q = t.dup_install_tr(kind, target, owns_target);
            &&& q.wf()
            &&& q.handles.len() == t.handles.len() + 1
            &&& q.handle_live(t.new_handle_id())
            &&& q.device_of(t.new_handle_id()) == t.slot(kind)
            &&& q.slot(kind) == t.device_of(target)
            &&& q.devices == t.devices
            &&& (forall|k: StreamKind| q.reg(k) == t.reg(k))
            &&& (forall|k: StreamKind| k != kind ==> q.slot(k) == t.slot(k))
            &&& (forall|h: int|
                0 <= h < t.handles.len() && h != target ==> q.handles[h] == t.handles[h])
            &&& (!owns_target ==> forall|h: int|
                0 <= h < t.handles.len() ==> q.handles[h] == t.handles[h])
            &&& q.device_of(target) == t.device_of(target)
            &&& (owns_target ==> !q.handle_live(target))
            &&& (!owns_target ==> q.handle_live(target))
        }),
{
    let q = t.dup_install_tr(kind, target, owns_target);
    assert forall|h: int|
        0 <= h < q.handles.len() implies q.valid_device(#[trigger] q.handles[h].device) by {
        if h < t.handles.len() {
            assert(t.valid_device(t.handles[h].device));
        }
    }
}

// ---------------------------------------------------------------------------
// Lines
// ---------------------------------------------------------------------------

/// Where the line beginning at `pos` ends: one past the first newline
/// byte at or after `pos`, or the end of the data when no newline
/// follows.
pub open spec fn line_end(data: Seq<u8>, pos: int) -> int
    decreases data.len() - pos,
{
    if pos < 0 || pos >= data.len() {
        data.len() as int
    } else if data[pos] == 10u8 {
        pos + 1
    } else {
        line_end(data, pos + 1)
    }
}

/// The end of a line lies between its beginning and the end of the data.
pub proof fn lemma_line_end_bounds(data: Seq<u8>, pos: int)
    requires
        0 <= pos <= data.len(),
    ensures
        pos <= line_end(data, pos) <= data.len(),
    decreases data.len() - pos,
{
    if pos < data.len() && data[pos] != 10u8 {
        lemma_line_end_bounds(data, pos + 1);
    }
}

} // verus!

