use vstd::prelude::*;

use crate::error::StreamError;
use crate::kind::StreamKind;
use crate::model::{
    lemma_advance_device, lemma_dup_install, lemma_has_newer_iff_last, lemma_issue,
    lemma_line_end_bounds, lemma_open_device, lemma_retire, lemma_retire_at, lemma_top_is_last,
    lemma_write_device, line_end, DeviceModel, HandleModel, RegModel, TableModel,
};

verus! {

// ---------------------------------------------------------------------------
// Ordering registry
// ---------------------------------------------------------------------------

/// The override registry of one stream kind: hands out sequence tokens
/// and validates that guards resolve in last-in-first-out order.
///
/// In a process there is one registry per stream kind, alive until the
/// process exits.
pub struct KindReg {
    /// The next sequence token to hand out.
    pub next: u64,
    /// The tokens of the still-active guards, in creation order.
    pub active: Vec<u64>,
}

impl View for KindReg {
    type V = RegModel;

    open spec fn view(&self) -> RegModel {
        RegModel { next: self.next as int, active: self.active@.map_values(|t: u64| t as int) }
    }
}

impl KindReg {
    /// The registry of a stream kind that has never been overridden.
    pub fn new() -> (r: KindReg)
        ensures
            r@ == RegModel::empty(),
            r@.wf(),
    {
        let r = KindReg { next: 0, active: Vec::new() };
        proof {
            assert(r@.active =~= RegModel::empty().active);
            assert(r@ =~= RegModel::empty());
        }
        r
    }

    /// Hand out the next sequence token.  The new guard becomes the most
    /// recently created active one of this kind.
    pub fn issue(&mut self) -> (token: u64)
        requires
            old(self)@.wf(),
            old(self).next < u64::MAX,
        ensures
            token == old(self).next,
            final(self)@ == old(self)@.issue(),
            final(self)@.wf(),
    {
        let token = self.next;
        self.next = self.next + 1;
        self.active.push(token);
        proof {
            assert(self@.active =~= old(self)@.active.push(token as int));
            assert(self@ =~= old(self)@.issue());
            lemma_issue(old(self)@);
        }
        token
    }

    /// Validate and record the resolution of the guard holding `token`.
    ///
    /// If a more recently created guard of this kind is still active,
    /// this is the ordering violation: the token is retired — the
    /// resolving guard is terminal either way — but the caller must not
    /// restore.  Otherwise, if the token is active it retires cleanly.
    /// A token that is not active at all is refused; under correct usage
    /// that cannot happen, since resolving consumes the guard.
    pub fn try_retire(&mut self, token: u64) -> (r: Result<(), StreamError>)
        requires
            old(self)@.wf(),
        ensures
            old(self)@.has_newer(token as int) ==> (r == Err::<(), StreamError>(
                StreamError::OutOfOrderRestore,
            ) && final(self)@ == old(self)@.retire(token as int)),
            !old(self)@.has_newer(token as int) && old(self)@.is_active(token as int) ==> (r
                == Ok::<(), StreamError>(()) && final(self)@ == old(self)@.retire(token as int)),
            !old(self)@.has_newer(token as int) && !old(self)@.is_active(token as int) ==> (r
                == Err::<(), StreamError>(StreamError::BadHandle) && final(self)@ == old(self)@),
            final(self)@.wf(),
    {
        proof {
            lemma_has_newer_iff_last(old(self)@, token as int);
            lemma_retire(old(self)@, token as int);
        }
        let n = self.active.len();
        if n == 0 {
            return Err(StreamError::BadHandle);
        }
        let last = self.active[n - 1];
        if last > token {
            // A newer guard is still active: retire the token if it is
            // present, but report the violation.
            let mut i: usize = 0;
            #[verifier::loop_isolation(false)]
            while i < n
                invariant
                    i <= n,
                    self == old(self),
                    forall|j: int| 0 <= j < i ==> self.active@[j] != token,
                decreases n - i,
            {
                if self.active[i] == token {
                    self.active.remove(i);
                    proof {
                        assert(old(self)@.active[i as int] == token as int);
                        lemma_retire_at(old(self)@, i as int, token as int);
                        assert(self@.active =~= old(self)@.active.remove(i as int));
                        assert(self@ =~= old(self)@.retire(token as int));
                    }
                    return Err(StreamError::OutOfOrderRestore);
                }
                i += 1;
            }
            proof {
                if old(self)@.is_active(token as int) {
                    let j = choose|j: int|
                        0 <= j < old(self)@.active.len() && old(self)@.active[j] == token as int;
                    assert(old(self).active@[j] != token);
                    assert(old(self)@.active[j] == old(self).active@[j] as int);
                }
            }
            return Err(StreamError::OutOfOrderRestore);
        }
        // No newer guard is active.  The token, if active at all, is the
        // most recent one: the last entry.
        if last == token {
            self.active.pop();
            proof {
                assert(old(self)@.active.last() == token as int);
                assert(old(self)@.is_active(token as int));
                lemma_top_is_last(old(self)@, token as int);
                assert(self@.active =~= old(self)@.active.drop_last());
                assert(self@ =~= old(self)@.retire(token as int));
            }
            Ok(())
        } else {
            proof {
                if old(self)@.is_active(token as int) {
                    let j = choose|j: int|
                        0 <= j < old(self)@.active.len() && old(self)@.active[j] == token as int;
                    if j < n - 1 {
                        assert(old(self)@.active[j] < old(self)@.active[n - 1]);
                    }
                }
            }
            Err(StreamError::BadHandle)
        }
    }
}

// ---------------------------------------------------------------------------
// Devices, handles, and the stream table
// ---------------------------------------------------------------------------

/// One open stream device: the bytes written to it so far and the
/// position from which the next read proceeds.
pub struct Device {
    /// Every byte written to the device, in order.
    pub data: Vec<u8>,
    /// The position of the next read.
    pub read_pos: usize,
}

impl View for Device {
    type V = DeviceModel;

    open spec fn view(&self) -> DeviceModel {
        DeviceModel { data: self.data@, read_pos: self.read_pos as int }
    }
}

/// One raw stream handle: the device it refers to and whether it is
/// still open.
#[derive(Clone, Copy)]
pub struct HandleEntry {
    /// The device the handle refers to.
    pub device: usize,
    /// Whether the handle is still open.
    pub open: bool,
}

impl View for HandleEntry {
    type V = HandleModel;

    open spec fn view(&self) -> HandleModel {
        HandleModel { device: self.device as int, open: self.open }
    }
}

/// The process's stream state: its open devices, the handles onto them,
/// the device installed in each standard-stream slot, and the override
/// registry of each stream kind.
///
/// The table plays the role the operating system's descriptor or handle
/// table plays for a real process; every override operates against it.
pub struct StreamTable {
    /// The devices, in creation order.
    pub devices: Vec<Device>,
    /// The handles, in creation order.
    pub handles: Vec<HandleEntry>,
    /// The device installed as standard input.
    pub slot_in: usize,
    /// The device installed as standard output.
    pub slot_out: usize,
    /// The device installed as standard error.
    pub slot_err: usize,
    /// The override registry for standard input.
    pub reg_in: KindReg,
    /// The override registry for standard output.
    pub reg_out: KindReg,
    /// The override registry for standard error.
    pub reg_err: KindReg,
}

impl View for StreamTable {
    type V = TableModel;

    open spec fn view(&self) -> TableModel {
        TableModel {
            devices: self.devices@.map_values(|d: Device| d@),
            handles: self.handles@.map_values(|h: HandleEntry| h@),
            slot_in: self.slot_in as int,
            slot_out: self.slot_out as int,
            slot_err: self.slot_err as int,
            reg_in: self.reg_in@,
            reg_out: self.reg_out@,
            reg_err: self.reg_err@,
        }
    }
}

impl StreamTable {
    /// The stream state of a fresh process: one empty device per
    /// standard stream, installed in its slot, and no overrides.
    pub fn new() -> (t: StreamTable)
        ensures
            t@ == TableModel::init(),
            t@.wf(),
    {
        let mut devices: Vec<Device> = Vec::new();
        devices.push(Device { data: Vec::new(), read_pos: 0 });
        devices.push(Device { data: Vec::new(), read_pos: 0 });
        devices.push(Device { data: Vec::new(), read_pos: 0 });
        let t = StreamTable {
            devices,
            handles: Vec::new(),
            slot_in: 0,
            slot_out: 1,
            slot_err: 2,
            reg_in: KindReg::new(),
            reg_out: KindReg::new(),
            reg_err: KindReg::new(),
        };
        proof {
            assert(t@.devices =~= TableModel::init().devices);
            assert(t@.handles =~= TableModel::init().handles);
            assert(t@ =~= TableModel::init());
        }
        t
    }

    /// The device currently installed in the slot of `kind`.
    pub fn installed_device(&self, kind: StreamKind) -> (d: usize)
        ensures
            d as int == self@.slot(kind),
    {
        match kind {
            StreamKind::Input => self.slot_in,
            StreamKind::Output => self.slot_out,
            StreamKind::Error => self.slot_err,
        }
    }

    /// Whether `h` names a handle that is still open.
    pub fn is_handle_open(&self, h: usize) -> (r: bool)
        ensures
            r == self@.handle_live(h as int),
    {
        h < self.handles.len() && self.handles[h].open
    }

    /// The device that the open handle `h` refers to.
    pub fn device_of_handle(&self, h: usize) -> (r: Result<usize, StreamError>)
        ensures
            self@.handle_live(h as int) ==> r == Ok::<usize, StreamError>(
                (self@.device_of(h as int)) as usize,
            ),
            !self@.handle_live(h as int) ==> r == Err::<usize, StreamError>(
                StreamError::BadHandle,
            ),
    {
        if h < self.handles.len() && self.handles[h].open {
            Ok(self.handles[h].device)
        } else {
            Err(StreamError::BadHandle)
        }
    }

    /// Re-point the slot of `kind` at `device`.
    fn set_slot(&mut self, kind: StreamKind, device: usize)
        ensures
            final(self)@ == old(self)@.with_slot(kind, device as int),
    {
        match kind {
            StreamKind::Input => self.slot_in = device,
            StreamKind::Output => self.slot_out = device,
            StreamKind::Error => self.slot_err = device,
        }
        proof {
            assert(self@ =~= old(self)@.with_slot(kind, device as int));
        }
    }

    /// Replace the handle entry at `h`.
    fn set_handle(&mut self, h: usize, e: HandleEntry)
        requires
            h < old(self).handles.len(),
        ensures
            final(self)@ == (TableModel {
                handles: old(self)@.handles.update(h as int, e@),
                ..old(self)@
            }),
    {
        self.handles.remove(h);
        self.handles.insert(h, e);
        proof {
            assert(self.handles@ =~= old(self).handles@.update(h as int, e));
            assert(self@.handles =~= old(self)@.handles.update(h as int, e@));
            assert(self@ =~= (TableModel {
                handles: old(self)@.handles.update(h as int, e@),
                ..old(self)@
            }));
        }
    }

    /// Open a fresh device already holding `content`, and hand back a
    /// fresh handle onto it.  This stands in for the host's I/O layer
    /// supplying an opened file, a pipe end, or any other stream.
    pub fn open_device(&mut self, content: Vec<u8>) -> (h: usize)
        requires
            old(self)@.wf(),
        ensures
            h as int == old(self)@.new_handle_id(),
            final(self)@ == old(self)@.open_device_tr(content@),
            final(self)@.wf(),
            final(self)@.handle_live(h as int),
            final(self)@.device_of(h as int) == old(self)@.devices.len(),
    {
        let h = self.handles.len();
        let d = self.devices.len();
        self.devices.push(Device { data: content, read_pos: 0 });
        self.handles.push(HandleEntry { device: d, open: true });
        proof {
            assert(self@.devices =~= old(self)@.devices.push(
                DeviceModel { data: content@, read_pos: 0 },
            ));
            assert(self@.handles =~= old(self)@.handles.push(
                HandleModel { device: d as int, open: true },
            ));
            assert(self@ =~= old(self)@.open_device_tr(content@));
            lemma_open_device(old(self)@, content@);
        }
        h
    }

    /// Duplicate handle `h`: a fresh handle onto the same device.  The
    /// two handles are independent; closing one leaves the other
    /// usable.
    pub fn dup_handle(&mut self, h: usize) -> (r: Result<usize, StreamError>)
        requires
            old(self)@.wf(),
        ensures
            old(self)@.handle_live(h as int) ==> (r == Ok::<usize, StreamError>(
                old(self).handles.len(),
            ) && final(self)@ == old(self)@.dup_tr(h as int)),
            !old(self)@.handle_live(h as int) ==> (r == Err::<usize, StreamError>(
                StreamError::BadHandle,
            ) && final(self)@ == old(self)@),
            final(self)@.wf(),
            old(self)@.handle_live(h as int) ==> final(self)@.handle_live(
                old(self)@.new_handle_id(),
            ) && final(self)@.device_of(old(self)@.new_handle_id()) == old(self)@.device_of(
                h as int,
            ),
    {
        if h < self.handles.len() && self.handles[h].open {
            let fresh = self.handles.len();
            let d = self.handles[h].device;
            self.handles.push(HandleEntry { device: d, open: true });
            proof {
                assert(self@.handles =~= old(self)@.handles.push(
                    HandleModel { device: d as int, open: true },
                ));
                assert(self@ =~= old(self)@.dup_tr(h as int));
                assert forall|h2: int|
                    0 <= h2 < self@.handles.len() implies self@.valid_device(
                    #[trigger] self@.handles[h2].device,
                ) by {
                    if h2 < old(self)@.handles.len() {
                        assert(old(self)@.valid_device(old(self)@.handles[h2].device));
                    } else {
                        assert(old(self)@.valid_device(old(self)@.handles[h as int].device));
                    }
                }
            }
            Ok(fresh)
        } else {
            Err(StreamError::BadHandle)
        }
    }

    /// Release handle `h`.  Closing is not idempotent: a handle that is
    /// already closed, like one the table never handed out, is refused.
    pub fn close_handle(&mut self, h: usize) -> (r: Result<(), StreamError>)
        requires
            old(self)@.wf(),
        ensures
            old(self)@.handle_live(h as int) ==> (r == Ok::<(), StreamError>(()) && final(self)@
                == old(self)@.close_tr(h as int)),
            !old(self)@.handle_live(h as int) ==> (r == Err::<(), StreamError>(
                StreamError::BadHandle,
            ) && final(self)@ == old(self)@),
            final(self)@.wf(),
    {
        if h < self.handles.len() {
            let e = self.handles[h];
            if e.open {
                self.set_handle(h, HandleEntry { device: e.device, open: false });
                proof {
                    assert(self@ =~= old(self)@.close_tr(h as int));
                    assert forall|h2: int|
                        0 <= h2 < self@.handles.len() implies self@.valid_device(
                        #[trigger] self@.handles[h2].device,
                    ) by {
                        assert(old(self)@.valid_device(old(self)@.handles[h2].device));
                    }
                }
                return Ok(());
            }
        }
        Err(StreamError::BadHandle)
    }

    /// Append the bytes of `buf` to device `d`.
    fn append_device(&mut self, d: usize, buf: &Vec<u8>)
        requires
            old(self)@.wf(),
            old(self)@.valid_device(d as int),
            old(self)@.devices[d as int].data.len() + buf@.len() <= usize::MAX,
        ensures
            final(self)@ == old(self)@.write_device_tr(d as int, buf@),
            final(self)@.wf(),
    {
        let mut dev = self.devices.remove(d);
        let ghost data0 = dev.data@;
        let mut j: usize = 0;
        #[verifier::loop_isolation(false)]
        while j < buf.len()
            invariant
                j <= buf.len(),
                dev.data@ == data0 + buf@.subrange(0, j as int),
                dev.read_pos == old(self).devices@[d as int].read_pos,
            decreases buf.len() - j,
        {
            dev.data.push(buf[j]);
            j += 1;
            proof {
                assert(dev.data@ =~= data0 + buf@.subrange(0, j as int));
            }
        }
        proof {
            assert(buf@.subrange(0, buf@.len() as int) =~= buf@);
        }
        self.devices.insert(d, dev);
        proof {
            assert(self.devices@ =~= old(self).devices@.update(d as int, dev));
            assert(self@.devices =~= old(self)@.devices.update(d as int, dev@));
            assert(self@ =~= old(self)@.write_device_tr(d as int, buf@));
            lemma_write_device(old(self)@, d as int, buf@);
        }
    }

    /// Write through handle `h`: append `buf` to the device it refers
    /// to.  Returns how many bytes were written — always all of them —
    /// or refuses a handle that is not open.
    pub fn write_via(&mut self, h: usize, buf: &Vec<u8>) -> (r: Result<usize, StreamError>)
        requires
            old(self)@.wf(),
            old(self)@.handle_live(h as int) ==> old(self)@.devices[old(self)@.device_of(
                h as int,
            )].data.len() + buf@.len() <= usize::MAX,
        ensures
            old(self)@.handle_live(h as int) ==> (r == Ok::<usize, StreamError>(buf.len())
                && final(self)@ == old(self)@.write_device_tr(
                old(self)@.device_of(h as int),
                buf@,
            )),
            !old(self)@.handle_live(h as int) ==> (r == Err::<usize, StreamError>(
                StreamError::BadHandle,
            ) && final(self)@ == old(self)@),
            final(self)@.wf(),
    {
        if h < self.handles.len() && self.handles[h].open {
            let d = self.handles[h].device;
            self.append_device(d, buf);
            Ok(buf.len())
        } else {
            Err(StreamError::BadHandle)
        }
    }

    /// Write through the standard stream of `kind`: append `buf` to the
    /// device installed in its slot.  The slot always holds a device, so
    /// this cannot fail.
    pub fn write_standard(&mut self, kind: StreamKind, buf: &Vec<u8>)
        requires
            old(self)@.wf(),
            old(self)@.devices[old(self)@.slot(kind)].data.len() + buf@.len() <= usize::MAX,
        ensures
            final(self)@ == old(self)@.write_device_tr(old(self)@.slot(kind), buf@),
            final(self)@.wf(),
    {
        let d = self.installed_device(kind);
        self.append_device(d, buf);
    }

    /// Read through handle `h`: every byte of its device that has not
    /// been read yet.  The read position moves to the end of the data.
    pub fn read_all_via(&mut self, h: usize) -> (r: Result<Vec<u8>, StreamError>)
        requires
            old(self)@.wf(),
        ensures
            old(self)@.handle_live(h as int) ==> (r matches Ok(v) && v@ == old(
                self,
            )@.device_rest(old(self)@.device_of(h as int)) && final(self)@ == old(
                self,
            )@.advance_tr(
                old(self)@.device_of(h as int),
                old(self)@.devices[old(self)@.device_of(h as int)].data.len() as int,
            )),
            !old(self)@.handle_live(h as int) ==> (r == Err::<Vec<u8>, StreamError>(
                StreamError::BadHandle,
            ) && final(self)@ == old(self)@),
            final(self)@.wf(),
    {
        if !(h < self.handles.len() && self.handles[h].open) {
            return Err(StreamError::BadHandle);
        }
        let d = self.handles[h].device;
        proof {
            assert(self@.handles.len() == self.handles@.len());
            assert(self@.handles[h as int] == self.handles@[h as int]@);
            assert(self@.valid_device(self@.handles[h as int].device));
            assert(self@.valid_device(d as int));
            assert(self@.devices.len() == self.devices@.len());
            assert(self@.devices[d as int] == self.devices@[d as int]@);
        }
        let mut dev = self.devices.remove(d);
        let ghost data = dev.data@;
        let ghost pos = dev.read_pos as int;
        proof {
            assert(0 <= pos <= data.len());
        }
        let mut out: Vec<u8> = Vec::new();
        let mut j: usize = dev.read_pos;
        #[verifier::loop_isolation(false)]
        while j < dev.data.len()
            invariant
                pos <= j as int <= data.len(),
                dev.data@ == data,
                dev.read_pos as int == pos,
                out@ == data.subrange(pos, j as int),
            decreases data.len() - j,
        {
            out.push(dev.data[j]);
            j += 1;
            proof {
                assert(out@ =~= data.subrange(pos, j as int));
            }
        }
        dev.read_pos = dev.data.len();
        self.devices.insert(d, dev);
        proof {
            assert(self.devices@ =~= old(self).devices@.update(d as int, dev));
            assert(self@.devices =~= old(self)@.devices.update(d as int, dev@));
            assert(self@ =~= old(self)@.advance_tr(d as int, data.len() as int));
            lemma_advance_device(old(self)@, d as int, data.len() as int);
        }
        Ok(out)
    }

    /// Read one line through the standard input slot: every byte up to
    /// and including the first newline that has not been read yet, or
    /// all remaining bytes when no newline follows.  The read position
    /// moves past what was read.
    pub fn read_line_standard(&mut self) -> (line: Vec<u8>)
        requires
            old(self)@.wf(),
        ensures
            ({
                let d = old(self)@.slot_in;
                let data = old(self)@.devices[d].data;
                let pos = old(self)@.devices[d].read_pos;
                &&& line@ == data.subrange(pos, line_end(data, pos))
                &&& final(self)@ == old(self)@.advance_tr(d, line_end(data, pos))
                &&& final(self)@.wf()
            }),
    {
        let d = self.slot_in;
        proof {
            assert(self@.valid_device(d as int));
            assert(self@.devices.len() == self.devices@.len());
            assert(self@.devices[d as int] == self.devices@[d as int]@);
        }
        let mut dev = self.devices.remove(d);
        let ghost data = dev.data@;
        let ghost pos = dev.read_pos as int;
        proof {
            assert(0 <= pos <= data.len());
            lemma_line_end_bounds(data, pos);
        }
        let mut out: Vec<u8> = Vec::new();
        let mut j: usize = dev.read_pos;
        #[verifier::loop_isolation(false)]
        while j < dev.data.len() && dev.data[j] != 10
            invariant
                pos <= j as int <= data.len(),
                dev.data@ == data,
                dev.read_pos as int == pos,
                line_end(data, j as int) == line_end(data, pos),
                out@ == data.subrange(pos, j as int),
            decreases data.len() - j,
        {
            out.push(dev.data[j]);
            j += 1;
            proof {
                assert(out@ =~= data.subrange(pos, j as int));
            }
        }
        if j < dev.data.len() {
            // The newline itself belongs to the line.
            out.push(dev.data[j]);
            j += 1;
            proof {
                assert(out@ =~= data.subrange(pos, j as int));
            }
        }
        proof {
            assert(j as int == line_end(data, pos));
        }
        dev.read_pos = j;
        self.devices.insert(d, dev);
        proof {
            assert(self.devices@ =~= old(self).devices@.update(d as int, dev));
            assert(self@.devices =~= old(self)@.devices.update(d as int, dev@));
            assert(self@ =~= old(self)@.advance_tr(d as int, line_end(data, pos)));
            lemma_advance_device(old(self)@, d as int, line_end(data, pos));
        }
        out
    }

    /// The duplicate-and-install primitive: duplicate the device
    /// currently installed for `kind` into a fresh handle, install the
    /// target's device in its place, and, when the target was handed
    /// over, close the caller's handle to it — installation keeps its
    /// own reference.  Returns the saved duplicate, which the caller
    /// must treat as the original to restore later.
    pub fn duplicate_and_install(
        &mut self,
        kind: StreamKind,
        target: usize,
        owns_target: bool,
    ) -> (r: Result<usize, StreamError>)
        requires
            old(self)@.wf(),
        ensures
            old(self)@.dup_install_ok(target as int) ==> (r == Ok::<usize, StreamError>(
                old(self).handles.len(),
            ) && final(self)@ == old(self)@.dup_install_tr(kind, target as int, owns_target)),
            !old(self)@.dup_install_ok(target as int) ==> (r == Err::<usize, StreamError>(
                StreamError::BadHandle,
            ) && final(self)@ == old(self)@),
            final(self)@.wf(),
    {
        if !(target < self.handles.len() && self.handles[target].open) {
            return Err(StreamError::BadHandle);
        }
        let dup = self.handles.len();
        let cur = self.installed_device(kind);
        self.handles.push(HandleEntry { device: cur, open: true });
        proof {
            assert(self@.handles =~= old(self)@.handles.push(
                HandleModel { device: cur as int, open: true },
            ));
        }
        let tdev = self.handles[target].device;
        self.set_slot(kind, tdev);
        if owns_target {
            let e = self.handles[target];
            self.set_handle(target, HandleEntry { device: e.device, open: false });
        }
        proof {
            assert(self@ =~= old(self)@.dup_install_tr(kind, target as int, owns_target));
            lemma_dup_install(old(self)@, kind, target as int, owns_target);
        }
        Ok(dup)
    }

    /// Hand out the next sequence token of `kind`.
    pub(crate) fn issue_token(&mut self, kind: StreamKind) -> (token: u64)
        requires
            old(self)@.wf(),
            old(self)@.reg(kind).next < u64::MAX,
        ensures
            token as int == old(self)@.new_token(kind),
            final(self)@ == old(self)@.with_reg(kind, old(self)@.reg(kind).issue()),
            final(self)@.wf(),
    {
        let token = match kind {
            StreamKind::Input => self.reg_in.issue(),
            StreamKind::Output => self.reg_out.issue(),
            StreamKind::Error => self.reg_err.issue(),
        };
        proof {
            assert(self@ =~= old(self)@.with_reg(kind, old(self)@.reg(kind).issue()));
            lemma_issue(old(self)@.reg(kind));
        }
        token
    }

    /// Validate and record the resolution of the guard of `kind`
    /// holding `token`, as [`KindReg::try_retire`] does for the
    /// registry of that kind.
    pub(crate) fn retire_token(&mut self, kind: StreamKind, token: u64) -> (r: Result<
        (),
        StreamError,
    >)
        requires
            old(self)@.wf(),
        ensures
            old(self)@.reg(kind).has_newer(token as int) ==> (r == Err::<(), StreamError>(
                StreamError::OutOfOrderRestore,
            ) && final(self)@ == old(self)@.with_reg(
                kind,
                old(self)@.reg(kind).retire(token as int),
            )),
            !old(self)@.reg(kind).has_newer(token as int) && old(self)@.reg(kind).is_active(
                token as int,
            ) ==> (r == Ok::<(), StreamError>(()) && final(self)@ == old(self)@.with_reg(
                kind,
                old(self)@.reg(kind).retire(token as int),
            )),
            !old(self)@.reg(kind).has_newer(token as int) && !old(self)@.reg(kind).is_active(
                token as int,
            ) ==> (r == Err::<(), StreamError>(StreamError::BadHandle) && final(self)@ == old(
                self,
            )@),
            final(self)@.wf(),
    {
        let r = match kind {
            StreamKind::Input => self.reg_in.try_retire(token),
            StreamKind::Output => self.reg_out.try_retire(token),
            StreamKind::Error => self.reg_err.try_retire(token),
        };
        proof {
            if old(self)@.reg(kind).has_newer(token as int) || old(self)@.reg(kind).is_active(
                token as int,
            ) {
                assert(self@ =~= old(self)@.with_reg(
                    kind,
                    old(self)@.reg(kind).retire(token as int),
                ));
            } else {
                assert(self@ =~= old(self)@);
            }
            lemma_retire(old(self)@.reg(kind), token as int);
        }
        r
    }

    /// The restore primitive: re-install the device that the saved
    /// handle `original` refers to as the standard stream of `kind`.
    /// Releasing the saved handle afterwards is the caller's separate
    /// responsibility.
    pub fn restore(&mut self, kind: StreamKind, original: usize) -> (r: Result<(), StreamError>)
        requires
            old(self)@.wf(),
        ensures
            old(self)@.handle_live(original as int) ==> (r == Ok::<(), StreamError>(())
                && final(self)@ == old(self)@.restore_tr(kind, original as int)),
            !old(self)@.handle_live(original as int) ==> (r == Err::<(), StreamError>(
                StreamError::BadHandle,
            ) && final(self)@ == old(self)@),
            final(self)@.wf(),
    {
        if original < self.handles.len() && self.handles[original].open {
            let d = self.handles[original].device;
            self.set_slot(kind, d);
            proof {
                assert(self@ =~= old(self)@.restore_tr(kind, original as int));
            }
            Ok(())
        } else {
            Err(StreamError::BadHandle)
        }
    }
}

} // verus!
