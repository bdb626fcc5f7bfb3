use vstd::prelude::*;

use crate::kind::StreamKind;
use crate::model::{
    lemma_active_bound, lemma_create, lemma_resolve_success, lemma_resolve_violation,
    lemma_write_device, TableModel,
};

verus! {

/// Round trip: overriding any stream kind to any open target, writing
/// through the standard stream interface, and resolving the guard
/// leaves exactly the written bytes appended to the target's device —
/// so a target that starts empty and unread reads back byte for byte
/// what was written.
pub proof fn round_trip(
    t: TableModel,
    kind: StreamKind,
    target: int,
    owns_target: bool,
    bytes: Seq<u8>,
)
    requires
        t.wf(),
        t.create_ok(target),
    ensures
        ({
            let d = t.device_of(target);
            let original = t.new_handle_id();
            let token = t.new_token(kind);
            let t1 = t.create_tr(kind, target, owns_target);
            let t2 = t1.write_device_tr(t1.slot(kind), bytes);
            let t3 = t2.resolve_success_tr(kind, original, token);
            &&& t2.resolve_ok(kind, token)
            &&& t3.devices[d].data == t.devices[d].data + bytes
            &&& t3.devices[d].read_pos == t.devices[d].read_pos
            &&& (t.devices[d].data.len() == 0 && t.devices[d].read_pos == 0 ==> t3.device_rest(d)
                == bytes)
        }),
{
    let d = t.device_of(target);
    let original = t.new_handle_id();
    let token = t.new_token(kind);
    lemma_create(t, kind, target, owns_target);
    let t1 = t.create_tr(kind, target, owns_target);
    assert(t1.slot(kind) == d);
    lemma_write_device(t1, d, bytes);
    let t2 = t1.write_device_tr(d, bytes);
    assert(t2.reg(kind) == t1.reg(kind));
    assert(t2.handle_live(original));
    assert(t2.device_of(original) == t.slot(kind));
    lemma_resolve_success(t2, kind, original, token);
    let t3 = t2.resolve_success_tr(kind, original, token);
    assert(t3.devices[d].data == t.devices[d].data + bytes);
    if t.devices[d].data.len() == 0 && t.devices[d].read_pos == 0 {
        assert(t3.device_rest(d) =~= bytes);
    }
}

/// Restoration: after a guard resolves cleanly, the standard stream of
/// its kind observes the device that was installed immediately before
/// the guard was created, whatever was written through the override in
/// between.
pub proof fn restoration(
    t: TableModel,
    kind: StreamKind,
    target: int,
    owns_target: bool,
    bytes: Seq<u8>,
)
    requires
        t.wf(),
        t.create_ok(target),
    ensures
        ({
            let original = t.new_handle_id();
            let token = t.new_token(kind);
            let t1 = t.create_tr(kind, target, owns_target);
            let t2 = t1.write_device_tr(t1.slot(kind), bytes);
            &&& t2.resolve_ok(kind, token)
            &&& t2.resolve_success_tr(kind, original, token).slot(kind) == t.slot(kind)
        }),
{
    let original = t.new_handle_id();
    let token = t.new_token(kind);
    lemma_create(t, kind, target, owns_target);
    let t1 = t.create_tr(kind, target, owns_target);
    lemma_write_device(t1, t1.slot(kind), bytes);
    let t2 = t1.write_device_tr(t1.slot(kind), bytes);
    assert(t2.handle_live(original));
    assert(t2.device_of(original) == t.slot(kind));
    lemma_resolve_success(t2, kind, original, token);
}

/// Ownership, handed-over case: a guard created from an owned raw
/// handle closes that handle at installation, and resolving the guard
/// leaves it closed — the caller can never use it again.
pub proof fn ownership_owned(t: TableModel, kind: StreamKind, target: int)
    requires
        t.wf(),
        t.create_ok(target),
    ensures
        ({
            let original = t.new_handle_id();
            let token = t.new_token(kind);
            let t1 = t.create_tr(kind, target, true);
            &&& !t1.handle_live(target)
            &&& t1.resolve_ok(kind, token)
            &&& !t1.resolve_success_tr(kind, original, token).handle_live(target)
        }),
{
    let original = t.new_handle_id();
    let token = t.new_token(kind);
    lemma_create(t, kind, target, true);
    let t1 = t.create_tr(kind, target, true);
    assert(target < t.handles.len());
    assert(original == t.handles.len());
    lemma_resolve_success(t1, kind, original, token);
    assert(t1.resolve_success_tr(kind, original, token).handles[target] == t1.handles[target]);
}

/// Ownership, borrowed case: a guard created from a borrowed raw
/// handle leaves that handle open and untouched, both while the
/// override is active and after the guard resolves.
pub proof fn ownership_borrowed(t: TableModel, kind: StreamKind, target: int)
    requires
        t.wf(),
        t.create_ok(target),
    ensures
        ({
            let original = t.new_handle_id();
            let token = t.new_token(kind);
            let t1 = t.create_tr(kind, target, false);
            let t3 = t1.resolve_success_tr(kind, original, token);
            &&& t1.handle_live(target)
            &&& t1.handles[target] == t.handles[target]
            &&& t1.resolve_ok(kind, token)
            &&& t3.handle_live(target)
            &&& t3.handles[target] == t.handles[target]
        }),
{
    let original = t.new_handle_id();
    let token = t.new_token(kind);
    lemma_create(t, kind, target, false);
    let t1 = t.create_tr(kind, target, false);
    assert(target < t.handles.len());
    assert(original == t.handles.len());
    lemma_resolve_success(t1, kind, original, token);
    assert(t1.resolve_success_tr(kind, original, token).handles[target] == t1.handles[target]);
}

/// Nesting is supported: creating a second guard for the same stream
/// kind while the first is still active succeeds, and the second guard
/// receives a strictly newer sequence token.
pub proof fn nested_overrides_supported(t: TableModel, kind: StreamKind, h0: int, h1: int)
    requires
        t.wf(),
        t.create_ok(h0),
        t.handle_live(h1),
    ensures
        t.create_tr(kind, h0, false).create_ok(h1),
        t.create_tr(kind, h0, false).new_token(kind) > t.new_token(kind),
{
    lemma_create(t, kind, h0, false);
}

/// Stack discipline, kept: three nested guards of one stream kind
/// resolve cleanly in reverse creation order, and after each resolve
/// the installed device reverts to the next older guard's target —
/// finally to the device installed before any of them existed.
pub proof fn stack_discipline_success(t: TableModel, kind: StreamKind, h0: int, h1: int, h2: int)
    requires
        t.wf(),
        t.handle_live(h0),
        t.handle_live(h1),
        t.handle_live(h2),
    ensures
        ({
            let o0 = t.new_handle_id();
            let k0 = t.new_token(kind);
            let t0 = t.create_tr(kind, h0, false);
            let o1 = t0.new_handle_id();
            let k1 = t0.new_token(kind);
            let t1 = t0.create_tr(kind, h1, false);
            let o2 = t1.new_handle_id();
            let k2 = t1.new_token(kind);
            let t2 = t1.create_tr(kind, h2, false);
            &&& t2.slot(kind) == t.device_of(h2)
            &&& t2.resolve_ok(kind, k2)
            &&& ({
                let u2 = t2.resolve_success_tr(kind, o2, k2);
                &&& u2.slot(kind) == t.device_of(h1)
                &&& u2.resolve_ok(kind, k1)
                &&& ({
                    let u1 = u2.resolve_success_tr(kind, o1, k1);
                    &&& u1.slot(kind) == t.device_of(h0)
                    &&& u1.resolve_ok(kind, k0)
                    &&& ({
                        let u0 = u1.resolve_success_tr(kind, o0, k0);
                        &&& u0.slot(kind) == t.slot(kind)
                        &&& u0.wf()
                    })
                })
            })
        }),
{
    let o0 = t.new_handle_id();
    let k0 = t.new_token(kind);
    lemma_create(t, kind, h0, false);
    let t0 = t.create_tr(kind, h0, false);
    let o1 = t0.new_handle_id();
    let k1 = t0.new_token(kind);
    lemma_create(t0, kind, h1, false);
    let t1 = t0.create_tr(kind, h1, false);
    let o2 = t1.new_handle_id();
    let k2 = t1.new_token(kind);
    lemma_create(t1, kind, h2, false);
    let t2 = t1.create_tr(kind, h2, false);

    assert(t0.device_of(h1) == t.device_of(h1));
    assert(t1.device_of(h2) == t.device_of(h2));
    assert(t2.slot(kind) == t.device_of(h2));
    assert(t0.slot(kind) == t.device_of(h0));
    assert(t1.slot(kind) == t.device_of(h1));

    // the saved handles and their devices, as seen in t2
    assert(t2.handle_live(o2) && t2.device_of(o2) == t.device_of(h1));
    assert(t1.handle_live(o1) && t1.device_of(o1) == t.device_of(h0));
    assert(t2.handles[o1] == t1.handles[o1]);
    assert(t2.handle_live(o1) && t2.device_of(o1) == t.device_of(h0));
    assert(t0.handle_live(o0) && t0.device_of(o0) == t.slot(kind));
    assert(t1.handles[o0] == t0.handles[o0]);
    assert(t2.handles[o0] == t1.handles[o0]);
    assert(t2.handle_live(o0) && t2.device_of(o0) == t.slot(kind));

    // tokens: k0 < k1 < k2, all active in t2
    assert(k0 < k1 < k2);
    assert(t2.reg(kind).is_active(k0));
    assert(t2.reg(kind).is_active(k1));
    assert(t2.reg(kind).is_active(k2));

    // g2 resolves first
    assert(t2.resolve_ok(kind, k2));
    lemma_resolve_success(t2, kind, o2, k2);
    let u2 = t2.resolve_success_tr(kind, o2, k2);
    assert(u2.slot(kind) == t.device_of(h1));

    // then g1
    assert forall|x: int| u2.reg(kind).is_active(x) implies x <= k1 by {
        assert(t2.reg(kind).is_active(x) && x != k2);
        assert(t1.reg(kind).is_active(x) || x == k2);
        assert(t0.reg(kind).is_active(x) || x == k1);
        if t0.reg(kind).is_active(x) {
            lemma_active_bound(t0.reg(kind), x);
        }
    }
    assert(u2.resolve_ok(kind, k1));
    assert(u2.handles[o1] == t2.handles[o1]);
    assert(u2.handle_live(o1));
    assert(u2.reg(kind).is_active(k1));
    lemma_resolve_success(u2, kind, o1, k1);
    let u1 = u2.resolve_success_tr(kind, o1, k1);
    assert(u1.slot(kind) == t.device_of(h0));

    // then g0
    assert forall|x: int| u1.reg(kind).is_active(x) implies x <= k0 by {
        assert(u2.reg(kind).is_active(x) && x != k1);
        assert(t2.reg(kind).is_active(x) && x != k2);
        assert(t1.reg(kind).is_active(x) || x == k2);
        assert(t0.reg(kind).is_active(x) || x == k1);
        assert(t.reg(kind).is_active(x) || x == k0);
        if t.reg(kind).is_active(x) {
            lemma_active_bound(t.reg(kind), x);
        }
    }
    assert(u1.resolve_ok(kind, k0));
    assert(u1.handles[o0] == u2.handles[o0]);
    assert(u2.handles[o0] == t2.handles[o0]);
    assert(u1.handle_live(o0));
    assert(u1.reg(kind).is_active(k0));
    lemma_resolve_success(u1, kind, o0, k0);
    assert(u1.resolve_success_tr(kind, o0, k0).slot(kind) == t.slot(kind));
}

/// Stack discipline, broken: with three nested guards of one stream
/// kind, resolving the middle one before the newest triggers the
/// ordering violation exactly there, and leaves the stream state
/// untouched; the newest and the oldest guard then resolve cleanly, in
/// that order, without re-triggering the violation, and the original
/// device ends up re-installed.
pub proof fn stack_discipline_violation(t: TableModel, kind: StreamKind, h0: int, h1: int, h2: int)
    requires
        t.wf(),
        t.handle_live(h0),
        t.handle_live(h1),
        t.handle_live(h2),
    ensures
        ({
            let o0 = t.new_handle_id();
            let k0 = t.new_token(kind);
            let t0 = t.create_tr(kind, h0, false);
            let o1 = t0.new_handle_id();
            let k1 = t0.new_token(kind);
            let t1 = t0.create_tr(kind, h1, false);
            let o2 = t1.new_handle_id();
            let k2 = t1.new_token(kind);
            let t2 = t1.create_tr(kind, h2, false);
            &&& !t2.resolve_ok(kind, k1)
            &&& ({
                let v = t2.resolve_violation_tr(kind, k1);
                &&& v.slot(kind) == t2.slot(kind)
                &&& v.devices == t2.devices
                &&& v.handles == t2.handles
                &&& v.resolve_ok(kind, k2)
                &&& ({
                    let u2 = v.resolve_success_tr(kind, o2, k2);
                    &&& u2.slot(kind) == t.device_of(h1)
                    &&& u2.resolve_ok(kind, k0)
                    &&& u2.resolve_success_tr(kind, o0, k0).slot(kind) == t.slot(kind)
                })
            })
        }),
{
    let o0 = t.new_handle_id();
    let k0 = t.new_token(kind);
    lemma_create(t, kind, h0, false);
    let t0 = t.create_tr(kind, h0, false);
    let o1 = t0.new_handle_id();
    let k1 = t0.new_token(kind);
    lemma_create(t0, kind, h1, false);
    let t1 = t0.create_tr(kind, h1, false);
    let o2 = t1.new_handle_id();
    let k2 = t1.new_token(kind);
    lemma_create(t1, kind, h2, false);
    let t2 = t1.create_tr(kind, h2, false);

    assert(k0 < k1 < k2);
    assert(t2.reg(kind).is_active(k2));

    // resolving g1 now is the violation: g2 is newer and still active
    assert(t2.reg(kind).has_newer(k1)) by {
        let i = choose|i: int|
            0 <= i < t2.reg(kind).active.len() && t2.reg(kind).active[i] == k2;
        assert(t2.reg(kind).active[i] > k1);
    }
    lemma_resolve_violation(t2, kind, k1);
    let v = t2.resolve_violation_tr(kind, k1);

    // g2 still resolves cleanly
    assert forall|x: int| v.reg(kind).is_active(x) implies x <= k2 by {
        assert(t2.reg(kind).is_active(x));
        assert(t1.reg(kind).is_active(x) || x == k2);
        if t1.reg(kind).is_active(x) {
            lemma_active_bound(t1.reg(kind), x);
        }
    }
    assert(v.resolve_ok(kind, k2));
    assert(v.handles[o2] == t2.handles[o2]);
    assert(t2.handle_live(o2) && t2.device_of(o2) == t.device_of(h1));
    assert(v.handle_live(o2));
    assert(v.reg(kind).is_active(k2));
    lemma_resolve_success(v, kind, o2, k2);
    let u2 = v.resolve_success_tr(kind, o2, k2);
    assert(u2.slot(kind) == t.device_of(h1));

    // and then g0, without any further violation
    assert forall|x: int| u2.reg(kind).is_active(x) implies x <= k0 by {
        assert(v.reg(kind).is_active(x) && x != k2);
        assert(t2.reg(kind).is_active(x) && x != k1);
        assert(t1.reg(kind).is_active(x) || x == k2);
        assert(t0.reg(kind).is_active(x) || x == k1);
        assert(t.reg(kind).is_active(x) || x == k0);
        if t.reg(kind).is_active(x) {
            lemma_active_bound(t.reg(kind), x);
        }
    }
    assert(u2.resolve_ok(kind, k0));
    assert(t0.handle_live(o0) && t0.device_of(o0) == t.slot(kind));
    assert(t1.handles[o0] == t0.handles[o0]);
    assert(t2.handles[o0] == t1.handles[o0]);
    assert(u2.handles[o0] == v.handles[o0]);
    assert(u2.handle_live(o0));
    assert(u2.device_of(o0) == t.slot(kind));
    assert(u2.reg(kind).is_active(k0));
    lemma_resolve_success(u2, kind, o0, k0);
}

} // verus!
