use stdio_override::KindReg;
use stdio_override::StderrOverride;
use stdio_override::StdoutOverride;
use stdio_override::StreamError;
use stdio_override::StreamKind;
use stdio_override::StreamTable;

#[test]
fn stack_discipline_in_order() {
    let mut table = StreamTable::new();
    let original = table.installed_device(StreamKind::Output);
    let h0 = table.open_device(Vec::new());
    let h1 = table.open_device(Vec::new());
    let h2 = table.open_device(Vec::new());
    let d0 = table.device_of_handle(h0).unwrap();
    let d1 = table.device_of_handle(h1).unwrap();
    let d2 = table.device_of_handle(h2).unwrap();

    let g0 = StdoutOverride::from_raw(&mut table, h0).unwrap();
    assert_eq!(table.installed_device(StreamKind::Output), d0);
    let g1 = StdoutOverride::from_raw(&mut table, h1).unwrap();
    assert_eq!(table.installed_device(StreamKind::Output), d1);
    let g2 = StdoutOverride::from_raw(&mut table, h2).unwrap();
    assert_eq!(table.installed_device(StreamKind::Output), d2);

    // resolving in reverse creation order succeeds, and after each
    // resolve the installed device reverts to the next older target
    assert_eq!(g2.reset(&mut table), Ok(()));
    assert_eq!(table.installed_device(StreamKind::Output), d1);
    assert_eq!(g1.reset(&mut table), Ok(()));
    assert_eq!(table.installed_device(StreamKind::Output), d0);
    assert_eq!(g0.reset(&mut table), Ok(()));
    assert_eq!(table.installed_device(StreamKind::Output), original);
}

#[test]
fn stack_discipline_out_of_order() {
    let mut table = StreamTable::new();
    let original = table.installed_device(StreamKind::Output);
    let h0 = table.open_device(Vec::new());
    let h1 = table.open_device(Vec::new());
    let h2 = table.open_device(Vec::new());
    let d1 = table.device_of_handle(h1).unwrap();
    let d2 = table.device_of_handle(h2).unwrap();

    let g0 = StdoutOverride::from_raw(&mut table, h0).unwrap();
    let g1 = StdoutOverride::from_raw(&mut table, h1).unwrap();
    let g2 = StdoutOverride::from_raw(&mut table, h2).unwrap();

    // the violation leaves the installed stream untouched
    assert_eq!(g1.reset(&mut table), Err(StreamError::OutOfOrderRestore));
    assert_eq!(table.installed_device(StreamKind::Output), d2);

    // the remaining guards restore what they saved, in order
    assert_eq!(g2.reset(&mut table), Ok(()));
    assert_eq!(table.installed_device(StreamKind::Output), d1);
    assert_eq!(g0.reset(&mut table), Ok(()));
    assert_eq!(table.installed_device(StreamKind::Output), original);
}

#[test]
fn double_override_succeeds() {
    let mut table = StreamTable::new();
    let h = table.open_device(Vec::new());

    let g1 = StdoutOverride::from_raw(&mut table, h).unwrap();
    let g2 = StdoutOverride::from_raw(&mut table, h).unwrap();

    // the second guard received a newer sequence token
    assert!(g2.guard.index > g1.guard.index);

    g2.reset(&mut table).unwrap();
    g1.reset(&mut table).unwrap();
}

#[test]
fn kinds_are_independent() {
    let mut table = StreamTable::new();
    let h = table.open_device(Vec::new());

    let g_out = StdoutOverride::from_raw(&mut table, h).unwrap();
    let g_err = StderrOverride::from_raw(&mut table, h).unwrap();

    // the standard-error guard is newer, but it guards another stream
    // kind: resolving the standard-output guard first is no violation
    assert_eq!(g_out.reset(&mut table), Ok(()));
    assert_eq!(g_err.reset(&mut table), Ok(()));
}

#[test]
fn registry_retires_tokens_once() {
    let mut reg = KindReg::new();
    assert_eq!(reg.try_retire(0), Err(StreamError::BadHandle));

    let t0 = reg.issue();
    let t1 = reg.issue();
    assert!(t1 > t0);

    assert_eq!(reg.try_retire(t0), Err(StreamError::OutOfOrderRestore));
    assert_eq!(reg.try_retire(t1), Ok(()));
    // the tokens are already retired
    assert_eq!(reg.try_retire(t1), Err(StreamError::BadHandle));
    assert_eq!(reg.try_retire(t0), Err(StreamError::BadHandle));
}

#[test]
fn override_refuses_closed_handle() {
    let mut table = StreamTable::new();
    let h = table.open_device(Vec::new());
    table.close_handle(h).unwrap();

    match StdoutOverride::from_raw(&mut table, h) {
        Err(StreamError::BadHandle) => {},
        _ => panic!("a closed handle must be refused"),
    }
}

#[test]
fn override_refuses_unknown_handle() {
    let mut table = StreamTable::new();
    match StdoutOverride::from_raw_owned(&mut table, 99) {
        Err(StreamError::BadHandle) => {},
        _ => panic!("an unknown handle must be refused"),
    }
}

#[test]
fn close_is_not_idempotent() {
    let mut table = StreamTable::new();
    let h = table.open_device(Vec::new());
    assert_eq!(table.close_handle(h), Ok(()));
    assert_eq!(table.close_handle(h), Err(StreamError::BadHandle));
}

#[test]
fn io_refuses_closed_handle() {
    let mut table = StreamTable::new();
    let h = table.open_device(b"data".to_vec());
    table.close_handle(h).unwrap();
    assert_eq!(table.dup_handle(h), Err(StreamError::BadHandle));
    assert_eq!(table.read_all_via(h), Err(StreamError::BadHandle));
    assert_eq!(
        table.write_via(h, &b"x".to_vec()),
        Err(StreamError::BadHandle)
    );
}
