use stdio_override::StderrOverride;
use stdio_override::StdinOverride;
use stdio_override::StdoutOverride;
use stdio_override::StreamError;
use stdio_override::StreamKind;
use stdio_override::StreamTable;

#[test]
fn round_trip_output() {
    let mut table = StreamTable::new();
    let tx = table.open_device(Vec::new());
    let rx = table.dup_handle(tx).unwrap();

    let guard = StdoutOverride::from_raw(&mut table, tx).unwrap();
    table.write_standard(StreamKind::Output, &b"hello".to_vec());
    guard.flush().unwrap();
    guard.reset(&mut table).unwrap();

    assert_eq!(table.read_all_via(rx).unwrap(), b"hello".to_vec());
}

#[test]
fn round_trip_error() {
    let mut table = StreamTable::new();
    let tx = table.open_device(Vec::new());
    let rx = table.dup_handle(tx).unwrap();

    let guard = StderrOverride::from_raw(&mut table, tx).unwrap();
    table.write_standard(StreamKind::Error, &b"oops: out of tea".to_vec());
    guard.flush().unwrap();
    guard.reset(&mut table).unwrap();

    assert_eq!(table.read_all_via(rx).unwrap(), b"oops: out of tea".to_vec());
}

#[test]
fn restoration_after_reset() {
    let mut table = StreamTable::new();
    let before = table.installed_device(StreamKind::Error);
    let h = table.open_device(Vec::new());

    let guard = StderrOverride::from_raw(&mut table, h).unwrap();
    assert_ne!(table.installed_device(StreamKind::Error), before);
    table.write_standard(StreamKind::Error, &b"redirected".to_vec());
    guard.reset(&mut table).unwrap();

    assert_eq!(table.installed_device(StreamKind::Error), before);
}

#[test]
fn owned_handle_is_consumed() {
    let mut table = StreamTable::new();
    let h = table.open_device(Vec::new());

    let guard = StdoutOverride::from_raw_owned(&mut table, h).unwrap();
    // the caller's handle was closed at installation
    assert!(!table.is_handle_open(h));
    assert_eq!(
        table.write_via(h, &b"x".to_vec()),
        Err(StreamError::BadHandle)
    );
    // the override itself still works: the slot kept its own reference
    table.write_standard(StreamKind::Output, &b"still flowing".to_vec());
    guard.reset(&mut table).unwrap();
    assert!(!table.is_handle_open(h));
}

#[test]
fn borrowed_handle_stays_usable() {
    let mut table = StreamTable::new();
    let h = table.open_device(Vec::new());

    let guard = StdoutOverride::from_raw(&mut table, h).unwrap();
    assert!(table.is_handle_open(h));
    guard.reset(&mut table).unwrap();

    // the caller still owns a usable handle afterwards
    assert!(table.is_handle_open(h));
    assert_eq!(table.write_via(h, &b"mine".to_vec()), Ok(4));
    assert_eq!(table.close_handle(h), Ok(()));
}

#[test]
fn input_example() {
    let mut table = StreamTable::new();
    let target = table.open_device(Vec::new());
    table.write_via(target, &b"12345\n".to_vec()).unwrap();

    let guard = StdinOverride::from_raw(&mut table, target).unwrap();
    let line = table.read_line_standard();
    assert_eq!(line, b"12345\n".to_vec());
    guard.reset(&mut table).unwrap();

    // more data arrives on the old target; the standard input now
    // observes the original source again, which has nothing to read
    table.write_via(target, &b"67890\n".to_vec()).unwrap();
    assert_eq!(table.read_line_standard(), Vec::<u8>::new());
}

#[test]
fn read_line_without_newline() {
    let mut table = StreamTable::new();
    let target = table.open_device(b"no newline here".to_vec());
    let guard = StdinOverride::from_raw(&mut table, target).unwrap();
    assert_eq!(table.read_line_standard(), b"no newline here".to_vec());
    assert_eq!(table.read_line_standard(), Vec::<u8>::new());
    guard.reset(&mut table).unwrap();
}

#[test]
fn read_line_splits_lines() {
    let mut table = StreamTable::new();
    let target = table.open_device(b"first\nsecond\n".to_vec());
    let guard = StdinOverride::from_raw(&mut table, target).unwrap();
    assert_eq!(table.read_line_standard(), b"first\n".to_vec());
    assert_eq!(table.read_line_standard(), b"second\n".to_vec());
    assert_eq!(table.read_line_standard(), Vec::<u8>::new());
    guard.reset(&mut table).unwrap();
}

#[test]
fn guard_reads_saved_original() {
    let mut table = StreamTable::new();
    let first = table.open_device(b"abc".to_vec());
    let g1 = StdinOverride::from_raw(&mut table, first).unwrap();
    let second = table.open_device(b"xyz".to_vec());
    let g2 = StdinOverride::from_raw(&mut table, second).unwrap();

    // reading through the newest guard reads what it saved: the
    // previously installed stream, here the first override's target
    assert_eq!(g2.read(&mut table).unwrap(), b"abc".to_vec());

    g2.reset(&mut table).unwrap();
    g1.reset(&mut table).unwrap();
}

#[test]
fn guard_write_reaches_saved_original() {
    let mut table = StreamTable::new();
    let first = table.open_device(Vec::new());
    let g1 = StdoutOverride::from_raw(&mut table, first).unwrap();
    let second = table.open_device(Vec::new());
    let g2 = StdoutOverride::from_raw(&mut table, second).unwrap();

    // writing through the newest guard writes to what it saved: the
    // previously installed stream, here the first override's target
    assert_eq!(g2.write(&mut table, &b"to the old target".to_vec()), Ok(17));

    g2.reset(&mut table).unwrap();
    g1.reset(&mut table).unwrap();

    assert_eq!(
        table.read_all_via(first).unwrap(),
        b"to the old target".to_vec()
    );
}
