use stdio_override::StderrOverride;
use stdio_override::StdinOverride;
use stdio_override::StdoutOverride;
use stdio_override::StreamError;
use stdio_override::StreamKind;
use stdio_override::StreamTable;

#[test]
fn lib_test_stdout() {
    let mut table = StreamTable::new();
    // an in-memory pipe: one device, a write end and a read end
    let tx = table.open_device(Vec::new());
    let rx = table.dup_handle(tx).unwrap();
    let data = b"12345".to_vec();

    let guard = StdoutOverride::from_raw(&mut table, tx).unwrap();
    table.write_standard(StreamKind::Output, &data);
    guard
        .write(&mut table, &b"Outside! (1/2)\n".to_vec())
        .unwrap();
    guard.reset(&mut table).unwrap();

    table.close_handle(tx).unwrap();

    let contents = table.read_all_via(rx).unwrap();
    assert_eq!(data, contents);
    table.write_standard(StreamKind::Output, &b"Outside! (2/2)\n".to_vec());
}

#[test]
fn test_stderr() {
    let mut table = StreamTable::new();
    let tx = table.open_device(Vec::new());
    let rx = table.dup_handle(tx).unwrap();
    let data = b"123456".to_vec();

    let guard = StderrOverride::from_raw(&mut table, tx).unwrap();
    table.write_standard(StreamKind::Error, &data);
    guard
        .write(&mut table, &b"Outside! (1/2)\n".to_vec())
        .unwrap();
    guard.reset(&mut table).unwrap();

    table.close_handle(tx).unwrap();

    let contents = table.read_all_via(rx).unwrap();
    assert_eq!(data, contents);
    table.write_standard(StreamKind::Error, &b"Outside! (2/2)\n".to_vec());
}

#[test]
fn test_stdin() {
    let mut table = StreamTable::new();
    let rx = table.open_device(Vec::new());
    let tx = table.dup_handle(rx).unwrap();
    let data = b"12345\n".to_vec();

    table.write_via(tx, &data).unwrap();

    let guard = StdinOverride::from_raw_owned(&mut table, rx).unwrap();

    table.write_standard(StreamKind::Output, &b"Please enter some text: ".to_vec());

    let s = table.read_line_standard();

    guard.reset(&mut table).unwrap();

    assert_eq!(data, s);

    table.write_standard(StreamKind::Output, &b"You typed: ".to_vec());
    table.write_standard(StreamKind::Output, &s);
}

#[test]
fn test_multiple() {
    let mut table = StreamTable::new();
    let null = table.open_device(Vec::new());

    let guard_1 = StdoutOverride::from_raw(&mut table, null).unwrap();
    let guard_2 = StdoutOverride::from_raw(&mut table, null).unwrap();

    // nested overrides are supported; they resolve last in, first out
    guard_2.reset(&mut table).unwrap();
    guard_1.reset(&mut table).unwrap();
}

#[test]
fn test_multiple_panic() {
    let mut table = StreamTable::new();
    let null = table.open_device(Vec::new());

    let guard_0 = StdoutOverride::from_raw(&mut table, null).unwrap();
    let guard_1 = StdoutOverride::from_raw(&mut table, null).unwrap();
    let guard_2 = StdoutOverride::from_raw(&mut table, null).unwrap();

    // resolving guard_1 while guard_2 is still active is the ordering
    // violation, reported exactly there
    assert_eq!(
        guard_1.reset(&mut table),
        Err(StreamError::OutOfOrderRestore)
    );

    // guard_2 and guard_0 remain independently resolvable
    assert_eq!(guard_2.reset(&mut table), Ok(()));
    assert_eq!(guard_0.reset(&mut table), Ok(()));
}

#[test]
fn test_original() {
    let mut table = StreamTable::new();
    let tx = table.open_device(Vec::new());
    let rx = table.dup_handle(tx).unwrap();

    let real_stdout = table
        .duplicate_and_install(StreamKind::Output, tx, true)
        .unwrap();

    table.write_standard(StreamKind::Output, &b"Let's see where it's saved\n".to_vec());

    table.restore(StreamKind::Output, real_stdout).unwrap();

    let contents = table.read_all_via(rx).unwrap();
    assert_eq!(b"Let's see where it's saved\n".to_vec(), contents);

    table.write_standard(StreamKind::Output, &b"got back\n".to_vec());
}
