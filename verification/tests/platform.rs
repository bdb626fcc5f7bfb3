use stdio_override::platform::posix_result;
use stdio_override::platform::windows_bool_result;
use stdio_override::platform::windows_handle_result;
use stdio_override::StreamError;

#[test]
fn posix_sentinel_is_failure() {
    assert_eq!(posix_result(-1, 9), Err(StreamError::Os { code: 9 }));
    assert_eq!(posix_result(-1, 24), Err(StreamError::Os { code: 24 }));
}

#[test]
fn posix_other_values_succeed() {
    assert_eq!(posix_result(0, 0), Ok(0));
    assert_eq!(posix_result(7, 9), Ok(7));
}

#[test]
fn windows_zero_bool_is_failure() {
    assert_eq!(windows_bool_result(0, 6), Err(StreamError::Os { code: 6 }));
    assert_eq!(windows_bool_result(1, 6), Ok(()));
    assert_eq!(windows_bool_result(-1, 6), Ok(()));
}

#[test]
fn windows_invalid_handle_is_failure() {
    assert_eq!(
        windows_handle_result(u64::MAX, 2),
        Err(StreamError::Os { code: 2 })
    );
    assert_eq!(windows_handle_result(0, 2), Ok(0));
    assert_eq!(windows_handle_result(1234, 2), Ok(1234));
}
