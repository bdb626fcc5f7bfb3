use vstd::prelude::*;

use crate::error::StreamError;

verus! {

/// Interpret the result convention of the POSIX stream primitives
/// (`dup`, `dup2`, `close`): the distinguished sentinel `-1` signals
/// failure, with the cause in the platform's last error code; any other
/// value is the successful result (a descriptor, or zero).
pub fn posix_result(ret: i64, last_error: i64) -> (r: Result<i64, StreamError>)
    ensures
        ret == -1 ==> r == Err::<i64, StreamError>((StreamError::Os { code: last_error })),
        ret != -1 ==> r == Ok::<i64, StreamError>(ret),
{
    if ret == -1 {
        Err(StreamError::Os { code: last_error })
    } else {
        Ok(ret)
    }
}

/// Interpret the boolean result convention of the Windows stream
/// primitives (`SetStdHandle`, `CloseHandle`, `DuplicateHandle`): a zero
/// value signals failure, with the cause in the platform's last error
/// code; any nonzero value is success.
pub fn windows_bool_result(ret: i32, last_error: i64) -> (r: Result<(), StreamError>)
    ensures
        ret == 0 ==> r == Err::<(), StreamError>((StreamError::Os { code: last_error })),
        ret != 0 ==> r == Ok::<(), StreamError>(()),
{
    if ret == 0 {
        Err(StreamError::Os { code: last_error })
    } else {
        Ok(())
    }
}

/// Interpret the handle result convention of the Windows stream
/// primitives (`GetStdHandle`): the distinguished invalid-handle
/// sentinel, an all-ones bit pattern, signals failure; any other value
/// is the retrieved handle.
pub fn windows_handle_result(handle: u64, last_error: i64) -> (r: Result<u64, StreamError>)
    ensures
        handle == u64::MAX ==> r == Err::<u64, StreamError>((StreamError::Os { code: last_error })),
        handle != u64::MAX ==> r == Ok::<u64, StreamError>(handle),
{
    if handle == u64::MAX {
        Err(StreamError::Os { code: last_error })
    } else {
        Ok(handle)
    }
}

} // verus!
