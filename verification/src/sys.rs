//! The outcomes of raw system calls.
//!
//! A driver makes the call and hands in what it returned, with the error number that the
//! thread had afterwards.

use vstd::prelude::*;

use crate::operation::IoError;

verus! {

/// Creation flag of a reactor: its descriptor is closed when another program is started.
pub const EPOLL_CLOEXEC: i32 = 0x80000;

/// The error number of a call that would have to wait.
pub const EAGAIN: i32 = 11;

/// The error number of a connection attempt that goes on in the background.
pub const EINPROGRESS: i32 = 115;

/// The failure that an error number stands for.
pub open spec fn failure_spec(errno: i32) -> IoError {
    if errno == EAGAIN {
        IoError::WouldBlock
    } else if errno == EINPROGRESS {
        IoError::InProgress
    } else {
        IoError::Os(errno)
    }
}

/// The failure that an error number stands for.
pub fn failure(errno: i32) -> (r: IoError)
    ensures
        r == failure_spec(errno),
{
    if errno == EAGAIN {
        IoError::WouldBlock
    } else if errno == EINPROGRESS {
        IoError::InProgress
    } else {
        IoError::Os(errno)
    }
}

/// What `epoll_create1` has come to.
pub fn epoll_create(fd: i32, errno: i32) -> (r: Result<i32, IoError>)
    ensures
        r == (if fd >= 0 {
            Ok(fd)
        } else {
            Err(failure_spec(errno))
        }),
{
    if fd >= 0 {
        Ok(fd)
    } else {
        Err(failure(errno))
    }
}

/// What `accept4` has come to.
pub fn accept4(fd: i32, errno: i32) -> (r: Result<i32, IoError>)
    ensures
        r == (if fd >= 0 {
            Ok(fd)
        } else {
            Err(failure_spec(errno))
        }),
{
    if fd >= 0 {
        Ok(fd)
    } else {
        Err(failure(errno))
    }
}

/// What `sendmsg` has come to.
pub fn sendmsg(rc: isize, errno: i32) -> (r: Result<usize, IoError>)
    ensures
        r == (if rc < 0 {
            Err(failure_spec(errno))
        } else {
            Ok(rc as usize)
        }),
{
    if rc < 0 {
        Err(failure(errno))
    } else {
        Ok(rc as usize)
    }
}

/// A failure is told from the others by its error number alone: 11 is that the call would have to
/// wait, 115 that a connection attempt goes on, and any other number is passed on.
pub proof fn law_failures_are_told_apart(errno: i32)
    ensures
        failure_spec(errno) is WouldBlock <==> errno == 11,
        failure_spec(errno) is InProgress <==> errno == 115,
        errno != 11 && errno != 115 ==> failure_spec(errno) == IoError::Os(errno),
{
}

} // verus!
