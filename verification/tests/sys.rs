use xyio::operation::IoError;
use xyio::sys::accept4;
use xyio::sys::epoll_create;
use xyio::sys::failure;
use xyio::sys::sendmsg;
use xyio::sys::EPOLL_CLOEXEC;

#[test]
fn error_numbers_are_told_apart() {
    assert_eq!(IoError::WouldBlock, failure(11));
    assert_eq!(IoError::InProgress, failure(115));
    assert_eq!(IoError::Os(9), failure(9));
}

#[test]
fn a_descriptor_is_not_negative() {
    assert_eq!(Ok(0), epoll_create(0, 11));
    assert_eq!(Err(IoError::Os(24)), epoll_create(-1, 24));
    assert_eq!(Ok(7), accept4(7, 0));
    assert_eq!(Err(IoError::WouldBlock), accept4(-1, 11));
    assert_eq!(0x80000, EPOLL_CLOEXEC);
}

#[test]
fn a_send_counts_its_bytes() {
    assert_eq!(Ok(0), sendmsg(0, 11));
    assert_eq!(Ok(125), sendmsg(125, 0));
    assert_eq!(Err(IoError::WouldBlock), sendmsg(-1, 11));
    assert_eq!(Err(IoError::Os(32)), sendmsg(-1, 32));
}
