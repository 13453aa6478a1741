use xyio::operation::IoError;
use xyio::schedule::encode;
use xyio::schedule::on_connection;
use xyio::schedule::worker_name;
use xyio::schedule::Accepted;
use xyio::schedule::Scheduler;

#[test]
fn descriptors_arrive_as_they_were_sent() {
    assert_eq!([0x78, 0x56, 0x34, 0x12], encode(0x12345678));
    assert_eq!([0xff, 0xff, 0xff, 0xff], encode(-1));
    for fd in [0, 1, 255, 256, 0x12345678, -1, i32::MAX, i32::MIN] {
        assert_eq!(fd, on_connection(Ok(4), &encode(fd)));
    }
    assert_eq!(0x01020304, on_connection(Ok(4), &[4, 3, 2, 1, 9]));
}

#[test]
fn connections_are_dealt_out_in_turn() {
    let mut scheduler = Scheduler::new(3);
    let mut workers = vec![];
    for _ in 0..7 {
        workers.push(scheduler.next());
    }
    assert_eq!(vec![0, 1, 2, 0, 1, 2, 0], workers);
    let dealt = |worker| workers.iter().filter(|w| **w == worker).count();
    assert_eq!([3, 2, 2], [dealt(0), dealt(1), dealt(2)]);

    let mut scheduler = Scheduler::after_first(3);
    assert_eq!(1, scheduler.next());
    let mut scheduler = Scheduler::after_first(1);
    assert_eq!(0, scheduler.next());
}

#[test]
fn many_workers_do_not_overflow() {
    let mut scheduler = Scheduler::new(usize::MAX);
    assert_eq!(0, scheduler.next());
    assert_eq!(1, scheduler.next());
}

#[test]
fn a_failed_accept_stops_the_server() {
    let mut scheduler = Scheduler::new(2);
    assert_eq!(Accepted::Send(0, [5, 0, 0, 0]), scheduler.on_accept(Ok(5)));
    assert_eq!(Accepted::Send(1, [6, 1, 0, 0]), scheduler.on_accept(Ok(262)));
    assert_eq!(Accepted::Stop, scheduler.on_accept(Err(IoError::Os(24))));
    assert_eq!(Accepted::Stop, scheduler.on_accept(Err(IoError::WouldBlock)));
    assert_eq!(Accepted::Send(0, [5, 0, 0, 0]), scheduler.on_accept(Ok(5)));
}

#[test]
fn accepted_connections_are_sent_in_turn() {
    let mut scheduler = Scheduler::new(2);
    let fds = [7, 300, 9];
    let sent: Vec<Accepted> = fds.iter().map(|fd| scheduler.on_accept(Ok(*fd))).collect();
    assert_eq!(
        vec![
            Accepted::Send(0, [7, 0, 0, 0]),
            Accepted::Send(1, [44, 1, 0, 0]),
            Accepted::Send(0, [9, 0, 0, 0]),
        ],
        sent
    );
    assert_eq!(Accepted::Stop, scheduler.on_accept(Err(IoError::Os(24))));
}

#[test]
fn only_a_closed_listener_stops_the_patient_server() {
    let mut scheduler = Scheduler::after_first(2);
    assert_eq!(Accepted::Send(1, [5, 0, 0, 0]), scheduler.on_accept_or_retry(Ok(5)));
    assert_eq!(Accepted::Retry, scheduler.on_accept_or_retry(Err(IoError::Os(24))));
    assert_eq!(Accepted::Retry, scheduler.on_accept_or_retry(Err(IoError::WouldBlock)));
    assert_eq!(Accepted::Stop, scheduler.on_accept_or_retry(Err(IoError::Os(9))));
}

#[test]
fn worker_names() {
    for tid in [0, 1, 9, 10, 99, 100, 12345] {
        assert_eq!(format!("work#{:02}", tid), worker_name(tid));
    }
}
