use xyio::io::event_loop::EventLoop;
use xyio::io::event_loop::Step;
use xyio::io::tcp::AddressFamily;
use xyio::io::tcp::Change;
use xyio::io::tcp::TcpStream;
use xyio::io::Context;
use xyio::io::DescriptorSet;
use xyio::io::EventData;
use xyio::io::EventFilter;
use xyio::io::KEvent;
use xyio::io::OperationQueue;
use xyio::operation::IoError;
use xyio::operation::Operation;
use xyio::operation::UserOperation;

fn advance(turn: &mut EventLoop, ctx: &mut Context<u32>) -> Step<u32> {
    loop {
        if let Some(fd) = turn.needs() {
            assert!(ctx.descriptors.get_mut(&fd).is_some());
        }
        match turn.run(ctx) {
            Step::Idle => {}
            step => return step,
        }
    }
}

fn event(ident: u64, filter: EventFilter) -> KEvent {
    KEvent { ident, filter }
}

#[test]
fn descriptors_are_kept_by_number() {
    let mut set: DescriptorSet<u32> = DescriptorSet::new();
    assert!(set.get_mut(&5).is_none());
    assert!(set.insert(5, EventData::new(Some(UserOperation::Call(1)), None)).is_none());
    set.get_mut(&5).unwrap().write_handler = Some(UserOperation::Call(2));
    let was = set.insert(5, EventData::new(None, None)).unwrap();
    assert!(matches!(was.read_handler, Some(UserOperation::Call(1))));
    assert!(matches!(was.write_handler, Some(UserOperation::Call(2))));
    assert_eq!(EventFilter::Other, was.events);
}

#[test]
fn operations_leave_the_queue_in_order() {
    let mut queue: OperationQueue<u32> = OperationQueue::new();
    assert!(queue.is_empty());
    queue.push_back(Operation::Poll);
    queue.push_back(Operation::User(UserOperation::Call(1)));
    assert_eq!(2, queue.len());
    assert!(!queue.is_empty());
    assert!(matches!(queue.pop_front(), Some(Operation::Poll)));
    assert!(matches!(queue.pop_front(), Some(Operation::User(UserOperation::Call(1)))));
    assert!(queue.pop_front().is_none());
}

#[test]
fn an_idle_loop_stops() {
    let mut ctx: Context<u32> = Context::new(3);
    assert_eq!(3, ctx.fd);
    let mut turn = EventLoop::new();
    assert!(matches!(advance(&mut turn, &mut ctx), Step::Stop));
    assert!(matches!(advance(&mut turn, &mut ctx), Step::Stop));
}

#[test]
fn a_turn_without_a_poll_does_not_wait() {
    let mut ctx: Context<u32> = Context::new(3);
    ctx.queue.push_back(Operation::User(UserOperation::Call(1)));
    let mut turn = EventLoop::new();
    assert!(matches!(advance(&mut turn, &mut ctx), Step::Call(UserOperation::Call(1))));
    assert!(matches!(advance(&mut turn, &mut ctx), Step::Stop));
}

#[test]
fn a_connection_calls_back_and_the_loop_ends() {
    let mut ctx: Context<u32> = Context::new(3);
    let started = TcpStream::connect(Ok(7), Err(IoError::InProgress), 42, &mut ctx);
    assert_eq!(Ok(()), started);
    let mut turn = EventLoop::new();
    assert!(matches!(advance(&mut turn, &mut ctx), Step::Wait(60000)));
    turn.polled(Ok(vec![event(7, EventFilter::Write)]));
    assert!(matches!(advance(&mut turn, &mut ctx), Step::Call(UserOperation::Call(42))));
    assert!(matches!(advance(&mut turn, &mut ctx), Step::Stop));
}

#[test]
fn a_socket_that_cannot_be_made_is_an_error() {
    let mut ctx: Context<u32> = Context::new(3);
    let started = TcpStream::connect(Err(IoError::Os(24)), Ok(()), 42, &mut ctx);
    assert_eq!(Err(IoError::Os(24)), started);
    assert!(ctx.queue.is_empty());
}

#[test]
fn a_write_is_completed() {
    let mut ctx: Context<u32> = Context::new(3);
    let stream = TcpStream::from_connected(7, &mut ctx).unwrap();
    assert_eq!(7, stream.fd);
    stream.async_write_some(Ok(4), 1, &mut ctx);
    let mut turn = EventLoop::new();
    assert!(matches!(
        advance(&mut turn, &mut ctx),
        Step::Call(UserOperation::Complete(1, Ok(4)))
    ));
    assert!(matches!(advance(&mut turn, &mut ctx), Step::Stop));
}

#[test]
fn a_blocked_read_is_polled_for_and_retried() {
    let mut ctx: Context<u32> = Context::new(3);
    let stream = TcpStream::from_connected(7, &mut ctx).unwrap();
    stream.async_read_some(Err(IoError::WouldBlock), 1, &mut ctx);
    let mut turn = EventLoop::new();
    assert!(matches!(advance(&mut turn, &mut ctx), Step::Wait(60000)));
    turn.polled(Ok(vec![event(7, EventFilter::Write)]));
    // Nothing waits for writing, but the read still waits: the loop polls again.
    assert!(matches!(advance(&mut turn, &mut ctx), Step::Wait(60000)));
    turn.polled(Ok(vec![event(7, EventFilter::Read)]));
    assert!(matches!(advance(&mut turn, &mut ctx), Step::Call(UserOperation::Retry(1))));
    stream.async_read_some(Ok(0), 1, &mut ctx);
    assert!(matches!(
        advance(&mut turn, &mut ctx),
        Step::Call(UserOperation::Complete(1, Ok(0)))
    ));
    assert!(matches!(advance(&mut turn, &mut ctx), Step::Stop));
}

#[test]
fn a_poll_does_not_sleep_while_something_is_queued() {
    let mut ctx: Context<u32> = Context::new(3);
    ctx.queue.push_back(Operation::Poll);
    ctx.queue.push_back(Operation::User(UserOperation::Call(1)));
    let mut turn = EventLoop::new();
    assert!(matches!(advance(&mut turn, &mut ctx), Step::Call(UserOperation::Call(1))));
    ctx.queue.push_back(Operation::User(UserOperation::Call(2)));
    assert!(matches!(advance(&mut turn, &mut ctx), Step::Wait(0)));
    turn.polled(Err(IoError::Os(4)));
    assert!(matches!(advance(&mut turn, &mut ctx), Step::Stop));
}

#[test]
fn a_poll_that_times_out_is_not_repeated() {
    let mut ctx: Context<u32> = Context::new(3);
    ctx.queue.push_back(Operation::Poll);
    let mut turn = EventLoop::new();
    assert!(matches!(advance(&mut turn, &mut ctx), Step::Wait(60000)));
    turn.polled(Ok(vec![]));
    assert!(matches!(advance(&mut turn, &mut ctx), Step::Stop));
}

#[test]
fn a_batch_polls_again_once_while_callbacks_wait() {
    let mut ctx: Context<u32> = Context::new(3);
    let first = TcpStream::from_connected(7, &mut ctx).unwrap();
    let second = TcpStream::from_connected(8, &mut ctx).unwrap();
    first.async_read_some(Err(IoError::WouldBlock), 1, &mut ctx);
    second.async_read_some(Err(IoError::WouldBlock), 2, &mut ctx);
    let mut turn = EventLoop::new();
    assert!(matches!(advance(&mut turn, &mut ctx), Step::Wait(60000)));
    turn.polled(Ok(vec![
        event(7, EventFilter::Write),
        event(8, EventFilter::Write),
        event(7, EventFilter::Read),
    ]));
    assert!(matches!(advance(&mut turn, &mut ctx), Step::Call(UserOperation::Retry(1))));
    assert!(matches!(advance(&mut turn, &mut ctx), Step::Wait(60000)));
    assert!(ctx.queue.is_empty());
    turn.polled(Ok(vec![event(8, EventFilter::Read)]));
    assert!(matches!(advance(&mut turn, &mut ctx), Step::Call(UserOperation::Retry(2))));
    assert!(matches!(advance(&mut turn, &mut ctx), Step::Stop));
}

#[test]
fn streams_are_watched_for_both_sides() {
    let (write, read) = TcpStream::register_descriptor(7);
    assert_eq!(Change { ident: 7, filter: EventFilter::Write, flags: 0x21 }, write);
    assert_eq!(Change { ident: 7, filter: EventFilter::Read, flags: 0x21 }, read);
    assert_eq!(AddressFamily::Inet, TcpStream::family(true));
    assert_eq!(AddressFamily::Inet6, TcpStream::family(false));
}
