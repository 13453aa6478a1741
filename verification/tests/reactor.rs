use xyio::http::event_loop::EventLoop;
use xyio::http::event_loop::Step;
use xyio::http::reactor::registration;
use xyio::http::reactor::Context;
use xyio::http::reactor::PipeRead;
use xyio::http::reactor::PollEvent;
use xyio::http::reactor::TcpSocket;
use xyio::http::reactor::EPOLLIN;
use xyio::http::reactor::EPOLLOUT;
use xyio::operation::IoError;
use xyio::operation::Operation;
use xyio::operation::UserOperation;

/// Runs the loop until it has something to say.
fn next_step(turn: &mut EventLoop<u32>, ctx: &mut Context<u32>) -> Step<u32> {
    loop {
        if let Some(fd) = turn.needs() {
            assert!(ctx.fdmap.contains_key(&fd));
        }
        match turn.run(ctx) {
            Step::Idle => {}
            step => return step,
        }
    }
}

#[test]
fn a_context_needs_a_reactor() {
    let ctx: Context<u32> = Context::new(Ok(3)).unwrap();
    assert_eq!(3, ctx.reactor);
    assert!(ctx.fdmap.is_empty() && ctx.queue.is_empty());
    assert_eq!(IoError::Os(24), Context::<u32>::new(Err(IoError::Os(24))).unwrap_err());
}

#[test]
fn registrations_carry_the_descriptor() {
    assert_eq!(PollEvent { events: 0x8000_0005, data: 7 }, TcpSocket::registration(7));
    assert_eq!(PollEvent { events: 0x8000_0001, data: 7 }, PipeRead::registration(7));
    assert_eq!(PollEvent { events: 1, data: u64::MAX }, registration(-1, EPOLLIN));
}

#[test]
fn descriptors_are_taken_over_once_they_are_watched() {
    let mut ctx: Context<u32> = Context::from_fd(3);
    assert_eq!(Err(IoError::Os(17)), TcpSocket::from_fd(7, Err(IoError::Os(17)), &mut ctx));
    assert!(ctx.fdmap.is_empty());
    let sock = TcpSocket::from_fd(7, Ok(()), &mut ctx).unwrap();
    assert_eq!(0x8000_0005, ctx.fdmap[&7].events);
    let (rd, wr) = sock.into_pair();
    assert_eq!((7, 7), (rd.fd, wr.fd));
    let pipe = PipeRead::from_fd(8, Ok(()), &mut ctx).unwrap();
    assert_eq!(8, pipe.fd);
    assert_eq!(0x8000_0001, ctx.fdmap[&8].events);
    assert_eq!(Err(IoError::Os(1)), PipeRead::from_fd(9, Err(IoError::Os(1)), &mut ctx));
    assert_eq!(2, ctx.fdmap.len());
}

#[test]
fn outcomes_are_queued_for_their_callbacks() {
    let mut ctx: Context<u32> = Context::from_fd(3);
    TcpSocket::from_fd(7, Ok(()), &mut ctx).unwrap();
    ctx.post(1);
    ctx.async_recv(7, Ok(0), 2);
    ctx.async_read(7, Ok(5), 3);
    ctx.async_send(7, Err(IoError::Os(32)), 4);
    ctx.async_write(7, Ok(9), 5);
    let mut turn = EventLoop::new(None);
    assert!(matches!(next_step(&mut turn, &mut ctx), Step::Call(UserOperation::Call(1))));
    assert!(matches!(
        next_step(&mut turn, &mut ctx),
        Step::Call(UserOperation::Complete(2, Ok(0)))
    ));
    assert!(matches!(
        next_step(&mut turn, &mut ctx),
        Step::Call(UserOperation::Complete(3, Ok(5)))
    ));
    assert!(matches!(
        next_step(&mut turn, &mut ctx),
        Step::Call(UserOperation::Complete(4, Err(IoError::Os(32))))
    ));
    assert!(matches!(
        next_step(&mut turn, &mut ctx),
        Step::Call(UserOperation::Complete(5, Ok(9)))
    ));
    assert!(matches!(next_step(&mut turn, &mut ctx), Step::Wait(60000)));
}

#[test]
fn what_is_queued_meanwhile_waits_for_the_next_turn() {
    let mut ctx: Context<u32> = Context::from_fd(3);
    ctx.post(1);
    let mut turn = EventLoop::new(None);
    assert!(matches!(next_step(&mut turn, &mut ctx), Step::Call(UserOperation::Call(1))));
    ctx.post(2);
    assert!(matches!(next_step(&mut turn, &mut ctx), Step::Wait(0)));
    turn.polled(Ok(vec![]));
    assert!(matches!(next_step(&mut turn, &mut ctx), Step::Call(UserOperation::Call(2))));
    assert!(matches!(next_step(&mut turn, &mut ctx), Step::Wait(60000)));
}

#[test]
fn blocked_transfers_are_retried_when_their_side_is_ready() {
    let mut ctx: Context<u32> = Context::from_fd(3);
    TcpSocket::from_fd(7, Ok(()), &mut ctx).unwrap();
    ctx.async_recv(7, Err(IoError::WouldBlock), 1);
    ctx.async_send(7, Err(IoError::WouldBlock), 2);
    assert!(matches!(ctx.queue[0], Operation::Poll));
    assert!(matches!(ctx.queue[1], Operation::Poll));

    let mut turn = EventLoop::new(None);
    assert!(matches!(next_step(&mut turn, &mut ctx), Step::Wait(60000)));
    turn.polled(Ok(vec![PollEvent { events: EPOLLIN | EPOLLOUT, data: 7 }]));
    assert!(matches!(next_step(&mut turn, &mut ctx), Step::Call(UserOperation::Retry(2))));
    assert!(matches!(next_step(&mut turn, &mut ctx), Step::Call(UserOperation::Retry(1))));
    assert!(matches!(next_step(&mut turn, &mut ctx), Step::Wait(60000)));
    assert!(ctx.fdmap[&7].handle_read.is_none());
    assert!(ctx.fdmap[&7].handle_write.is_none());
}

#[test]
fn an_event_runs_only_the_side_that_it_reports() {
    let mut ctx: Context<u32> = Context::from_fd(3);
    TcpSocket::from_fd(7, Ok(()), &mut ctx).unwrap();
    ctx.async_recv(7, Err(IoError::WouldBlock), 1);
    let mut turn = EventLoop::new(None);
    assert!(matches!(next_step(&mut turn, &mut ctx), Step::Wait(60000)));
    turn.polled(Ok(vec![PollEvent { events: EPOLLOUT, data: 7 }]));
    assert!(matches!(next_step(&mut turn, &mut ctx), Step::Wait(60000)));
    assert!(ctx.fdmap[&7].handle_read.is_some());
}

#[test]
fn control_events_announce_connections() {
    let mut ctx: Context<u32> = Context::from_fd(3);
    let mut turn = EventLoop::new(Some(4));
    assert!(matches!(next_step(&mut turn, &mut ctx), Step::Wait(60000)));
    turn.polled(Ok(vec![PollEvent { events: EPOLLIN, data: 4 }]));
    assert!(matches!(next_step(&mut turn, &mut ctx), Step::Control));
    assert!(matches!(next_step(&mut turn, &mut ctx), Step::Wait(60000)));
}

#[test]
fn a_failed_poll_ends_the_loop() {
    let mut ctx: Context<u32> = Context::from_fd(3);
    let mut turn = EventLoop::new(None);
    assert!(matches!(next_step(&mut turn, &mut ctx), Step::Wait(60000)));
    turn.polled(Err(IoError::Os(4)));
    assert!(matches!(next_step(&mut turn, &mut ctx), Step::Stop));
    assert!(matches!(next_step(&mut turn, &mut ctx), Step::Stop));
}
