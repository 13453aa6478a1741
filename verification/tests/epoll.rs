use xyio::epoll::handler::HttpReadHandlerRef;
use xyio::epoll::handler::Next;
use xyio::epoll::work::Step;
use xyio::epoll::work::Worker;
use xyio::epoll::Context;
use xyio::epoll::DescriptorSetRef;
use xyio::epoll::EventDataRef;
use xyio::epoll::OperationRef;
use xyio::epoll::SocketRef;
use xyio::epoll::Task;
use xyio::http::muncher::Event;
use xyio::http::muncher::Parse;
use xyio::http::reactor::PollEvent;
use xyio::operation::IoError;

fn act(worker: &mut Worker, ctx: &mut Context) -> Step {
    loop {
        if let Some(key) = worker.needs() {
            assert!(ctx.descriptors.get_mut(&key).is_some());
        }
        match worker.do_work(ctx) {
            Step::Idle => {}
            step => return step,
        }
    }
}

#[test]
fn descriptor_slots_are_replaced() {
    let mut set = DescriptorSetRef::new();
    assert_eq!(None, set.get_mut(&5));
    assert_eq!(None, set.insert(5, EventDataRef::new(Some(1))));
    assert_eq!(None, set.insert(2000, EventDataRef::new(None)));
    set.get_mut(&5).unwrap().events = 9;
    assert_eq!(
        Some(EventDataRef { events: 9, read_handler: Some(1) }),
        set.insert(5, EventDataRef::new(Some(2)))
    );
    assert_eq!(Some(&mut EventDataRef { events: 0, read_handler: Some(2) }), set.get_mut(&5));
    assert_eq!(Some(&mut EventDataRef { events: 0, read_handler: None }), set.get_mut(&2000));
    assert_eq!(None, set.get_mut(&6));
    assert_eq!(None, set.get_mut(&usize::MAX));
}

#[test]
fn a_worker_reads_and_writes() {
    let mut ctx = Context::new(3);
    let socket = ctx.on_connection(7);
    assert_eq!(SocketRef::new(7), socket);
    assert_eq!(0x8000_0001, ctx.descriptors.get_mut(&7).unwrap().events);
    socket.async_read_some(Ok(10), 1, &mut ctx);
    socket.async_write_some(Ok(125), 1, &mut ctx);
    assert_eq!(OperationRef::User(Task::Read(1, 10)), ctx.queue[0]);
    let mut worker = Worker::new();
    assert_eq!(Step::Call(Task::Read(1, 10)), act(&mut worker, &mut ctx));
    assert_eq!(Step::Call(Task::Written(1, 125)), act(&mut worker, &mut ctx));
    assert_eq!(Step::Wait(60000), act(&mut worker, &mut ctx));
}

#[test]
fn a_worker_retries_a_blocked_read_once() {
    let mut ctx = Context::new(3);
    let socket = ctx.on_connection(7);
    socket.async_read_some(Err(IoError::WouldBlock), 1, &mut ctx);
    assert_eq!(OperationRef::Poll, ctx.queue[0]);
    let mut worker = Worker::new();
    assert_eq!(Step::Wait(60000), act(&mut worker, &mut ctx));
    let ready = PollEvent { events: 1, data: 7 };
    worker.polled(Ok(vec![ready, ready]));
    assert_eq!(Step::Call(Task::Retry(1)), act(&mut worker, &mut ctx));
    assert_eq!(
        Some(&mut EventDataRef { events: 1, read_handler: None }),
        ctx.descriptors.get_mut(&7)
    );
    assert_eq!(Step::Wait(60000), act(&mut worker, &mut ctx));
}

#[test]
fn a_worker_is_told_of_new_connections() {
    let mut ctx = Context::new(3);
    let mut worker = Worker::new();
    assert_eq!(Step::Wait(60000), act(&mut worker, &mut ctx));
    worker.polled(Ok(vec![PollEvent { events: 1, data: 0 }]));
    assert_eq!(Step::Control, act(&mut worker, &mut ctx));
    let socket = ctx.on_connection(9);
    socket.async_read_some(Ok(0), 4, &mut ctx);
    assert_eq!(Step::Call(Task::Read(4, 0)), act(&mut worker, &mut ctx));
}

#[test]
fn a_worker_does_not_sleep_on_pending_operations() {
    let mut ctx = Context::new(3);
    let socket = ctx.on_connection(7);
    socket.async_read_some(Ok(1), 1, &mut ctx);
    let mut worker = Worker::new();
    assert_eq!(Step::Call(Task::Read(1, 1)), act(&mut worker, &mut ctx));
    socket.async_read_some(Ok(2), 1, &mut ctx);
    assert_eq!(Step::Wait(0), act(&mut worker, &mut ctx));
    worker.polled(Err(IoError::Os(4)));
    assert_eq!(Step::Stop, act(&mut worker, &mut ctx));
}

#[test]
fn a_handler_answers_what_it_has_read_to_the_end() {
    let mut handler = HttpReadHandlerRef::new(SocketRef::new(7));
    assert_eq!(4096, handler.buf().len());
    assert_eq!(0, handler.written);
    assert_eq!(7, handler.socket.fd);
    let response = "HTTP/1.1 200 OK\r\nServer: xyio/0.1.0\r\nContent-Length: 15\r\n\
        Connection: Keep-Alive\r\nX-Powered-By: Cocaine\r\n\r\n";
    assert!(handler.get_buf().starts_with(response.as_bytes()));
    assert_eq!(response.len() + 15, handler.get_buf().len());
    handler.buf()[..10].copy_from_slice(b"GET / HTTP");
    let (mut handler, next) = handler.on_read(Ok(10));
    assert_eq!(Next::Read, next);
    handler.buf()[..8].copy_from_slice(b"/1.1\r\n\r\n");
    let (handler, next) = handler.on_read(Ok(8));
    assert_eq!(Next::Write, next);
    assert!(handler.complete);
    let (_, next) = handler.on_read(Ok(0));
    assert_eq!(Next::Close, next);
}

#[test]
fn a_handler_drops_what_is_no_http() {
    let mut handler = HttpReadHandlerRef::new(SocketRef::new(7));
    handler.buf()[..4].copy_from_slice(b"\0\0\r\n");
    let (_, next) = handler.on_read(Ok(4));
    assert_eq!(Next::Drop, next);
}

#[test]
fn a_given_parse_decides_for_the_handler() {
    let mut handler = HttpReadHandlerRef::new(SocketRef::new(7));
    let nothing = Parse { nparsed: 20, events: vec![], paused: false };
    assert_eq!(Next::Read, handler.on_parsed(20, &nothing, false));
    assert_eq!(Next::Drop, handler.on_parsed(21, &nothing, false));
    assert_eq!(Next::Drop, handler.on_parsed(20, &nothing, true));
    let all = Parse {
        nparsed: 20,
        events: vec![Event::MessageBegin, Event::MessageComplete],
        paused: false,
    };
    assert_eq!(Next::Write, handler.on_parsed(20, &all, false));
    assert!(handler.on_message_complete());
    assert_eq!(Next::Write, handler.on_parsed(20, &nothing, false));
}

#[test]
fn a_handler_reads_again_after_a_whole_write() {
    let mut handler = HttpReadHandlerRef::new(SocketRef::new(7));
    let size = handler.get_buf().len();
    assert_eq!(Next::Drop, handler.on_write(Ok(5)));
    assert_eq!(5, handler.written);
    assert_eq!(Next::Read, handler.on_write(Ok(size - 5)));
    assert_eq!(0, handler.written);
    assert_eq!(size, handler.get_buf().len());
}
