//! The readiness reactor of the HTTP servers: an operation queue, the callbacks that wait
//! for a descriptor, and the event loop that drives both.

use std::collections::HashMap;
use std::collections::VecDeque;

use vstd::prelude::*;

use crate::operation::IoError;
use crate::operation::Operation;
use crate::operation::UserOperation;

verus! {

/// Readiness bit: there is data to read.
pub const EPOLLIN: u32 = 0x1;

/// Readiness bit: data can be written.
pub const EPOLLOUT: u32 = 0x4;

/// Registration bit: report a change of readiness once.
pub const EPOLLET: u32 = 0x8000_0000;

/// How long an idle reactor sleeps, in milliseconds.
pub const IDLE_TIMEOUT: i32 = 60000;

/// A readiness event as the kernel takes it on registration and gives it back on a poll.
#[derive(Clone, Copy, Debug, PartialEq, Eq, Structural)]
pub struct PollEvent {
    pub events: u32,
    pub data: u64,
}

/// Whether all bits of `bits` are set in `events`.
pub open spec fn has_events(events: u32, bits: u32) -> bool {
    events & bits == bits
}

/// The descriptor that an event is about: the low half of its data.
pub open spec fn event_fd(event: PollEvent) -> i32 {
    event.data as i32
}

/// The callbacks that wait for one descriptor.
#[derive(Debug)]
pub struct EventData<T> {
    pub events: u32,
    pub handle_read: Option<UserOperation<T>>,
    pub handle_write: Option<UserOperation<T>>,
}

/// A reactor: its descriptor, the callbacks that wait, and the operations to run.
#[derive(Debug)]
pub struct Context<T> {
    pub reactor: i32,
    pub fdmap: HashMap<i32, EventData<T>>,
    pub queue: VecDeque<Operation<T>>,
}

/// What a [`Context`] holds.
#[verifier::ext_equal]
pub struct ContextView<T> {
    pub reactor: i32,
    pub fdmap: Map<i32, EventData<T>>,
    pub queue: Seq<Operation<T>>,
}

impl<T> View for Context<T> {
    type V = ContextView<T>;

    open spec fn view(&self) -> ContextView<T> {
        ContextView { reactor: self.reactor, fdmap: self.fdmap@, queue: self.queue@ }
    }
}

impl<T> ContextView<T> {
    /// No callbacks, no operations.
    pub open spec fn empty(reactor: i32) -> Self {
        ContextView { reactor, fdmap: Map::empty(), queue: Seq::empty() }
    }

    /// The context with one more operation at the end of the queue.
    pub open spec fn enqueue(self, op: Operation<T>) -> Self {
        ContextView { queue: self.queue.push(op), ..self }
    }

    /// The context with `entry` as what waits for `fd`.
    pub open spec fn with_entry(self, fd: i32, entry: EventData<T>) -> Self {
        ContextView { fdmap: self.fdmap.insert(fd, entry), ..self }
    }

    /// What a transfer attempt on the reading side of `fd` does: one that would block is put
    /// off until the descriptor is readable, any other outcome is queued for its callback.
    pub open spec fn after_recv(self, fd: i32, result: Result<usize, IoError>, op: T) -> Self {
        if result == Err::<usize, IoError>(IoError::WouldBlock) {
            let entry = EventData {
                handle_read: Some(UserOperation::Retry(op)),
                ..self.fdmap[fd]
            };
            self.with_entry(fd, entry).enqueue(Operation::Poll)
        } else {
            self.enqueue(Operation::User(UserOperation::Complete(op, result)))
        }
    }

    /// What a transfer attempt on the writing side of `fd` does.
    pub open spec fn after_send(self, fd: i32, result: Result<usize, IoError>, op: T) -> Self {
        if result == Err::<usize, IoError>(IoError::WouldBlock) {
            let entry = EventData {
                handle_write: Some(UserOperation::Retry(op)),
                ..self.fdmap[fd]
            };
            self.with_entry(fd, entry).enqueue(Operation::Poll)
        } else {
            self.enqueue(Operation::User(UserOperation::Complete(op, result)))
        }
    }

    /// How long the next poll may sleep: not at all while operations are pending.
    pub open spec fn timeout(self) -> i32 {
        if self.queue.len() == 0 {
            IDLE_TIMEOUT
        } else {
            0
        }
    }
}

impl<T> Context<T> {
    /// Makes a context around the reactor descriptor that has just been created, or passes
    /// the failure to create one on.
    pub fn new(created: Result<i32, IoError>) -> (r: Result<Self, IoError>)
        ensures
            match created {
                Ok(fd) => r is Ok && r->Ok_0@ == ContextView::<T>::empty(fd),
                Err(err) => r == Err::<Self, IoError>(err),
            },
    {
        match created {
            Ok(fd) => Ok(Self::from_fd(fd)),
            Err(err) => Err(err),
        }
    }

    /// Makes an empty context around an existing reactor descriptor.
    pub fn from_fd(fd: i32) -> (r: Self)
        ensures
            r@ == ContextView::<T>::empty(fd),
    {
        Context { reactor: fd, fdmap: HashMap::new(), queue: VecDeque::new() }
    }

    /// Queues a callback.
    pub fn post(&mut self, f: T)
        ensures
            final(self)@ == old(self)@.enqueue(Operation::User(UserOperation::Call(f))),
    {
        self.queue.push_back(Operation::User(UserOperation::Call(f)));
    }

    /// Settles an attempt to receive from the socket `fd`.
    pub fn async_recv(&mut self, fd: i32, result: Result<usize, IoError>, op: T)
        requires
            result == Err::<usize, IoError>(IoError::WouldBlock) ==> old(
                self,
            )@.fdmap.contains_key(fd),
        ensures
            final(self)@ == old(self)@.after_recv(fd, result, op),
    {
        match result {
            Err(IoError::WouldBlock) => {
                let mut entry = self.fdmap.remove(&fd).unwrap();
                entry.handle_read = Some(UserOperation::Retry(op));
                self.fdmap.insert(fd, entry);
                self.queue.push_back(Operation::Poll);
            },
            result => {
                self.queue.push_back(Operation::User(UserOperation::Complete(op, result)));
            },
        }
        assert(self@.fdmap =~= old(self)@.after_recv(fd, result, op).fdmap);
    }

    /// Settles an attempt to read from the pipe or file `fd`, as a receive is settled.
    pub fn async_read(&mut self, fd: i32, result: Result<usize, IoError>, op: T)
        requires
            result == Err::<usize, IoError>(IoError::WouldBlock) ==> old(
                self,
            )@.fdmap.contains_key(fd),
        ensures
            final(self)@ == old(self)@.after_recv(fd, result, op),
    {
        self.async_recv(fd, result, op);
    }

    /// Settles an attempt to send to the socket `fd`.
    pub fn async_send(&mut self, fd: i32, result: Result<usize, IoError>, op: T)
        requires
            result == Err::<usize, IoError>(IoError::WouldBlock) ==> old(
                self,
            )@.fdmap.contains_key(fd),
        ensures
            final(self)@ == old(self)@.after_send(fd, result, op),
    {
        match result {
            Err(IoError::WouldBlock) => {
                let mut entry = self.fdmap.remove(&fd).unwrap();
                entry.handle_write = Some(UserOperation::Retry(op));
                self.fdmap.insert(fd, entry);
                self.queue.push_back(Operation::Poll);
            },
            result => {
                self.queue.push_back(Operation::User(UserOperation::Complete(op, result)));
            },
        }
        assert(self@.fdmap =~= old(self)@.after_send(fd, result, op).fdmap);
    }

    /// Settles an attempt to write to `fd`, as a send is settled.
    pub fn async_write(&mut self, fd: i32, result: Result<usize, IoError>, op: T)
        requires
            result == Err::<usize, IoError>(IoError::WouldBlock) ==> old(
                self,
            )@.fdmap.contains_key(fd),
        ensures
            final(self)@ == old(self)@.after_send(fd, result, op),
    {
        self.async_send(fd, result, op);
    }

    /// Takes note of a descriptor once the kernel has been asked to watch it: nothing waits
    /// for it yet. A failed registration leaves the context as it is.
    pub fn register(&mut self, fd: i32, events: u32, added: Result<(), IoError>) -> (r: Result<
        (),
        IoError,
    >)
        ensures
            r == added,
            match added {
                Ok(_) => final(self)@ == old(self)@.with_entry(
                    fd,
                    EventData { events, handle_read: None, handle_write: None },
                ),
                Err(_) => final(self)@ == old(self)@,
            },
    {
        match added {
            Ok(unit) => {
                self.fdmap.insert(fd, EventData { events, handle_read: None, handle_write: None });
                Ok(unit)
            },
            Err(err) => Err(err),
        }
    }
}

/// The event that has the kernel watch `fd` for `events`; its data is the descriptor.
pub fn registration(fd: i32, events: u32) -> (r: PollEvent)
    ensures
        r == (PollEvent { events, data: fd as u64 }),
        event_fd(r) == fd,
{
    assert((fd as u64) as i32 == fd) by (bit_vector);
    PollEvent { events, data: fd as u64 }
}

/// A connected TCP socket that a reactor watches for reading and for writing.
#[derive(Clone, Copy, Debug, PartialEq, Eq, Structural)]
pub struct TcpSocket {
    pub fd: i32,
}

/// The reading half of a socket.
#[derive(Clone, Copy, Debug, PartialEq, Eq, Structural)]
pub struct TcpSocketReader {
    pub fd: i32,
}

/// The writing half of a socket.
#[derive(Clone, Copy, Debug, PartialEq, Eq, Structural)]
pub struct TcpSocketWriter {
    pub fd: i32,
}

/// The reading end of a pipe that a reactor watches for reading.
#[derive(Clone, Copy, Debug, PartialEq, Eq, Structural)]
pub struct PipeRead {
    pub fd: i32,
}

/// What a socket is watched for.
pub open spec fn socket_events() -> u32 {
    EPOLLIN | EPOLLOUT | EPOLLET
}

/// What the reading end of a pipe is watched for.
pub open spec fn pipe_events() -> u32 {
    EPOLLIN | EPOLLET
}

impl TcpSocket {
    /// The event to register a socket with.
    pub fn registration(fd: i32) -> (r: PollEvent)
        ensures
            r == (PollEvent { events: socket_events(), data: fd as u64 }),
            event_fd(r) == fd,
    {
        registration(fd, EPOLLIN | EPOLLOUT | EPOLLET)
    }

    /// Takes over a descriptor whose registration ended in `added`.
    pub fn from_fd<T>(fd: i32, added: Result<(), IoError>, ctx: &mut Context<T>) -> (r: Result<
        TcpSocket,
        IoError,
    >)
        ensures
            match added {
                Ok(_) => r == Ok::<TcpSocket, IoError>(TcpSocket { fd }) && final(ctx)@ == old(
                    ctx,
                )@.with_entry(
                    fd,
                    EventData {
                        events: socket_events(),
                        handle_read: None,
                        handle_write: None,
                    },
                ),
                Err(err) => r == Err::<TcpSocket, IoError>(err) && final(ctx)@ == old(ctx)@,
            },
    {
        match ctx.register(fd, EPOLLIN | EPOLLOUT | EPOLLET, added) {
            Ok(_) => Ok(TcpSocket { fd }),
            Err(err) => Err(err),
        }
    }

    /// Splits the socket into its two halves, which share the descriptor.
    pub fn into_pair(self) -> (r: (TcpSocketReader, TcpSocketWriter))
        ensures
            r == (TcpSocketReader { fd: self.fd }, TcpSocketWriter { fd: self.fd }),
    {
        (TcpSocketReader { fd: self.fd }, TcpSocketWriter { fd: self.fd })
    }
}

impl PipeRead {
    /// The event to register the reading end of a pipe with.
    pub fn registration(fd: i32) -> (r: PollEvent)
        ensures
            r == (PollEvent { events: pipe_events(), data: fd as u64 }),
            event_fd(r) == fd,
    {
        registration(fd, EPOLLIN | EPOLLET)
    }

    /// Takes over a descriptor whose registration ended in `added`.
    pub fn from_fd<T>(fd: i32, added: Result<(), IoError>, ctx: &mut Context<T>) -> (r: Result<
        PipeRead,
        IoError,
    >)
        ensures
            match added {
                Ok(_) => r == Ok::<PipeRead, IoError>(PipeRead { fd }) && final(ctx)@ == old(
                    ctx,
                )@.with_entry(
                    fd,
                    EventData { events: pipe_events(), handle_read: None, handle_write: None },
                ),
                Err(err) => r == Err::<PipeRead, IoError>(err) && final(ctx)@ == old(ctx)@,
            },
    {
        match ctx.register(fd, EPOLLIN | EPOLLET, added) {
            Ok(_) => Ok(PipeRead { fd }),
            Err(err) => Err(err),
        }
    }
}

/// The view tells the fields.
pub proof fn law_view_tells_the_context<T>(c: Context<T>)
    ensures
        c@.reactor == c.reactor,
        c@.fdmap == c.fdmap@,
        c@.queue == c.queue@,
{
}

/// A new context has nothing to do.
pub proof fn law_new_context_is_empty<T>(fd: i32, other: i32)
    ensures
        ContextView::<T>::empty(fd).reactor == fd,
        ContextView::<T>::empty(fd).queue.len() == 0,
        !ContextView::<T>::empty(fd).fdmap.contains_key(other),
{
}

/// An operation is queued behind all others, and nothing else changes.
pub proof fn law_operation_is_queued_last<T>(c: ContextView<T>, op: Operation<T>)
    ensures
        c.enqueue(op).queue.len() == c.queue.len() + 1,
        c.enqueue(op).queue.last() == op,
        forall|i: int|
            0 <= i < c.queue.len() ==> #[trigger] c.enqueue(op).queue[i] == c.queue[i],
        c.enqueue(op).reactor == c.reactor,
        c.enqueue(op).fdmap == c.fdmap,
{
}

/// What waits for one descriptor is set, and nothing else changes.
pub proof fn law_entry_is_set<T>(c: ContextView<T>, fd: i32, entry: EventData<T>, other: i32)
    ensures
        c.with_entry(fd, entry).fdmap.contains_key(fd),
        c.with_entry(fd, entry).fdmap[fd] == entry,
        other != fd ==> {
            &&& c.with_entry(fd, entry).fdmap.contains_key(other) == c.fdmap.contains_key(other)
            &&& c.fdmap.contains_key(other) ==> c.with_entry(fd, entry).fdmap[other]
                == c.fdmap[other]
        },
        c.with_entry(fd, entry).reactor == c.reactor,
        c.with_entry(fd, entry).queue == c.queue,
{
}

/// A transfer that did not block hands its callback the very outcome that it had, on either side:
/// the completion is queued behind all other operations, and nothing else changes.
pub proof fn law_transfer_completes_with_its_outcome<T>(
    ctx: ContextView<T>,
    fd: i32,
    result: Result<usize, IoError>,
    op: T,
)
    requires
        result != Err::<usize, IoError>(IoError::WouldBlock),
    ensures
        ({
            let received = ctx.after_recv(fd, result, op);
            &&& received.queue == ctx.queue.push(
                Operation::User(UserOperation::Complete(op, result)),
            )
            &&& received.fdmap == ctx.fdmap
            &&& received.reactor == ctx.reactor
        }),
        ({
            let sent = ctx.after_send(fd, result, op);
            &&& sent.queue == ctx.queue.push(Operation::User(UserOperation::Complete(op, result)))
            &&& sent.fdmap == ctx.fdmap
            &&& sent.reactor == ctx.reactor
        }),
{
}

/// A receive that would block waits on the reading side of its descriptor and a send on the
/// writing side, each in place of what waited there, and a poll is queued behind all other
/// operations. The other side and the other descriptors stay as they are.
pub proof fn law_blocked_transfer_waits<T>(ctx: ContextView<T>, fd: i32, op: T, other: i32)
    requires
        ctx.fdmap.contains_key(fd),
    ensures
        ({
            let blocked = ctx.after_recv(fd, Err(IoError::WouldBlock), op);
            &&& blocked.queue == ctx.queue.push(Operation::Poll)
            &&& blocked.reactor == ctx.reactor
            &&& blocked.fdmap.dom() == ctx.fdmap.dom()
            &&& blocked.fdmap[fd].handle_read == Some(UserOperation::Retry(op))
            &&& blocked.fdmap[fd].handle_write == ctx.fdmap[fd].handle_write
            &&& blocked.fdmap[fd].events == ctx.fdmap[fd].events
            &&& other != fd ==> blocked.fdmap[other] == ctx.fdmap[other]
        }),
        ({
            let blocked = ctx.after_send(fd, Err(IoError::WouldBlock), op);
            &&& blocked.queue == ctx.queue.push(Operation::Poll)
            &&& blocked.reactor == ctx.reactor
            &&& blocked.fdmap.dom() == ctx.fdmap.dom()
            &&& blocked.fdmap[fd].handle_write == Some(UserOperation::Retry(op))
            &&& blocked.fdmap[fd].handle_read == ctx.fdmap[fd].handle_read
            &&& blocked.fdmap[fd].events == ctx.fdmap[fd].events
            &&& other != fd ==> blocked.fdmap[other] == ctx.fdmap[other]
        }),
{
    assert(ctx.after_recv(fd, Err(IoError::WouldBlock), op).fdmap.dom() =~= ctx.fdmap.dom());
    assert(ctx.after_send(fd, Err(IoError::WouldBlock), op).fdmap.dom() =~= ctx.fdmap.dom());
}

/// A poll sleeps for a minute where nothing is queued, and not at all otherwise.
pub proof fn law_poll_timeout<T>(ctx: ContextView<T>)
    ensures
        ctx.queue.len() == 0 ==> ctx.timeout() == 60000,
        ctx.queue.len() > 0 ==> ctx.timeout() == 0,
{
}

/// An event is about the descriptor that was registered with it: the low half of its data. The
/// lowest bit of its events
/// reports data to read, and the third one that data can be written. Sockets are watched for
/// both, pipes for the first, and changes are reported once.
pub proof fn law_event_bits(fd: i32, events: u32, data: u64)
    ensures
        event_fd(PollEvent { events, data: fd as u64 }) == fd,
        event_fd(PollEvent { events, data }) as u32 as int == data % 0x1_0000_0000,
        has_events(events, EPOLLIN) <==> events % 2 == 1,
        has_events(events, EPOLLOUT) <==> (events / 4) % 2 == 1,
        socket_events() == 0x8000_0005,
        pipe_events() == 0x8000_0001,
{
    assert((fd as u64) as i32 == fd) by (bit_vector);
    assert((data as i32) as u32 == data % 0x1_0000_0000) by (bit_vector);
    assert(events & 1u32 == 1u32 <==> events % 2 == 1) by (bit_vector);
    assert(events & 4u32 == 4u32 <==> (events / 4) % 2 == 1) by (bit_vector);
    assert(0x1u32 | 0x4u32 | 0x8000_0000u32 == 0x8000_0005u32) by (bit_vector);
    assert(0x1u32 | 0x8000_0000u32 == 0x8000_0001u32) by (bit_vector);
}

} // verus!
