//! TCP streams of clients.

use vstd::prelude::*;

use crate::io::Context;
use crate::io::ContextView;
use crate::io::EventData;
use crate::io::EventFilter;
use crate::operation::IoError;
use crate::operation::Operation;
use crate::operation::UserOperation;

verus! {

/// Change flag: start to watch the descriptor.
pub const EV_ADD: u16 = 0x1;

/// Change flag: report a change of readiness once.
pub const EV_CLEAR: u16 = 0x20;

/// A change to what the kernel watches.
#[derive(Clone, Copy, Debug, PartialEq, Eq, Structural)]
pub struct Change {
    pub ident: u64,
    pub filter: EventFilter,
    pub flags: u16,
}

/// The family of an address.
#[derive(Clone, Copy, Debug, PartialEq, Eq, Structural)]
pub enum AddressFamily {
    Inet,
    Inet6,
}

/// A connected TCP stream.
#[derive(Clone, Copy, Debug, PartialEq, Eq, Structural)]
pub struct TcpStream {
    pub fd: i32,
}

impl<T> ContextView<T> {
    /// What an attempt to read from `fd` does: one that would block is put off until the
    /// descriptor is readable, any other outcome is queued for its callback.
    pub open spec fn after_read(self, fd: i32, result: Result<usize, IoError>, op: T) -> Self {
        if result == Err::<usize, IoError>(IoError::WouldBlock) {
            let entry = EventData {
                read_handler: Some(UserOperation::Retry(op)),
                ..self.descriptors[fd]
            };
            self.with_entry(fd, entry).enqueue(Operation::Poll)
        } else {
            self.enqueue(Operation::User(UserOperation::Complete(op, result)))
        }
    }

    /// What waits once a connection attempt on `fd` has been started.
    pub open spec fn connecting(self, fd: i32, callback: T) -> Self {
        self.with_entry(
            fd,
            EventData {
                events: EventFilter::Other,
                read_handler: None,
                write_handler: Some(UserOperation::Call(callback)),
            },
        ).enqueue(Operation::Poll)
    }
}

impl TcpStream {
    /// The family of the socket to connect to an address with: `v4` is whether the address
    /// is one of IPv4.
    pub fn family(v4: bool) -> (r: AddressFamily)
        ensures
            r == (if v4 {
                AddressFamily::Inet
            } else {
                AddressFamily::Inet6
            }),
    {
        if v4 {
            AddressFamily::Inet
        } else {
            AddressFamily::Inet6
        }
    }

    /// The changes that have the kernel watch a descriptor, for writing and for reading.
    pub fn register_descriptor(fd: i32) -> (r: (Change, Change))
        ensures
            r.0 == (Change {
                ident: fd as u64,
                filter: EventFilter::Write,
                flags: EV_ADD | EV_CLEAR,
            }),
            r.1 == (Change {
                ident: fd as u64,
                filter: EventFilter::Read,
                flags: EV_ADD | EV_CLEAR,
            }),
            r.0.ident as i32 == fd,
    {
        assert((fd as u64) as i32 == fd) by (bit_vector);
        let flags: u16 = EV_ADD | EV_CLEAR;
        (
            Change { ident: fd as u64, filter: EventFilter::Write, flags },
            Change { ident: fd as u64, filter: EventFilter::Read, flags },
        )
    }

    /// Settles an attempt to connect. `created` is the socket that was made for it, or why
    /// there is none; `connected` is the outcome of the attempt on that socket. `callback`
    /// runs when the socket becomes writable.
    pub fn connect<T>(
        created: Result<i32, IoError>,
        connected: Result<(), IoError>,
        callback: T,
        context: &mut Context<T>,
    ) -> (r: Result<(), IoError>)
        requires
            created is Ok ==> connected == Err::<(), IoError>(IoError::InProgress),
        ensures
            match created {
                Ok(fd) => r is Ok && final(context)@ == old(context)@.connecting(fd, callback),
                Err(err) => r == Err::<(), IoError>(err) && final(context)@ == old(context)@,
            },
    {
        match created {
            Ok(fd) => {
                let evd = EventData::new(None, Some(UserOperation::Call(callback)));
                context.descriptors.insert(fd, evd);
                context.queue.push_back(Operation::Poll);
                Ok(())
            },
            Err(err) => Err(err),
        }
    }

    /// Takes over a socket that is connected already; nothing waits for it yet.
    pub fn from_connected<T>(fd: i32, context: &mut Context<T>) -> (r: Result<TcpStream, IoError>)
        ensures
            r == Ok::<TcpStream, IoError>(TcpStream { fd }),
            final(context)@ == old(context)@.with_entry(
                fd,
                EventData { events: EventFilter::Other, read_handler: None, write_handler: None },
            ),
    {
        context.descriptors.insert(fd, EventData::new(None, None));
        Ok(TcpStream { fd })
    }

    /// Settles an attempt to write that went through.
    pub fn async_write_some<T>(
        &self,
        result: Result<usize, IoError>,
        op: T,
        context: &mut Context<T>,
    )
        requires
            result is Ok,
        ensures
            final(context)@ == old(context)@.enqueue(
                Operation::User(UserOperation::Complete(op, result)),
            ),
    {
        context.queue.push_back(Operation::User(UserOperation::Complete(op, result)));
    }

    /// Settles an attempt to read that went through or would block.
    pub fn async_read_some<T>(
        &self,
        result: Result<usize, IoError>,
        op: T,
        context: &mut Context<T>,
    )
        requires
            result matches Err(err) ==> err == IoError::WouldBlock,
            result is Err ==> old(context)@.descriptors.contains_key(self.fd),
        ensures
            final(context)@ == old(context)@.after_read(self.fd, result, op),
    {
        match result {
            Ok(n) => {
                context.queue.push_back(Operation::User(UserOperation::Complete(op, Ok(n))));
            },
            Err(_) => {
                let entry = context.descriptors.get_mut(&self.fd).unwrap();
                entry.read_handler = Some(UserOperation::Retry(op));
                context.queue.push_back(Operation::Poll);
            },
        }
        assert(context@ =~= old(context)@.after_read(self.fd, result, op));
    }
}

/// A read that did not block hands its callback the very outcome that it had: the completion is
/// queued behind all other operations, and nothing else changes.
pub proof fn law_read_completes_with_its_outcome<T>(
    ctx: ContextView<T>,
    fd: i32,
    n: usize,
    errno: i32,
    op: T,
)
    ensures
        ({
            let done = ctx.after_read(fd, Ok(n), op);
            &&& done.queue == ctx.queue.push(Operation::User(UserOperation::Complete(op, Ok(n))))
            &&& done.descriptors == ctx.descriptors
            &&& done.fd == ctx.fd
        }),
        ({
            let failed = ctx.after_read(fd, Err(IoError::Os(errno)), op);
            &&& failed.queue == ctx.queue.push(
                Operation::User(UserOperation::Complete(op, Err(IoError::Os(errno)))),
            )
            &&& failed.descriptors == ctx.descriptors
            &&& failed.fd == ctx.fd
        }),
{
}

/// A read that would block waits on the reading side of its descriptor, in place of what waited
/// there, and a poll is queued behind all other operations. The writing side and the other
/// descriptors stay as they are.
pub proof fn law_blocked_read_waits<T>(ctx: ContextView<T>, fd: i32, op: T, other: i32)
    requires
        ctx.descriptors.contains_key(fd),
    ensures
        ({
            let blocked = ctx.after_read(fd, Err(IoError::WouldBlock), op);
            &&& blocked.queue == ctx.queue.push(Operation::Poll)
            &&& blocked.fd == ctx.fd
            &&& blocked.descriptors.dom() == ctx.descriptors.dom()
            &&& blocked.descriptors[fd].read_handler == Some(UserOperation::Retry(op))
            &&& blocked.descriptors[fd].write_handler == ctx.descriptors[fd].write_handler
            &&& blocked.descriptors[fd].events == ctx.descriptors[fd].events
            &&& other != fd ==> blocked.descriptors[other] == ctx.descriptors[other]
        }),
{
    assert(ctx.after_read(fd, Err(IoError::WouldBlock), op).descriptors.dom()
        =~= ctx.descriptors.dom());
}

/// A connection attempt has its callback wait on the writing side of its descriptor, and nothing
/// on the reading side, and a poll is queued behind all other operations.
pub proof fn law_connection_attempt_waits<T>(
    ctx: ContextView<T>,
    fd: i32,
    callback: T,
    other: i32,
)
    ensures
        ({
            let started = ctx.connecting(fd, callback);
            &&& started.queue == ctx.queue.push(Operation::Poll)
            &&& started.fd == ctx.fd
            &&& started.descriptors.contains_key(fd)
            &&& started.descriptors[fd].write_handler == Some(UserOperation::Call(callback))
            &&& started.descriptors[fd].read_handler is None
            &&& started.descriptors[fd].events is Other
            &&& other != fd ==> {
                &&& started.descriptors.contains_key(other) == ctx.descriptors.contains_key(other)
                &&& ctx.descriptors.contains_key(other) ==> started.descriptors[other]
                    == ctx.descriptors[other]
            }
        }),
{
}

/// A descriptor is added to what the kernel watches, and its changes of readiness are reported
/// once.
pub proof fn law_change_flags()
    ensures
        EV_ADD | EV_CLEAR == 0x21u16,
{
    assert(0x1u16 | 0x20u16 == 0x21u16) by (bit_vector);
}

} // verus!
