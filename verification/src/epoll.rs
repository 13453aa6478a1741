//! A reactor that keeps its descriptors in a vector and names its callbacks by numbers.

use std::collections::VecDeque;

use vec_map::VecMap;
use vstd::prelude::*;

use crate::http::reactor::EPOLLET;
use crate::http::reactor::EPOLLIN;
use crate::operation::IoError;

pub mod handler;
pub mod work;

verus! {

/// The map that the descriptors are kept in.
///
/// Declares `vec_map::VecMap`; nothing is claimed of it here.
#[verifier::external_type_specification]
#[verifier::external_body]
#[verifier::reject_recursive_types(V)]
pub struct ExVecMap<V>(VecMap<V>);

/// What a `vec_map::VecMap` holds: what waits for each descriptor.
pub uninterp spec fn slots(map: VecMap<EventDataRef>) -> Map<usize, EventDataRef>;

/// No descriptors.
pub open spec fn no_slots() -> Map<usize, EventDataRef> {
    Map::empty()
}

/// Calls `vec_map::VecMap::with_capacity`.
///
/// Claimed of it: the map that it makes is empty.
#[verifier::external_body]
fn vec_map_with_capacity(capacity: usize) -> (r: VecMap<EventDataRef>)
    requires
        capacity <= 0x1_0000,
    ensures
        slots(r) == no_slots(),
{
    VecMap::with_capacity(capacity)
}

/// Calls `vec_map::VecMap::insert`.
///
/// Claimed of it: afterwards the key has the value, all other keys are as before, and the
/// value that the key had before is returned. The map grows to the key, so that a key near
/// the end of the address space is left out.
#[verifier::external_body]
fn vec_map_insert(
    map: &mut VecMap<EventDataRef>,
    key: usize,
    value: EventDataRef,
) -> (r: Option<EventDataRef>)
    requires
        key < isize::MAX / 0x100,
    ensures
        slots(*final(map)) == slots(*old(map)).insert(key, value),
        r == slots(*old(map)).get(key),
{
    map.insert(key, value)
}

/// Calls `vec_map::VecMap::get_mut`.
///
/// Claimed of it: where the key has a value, a reference to it is returned, and what is
/// written there becomes the value of the key; all other keys are as before. Where it has
/// none, nothing is returned and the map is as before.
#[verifier::external_body]
fn vec_map_get_mut(map: &mut VecMap<EventDataRef>, key: usize) -> (r: Option<
    &mut EventDataRef,
>)
    ensures
        match r {
            Some(value) => {
                &&& slots(*old(map)).contains_key(key)
                &&& *value == slots(*old(map))[key]
                &&& slots(*final(map)) == slots(*old(map)).insert(key, *final(value))
            },
            None => !slots(*old(map)).contains_key(key) && slots(*final(map)) == slots(*old(map)),
        },
{
    map.get_mut(key)
}

/// What waits for one descriptor.
#[derive(Clone, Copy, Debug, PartialEq, Eq, Structural)]
pub struct EventDataRef {
    pub events: u32,
    /// The number of the callback that waits for data to read.
    pub read_handler: Option<u64>,
}

impl EventDataRef {
    /// What waits for a descriptor of which no event has been seen.
    pub fn new(read_handler: Option<u64>) -> (r: Self)
        ensures
            r == (EventDataRef { events: 0, read_handler }),
    {
        EventDataRef { events: 0, read_handler }
    }
}

/// What waits, by descriptor.
pub struct DescriptorSetRef {
    map: VecMap<EventDataRef>,
}

impl View for DescriptorSetRef {
    type V = Map<usize, EventDataRef>;

    closed spec fn view(&self) -> Map<usize, EventDataRef> {
        slots(self.map)
    }
}

/// Descriptors below this one can be kept.
pub open spec fn key_limit() -> int {
    isize::MAX as int / 0x100
}

impl DescriptorSetRef {
    /// No descriptors.
    pub fn new() -> (r: Self)
        ensures
            r@ == Map::<usize, EventDataRef>::empty(),
    {
        DescriptorSetRef { map: vec_map_with_capacity(1024) }
    }

    /// Sets what waits for a descriptor, and hands out what waited for it before.
    pub fn insert(&mut self, key: usize, val: EventDataRef) -> (r: Option<EventDataRef>)
        requires
            key < key_limit(),
        ensures
            final(self)@ == old(self)@.insert(key, val),
            r == old(self)@.get(key),
    {
        vec_map_insert(&mut self.map, key, val)
    }

    /// What waits for a descriptor, to be changed.
    pub fn get_mut(&mut self, fd: &usize) -> (r: Option<&mut EventDataRef>)
        ensures
            match r {
                Some(val) => {
                    &&& old(self)@.contains_key(*fd)
                    &&& *val == old(self)@[*fd]
                    &&& final(self)@ == old(self)@.insert(*fd, *final(val))
                },
                None => !old(self)@.contains_key(*fd) && final(self)@ == old(self)@,
            },
    {
        vec_map_get_mut(&mut self.map, *fd)
    }
}

/// User code that a reactor is asked to run. The first number is that of the callback.
#[derive(Clone, Copy, Debug, PartialEq, Eq, Structural)]
pub enum Task {
    /// So many bytes have been read.
    Read(u64, usize),
    /// So many bytes have been written.
    Written(u64, usize),
    /// There is data to read: it is read, and handed to the callback right away.
    Retry(u64),
}

/// An entry of the queue of a reactor.
#[derive(Clone, Copy, Debug, PartialEq, Eq, Structural)]
pub enum OperationRef {
    /// Some callback waits for a descriptor: the reactor has to be polled.
    Poll,
    /// User code to run.
    User(Task),
}

/// A reactor: its descriptor, the operations to run, and what waits.
pub struct Context {
    pub epoll_fd: i32,
    pub queue: VecDeque<OperationRef>,
    pub descriptors: DescriptorSetRef,
}

/// What a [`Context`] holds.
#[verifier::ext_equal]
pub struct ContextView {
    pub epoll_fd: i32,
    pub queue: Seq<OperationRef>,
    pub descriptors: Map<usize, EventDataRef>,
}

impl View for Context {
    type V = ContextView;

    open spec fn view(&self) -> ContextView {
        ContextView {
            epoll_fd: self.epoll_fd,
            queue: self.queue@,
            descriptors: self.descriptors@,
        }
    }
}

impl ContextView {
    /// No operations, nothing waits.
    pub open spec fn empty(epoll_fd: i32) -> Self {
        ContextView { epoll_fd, queue: Seq::empty(), descriptors: Map::empty() }
    }

    /// Every descriptor that is known can be kept.
    pub open spec fn wf(self) -> bool {
        forall|key: usize| #[trigger] self.descriptors.dom().contains(key) ==> key < key_limit()
    }

    /// The context with one more operation at the end of the queue.
    pub open spec fn enqueue(self, op: OperationRef) -> Self {
        ContextView { queue: self.queue.push(op), ..self }
    }

    /// The context with `entry` as what waits for `fd`.
    pub open spec fn with_entry(self, fd: usize, entry: EventDataRef) -> Self {
        ContextView { descriptors: self.descriptors.insert(fd, entry), ..self }
    }

    /// What an attempt to read from `fd` does: one that would block is put off until the
    /// descriptor is readable, any other outcome is queued for the callback.
    pub open spec fn after_read(
        self,
        fd: i32,
        result: Result<usize, IoError>,
        handler: u64,
    ) -> Self {
        match result {
            Ok(n) => self.enqueue(OperationRef::User(Task::Read(handler, n))),
            Err(_) => {
                let key = fd as usize;
                let entry = EventDataRef { read_handler: Some(handler), ..self.descriptors[key] };
                self.with_entry(key, entry).enqueue(OperationRef::Poll)
            },
        }
    }
}

impl Context {
    /// An empty context around the reactor descriptor `epoll_fd`.
    pub fn new(epoll_fd: i32) -> (r: Self)
        ensures
            r@ == ContextView::empty(epoll_fd),
            r@.wf(),
    {
        let r = Context { epoll_fd, queue: VecDeque::new(), descriptors: DescriptorSetRef::new() };
        assert(r@ =~= ContextView::empty(epoll_fd));
        r
    }

    /// Takes note of a new connection that the kernel has been asked to watch for reading.
    pub fn on_connection(&mut self, fd: i32) -> (r: SocketRef)
        requires
            old(self)@.wf(),
            0 <= fd < key_limit(),
        ensures
            final(self)@.wf(),
            r == (SocketRef { fd }),
            final(self)@ == old(self)@.with_entry(
                fd as usize,
                EventDataRef { events: EPOLLIN | EPOLLET, read_handler: None },
            ),
    {
        let mut evd = EventDataRef::new(None);
        evd.events = EPOLLIN | EPOLLET;
        self.descriptors.insert(fd as usize, evd);
        assert forall|key: usize| #[trigger]
            self@.descriptors.dom().contains(key) implies key < key_limit() by {
            if key != fd as usize {
                assert(old(self)@.descriptors.dom().contains(key));
            }
        }
        SocketRef::new(fd)
    }
}

/// A socket of a reactor.
#[derive(Clone, Copy, Debug, PartialEq, Eq, Structural)]
pub struct SocketRef {
    pub fd: i32,
}

impl SocketRef {
    /// The socket with the descriptor `fd`.
    pub fn new(fd: i32) -> (r: Self)
        ensures
            r == (SocketRef { fd }),
    {
        SocketRef { fd }
    }

    /// Settles an attempt to read that went through or would block.
    pub fn async_read_some(
        &self,
        result: Result<usize, IoError>,
        handler: u64,
        context: &mut Context,
    )
        requires
            old(context)@.wf(),
            result matches Err(err) ==> err == IoError::WouldBlock,
            result is Err ==> old(context)@.descriptors.contains_key(self.fd as usize),
        ensures
            final(context)@.wf(),
            final(context)@ == old(context)@.after_read(self.fd, result, handler),
    {
        match result {
            Ok(n) => {
                context.queue.push_back(OperationRef::User(Task::Read(handler, n)));
            },
            Err(_) => {
                let fd: usize = #[verifier::truncate] (self.fd as usize);
                let ev = context.descriptors.get_mut(&fd).unwrap();
                ev.read_handler = Some(handler);
                context.queue.push_back(OperationRef::Poll);
            },
        }
        assert(context@ =~= old(context)@.after_read(self.fd, result, handler));
    }

    /// Settles an attempt to write that went through.
    pub fn async_write_some(
        &self,
        result: Result<usize, IoError>,
        handler: u64,
        context: &mut Context,
    )
        requires
            old(context)@.wf(),
            result is Ok,
        ensures
            final(context)@.wf(),
            final(context)@ == old(context)@.enqueue(
                OperationRef::User(Task::Written(handler, result->Ok_0)),
            ),
    {
        if let Ok(len) = result {
            context.queue.push_back(OperationRef::User(Task::Written(handler, len)));
        }
        assert(context@.descriptors == old(context)@.descriptors);
    }
}

/// The view tells the fields.
pub proof fn law_view_tells_the_context(c: Context)
    ensures
        c@.epoll_fd == c.epoll_fd,
        c@.queue == c.queue@,
        c@.descriptors == c.descriptors@,
{
}

/// A new context has nothing to do, and may be used.
pub proof fn law_new_context_is_empty(fd: i32, other: usize)
    ensures
        ContextView::empty(fd).epoll_fd == fd,
        ContextView::empty(fd).queue.len() == 0,
        !ContextView::empty(fd).descriptors.contains_key(other),
        ContextView::empty(fd).wf(),
{
}

/// An operation is queued behind all others, and nothing else changes.
pub proof fn law_operation_is_queued_last(c: ContextView, op: OperationRef)
    ensures
        c.enqueue(op).queue.len() == c.queue.len() + 1,
        c.enqueue(op).queue.last() == op,
        forall|i: int|
            0 <= i < c.queue.len() ==> #[trigger] c.enqueue(op).queue[i] == c.queue[i],
        c.enqueue(op).epoll_fd == c.epoll_fd,
        c.enqueue(op).descriptors == c.descriptors,
{
}

/// What waits for one descriptor is set, and nothing else changes.
pub proof fn law_entry_is_set(c: ContextView, fd: usize, entry: EventDataRef, other: usize)
    ensures
        c.with_entry(fd, entry).descriptors.contains_key(fd),
        c.with_entry(fd, entry).descriptors[fd] == entry,
        other != fd ==> {
            &&& c.with_entry(fd, entry).descriptors.contains_key(other)
                == c.descriptors.contains_key(other)
            &&& c.descriptors.contains_key(other) ==> c.with_entry(fd, entry).descriptors[other]
                == c.descriptors[other]
        },
        c.with_entry(fd, entry).epoll_fd == c.epoll_fd,
        c.with_entry(fd, entry).queue == c.queue,
{
}

/// A read that did not block has its callback told how much was read: this is queued behind all
/// other operations, and nothing else changes.
pub proof fn law_read_completes_with_its_outcome(
    ctx: ContextView,
    fd: i32,
    n: usize,
    handler: u64,
)
    ensures
        ({
            let done = ctx.after_read(fd, Ok(n), handler);
            &&& done.queue == ctx.queue.push(OperationRef::User(Task::Read(handler, n)))
            &&& done.descriptors == ctx.descriptors
            &&& done.epoll_fd == ctx.epoll_fd
        }),
{
}

/// A read that would block has its callback wait for its descriptor, in place of what waited
/// there, and a poll is queued behind all other operations. The other descriptors stay as they
/// are.
pub proof fn law_blocked_read_waits(ctx: ContextView, fd: i32, handler: u64, other: usize)
    requires
        ctx.descriptors.contains_key(fd as usize),
    ensures
        ({
            let blocked = ctx.after_read(fd, Err(IoError::WouldBlock), handler);
            let key = fd as usize;
            &&& blocked.queue == ctx.queue.push(OperationRef::Poll)
            &&& blocked.epoll_fd == ctx.epoll_fd
            &&& blocked.descriptors.dom() == ctx.descriptors.dom()
            &&& blocked.descriptors[key].read_handler == Some(handler)
            &&& blocked.descriptors[key].events == ctx.descriptors[key].events
            &&& other != key ==> blocked.descriptors[other] == ctx.descriptors[other]
        }),
{
    assert(ctx.after_read(fd, Err(IoError::WouldBlock), handler).descriptors.dom()
        =~= ctx.descriptors.dom());
}

/// Descriptors can be kept up to millions, and a context may be used if all that it keeps are such.
pub proof fn law_descriptors_can_be_kept(ctx: ContextView)
    ensures
        key_limit() >= 0x7f_ffff,
        (forall|key: usize| #[trigger] ctx.descriptors.contains_key(key) ==> key < key_limit())
            ==> ctx.wf(),
{
    if forall|key: usize| #[trigger] ctx.descriptors.contains_key(key) ==> key < key_limit() {
        assert forall|key: usize| #[trigger] ctx.descriptors.dom().contains(key) implies key
            < key_limit() by {
            assert(ctx.descriptors.contains_key(key));
        }
    }
}

} // verus!
