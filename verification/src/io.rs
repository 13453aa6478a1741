//! The reactor that runs until it has nothing left to do, for clients.

use std::collections::hash_map::Entry;
use std::collections::HashMap;

use vstd::prelude::*;

use crate::operation::Operation;
use crate::operation::UserOperation;
use crate::queue::Queue;

pub mod event_loop;
pub mod tcp;

verus! {

/// What an event is about.
#[derive(Clone, Copy, Debug, PartialEq, Eq, Structural)]
pub enum EventFilter {
    /// There is data to read.
    Read,
    /// Data can be written.
    Write,
    /// Anything else.
    Other,
}

/// An event of a descriptor.
#[derive(Clone, Copy, Debug, PartialEq, Eq, Structural)]
pub struct KEvent {
    pub ident: u64,
    pub filter: EventFilter,
}

/// The callbacks that wait for one descriptor.
#[derive(Debug)]
pub struct EventData<T> {
    pub events: EventFilter,
    pub read_handler: Option<UserOperation<T>>,
    pub write_handler: Option<UserOperation<T>>,
}

impl<T> EventData<T> {
    /// What waits for a descriptor of which no event has been seen.
    pub fn new(
        read_handler: Option<UserOperation<T>>,
        write_handler: Option<UserOperation<T>>,
    ) -> (r: Self)
        ensures
            r == (EventData { events: EventFilter::Other, read_handler, write_handler }),
    {
        EventData { events: EventFilter::Other, read_handler, write_handler }
    }

    /// Whether some callback waits.
    pub open spec fn waits(self) -> bool {
        self.read_handler is Some || self.write_handler is Some
    }
}

/// The callbacks that wait, by descriptor.
#[derive(Debug)]
pub struct DescriptorSet<T> {
    pub map: HashMap<i32, EventData<T>>,
}

impl<T> View for DescriptorSet<T> {
    type V = Map<i32, EventData<T>>;

    open spec fn view(&self) -> Map<i32, EventData<T>> {
        self.map@
    }
}

impl<T> DescriptorSet<T> {
    /// No descriptors.
    pub fn new() -> (r: Self)
        ensures
            r@ == Map::<i32, EventData<T>>::empty(),
    {
        DescriptorSet { map: HashMap::new() }
    }

    /// Sets what waits for a descriptor, and hands out what waited for it before.
    pub fn insert(&mut self, fd: i32, val: EventData<T>) -> (r: Option<EventData<T>>)
        ensures
            final(self)@ == old(self)@.insert(fd, val),
            r == old(self)@.get(fd),
    {
        self.map.insert(fd, val)
    }

    /// What waits for a descriptor, to be changed.
    pub fn get_mut(&mut self, fd: &i32) -> (r: Option<&mut EventData<T>>)
        ensures
            match r {
                Some(val) => {
                    &&& old(self)@.contains_key(*fd)
                    &&& *val == old(self)@[*fd]
                    &&& final(self)@ == old(self)@.insert(*fd, *final(val))
                },
                None => !old(self)@.contains_key(*fd) && final(self)@ == old(self)@,
            },
    {
        match self.map.entry(*fd) {
            Entry::Occupied(entry) => Some(entry.into_mut()),
            Entry::Vacant(_) => None,
        }
    }
}

/// The operations that a reactor has to run.
#[derive(Debug)]
pub struct OperationQueue<T> {
    pub queue: Queue<Operation<T>>,
}

impl<T> View for OperationQueue<T> {
    type V = Seq<Operation<T>>;

    open spec fn view(&self) -> Seq<Operation<T>> {
        self.queue@
    }
}

impl<T> OperationQueue<T> {
    /// No operations.
    pub fn new() -> (r: Self)
        ensures
            r@ == Seq::<Operation<T>>::empty(),
    {
        OperationQueue { queue: Queue::new() }
    }

    /// Adds an operation behind all others.
    pub fn push_back(&mut self, operation: Operation<T>)
        ensures
            final(self)@ == old(self)@.push(operation),
    {
        self.queue.push(operation);
    }

    /// Takes the first operation, if there is one.
    pub fn pop_front(&mut self) -> (r: Option<Operation<T>>)
        ensures
            match r {
                Some(operation) => {
                    &&& old(self)@.len() > 0
                    &&& operation == old(self)@[0]
                    &&& final(self)@ == old(self)@.skip(1)
                },
                None => old(self)@.len() == 0 && final(self)@ == old(self)@,
            },
    {
        self.queue.pop_front()
    }

    /// The number of operations.
    pub fn len(&self) -> (r: usize)
        ensures
            r == self@.len(),
    {
        self.queue.len()
    }

    /// Whether there are no operations.
    pub fn is_empty(&self) -> (r: bool)
        ensures
            r == (self@.len() == 0),
    {
        self.queue.len() == 0
    }
}

/// A reactor: its descriptor, the operations to run, and the callbacks that wait.
#[derive(Debug)]
pub struct Context<T> {
    pub fd: i32,
    pub queue: OperationQueue<T>,
    pub descriptors: DescriptorSet<T>,
}

/// What a [`Context`] holds.
#[verifier::ext_equal]
pub struct ContextView<T> {
    pub fd: i32,
    pub queue: Seq<Operation<T>>,
    pub descriptors: Map<i32, EventData<T>>,
}

impl<T> View for Context<T> {
    type V = ContextView<T>;

    open spec fn view(&self) -> ContextView<T> {
        ContextView { fd: self.fd, queue: self.queue@, descriptors: self.descriptors@ }
    }
}

impl<T> ContextView<T> {
    /// No operations, no callbacks.
    pub open spec fn empty(fd: i32) -> Self {
        ContextView { fd, queue: Seq::empty(), descriptors: Map::empty() }
    }

    /// The context with one more operation at the end of the queue.
    pub open spec fn enqueue(self, op: Operation<T>) -> Self {
        ContextView { queue: self.queue.push(op), ..self }
    }

    /// The context with `entry` as what waits for `fd`.
    pub open spec fn with_entry(self, fd: i32, entry: EventData<T>) -> Self {
        ContextView { descriptors: self.descriptors.insert(fd, entry), ..self }
    }
}

impl<T> Context<T> {
    /// An empty context around the reactor descriptor `fd`.
    pub fn new(fd: i32) -> (r: Self)
        ensures
            r@ == ContextView::<T>::empty(fd),
    {
        Context { fd, queue: OperationQueue::new(), descriptors: DescriptorSet::new() }
    }
}

/// The view tells the fields.
pub proof fn law_view_tells_the_context<T>(c: Context<T>)
    ensures
        c@.fd == c.fd,
        c@.queue == c.queue.queue.queue@,
        c@.descriptors == c.descriptors.map@,
{
}

/// A new context has nothing to do.
pub proof fn law_new_context_is_empty<T>(fd: i32, other: i32)
    ensures
        ContextView::<T>::empty(fd).fd == fd,
        ContextView::<T>::empty(fd).queue.len() == 0,
        !ContextView::<T>::empty(fd).descriptors.contains_key(other),
{
}

/// An operation is queued behind all others, and nothing else changes.
pub proof fn law_operation_is_queued_last<T>(c: ContextView<T>, op: Operation<T>)
    ensures
        c.enqueue(op).queue.len() == c.queue.len() + 1,
        c.enqueue(op).queue.last() == op,
        forall|i: int|
            0 <= i < c.queue.len() ==> #[trigger] c.enqueue(op).queue[i] == c.queue[i],
        c.enqueue(op).fd == c.fd,
        c.enqueue(op).descriptors == c.descriptors,
{
}

/// What waits for one descriptor is set, and nothing else changes.
pub proof fn law_entry_is_set<T>(c: ContextView<T>, fd: i32, entry: EventData<T>, other: i32)
    ensures
        c.with_entry(fd, entry).descriptors.contains_key(fd),
        c.with_entry(fd, entry).descriptors[fd] == entry,
        other != fd ==> {
            &&& c.with_entry(fd, entry).descriptors.contains_key(other)
                == c.descriptors.contains_key(other)
            &&& c.descriptors.contains_key(other) ==> c.with_entry(fd, entry).descriptors[other]
                == c.descriptors[other]
        },
        c.with_entry(fd, entry).fd == c.fd,
        c.with_entry(fd, entry).queue == c.queue,
{
}

/// Something waits for a descriptor unless there is neither a reading nor a writing callback.
pub proof fn law_either_side_waits<T>(entry: EventData<T>)
    ensures
        !entry.waits() <==> entry.read_handler is None && entry.write_handler is None,
{
}

} // verus!
