//! The event loop over a [`Context`]: it runs what is queued, polls, and dispatches the
//! callbacks of the descriptors that have become ready.
//!
//! The loop advances one step at a time. A step tells its driver what to do outside: run a
//! callback, or poll the kernel; the driver does it and takes the next step.

use vstd::prelude::*;

use crate::http::reactor::event_fd;
use crate::http::reactor::has_events;
use crate::http::reactor::law_event_bits;
use crate::http::reactor::Context;
use crate::http::reactor::ContextView;
use crate::http::reactor::EventData;
use crate::http::reactor::PollEvent;
use crate::http::reactor::EPOLLIN;
use crate::http::reactor::EPOLLOUT;
use crate::http::reactor::IDLE_TIMEOUT;
use crate::operation::IoError;
use crate::operation::Operation;
use crate::operation::UserOperation;

verus! {

/// Where an event loop stands.
#[derive(Debug)]
pub enum Phase<T> {
    /// At the start of a turn.
    Turn,
    /// So many of the operations that were queued when the turn began are still to be taken.
    Drain(usize),
    /// A poll has been asked for.
    Wait,
    /// Before the next event of the poll, if there is one.
    Events,
    /// The entry of the current event is taken out; its writing side comes first.
    Write(EventData<T>),
    /// The writing side of the current event is done; its reading side comes next.
    Read(EventData<T>),
    /// Both sides of the current event are done; its entry goes back.
    Restore(EventData<T>),
    /// The poll failed: the loop is over.
    Stopped,
}

/// What the driver of a loop has to do before the next step.
#[derive(Debug)]
pub enum Step<T> {
    /// Nothing.
    Idle,
    /// Run this operation.
    Call(UserOperation<T>),
    /// Poll for at most so many milliseconds and hand in the outcome.
    Wait(i32),
    /// Take a new connection from the control channel.
    Control,
    /// Stop: there are no more steps.
    Stop,
}

/// An event loop.
///
/// A loop may have a control channel: events that carry its descriptor announce new
/// connections and are told to the driver, not looked up in the context.
#[derive(Debug)]
pub struct EventLoop<T> {
    pub control: Option<i32>,
    pub phase: Phase<T>,
    pub events: Vec<PollEvent>,
    pub next: usize,
}

/// What an [`EventLoop`] holds.
#[verifier::ext_equal]
pub struct LoopView<T> {
    pub control: Option<i32>,
    pub phase: Phase<T>,
    pub events: Seq<PollEvent>,
    pub next: int,
}

impl<T> View for EventLoop<T> {
    type V = LoopView<T>;

    open spec fn view(&self) -> LoopView<T> {
        LoopView {
            control: self.control,
            phase: self.phase,
            events: self.events@,
            next: self.next as int,
        }
    }
}

impl<T> LoopView<T> {
    /// The loop at another phase.
    pub open spec fn at(self, phase: Phase<T>) -> Self {
        LoopView { phase, ..self }
    }

    /// Whether the loop is in the middle of one of its events.
    pub open spec fn in_event(self) -> bool {
        self.phase is Write || self.phase is Read || self.phase is Restore
    }

    /// An event that is being worked on is one of those that the poll gave.
    pub open spec fn wf(self) -> bool {
        &&& 0 <= self.next <= self.events.len()
        &&& self.in_event() ==> self.next < self.events.len()
    }

    /// Whether an event is about the control channel.
    pub open spec fn is_control(self, event: PollEvent) -> bool {
        self.control matches Some(fd) && event.data == fd as u64
    }

    /// The descriptor whose entry the next step takes out of the context, if it does that.
    pub open spec fn needs(self) -> Option<i32> {
        if self.phase is Events && self.next < self.events.len() && !self.is_control(
            self.events[self.next],
        ) {
            Some(event_fd(self.events[self.next]))
        } else {
            None
        }
    }

    /// One step: the loop and the context after it, and what the driver is told.
    pub open spec fn step(self, ctx: ContextView<T>) -> (LoopView<T>, ContextView<T>, Step<T>) {
        match self.phase {
            Phase::Turn => (self.at(Phase::Drain(ctx.queue.len() as usize)), ctx, Step::Idle),
            Phase::Drain(left) => if left > 0 && ctx.queue.len() > 0 {
                let rest = ContextView { queue: ctx.queue.skip(1), ..ctx };
                let after = self.at(Phase::Drain((left - 1) as usize));
                match ctx.queue[0] {
                    Operation::User(op) => (after, rest, Step::Call(op)),
                    Operation::Poll => (after, rest, Step::Idle),
                }
            } else {
                (self.at(Phase::Wait), ctx, Step::Wait(ctx.timeout()))
            },
            Phase::Wait => (self, ctx, Step::Wait(ctx.timeout())),
            Phase::Events => if self.next >= self.events.len() {
                (self.at(Phase::Turn), ctx, Step::Idle)
            } else if self.is_control(self.events[self.next]) {
                (LoopView { next: self.next + 1, ..self }, ctx, Step::Control)
            } else {
                let fd = event_fd(self.events[self.next]);
                (
                    self.at(Phase::Write(ctx.fdmap[fd])),
                    ContextView { fdmap: ctx.fdmap.remove(fd), ..ctx },
                    Step::Idle,
                )
            },
            Phase::Write(entry) => if has_events(self.events[self.next].events, EPOLLOUT) {
                let done = EventData { handle_write: None, ..entry };
                (self.at(Phase::Read(done)), ctx, call(entry.handle_write))
            } else {
                (self.at(Phase::Read(entry)), ctx, Step::Idle)
            },
            Phase::Read(entry) => if has_events(self.events[self.next].events, EPOLLIN) {
                let done = EventData { handle_read: None, ..entry };
                (self.at(Phase::Restore(done)), ctx, call(entry.handle_read))
            } else {
                (self.at(Phase::Restore(entry)), ctx, Step::Idle)
            },
            Phase::Restore(entry) => (
                LoopView { phase: Phase::Events, next: self.next + 1, ..self },
                ctx.with_entry(event_fd(self.events[self.next]), entry),
                Step::Idle,
            ),
            Phase::Stopped => (self, ctx, Step::Stop),
        }
    }

    /// The loop once the poll that it asked for has ended in `result`.
    pub open spec fn polled(self, result: Result<Seq<PollEvent>, IoError>) -> Self {
        match result {
            Ok(events) => LoopView { phase: Phase::Events, events, next: 0, ..self },
            Err(_) => self.at(Phase::Stopped),
        }
    }
}

/// The step that runs a callback, where there is one.
pub open spec fn call<T>(op: Option<UserOperation<T>>) -> Step<T> {
    match op {
        Some(op) => Step::Call(op),
        None => Step::Idle,
    }
}

fn call_of<T>(op: Option<UserOperation<T>>) -> (r: Step<T>)
    ensures
        r == call(op),
{
    match op {
        Some(op) => Step::Call(op),
        None => Step::Idle,
    }
}

impl<T> EventLoop<T> {
    /// A loop at the start of its first turn, with the control channel `control` if any.
    pub fn new(control: Option<i32>) -> (r: Self)
        ensures
            r@ == (LoopView { control, phase: Phase::<T>::Turn, events: Seq::empty(), next: 0 }),
            r@.wf(),
    {
        let r = EventLoop { control, phase: Phase::Turn, events: Vec::new(), next: 0 };
        assert(r.events@ =~= Seq::empty());
        r
    }

    /// Whether an event is about the control channel.
    fn is_control(&self, event: PollEvent) -> (r: bool)
        ensures
            r == self@.is_control(event),
    {
        match self.control {
            Some(fd) => event.data == fd as u64,
            None => false,
        }
    }

    /// The descriptor whose entry the context must hold for the next step.
    pub fn needs(&self) -> (r: Option<i32>)
        requires
            self@.wf(),
        ensures
            r == self@.needs(),
    {
        match self.phase {
            Phase::Events => if self.next < self.events.len() && !self.is_control(
                self.events[self.next],
            ) {
                Some(#[verifier::truncate] (self.events[self.next].data as i32))
            } else {
                None
            },
            _ => None,
        }
    }

    /// Takes one step.
    pub fn run(&mut self, ctx: &mut Context<T>) -> (r: Step<T>)
        requires
            old(self)@.wf(),
            old(self)@.needs() matches Some(fd) ==> old(ctx)@.fdmap.contains_key(fd),
        ensures
            final(self)@.wf(),
            (final(self)@, final(ctx)@, r) == old(self)@.step(old(ctx)@),
    {
        let mut phase = Phase::Turn;
        std::mem::swap(&mut phase, &mut self.phase);
        match phase {
            Phase::Turn => {
                self.phase = Phase::Drain(ctx.queue.len());
                Step::Idle
            },
            Phase::Drain(left) => {
                if left > 0 {
                    match ctx.queue.pop_front() {
                        Some(Operation::User(op)) => {
                            self.phase = Phase::Drain(left - 1);
                            return Step::Call(op);
                        },
                        Some(Operation::Poll) => {
                            self.phase = Phase::Drain(left - 1);
                            return Step::Idle;
                        },
                        None => {},
                    }
                }
                self.phase = Phase::Wait;
                Step::Wait(Self::timeout(ctx))
            },
            Phase::Wait => {
                self.phase = Phase::Wait;
                Step::Wait(Self::timeout(ctx))
            },
            Phase::Events => {
                if self.next >= self.events.len() {
                    self.phase = Phase::Turn;
                    Step::Idle
                } else if self.is_control(self.events[self.next]) {
                    self.phase = Phase::Events;
                    self.next = self.next + 1;
                    Step::Control
                } else {
                    let fd: i32 = #[verifier::truncate] (self.events[self.next].data as i32);
                    let entry = ctx.fdmap.remove(&fd).unwrap();
                    self.phase = Phase::Write(entry);
                    Step::Idle
                }
            },
            Phase::Write(mut entry) => {
                if self.events[self.next].events & EPOLLOUT == EPOLLOUT {
                    let op = entry.handle_write.take();
                    self.phase = Phase::Read(entry);
                    call_of(op)
                } else {
                    self.phase = Phase::Read(entry);
                    Step::Idle
                }
            },
            Phase::Read(mut entry) => {
                if self.events[self.next].events & EPOLLIN == EPOLLIN {
                    let op = entry.handle_read.take();
                    self.phase = Phase::Restore(entry);
                    call_of(op)
                } else {
                    self.phase = Phase::Restore(entry);
                    Step::Idle
                }
            },
            Phase::Restore(entry) => {
                let fd: i32 = #[verifier::truncate] (self.events[self.next].data as i32);
                ctx.fdmap.insert(fd, entry);
                assert(self.next < self.events.len());
                self.next = self.next + 1;
                self.phase = Phase::Events;
                Step::Idle
            },
            Phase::Stopped => {
                self.phase = Phase::Stopped;
                Step::Stop
            },
        }
    }

    /// How long the next poll may sleep.
    fn timeout(ctx: &Context<T>) -> (r: i32)
        ensures
            r == ctx@.timeout(),
    {
        if ctx.queue.len() == 0 {
            IDLE_TIMEOUT
        } else {
            0
        }
    }

    /// Hands in the outcome of the poll that the last step asked for.
    pub fn polled(&mut self, result: Result<Vec<PollEvent>, IoError>)
        requires
            old(self)@.wf(),
            old(self)@.phase is Wait,
        ensures
            final(self)@.wf(),
            final(self)@ == old(self)@.polled(
                match result {
                    Ok(events) => Ok(events@),
                    Err(err) => Err(err),
                },
            ),
    {
        match result {
            Ok(events) => {
                self.events = events;
                self.next = 0;
                self.phase = Phase::Events;
            },
            Err(_) => {
                self.phase = Phase::Stopped;
            },
        }
    }
}

/// The loop and the context after as many steps as `pushes` has items, with the operations
/// that the steps took off the queue. After each step the user code that it ran may have
/// queued operations of its own: the items of `pushes`.
pub open spec fn drained<T>(
    l: LoopView<T>,
    ctx: ContextView<T>,
    pushes: Seq<Seq<Operation<T>>>,
) -> (LoopView<T>, ContextView<T>, Seq<Operation<T>>)
    decreases pushes.len(),
{
    if pushes.len() == 0 {
        (l, ctx, Seq::empty())
    } else {
        let (l1, ctx1, step) = l.step(ctx);
        let ctx2 = ContextView { queue: ctx1.queue + pushes[0], ..ctx1 };
        let (l3, ctx3, taken) = drained(l1, ctx2, pushes.skip(1));
        (l3, ctx3, seq![ctx.queue[0]] + taken)
    }
}

proof fn lemma_drained<T>(
    l: LoopView<T>,
    ctx: ContextView<T>,
    pending: Seq<Operation<T>>,
    added: Seq<Operation<T>>,
    pushes: Seq<Seq<Operation<T>>>,
)
    requires
        l.phase == Phase::<T>::Drain(pending.len() as usize),
        pending.len() <= usize::MAX,
        ctx.queue == pending + added,
        pushes.len() == pending.len(),
    ensures
        ({
            let (l1, ctx1, taken) = drained(l, ctx, pushes);
            &&& l1 == l.at(Phase::Drain(0))
            &&& taken == pending
            &&& ctx1.queue == added + pushes.flatten()
            &&& ctx1.timeout() == (if (added + pushes.flatten()).len() == 0 {
                IDLE_TIMEOUT
            } else {
                0
            })
        }),
    decreases pushes.len(),
{
    if pushes.len() == 0 {
        assert(pending =~= Seq::empty());
        assert(pushes.flatten() =~= Seq::empty());
        assert(ctx.queue =~= added + pushes.flatten());
    } else {
        let (l1, ctx1, step) = l.step(ctx);
        let ctx2 = ContextView { queue: ctx1.queue + pushes[0], ..ctx1 };
        assert(ctx1.queue =~= pending.skip(1) + added);
        assert(ctx2.queue =~= pending.skip(1) + (added + pushes[0]));
        lemma_drained(l1, ctx2, pending.skip(1), added + pushes[0], pushes.skip(1));
        assert(pushes.flatten() =~= pushes[0] + pushes.skip(1).flatten()) by {
            assert(pushes.drop_first() =~= pushes.skip(1));
            assert(pushes.first() == pushes[0]);
        }
        assert(seq![ctx.queue[0]] + pending.skip(1) =~= pending);
        assert((added + pushes[0]) + pushes.skip(1).flatten() =~= added + pushes.flatten());
    }
}

/// A turn takes exactly the operations that were queued when it began, in the order in which
/// they were queued. What the user code that it runs queues meanwhile is left, in order, for
/// the next turn.
pub proof fn law_turn_takes_what_was_queued<T>(
    l: LoopView<T>,
    ctx: ContextView<T>,
    pushes: Seq<Seq<Operation<T>>>,
)
    requires
        l.phase is Turn,
        ctx.queue.len() <= usize::MAX,
        pushes.len() == ctx.queue.len(),
    ensures
        ({
            let (l1, ctx1, step) = l.step(ctx);
            let (l2, ctx2, taken) = drained(l1, ctx1, pushes);
            &&& step is Idle
            &&& taken == ctx.queue
            &&& ctx2.queue == pushes.flatten()
            &&& l2 == l.at(Phase::Drain(0))
        }),
{
    let (l1, ctx1, step) = l.step(ctx);
    assert(ctx1.queue =~= ctx.queue + Seq::empty());
    lemma_drained(l1, ctx1, ctx.queue, Seq::empty(), pushes);
    assert(Seq::empty() + pushes.flatten() =~= pushes.flatten());
}

/// Once a turn has taken its operations, the loop polls: without sleeping where user code
/// has queued operations meanwhile, and for the idle timeout where it has not.
pub proof fn law_poll_sleeps_only_when_idle<T>(l: LoopView<T>, ctx: ContextView<T>)
    requires
        l.phase == Phase::<T>::Drain(0),
    ensures
        ({
            let (l1, ctx1, step) = l.step(ctx);
            &&& l1 == l.at(Phase::Wait)
            &&& ctx1 == ctx
            &&& step == Step::<T>::Wait(if ctx.queue.len() > 0 { 0 } else { IDLE_TIMEOUT })
        }),
{
}

/// An event runs the writing callback of its descriptor before the reading one, each only if
/// the event reports that side and a callback waits for it. Afterwards the entry is back,
/// without the callbacks that were due, whatever the callbacks did to the context meanwhile.
pub proof fn law_event_runs_due_callbacks<T>(
    l: LoopView<T>,
    ctx: ContextView<T>,
    after_write: ContextView<T>,
    after_read: ContextView<T>,
)
    requires
        l.wf(),
        l.needs() is Some,
        ctx.fdmap.contains_key(l.needs()->0),
    ensures
        ({
            let fd = l.needs()->0;
            let event = l.events[l.next];
            let entry = ctx.fdmap[fd];
            let (l1, ctx1, _) = l.step(ctx);
            let (l2, ctx2, write) = l1.step(ctx1);
            let (l3, ctx3, read) = l2.step(after_write);
            let (l4, ctx4, _) = l3.step(after_read);
            let out = has_events(event.events, EPOLLOUT);
            let inn = has_events(event.events, EPOLLIN);
            &&& ctx2 == (ContextView { fdmap: ctx.fdmap.remove(fd), ..ctx })
            &&& write == (if out { call(entry.handle_write) } else { Step::Idle })
            &&& ctx3 == after_write
            &&& read == (if inn { call(entry.handle_read) } else { Step::Idle })
            &&& ctx4 == after_read.with_entry(
                fd,
                EventData {
                    events: entry.events,
                    handle_write: if out { None } else { entry.handle_write },
                    handle_read: if inn { None } else { entry.handle_read },
                },
            )
            &&& l4 == (LoopView { phase: Phase::Events, next: l.next + 1, ..l })
        }),
{
}

/// A receive that would block is not lost: as soon as an event reports that the descriptor
/// is readable, the loop has the driver start the same receive again.
pub proof fn law_blocked_recv_is_retried<T>(
    l: LoopView<T>,
    ctx: ContextView<T>,
    fd: i32,
    op: T,
    after_write: ContextView<T>,
)
    requires
        l.wf(),
        l.needs() == Some(fd),
        ctx.fdmap.contains_key(fd),
        has_events(l.events[l.next].events, EPOLLIN),
    ensures
        ({
            let blocked = ctx.after_recv(fd, Err(IoError::WouldBlock), op);
            let (l1, ctx1, _) = l.step(blocked);
            let (l2, ctx2, _) = l1.step(ctx1);
            let (l3, ctx3, read) = l2.step(after_write);
            &&& blocked.queue.last() is Poll
            &&& read == Step::Call(UserOperation::Retry(op))
        }),
{
}

/// A send that would block is not lost: as soon as an event reports that the descriptor is
/// writable, the loop has the driver start the same send again.
pub proof fn law_blocked_send_is_retried<T>(l: LoopView<T>, ctx: ContextView<T>, fd: i32, op: T)
    requires
        l.wf(),
        l.needs() == Some(fd),
        ctx.fdmap.contains_key(fd),
        has_events(l.events[l.next].events, EPOLLOUT),
    ensures
        ({
            let blocked = ctx.after_send(fd, Err(IoError::WouldBlock), op);
            let (l1, ctx1, _) = l.step(blocked);
            let (l2, ctx2, write) = l1.step(ctx1);
            &&& blocked.queue.last() is Poll
            &&& write == Step::Call(UserOperation::Retry(op))
        }),
{
}

/// What the driver is told by as many steps as `pushes` has items, each followed by what the
/// user code that it ran has queued.
pub open spec fn told<T>(
    l: LoopView<T>,
    ctx: ContextView<T>,
    pushes: Seq<Seq<Operation<T>>>,
) -> Seq<Step<T>>
    decreases pushes.len(),
{
    if pushes.len() == 0 {
        Seq::empty()
    } else {
        let (l1, ctx1, step) = l.step(ctx);
        let ctx2 = ContextView { queue: ctx1.queue + pushes[0], ..ctx1 };
        seq![step] + told(l1, ctx2, pushes.skip(1))
    }
}

proof fn lemma_told<T>(
    l: LoopView<T>,
    ctx: ContextView<T>,
    pending: Seq<Operation<T>>,
    added: Seq<Operation<T>>,
    pushes: Seq<Seq<Operation<T>>>,
)
    requires
        l.phase == Phase::<T>::Drain(pending.len() as usize),
        pending.len() <= usize::MAX,
        ctx.queue == pending + added,
        pushes.len() == pending.len(),
    ensures
        told(l, ctx, pushes).len() == pending.len(),
        forall|i: int|
            0 <= i < pending.len() ==> #[trigger] told(l, ctx, pushes)[i] == (match pending[i] {
                Operation::User(op) => Step::Call(op),
                Operation::Poll => Step::Idle,
            }),
    decreases pushes.len(),
{
    if pushes.len() > 0 {
        let (l1, ctx1, step) = l.step(ctx);
        let ctx2 = ContextView { queue: ctx1.queue + pushes[0], ..ctx1 };
        let rest = pending.skip(1);
        assert(ctx.queue[0] == pending[0]);
        assert(ctx1.queue =~= rest + added);
        assert(ctx2.queue =~= rest + (added + pushes[0]));
        lemma_told(l1, ctx2, rest, added + pushes[0], pushes.skip(1));
        let later = told(l1, ctx2, pushes.skip(1));
        assert forall|i: int| 0 <= i < pending.len() implies #[trigger] told(l, ctx, pushes)[i]
            == (match pending[i] {
            Operation::User(op) => Step::Call(op),
            Operation::Poll => Step::Idle,
        }) by {
            if i > 0 {
                assert(told(l, ctx, pushes)[i] == later[i - 1]);
                assert(rest[i - 1] == pending[i]);
            }
        }
    }
}

/// Everything that was queued when a turn began is run by it: for each operation, in order, the
/// driver is told to run it as it was queued, and to do nothing only for a poll, whatever the
/// user code queues meanwhile.
pub proof fn law_turn_runs_what_was_queued<T>(
    l: LoopView<T>,
    ctx: ContextView<T>,
    pushes: Seq<Seq<Operation<T>>>,
    i: int,
)
    requires
        l.phase is Turn,
        ctx.queue.len() <= usize::MAX,
        pushes.len() == ctx.queue.len(),
        0 <= i < ctx.queue.len(),
    ensures
        ({
            let (l1, ctx1, begun) = l.step(ctx);
            let steps = told(l1, ctx1, pushes);
            &&& begun is Idle
            &&& ctx1 == ctx
            &&& steps.len() == ctx.queue.len()
            &&& match ctx.queue[i] {
                Operation::User(op) => steps[i] == Step::Call(op),
                Operation::Poll => steps[i] is Idle,
            }
        }),
{
    let (l1, ctx1, begun) = l.step(ctx);
    assert(ctx1.queue =~= ctx.queue + Seq::empty());
    lemma_told(l1, ctx1, ctx.queue, Seq::empty(), pushes);
}

/// Taking an operation off the queue runs it, if it is one to run, and changes nothing else: the
/// other operations stay queued in their order, and so does what waits.
pub proof fn law_operation_is_taken_and_run<T>(l: LoopView<T>, ctx: ContextView<T>, left: usize)
    requires
        l.phase == Phase::<T>::Drain(left),
        left > 0,
        ctx.queue.len() > 0,
    ensures
        ({
            let (l1, ctx1, step) = l.step(ctx);
            &&& match ctx.queue[0] {
                Operation::User(op) => step == Step::Call(op),
                Operation::Poll => step is Idle,
            }
            &&& l1.phase == Phase::<T>::Drain((left - 1) as usize)
            &&& seq![ctx.queue[0]] + ctx1.queue == ctx.queue
            &&& ctx1.fdmap == ctx.fdmap
            &&& ctx1.reactor == ctx.reactor
            &&& l1.control == l.control
            &&& l1.events == l.events
            &&& l1.next == l.next
        }),
{
    assert(seq![ctx.queue[0]] + l.step(ctx).1.queue =~= ctx.queue);
}

/// A turn begins with all that is queued, and polls once it has taken that.
pub proof fn law_turn_begins_with_all_operations<T>(l: LoopView<T>, ctx: ContextView<T>)
    requires
        ctx.queue.len() <= usize::MAX,
    ensures
        l.phase is Turn ==> {
            let (l1, ctx1, step) = l.step(ctx);
            &&& step is Idle
            &&& ctx1 == ctx
            &&& l1.phase matches Phase::Drain(left) && left == ctx.queue.len()
            &&& l1.control == l.control
            &&& l1.events == l.events
            &&& l1.next == l.next
        },
        l.phase is Drain && (l.phase->Drain_0 == 0 || ctx.queue.len() == 0) ==> {
            let (l1, ctx1, step) = l.step(ctx);
            &&& ctx.queue.len() > 0 ==> step == Step::<T>::Wait(0)
            &&& ctx.queue.len() == 0 ==> step == Step::<T>::Wait(60000)
            &&& ctx1 == ctx
            &&& l1.phase is Wait
            &&& l1.control == l.control
            &&& l1.events == l.events
            &&& l1.next == l.next
        },
{
}

/// A loop that waits for a poll asks for it again, and one that is over stays so.
pub proof fn law_loop_waits_and_stays_over<T>(l: LoopView<T>, ctx: ContextView<T>)
    ensures
        l.phase is Wait ==> l.step(ctx) == (
            l,
            ctx,
            Step::<T>::Wait(
                if ctx.queue.len() == 0 {
                    60000
                } else {
                    0
                },
            ),
        ),
        l.phase is Stopped ==> l.step(ctx) == (l, ctx, Step::<T>::Stop),
{
}

/// The events of a poll are worked on from the first; a poll that failed ends the loop.
pub proof fn law_poll_hands_in_its_events<T>(
    l: LoopView<T>,
    events: Seq<PollEvent>,
    err: IoError,
)
    ensures
        l.polled(Ok(events)).events == events,
        l.polled(Ok(events)).next == 0,
        l.polled(Ok(events)).phase is Events,
        l.polled(Ok(events)).control == l.control,
        l.polled(Err(err)).phase is Stopped,
        l.polled(Err(err)).events == l.events,
        l.polled(Err(err)).next == l.next,
        l.polled(Err(err)).control == l.control,
{
}

/// An event of the control channel is told to the driver and changes nothing else. Behind the last
/// event the next turn begins.
pub proof fn law_control_event_is_told<T>(l: LoopView<T>, ctx: ContextView<T>, fd: i32)
    requires
        l.phase is Events,
    ensures
        ({
            let (l1, ctx1, step) = l.step(ctx);
            let told = 0 <= l.next < l.events.len() && l.control == Some(fd)
                && l.events[l.next].data == fd as u64;
            &&& told ==> {
                &&& step is Control
                &&& ctx1 == ctx
                &&& l1 == (LoopView { next: l.next + 1, ..l })
                &&& l.needs() is None
            }
            &&& step is Control ==> l.control is Some && l.next < l.events.len()
                && l.events[l.next].data == l.control->0 as u64
            &&& l.next >= l.events.len() ==> {
                &&& step is Idle
                &&& ctx1 == ctx
                &&& l1.phase is Turn
                &&& l1.control == l.control
                &&& l1.events == l.events
                &&& l1.next == l.next
                &&& l.needs() is None
            }
        }),
{
}

/// Any other event takes what waits for its descriptor out of the context, and nothing else: the
/// entry is the one of the descriptor that was registered with the event.
pub proof fn law_event_takes_its_entry<T>(
    l: LoopView<T>,
    ctx: ContextView<T>,
    fd: i32,
    other: i32,
)
    requires
        l.phase is Events,
        0 <= l.next < l.events.len(),
        event_fd(l.events[l.next]) == fd,
        l.control is None || l.control->0 as u64 != l.events[l.next].data,
        ctx.fdmap.contains_key(fd),
    ensures
        ({
            let (l1, ctx1, step) = l.step(ctx);
            &&& l.needs() == Some(fd)
            &&& step is Idle
            &&& l1.phase == Phase::Write(ctx.fdmap[fd])
            &&& l1.control == l.control
            &&& l1.events == l.events
            &&& l1.next == l.next
            &&& !ctx1.fdmap.contains_key(fd)
            &&& other != fd ==> {
                &&& ctx1.fdmap.contains_key(other) == ctx.fdmap.contains_key(other)
                &&& ctx.fdmap.contains_key(other) ==> ctx1.fdmap[other] == ctx.fdmap[other]
            }
            &&& ctx1.queue == ctx.queue
            &&& ctx1.reactor == ctx.reactor
        }),
{
}

/// The writing side of an event comes first: where the event reports that data can be written, the
/// callback that waits for that is taken out of the entry and run; otherwise it stays. Nothing else
/// changes.
pub proof fn law_writing_side_is_run<T>(
    l: LoopView<T>,
    ctx: ContextView<T>,
    entry: EventData<T>,
)
    requires
        l.phase == Phase::Write(entry),
    ensures
        ({
            let (l1, ctx1, step) = l.step(ctx);
            let ready = (l.events[l.next].events / 4) % 2 == 1;
            &&& l1.phase matches Phase::Read(after) && {
                &&& after.handle_read == entry.handle_read
                &&& after.events == entry.events
                &&& ready ==> after.handle_write is None
                &&& !ready ==> after.handle_write == entry.handle_write
            }
            &&& match entry.handle_write {
                Some(op) if ready => step == Step::Call(op),
                _ => step is Idle,
            }
            &&& ctx1 == ctx
            &&& l1.control == l.control
            &&& l1.events == l.events
            &&& l1.next == l.next
        }),
{
    law_event_bits(0, l.events[l.next].events, 0);
}

/// The reading side of an event comes next: where the event reports data to read, the callback that
/// waits for that is taken out of the entry and run; otherwise it stays. Nothing else changes.
pub proof fn law_reading_side_is_run<T>(
    l: LoopView<T>,
    ctx: ContextView<T>,
    entry: EventData<T>,
)
    requires
        l.phase == Phase::Read(entry),
    ensures
        ({
            let (l1, ctx1, step) = l.step(ctx);
            let ready = l.events[l.next].events % 2 == 1;
            &&& l1.phase matches Phase::Restore(after) && {
                &&& after.handle_write == entry.handle_write
                &&& after.events == entry.events
                &&& ready ==> after.handle_read is None
                &&& !ready ==> after.handle_read == entry.handle_read
            }
            &&& match entry.handle_read {
                Some(op) if ready => step == Step::Call(op),
                _ => step is Idle,
            }
            &&& ctx1 == ctx
            &&& l1.control == l.control
            &&& l1.events == l.events
            &&& l1.next == l.next
        }),
{
    law_event_bits(0, l.events[l.next].events, 0);
}

/// When both sides of an event are done its entry goes back to its descriptor, nothing else
/// changes, and the next event comes.
pub proof fn law_entry_goes_back<T>(
    l: LoopView<T>,
    ctx: ContextView<T>,
    entry: EventData<T>,
    fd: i32,
    other: i32,
)
    requires
        l.phase == Phase::Restore(entry),
        event_fd(l.events[l.next]) == fd,
    ensures
        ({
            let (l1, ctx1, step) = l.step(ctx);
            &&& step is Idle
            &&& ctx1.fdmap.contains_key(fd)
            &&& ctx1.fdmap[fd] == entry
            &&& other != fd ==> {
                &&& ctx1.fdmap.contains_key(other) == ctx.fdmap.contains_key(other)
                &&& ctx.fdmap.contains_key(other) ==> ctx1.fdmap[other] == ctx.fdmap[other]
            }
            &&& ctx1.queue == ctx.queue
            &&& ctx1.reactor == ctx.reactor
            &&& l1.phase is Events
            &&& l1.next == l.next + 1
            &&& l1.control == l.control
            &&& l1.events == l.events
        }),
{
}

/// A loop is well-formed wherever its next event lies, as long as an event that it works on is
/// there.
pub proof fn law_loop_is_well_formed<T>(l: LoopView<T>)
    requires
        0 <= l.next < l.events.len() || (l.next == l.events.len() && !(l.phase is Write
            || l.phase is Read || l.phase is Restore)),
    ensures
        l.wf(),
        l.needs() is Some ==> l.phase is Events && l.next < l.events.len(),
{
}

/// The view tells the fields.
pub proof fn law_view_tells_the_loop<T>(l: EventLoop<T>)
    ensures
        l@.control == l.control,
        l@.phase == l.phase,
        l@.events == l.events@,
        l@.next == l.next,
{
}

} // verus!
