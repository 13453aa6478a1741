//! The event loop of a worker: it runs what is queued, polls, and reads from the descriptors
//! that have become ready.

use vstd::prelude::*;

use crate::epoll::Context;
use crate::epoll::ContextView;
use crate::epoll::EventDataRef;
use crate::epoll::OperationRef;
use crate::epoll::Task;
use crate::http::reactor::PollEvent;
use crate::http::reactor::IDLE_TIMEOUT;
use crate::operation::IoError;

verus! {

/// The data of the events of the control channel.
pub const CONTROL: u64 = 0;

/// Where a worker stands.
#[derive(Clone, Copy, Debug, PartialEq, Eq, Structural)]
pub enum Phase {
    /// At the start of a turn.
    Turn,
    /// So many of the operations that were queued when the turn began are still to be taken.
    Drain(usize),
    /// A poll has been asked for.
    Wait,
    /// Before the next event of the poll, if there is one.
    Events,
    /// The poll failed: the worker is done.
    Stopped,
}

/// What the driver of a worker has to do before the next step.
#[derive(Clone, Copy, Debug, PartialEq, Eq, Structural)]
pub enum Step {
    /// Nothing.
    Idle,
    /// Run it.
    Call(Task),
    /// Poll for at most so many milliseconds and hand in the outcome.
    Wait(i32),
    /// Take a new connection from the control channel.
    Control,
    /// Stop: there are no more steps.
    Stop,
}

/// A worker.
#[derive(Debug)]
pub struct Worker {
    pub phase: Phase,
    pub events: Vec<PollEvent>,
    pub next: usize,
}

/// What a [`Worker`] holds.
#[verifier::ext_equal]
pub struct WorkerView {
    pub phase: Phase,
    pub events: Seq<PollEvent>,
    pub next: int,
}

impl View for Worker {
    type V = WorkerView;

    open spec fn view(&self) -> WorkerView {
        WorkerView { phase: self.phase, events: self.events@, next: self.next as int }
    }
}

/// The key of the descriptor that an event is about.
pub open spec fn event_key(event: PollEvent) -> usize {
    event.data as usize
}

/// How long the next poll may sleep: not at all while operations are pending.
pub open spec fn timeout_spec(ctx: ContextView) -> i32 {
    if ctx.queue.len() == 0 {
        IDLE_TIMEOUT
    } else {
        0
    }
}

impl WorkerView {
    /// The worker at another phase.
    pub open spec fn at(self, phase: Phase) -> Self {
        WorkerView { phase, ..self }
    }

    /// The next event is one of those that the poll gave, or there is none left.
    pub open spec fn wf(self) -> bool {
        0 <= self.next <= self.events.len()
    }

    /// The key of the descriptor that the next step looks up, if it does that.
    pub open spec fn needs(self) -> Option<usize> {
        if self.phase is Events && self.next < self.events.len() && self.events[self.next].data
            != CONTROL {
            Some(event_key(self.events[self.next]))
        } else {
            None
        }
    }

    /// Whether the next step can be taken: the operations of the turn are still queued, and
    /// the descriptor that is looked up is known.
    pub open spec fn ready(self, ctx: ContextView) -> bool {
        &&& self.phase matches Phase::Drain(left) ==> left <= ctx.queue.len()
        &&& self.needs() matches Some(key) ==> ctx.descriptors.contains_key(key)
    }

    /// One step: the worker and the context after it, and what the driver is told.
    pub open spec fn step(self, ctx: ContextView) -> (Self, ContextView, Step) {
        match self.phase {
            Phase::Turn => (self.at(Phase::Drain(ctx.queue.len() as usize)), ctx, Step::Idle),
            Phase::Drain(left) => if left > 0 {
                let rest = ContextView { queue: ctx.queue.skip(1), ..ctx };
                let after = self.at(Phase::Drain((left - 1) as usize));
                match ctx.queue[0] {
                    OperationRef::User(task) => (after, rest, Step::Call(task)),
                    OperationRef::Poll => (after, rest, Step::Idle),
                }
            } else {
                (self.at(Phase::Wait), ctx, Step::Wait(timeout_spec(ctx)))
            },
            Phase::Wait => (self, ctx, Step::Wait(timeout_spec(ctx))),
            Phase::Events => if self.next >= self.events.len() {
                (self.at(Phase::Turn), ctx, Step::Idle)
            } else {
                let event = self.events[self.next];
                let after = WorkerView { next: self.next + 1, ..self };
                if event.data == CONTROL {
                    (after, ctx, Step::Control)
                } else {
                    let key = event_key(event);
                    let seen = EventDataRef { events: event.events, read_handler: None };
                    (
                        after,
                        ctx.with_entry(key, seen),
                        match ctx.descriptors[key].read_handler {
                            Some(handler) => Step::Call(Task::Retry(handler)),
                            None => Step::Idle,
                        },
                    )
                }
            },
            Phase::Stopped => (self, ctx, Step::Stop),
        }
    }

    /// The worker once the poll that it asked for has ended in `result`.
    pub open spec fn polled(self, result: Result<Seq<PollEvent>, IoError>) -> Self {
        match result {
            Ok(events) => WorkerView { phase: Phase::Events, events, next: 0 },
            Err(_) => self.at(Phase::Stopped),
        }
    }
}

fn timeout(ctx: &Context) -> (r: i32)
    ensures
        r == timeout_spec(ctx@),
{
    if ctx.queue.len() == 0 {
        IDLE_TIMEOUT
    } else {
        0
    }
}

impl Worker {
    /// A worker at the start of its first turn.
    pub fn new() -> (r: Self)
        ensures
            r@ == (WorkerView { phase: Phase::Turn, events: Seq::empty(), next: 0 }),
            r@.wf(),
    {
        let r = Worker { phase: Phase::Turn, events: Vec::new(), next: 0 };
        assert(r.events@ =~= Seq::empty());
        r
    }

    /// The key of the descriptor that the context must hold for the next step.
    pub fn needs(&self) -> (r: Option<usize>)
        requires
            self@.wf(),
        ensures
            r == self@.needs(),
    {
        match self.phase {
            Phase::Events => if self.next < self.events.len() && self.events[self.next].data
                != CONTROL {
                Some(#[verifier::truncate] (self.events[self.next].data as usize))
            } else {
                None
            },
            _ => None,
        }
    }

    /// Takes one step.
    pub fn do_work(&mut self, ctx: &mut Context) -> (r: Step)
        requires
            old(self)@.wf(),
            old(ctx)@.wf(),
            old(self)@.ready(old(ctx)@),
        ensures
            final(self)@.wf(),
            final(ctx)@.wf(),
            (final(self)@, final(ctx)@, r) == old(self)@.step(old(ctx)@),
    {
        let step = match self.phase {
            Phase::Turn => {
                self.phase = Phase::Drain(ctx.queue.len());
                Step::Idle
            },
            Phase::Drain(left) => if left > 0 {
                let operation = ctx.queue.pop_front().unwrap();
                assert(ctx.queue@ =~= old(ctx)@.queue.skip(1));
                self.phase = Phase::Drain(left - 1);
                match operation {
                    OperationRef::User(task) => Step::Call(task),
                    OperationRef::Poll => Step::Idle,
                }
            } else {
                self.phase = Phase::Wait;
                Step::Wait(timeout(ctx))
            },
            Phase::Wait => Step::Wait(timeout(ctx)),
            Phase::Events => if self.next >= self.events.len() {
                self.phase = Phase::Turn;
                Step::Idle
            } else {
                let event = self.events[self.next];
                self.next = self.next + 1;
                if event.data == CONTROL {
                    Step::Control
                } else {
                    let fd: usize = #[verifier::truncate] (event.data as usize);
                    let mut ev = EventDataRef::new(None);
                    ev.events = event.events;
                    let ev = ctx.descriptors.insert(fd, ev).unwrap();
                    match ev.read_handler {
                        Some(handler) => Step::Call(Task::Retry(handler)),
                        None => Step::Idle,
                    }
                }
            },
            Phase::Stopped => Step::Stop,
        };
        assert(ctx@.descriptors.dom() =~= old(ctx)@.descriptors.dom());
        step
    }

    /// Hands in the outcome of the poll that the last step asked for.
    pub fn polled(&mut self, result: Result<Vec<PollEvent>, IoError>)
        requires
            old(self)@.wf(),
            old(self)@.phase is Wait,
        ensures
            final(self)@.wf(),
            final(self)@ == old(self)@.polled(
                match result {
                    Ok(events) => Ok(events@),
                    Err(err) => Err(err),
                },
            ),
    {
        match result {
            Ok(events) => {
                self.events = events;
                self.next = 0;
                self.phase = Phase::Events;
            },
            Err(_) => {
                self.phase = Phase::Stopped;
            },
        }
    }
}

/// The worker and the context after as many steps as `pushes` has items, with the operations
/// that the steps took off the queue. After each step the user code that it ran may have
/// queued operations of its own: the items of `pushes`.
pub open spec fn drained(
    w: WorkerView,
    ctx: ContextView,
    pushes: Seq<Seq<OperationRef>>,
) -> (WorkerView, ContextView, Seq<OperationRef>)
    decreases pushes.len(),
{
    if pushes.len() == 0 {
        (w, ctx, Seq::empty())
    } else {
        let (w1, ctx1, step) = w.step(ctx);
        let ctx2 = ContextView { queue: ctx1.queue + pushes[0], ..ctx1 };
        let (w3, ctx3, rest) = drained(w1, ctx2, pushes.skip(1));
        (w3, ctx3, seq![ctx.queue[0]] + rest)
    }
}

proof fn lemma_drained(
    w: WorkerView,
    ctx: ContextView,
    pending: Seq<OperationRef>,
    added: Seq<OperationRef>,
    pushes: Seq<Seq<OperationRef>>,
)
    requires
        w.phase == Phase::Drain(pending.len() as usize),
        pending.len() <= usize::MAX,
        ctx.queue == pending + added,
        pushes.len() == pending.len(),
    ensures
        ({
            let (w1, ctx1, all) = drained(w, ctx, pushes);
            &&& w1 == w.at(Phase::Drain(0))
            &&& all == pending
            &&& ctx1.queue == added + pushes.flatten()
        }),
    decreases pushes.len(),
{
    if pushes.len() == 0 {
        assert(pending =~= Seq::empty());
        assert(pushes.flatten() =~= Seq::empty());
        assert(ctx.queue =~= added + pushes.flatten());
    } else {
        let (w1, ctx1, step) = w.step(ctx);
        let ctx2 = ContextView { queue: ctx1.queue + pushes[0], ..ctx1 };
        let rest = pending.skip(1);
        assert(ctx1.queue =~= rest + added);
        assert(ctx2.queue =~= rest + (added + pushes[0]));
        lemma_drained(w1, ctx2, rest, added + pushes[0], pushes.skip(1));
        assert(pushes.flatten() =~= pushes[0] + pushes.skip(1).flatten()) by {
            assert(pushes.drop_first() =~= pushes.skip(1));
            assert(pushes.first() == pushes[0]);
        }
        assert(seq![ctx.queue[0]] + rest =~= pending);
        assert((added + pushes[0]) + pushes.skip(1).flatten() =~= added + pushes.flatten());
    }
}

/// A turn takes exactly the operations that were queued when it began, in the order in which
/// they were queued; what the tasks queue meanwhile is left, in order, for the next turn. The
/// poll that ends the turn sleeps only if nothing is left.
pub proof fn law_turn_takes_what_was_queued(
    w: WorkerView,
    ctx: ContextView,
    pushes: Seq<Seq<OperationRef>>,
)
    requires
        w.phase is Turn,
        ctx.queue.len() <= usize::MAX,
        pushes.len() == ctx.queue.len(),
    ensures
        ({
            let (w1, ctx1, _) = w.step(ctx);
            let (w2, ctx2, all) = drained(w1, ctx1, pushes);
            let (w3, ctx3, step) = w2.step(ctx2);
            &&& all == ctx.queue
            &&& ctx2.queue == pushes.flatten()
            &&& ctx3 == ctx2
            &&& w3.phase is Wait
            &&& step == Step::Wait(
                if pushes.flatten().len() > 0 {
                    0
                } else {
                    IDLE_TIMEOUT
                },
            )
        }),
{
    let (w1, ctx1, _) = w.step(ctx);
    assert(ctx1.queue =~= ctx.queue + Seq::empty());
    lemma_drained(w1, ctx1, ctx.queue, Seq::empty(), pushes);
    assert(Seq::empty() + pushes.flatten() =~= pushes.flatten());
}

/// A read that would block is not lost: the next event of its descriptor has the driver read
/// again, once.
pub proof fn law_blocked_read_is_retried(w: WorkerView, ctx: ContextView, fd: i32, handler: u64)
    requires
        w.wf(),
        w.needs() == Some(fd as usize),
    ensures
        ({
            let blocked = ctx.after_read(fd, Err(IoError::WouldBlock), handler);
            let (w1, ctx1, step) = w.step(blocked);
            &&& blocked.queue.last() is Poll
            &&& step == Step::Call(Task::Retry(handler))
            &&& ctx1.descriptors[fd as usize].read_handler is None
        }),
{
}

/// An event of a connection is not taken for one of the control channel, unless the descriptor
/// of the connection is zero.
pub proof fn law_control_is_no_connection(w: WorkerView, ctx: ContextView, fd: i32)
    requires
        w.wf(),
        w.phase is Events,
        w.next < w.events.len(),
        w.events[w.next].data == fd as u64,
        fd != 0,
    ensures
        !(w.step(ctx).2 is Control),
{
    assert(fd != 0 ==> fd as u64 != 0) by (bit_vector);
}

/// What the driver is told by as many steps as `pushes` has items, each followed by what the
/// user code that it ran has queued.
pub open spec fn told(w: WorkerView, ctx: ContextView, pushes: Seq<Seq<OperationRef>>) -> Seq<Step>
    decreases pushes.len(),
{
    if pushes.len() == 0 {
        Seq::empty()
    } else {
        let (w1, ctx1, step) = w.step(ctx);
        let ctx2 = ContextView { queue: ctx1.queue + pushes[0], ..ctx1 };
        seq![step] + told(w1, ctx2, pushes.skip(1))
    }
}

proof fn lemma_told(
    w: WorkerView,
    ctx: ContextView,
    pending: Seq<OperationRef>,
    added: Seq<OperationRef>,
    pushes: Seq<Seq<OperationRef>>,
)
    requires
        w.phase == Phase::Drain(pending.len() as usize),
        pending.len() <= usize::MAX,
        ctx.queue == pending + added,
        pushes.len() == pending.len(),
    ensures
        told(w, ctx, pushes).len() == pending.len(),
        forall|i: int|
            0 <= i < pending.len() ==> #[trigger] told(w, ctx, pushes)[i] == (match pending[i] {
                OperationRef::User(task) => Step::Call(task),
                OperationRef::Poll => Step::Idle,
            }),
    decreases pushes.len(),
{
    if pushes.len() > 0 {
        let (w1, ctx1, step) = w.step(ctx);
        let ctx2 = ContextView { queue: ctx1.queue + pushes[0], ..ctx1 };
        let rest = pending.skip(1);
        assert(ctx.queue[0] == pending[0]);
        assert(ctx1.queue =~= rest + added);
        assert(ctx2.queue =~= rest + (added + pushes[0]));
        lemma_told(w1, ctx2, rest, added + pushes[0], pushes.skip(1));
        let later = told(w1, ctx2, pushes.skip(1));
        assert forall|i: int| 0 <= i < pending.len() implies #[trigger] told(w, ctx, pushes)[i]
            == (match pending[i] {
            OperationRef::User(task) => Step::Call(task),
            OperationRef::Poll => Step::Idle,
        }) by {
            if i > 0 {
                assert(told(w, ctx, pushes)[i] == later[i - 1]);
                assert(rest[i - 1] == pending[i]);
            }
        }
    }
}

/// Everything that was queued when a turn began is run by it: for each operation, in order, the
/// driver is told to run it as it was queued, and to do nothing only for a poll, whatever the
/// user code queues meanwhile.
pub proof fn law_turn_runs_what_was_queued(
    w: WorkerView,
    ctx: ContextView,
    pushes: Seq<Seq<OperationRef>>,
    i: int,
)
    requires
        w.phase is Turn,
        ctx.queue.len() <= usize::MAX,
        pushes.len() == ctx.queue.len(),
        0 <= i < ctx.queue.len(),
    ensures
        ({
            let (w1, ctx1, begun) = w.step(ctx);
            let steps = told(w1, ctx1, pushes);
            &&& begun is Idle
            &&& ctx1 == ctx
            &&& steps.len() == ctx.queue.len()
            &&& match ctx.queue[i] {
                OperationRef::User(task) => steps[i] == Step::Call(task),
                OperationRef::Poll => steps[i] is Idle,
            }
        }),
{
    let (w1, ctx1, begun) = w.step(ctx);
    assert(ctx1.queue =~= ctx.queue + Seq::empty());
    lemma_told(w1, ctx1, ctx.queue, Seq::empty(), pushes);
}

/// Taking an operation off the queue runs it, if it is one to run, and changes nothing else: the
/// other operations stay queued in their order, and so does what waits.
pub proof fn law_operation_is_taken_and_run(w: WorkerView, ctx: ContextView, left: usize)
    requires
        w.phase == Phase::Drain(left),
        left > 0,
        ctx.queue.len() > 0,
    ensures
        ({
            let (w1, ctx1, step) = w.step(ctx);
            &&& match ctx.queue[0] {
                OperationRef::User(task) => step == Step::Call(task),
                OperationRef::Poll => step is Idle,
            }
            &&& w1.phase == Phase::Drain((left - 1) as usize)
            &&& seq![ctx.queue[0]] + ctx1.queue == ctx.queue
            &&& ctx1.descriptors == ctx.descriptors
            &&& ctx1.epoll_fd == ctx.epoll_fd
            &&& w1.events == w.events
            &&& w1.next == w.next
        }),
{
    assert(seq![ctx.queue[0]] + w.step(ctx).1.queue =~= ctx.queue);
}

/// A turn begins with all that is queued, and polls once it has taken that: for a minute, or
/// without sleeping where something has been queued meanwhile.
pub proof fn law_turn_begins_with_all_operations(w: WorkerView, ctx: ContextView)
    requires
        ctx.queue.len() <= usize::MAX,
    ensures
        w.phase is Turn ==> {
            let (w1, ctx1, step) = w.step(ctx);
            &&& step is Idle
            &&& ctx1 == ctx
            &&& w1.phase matches Phase::Drain(left) && left == ctx.queue.len()
            &&& w1.events == w.events
            &&& w1.next == w.next
        },
        w.phase == Phase::Drain(0) ==> {
            let (w1, ctx1, step) = w.step(ctx);
            &&& ctx.queue.len() > 0 ==> step == Step::Wait(0)
            &&& ctx.queue.len() == 0 ==> step == Step::Wait(60000)
            &&& ctx1 == ctx
            &&& w1.phase is Wait
            &&& w1.events == w.events
            &&& w1.next == w.next
        },
{
}

/// A worker that waits for a poll asks for it again, and one that is done stays so.
pub proof fn law_worker_waits_and_stays_done(w: WorkerView, ctx: ContextView)
    ensures
        w.phase is Wait ==> w.step(ctx) == (
            w,
            ctx,
            Step::Wait(
                if ctx.queue.len() == 0 {
                    60000
                } else {
                    0
                },
            ),
        ),
        w.phase is Stopped ==> w.step(ctx) == (w, ctx, Step::Stop),
{
}

/// The events of a poll are worked on from the first; a poll that failed ends the work.
pub proof fn law_poll_hands_in_its_events(w: WorkerView, events: Seq<PollEvent>, err: IoError)
    ensures
        w.polled(Ok(events)).events == events,
        w.polled(Ok(events)).next == 0,
        w.polled(Ok(events)).phase is Events,
        w.polled(Err(err)).phase is Stopped,
        w.polled(Err(err)).events == w.events,
        w.polled(Err(err)).next == w.next,
{
}

/// An event whose data is zero is one of the control channel: it is told to the driver and changes
/// nothing else. Behind the last event the next turn begins.
pub proof fn law_control_event_is_told(w: WorkerView, ctx: ContextView)
    requires
        w.phase is Events,
        0 <= w.next <= w.events.len(),
    ensures
        ({
            let (w1, ctx1, step) = w.step(ctx);
            &&& w.next < w.events.len() && w.events[w.next].data == 0 ==> {
                &&& step is Control
                &&& ctx1 == ctx
                &&& w1 == (WorkerView { next: w.next + 1, ..w })
                &&& w.needs() is None
            }
            &&& step is Control ==> w.next < w.events.len() && w.events[w.next].data == 0
            &&& w.next == w.events.len() ==> {
                &&& step is Idle
                &&& ctx1 == ctx
                &&& w1.phase is Turn
                &&& w1.events == w.events
                &&& w1.next == w.next
                &&& w.needs() is None
            }
        }),
{
}

/// Any other event takes the callback that waits for its descriptor and has the driver read for
/// it, if there is one. What the event reported is noted; nothing else changes, and the next event
/// comes.
pub proof fn law_event_takes_its_callback(
    w: WorkerView,
    ctx: ContextView,
    key: usize,
    other: usize,
)
    requires
        w.phase is Events,
        0 <= w.next < w.events.len(),
        w.events[w.next].data != 0,
        event_key(w.events[w.next]) == key,
        ctx.descriptors.contains_key(key),
    ensures
        ({
            let (w1, ctx1, step) = w.step(ctx);
            &&& w.needs() == Some(key)
            &&& ctx.descriptors[key].read_handler matches Some(handler) ==> step == Step::Call(
                Task::Retry(handler),
            )
            &&& ctx.descriptors[key].read_handler is None ==> step is Idle
            &&& ctx1.descriptors[key].read_handler is None
            &&& ctx1.descriptors[key].events == w.events[w.next].events
            &&& ctx1.descriptors.dom() == ctx.descriptors.dom()
            &&& other != key ==> ctx1.descriptors[other] == ctx.descriptors[other]
            &&& ctx1.queue == ctx.queue
            &&& ctx1.epoll_fd == ctx.epoll_fd
            &&& w1.phase is Events
            &&& w1.next == w.next + 1
            &&& w1.events == w.events
        }),
{
    assert(w.step(ctx).1.descriptors.dom() =~= ctx.descriptors.dom());
}

/// The view tells the fields. An event is about the descriptor that was registered with it. The
/// next step can be taken if the operations of the turn are still queued and the descriptor that
/// it looks up is known.
pub proof fn law_view_tells_the_worker(
    w: Worker,
    v: WorkerView,
    ctx: ContextView,
    event: PollEvent,
)
    ensures
        w@.phase == w.phase,
        w@.events == w.events@,
        w@.next == w.next,
        event.data <= usize::MAX ==> event_key(event) == event.data,
        v.wf() <==> 0 <= v.next <= v.events.len(),
        v.ready(ctx) <==> (v.phase is Drain ==> v.phase->Drain_0 <= ctx.queue.len()) && (
        v.phase is Events && v.next < v.events.len() && v.events[v.next].data != 0
            ==> ctx.descriptors.contains_key(event_key(v.events[v.next]))),
{
}

} // verus!
